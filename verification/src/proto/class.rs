use vstd::prelude::*;

verus! {

/// A CLASS value. In an OPT pseudo-record it carries the advertised UDP
/// payload size instead, so every 16-bit value is representable.
#[derive(Debug, Clone, Copy, PartialEq, Eq, Structural)]
pub struct Class(pub u16);

impl Class {
    /// The Internet class.
    #[allow(non_snake_case)]
    pub fn IN() -> (r: Class)
        ensures
            r == Class(1),
    {
        Class(1)
    }

    /// The CSNET class.
    #[allow(non_snake_case)]
    pub fn CS() -> (r: Class)
        ensures
            r == Class(2),
    {
        Class(2)
    }

    /// The CHAOS class.
    #[allow(non_snake_case)]
    pub fn CH() -> (r: Class)
        ensures
            r == Class(3),
    {
        Class(3)
    }

    /// The Hesiod class.
    #[allow(non_snake_case)]
    pub fn HS() -> (r: Class)
        ensures
            r == Class(4),
    {
        Class(4)
    }

    /// Any class (QCLASS only).
    #[allow(non_snake_case)]
    pub fn ANY() -> (r: Class)
        ensures
            r == Class(255),
    {
        Class(255)
    }


    /// Whether this is one of the classes defined by RFC 1035.
    pub open spec fn spec_is_known(self) -> bool {
        self.0 == 1 || self.0 == 2 || self.0 == 3 || self.0 == 4 || self.0 == 255
    }

    pub fn is_known(self) -> (r: bool)
        ensures
            r == self.spec_is_known(),
    {
        match self.0 {
            1 | 2 | 3 | 4 | 255 => true,
            _ => false,
        }
    }
}

impl From<u16> for Class {
    fn from(v: u16) -> (r: Self) {
        Class(v)
    }
}

impl vstd::std_specs::convert::FromSpecImpl<u16> for Class {
    open spec fn obeys_from_spec() -> bool {
        true
    }

    open spec fn from_spec(v: u16) -> Self {
        Class(v)
    }
}

impl From<Class> for u16 {
    fn from(c: Class) -> (r: Self) {
        c.0
    }
}

impl vstd::std_specs::convert::FromSpecImpl<Class> for u16 {
    open spec fn obeys_from_spec() -> bool {
        true
    }

    open spec fn from_spec(c: Class) -> Self {
        c.0
    }
}

} // verus!
