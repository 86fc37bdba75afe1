use vstd::prelude::*;

verus! {

/// The response code in the header's RCODE field.
#[derive(Debug, Clone, Copy, PartialEq, Eq)]
pub enum Rcode {
    NoError,
    FormErr,
    ServFail,
    NXDomain,
    NotImp,
    Refused,
}

impl Rcode {
    /// The response code numbered `value`, or `value` itself when none has that number.
    pub open spec fn spec_from_u8(value: u8) -> Result<Rcode, u8> {
        if value == 0 {
            Ok(Rcode::NoError)
        } else if value == 1 {
            Ok(Rcode::FormErr)
        } else if value == 2 {
            Ok(Rcode::ServFail)
        } else if value == 3 {
            Ok(Rcode::NXDomain)
        } else if value == 4 {
            Ok(Rcode::NotImp)
        } else if value == 5 {
            Ok(Rcode::Refused)
        } else {
            Err(value)
        }
    }

    /// The number of this response code on the wire.
    pub open spec fn spec_to_u16(self) -> u16 {
        match self {
            Rcode::NoError => 0,
            Rcode::FormErr => 1,
            Rcode::ServFail => 2,
            Rcode::NXDomain => 3,
            Rcode::NotImp => 4,
            Rcode::Refused => 5,
        }
    }

    pub fn from_u8(value: u8) -> (r: Result<Rcode, u8>)
        ensures
            r == Self::spec_from_u8(value),
    {
        match value {
            0 => Ok(Rcode::NoError),
            1 => Ok(Rcode::FormErr),
            2 => Ok(Rcode::ServFail),
            3 => Ok(Rcode::NXDomain),
            4 => Ok(Rcode::NotImp),
            5 => Ok(Rcode::Refused),
            n => Err(n),
        }
    }

    /// Reading back the number of a response code gives the response code.
    pub proof fn lemma_roundtrip(self)
        ensures
            Self::spec_from_u8(self.spec_to_u16() as u8) == Ok::<Rcode, u8>(self),
    {
    }

    pub fn to_u16(self) -> (r: u16)
        ensures
            r == self.spec_to_u16(),
    {
        match self {
            Rcode::NoError => 0,
            Rcode::FormErr => 1,
            Rcode::ServFail => 2,
            Rcode::NXDomain => 3,
            Rcode::NotImp => 4,
            Rcode::Refused => 5,
        }
    }
}

impl TryFrom<u8> for Rcode {
    type Error = u8;

    fn try_from(value: u8) -> (r: Result<Self, Self::Error>) {
        Rcode::from_u8(value)
    }
}

impl vstd::std_specs::convert::TryFromSpecImpl<u8> for Rcode {
    open spec fn obeys_try_from_spec() -> bool {
        true
    }

    open spec fn try_from_spec(v: u8) -> Result<Self, u8> {
        Rcode::spec_from_u8(v)
    }
}

} // verus!
