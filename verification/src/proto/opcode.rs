use vstd::prelude::*;

verus! {

/// The kind of query in the header's OPCODE field.
#[derive(Debug, Clone, Copy, PartialEq, Eq)]
pub enum Opcode {
    Query,
    IQuery,
    Status,
    Notify,
    Update,
}

impl Opcode {
    /// The opcode numbered `value`, or `value` itself when no opcode has that number.
    pub open spec fn spec_from_u8(value: u8) -> Result<Opcode, u8> {
        if value == 0 {
            Ok(Opcode::Query)
        } else if value == 1 {
            Ok(Opcode::IQuery)
        } else if value == 2 {
            Ok(Opcode::Status)
        } else if value == 4 {
            Ok(Opcode::Notify)
        } else if value == 5 {
            Ok(Opcode::Update)
        } else {
            Err(value)
        }
    }

    /// The number of this opcode on the wire.
    pub open spec fn spec_to_u8(self) -> u8 {
        match self {
            Opcode::Query => 0,
            Opcode::IQuery => 1,
            Opcode::Status => 2,
            Opcode::Notify => 4,
            Opcode::Update => 5,
        }
    }

    pub fn from_u8(value: u8) -> (r: Result<Opcode, u8>)
        ensures
            r == Self::spec_from_u8(value),
    {
        match value {
            0 => Ok(Opcode::Query),
            1 => Ok(Opcode::IQuery),
            2 => Ok(Opcode::Status),
            4 => Ok(Opcode::Notify),
            5 => Ok(Opcode::Update),
            n => Err(n),
        }
    }

    /// Reading back the number of an opcode gives the opcode.
    pub proof fn lemma_roundtrip(self)
        ensures
            Self::spec_from_u8(self.spec_to_u8()) == Ok::<Opcode, u8>(self),
    {
    }

    pub fn to_u8(self) -> (r: u8)
        ensures
            r == self.spec_to_u8(),
    {
        match self {
            Opcode::Query => 0,
            Opcode::IQuery => 1,
            Opcode::Status => 2,
            Opcode::Notify => 4,
            Opcode::Update => 5,
        }
    }
}

impl TryFrom<u8> for Opcode {
    type Error = u8;

    fn try_from(value: u8) -> (r: Result<Self, Self::Error>) {
        Opcode::from_u8(value)
    }
}

impl vstd::std_specs::convert::TryFromSpecImpl<u8> for Opcode {
    open spec fn obeys_try_from_spec() -> bool {
        true
    }

    open spec fn try_from_spec(v: u8) -> Result<Self, u8> {
        Opcode::spec_from_u8(v)
    }
}

} // verus!
