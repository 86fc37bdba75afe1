use vstd::prelude::*;

verus! {

/// The record types this crate models (TYPE and QTYPE values).
#[derive(Debug, Clone, Copy, PartialEq, Eq)]
pub enum RecordType {
    A,
    NS,
    CNAME,
    SOA,
    PTR,
    MX,
    TXT,
    AAAA,
    SRV,
    OPT,
    IXFR,
    AXFR,
    ANY,
}

impl RecordType {
    /// The record type numbered `value`, or `value` itself when none has that number.
    pub open spec fn spec_from_u16(value: u16) -> Result<RecordType, u16> {
        if value == 1 {
            Ok(RecordType::A)
        } else if value == 2 {
            Ok(RecordType::NS)
        } else if value == 5 {
            Ok(RecordType::CNAME)
        } else if value == 6 {
            Ok(RecordType::SOA)
        } else if value == 12 {
            Ok(RecordType::PTR)
        } else if value == 15 {
            Ok(RecordType::MX)
        } else if value == 16 {
            Ok(RecordType::TXT)
        } else if value == 28 {
            Ok(RecordType::AAAA)
        } else if value == 33 {
            Ok(RecordType::SRV)
        } else if value == 41 {
            Ok(RecordType::OPT)
        } else if value == 251 {
            Ok(RecordType::IXFR)
        } else if value == 252 {
            Ok(RecordType::AXFR)
        } else if value == 255 {
            Ok(RecordType::ANY)
        } else {
            Err(value)
        }
    }

    /// The number of this record type on the wire.
    pub open spec fn spec_to_u16(self) -> u16 {
        match self {
            RecordType::A => 1,
            RecordType::NS => 2,
            RecordType::CNAME => 5,
            RecordType::SOA => 6,
            RecordType::PTR => 12,
            RecordType::MX => 15,
            RecordType::TXT => 16,
            RecordType::AAAA => 28,
            RecordType::SRV => 33,
            RecordType::OPT => 41,
            RecordType::IXFR => 251,
            RecordType::AXFR => 252,
            RecordType::ANY => 255,
        }
    }

    pub fn from_u16(value: u16) -> (r: Result<RecordType, u16>)
        ensures
            r == Self::spec_from_u16(value),
    {
        match value {
            1 => Ok(RecordType::A),
            2 => Ok(RecordType::NS),
            5 => Ok(RecordType::CNAME),
            6 => Ok(RecordType::SOA),
            12 => Ok(RecordType::PTR),
            15 => Ok(RecordType::MX),
            16 => Ok(RecordType::TXT),
            28 => Ok(RecordType::AAAA),
            33 => Ok(RecordType::SRV),
            41 => Ok(RecordType::OPT),
            251 => Ok(RecordType::IXFR),
            252 => Ok(RecordType::AXFR),
            255 => Ok(RecordType::ANY),
            n => Err(n),
        }
    }

    pub fn to_u16(self) -> (r: u16)
        ensures
            r == self.spec_to_u16(),
    {
        match self {
            RecordType::A => 1,
            RecordType::NS => 2,
            RecordType::CNAME => 5,
            RecordType::SOA => 6,
            RecordType::PTR => 12,
            RecordType::MX => 15,
            RecordType::TXT => 16,
            RecordType::AAAA => 28,
            RecordType::SRV => 33,
            RecordType::OPT => 41,
            RecordType::IXFR => 251,
            RecordType::AXFR => 252,
            RecordType::ANY => 255,
        }
    }

    /// Every record type reads back from its own number.
    pub proof fn lemma_roundtrip(self)
        ensures
            Self::spec_from_u16(self.spec_to_u16()) == Ok::<RecordType, u16>(self),
    {
    }
}

impl TryFrom<u16> for RecordType {
    type Error = u16;

    fn try_from(value: u16) -> (r: Result<Self, Self::Error>) {
        RecordType::from_u16(value)
    }
}

impl vstd::std_specs::convert::TryFromSpecImpl<u16> for RecordType {
    open spec fn obeys_try_from_spec() -> bool {
        true
    }

    open spec fn try_from_spec(v: u16) -> Result<Self, u16> {
        RecordType::spec_from_u16(v)
    }
}

} // verus!
