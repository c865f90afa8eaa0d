use vstd::prelude::*;

verus! {

/// The type of a resource record. The codes that this decoder knows by name
/// have a variant each; any other code is kept as it came in `UNKNOWN`.
#[derive(Debug, Clone, Copy, PartialEq, Eq, Structural)]
pub enum RRType {
    A,
    NS,
    CNAME,
    SOA,
    MB,
    MG,
    MR,
    NULL,
    PTR,
    HINFO,
    MINFO,
    MX,
    TXT,
    UNKNOWN(u16),
}

impl RRType {
    /// Whether `value` is the code of a named variant.
    pub open spec fn is_known(value: u16) -> bool {
        value == 1 || value == 2 || (5 <= value <= 10) || (12 <= value <= 16)
    }

    /// The code that stands for this type on the wire.
    pub open spec fn spec_value(self) -> u16 {
        match self {
            RRType::A => 1,
            RRType::NS => 2,
            RRType::CNAME => 5,
            RRType::SOA => 6,
            RRType::MB => 7,
            RRType::MG => 8,
            RRType::MR => 9,
            RRType::NULL => 10,
            RRType::PTR => 12,
            RRType::HINFO => 13,
            RRType::MINFO => 14,
            RRType::MX => 15,
            RRType::TXT => 16,
            RRType::UNKNOWN(code) => code,
        }
    }

    /// `UNKNOWN` holds only codes that no named variant stands for.
    pub open spec fn wf(self) -> bool {
        self matches RRType::UNKNOWN(code) ==> !Self::is_known(code)
    }

    /// The type that `value` stands for.
    pub open spec fn spec_from_value(value: u16) -> RRType {
        match value {
            1 => RRType::A,
            2 => RRType::NS,
            5 => RRType::CNAME,
            6 => RRType::SOA,
            7 => RRType::MB,
            8 => RRType::MG,
            9 => RRType::MR,
            10 => RRType::NULL,
            12 => RRType::PTR,
            13 => RRType::HINFO,
            14 => RRType::MINFO,
            15 => RRType::MX,
            16 => RRType::TXT,
            _ => RRType::UNKNOWN(value),
        }
    }

    /// Classifies a code: a named variant where there is one, else `UNKNOWN`
    /// with the code inside.
    pub fn from_value(value: u16) -> (t: Self)
        ensures
            t == Self::spec_from_value(value),
            t.wf(),
            t.spec_value() == value,
            t is UNKNOWN <==> !Self::is_known(value),
    {
        match value {
            1 => RRType::A,
            2 => RRType::NS,
            5 => RRType::CNAME,
            6 => RRType::SOA,
            7 => RRType::MB,
            8 => RRType::MG,
            9 => RRType::MR,
            10 => RRType::NULL,
            12 => RRType::PTR,
            13 => RRType::HINFO,
            14 => RRType::MINFO,
            15 => RRType::MX,
            16 => RRType::TXT,
            _ => RRType::UNKNOWN(value),
        }
    }

    /// The code that stands for this type on the wire.
    pub fn value(&self) -> (code: u16)
        ensures
            code == self.spec_value(),
    {
        match self {
            RRType::A => 1,
            RRType::NS => 2,
            RRType::CNAME => 5,
            RRType::SOA => 6,
            RRType::MB => 7,
            RRType::MG => 8,
            RRType::MR => 9,
            RRType::NULL => 10,
            RRType::PTR => 12,
            RRType::HINFO => 13,
            RRType::MINFO => 14,
            RRType::MX => 15,
            RRType::TXT => 16,
            RRType::UNKNOWN(code) => *code,
        }
    }
}

/// A code and the type it stands for determine each other: classifying the
/// code of a well-formed type gives the type back.
pub proof fn lemma_type_code_round_trip(t: RRType)
    requires
        t.wf(),
    ensures
        RRType::spec_from_value(t.spec_value()) == t,
{
}

} // verus!
