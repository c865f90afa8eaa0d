use vstd::prelude::*;

verus! {

/// The class of a question or resource record. The codes that this decoder
/// knows by name have a variant each; any other code is kept as it came in
/// `UNKNOWN`.
#[derive(Debug, Clone, Copy, PartialEq, Eq, Structural)]
pub enum RRClass {
    IN,
    CH,
    HS,
    UNKNOWN(u16),
}

impl RRClass {
    /// Whether `value` is the code of a named variant.
    pub open spec fn is_known(value: u16) -> bool {
        value == 1 || value == 3 || value == 4
    }

    /// The code that stands for this class on the wire.
    pub open spec fn spec_value(self) -> u16 {
        match self {
            RRClass::IN => 1,
            RRClass::CH => 3,
            RRClass::HS => 4,
            RRClass::UNKNOWN(code) => code,
        }
    }

    /// `UNKNOWN` holds only codes that no named variant stands for.
    pub open spec fn wf(self) -> bool {
        self matches RRClass::UNKNOWN(code) ==> !Self::is_known(code)
    }

    /// The class that `value` stands for.
    pub open spec fn spec_from_value(value: u16) -> RRClass {
        match value {
            1 => RRClass::IN,
            3 => RRClass::CH,
            4 => RRClass::HS,
            _ => RRClass::UNKNOWN(value),
        }
    }

    /// Classifies a code: a named variant where there is one, else `UNKNOWN`
    /// with the code inside.
    pub fn from_value(value: u16) -> (c: Self)
        ensures
            c == Self::spec_from_value(value),
            c.wf(),
            c.spec_value() == value,
            c is UNKNOWN <==> !Self::is_known(value),
    {
        match value {
            1 => RRClass::IN,
            3 => RRClass::CH,
            4 => RRClass::HS,
            _ => RRClass::UNKNOWN(value),
        }
    }

    /// The code that stands for this class on the wire.
    pub fn value(&self) -> (code: u16)
        ensures
            code == self.spec_value(),
    {
        match self {
            RRClass::IN => 1,
            RRClass::CH => 3,
            RRClass::HS => 4,
            RRClass::UNKNOWN(code) => *code,
        }
    }
}

/// A code and the class it stands for determine each other: classifying the
/// code of a well-formed class gives the class back.
pub proof fn lemma_class_code_round_trip(c: RRClass)
    requires
        c.wf(),
    ensures
        RRClass::spec_from_value(c.spec_value()) == c,
{
}

} // verus!
