//! The written form of numbers.

use vstd::prelude::*;
use vstd::string::StringExecFns;
use crate::integer::IntCode;
use crate::uint::UIntCode;

verus! {

impl UIntCode {
    /// The written form of the chain: `UTerm` for the end, and
    /// `UInt<rest, B0>` or `UInt<rest, B1>` for a digit around the written
    /// form of the digits inside.
    pub open spec fn text(self) -> Seq<char>
        decreases self,
    {
        match self {
            UIntCode::Term => "UTerm"@,
            UIntCode::Zero(rest) => "UInt<"@ + rest.text() + ", B0>"@,
            UIntCode::One(rest) => "UInt<"@ + rest.text() + ", B1>"@,
        }
    }

    /// Writes the chain out.
    pub fn to_string(&self) -> (r: String)
        ensures
            r@ == self.text(),
        decreases self,
    {
        match self {
            UIntCode::Term => String::from_str("UTerm"),
            UIntCode::Zero(rest) => {
                let inner = rest.to_string();
                String::from_str("UInt<").concat(inner.as_str()).concat(", B0>")
            },
            UIntCode::One(rest) => {
                let inner = rest.to_string();
                String::from_str("UInt<").concat(inner.as_str()).concat(", B1>")
            },
        }
    }
}

impl IntCode {
    /// The written form of the value: `Z0` for zero, and `PInt<m>` or
    /// `NInt<m>` around the written form of the magnitude.
    pub open spec fn text(self) -> Seq<char> {
        match self {
            IntCode::Zero => "Z0"@,
            IntCode::Pos(m) => "PInt<"@ + m.text() + ">"@,
            IntCode::Neg(m) => "NInt<"@ + m.text() + ">"@,
        }
    }

    /// Writes the value out.
    pub fn to_string(&self) -> (r: String)
        ensures
            r@ == self.text(),
    {
        match self {
            IntCode::Zero => String::from_str("Z0"),
            IntCode::Pos(m) => {
                let inner = m.to_string();
                String::from_str("PInt<").concat(inner.as_str()).concat(">")
            },
            IntCode::Neg(m) => {
                let inner = m.to_string();
                String::from_str("NInt<").concat(inner.as_str()).concat(">")
            },
        }
    }
}

} // verus!
