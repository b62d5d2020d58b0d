//! Arrays of signed numbers, combined item by item.

use vstd::prelude::*;
use crate::integer::IntCode;
use crate::integer_arith::trunc_div;
use crate::type_operators::Len;
use crate::uint::{gen_uint, UIntCode};
use crate::ArithmeticError;

verus! {

/// An array of signed numbers.
#[derive(Debug, PartialEq, Eq)]
pub struct TArr {
    /// The items, first to last.
    pub items: Vec<IntCode>,
}

impl View for TArr {
    type V = Seq<int>;

    /// The numbers that the items denote.
    open spec fn view(&self) -> Seq<int> {
        Seq::new(self.items@.len(), |i: int| self.items@[i].value())
    }
}

impl TArr {
    /// Whether every item is well formed.
    pub open spec fn wf(self) -> bool {
        forall|i: int| 0 <= i < self.items@.len() ==> (#[trigger] self.items@[i]).wf()
    }

    /// The array of the well-formed values of the given numbers.
    pub open spec fn from_ints(s: Seq<int>) -> Seq<IntCode> {
        Seq::new(s.len(), |i: int| IntCode::from_int(s[i]))
    }

    /// The array without items.
    pub fn new() -> (r: TArr)
        ensures
            r.items@.len() == 0,
            r.wf(),
    {
        TArr { items: Vec::new() }
    }

    /// The sum of two arrays of one length, item by item, or
    /// `LengthMismatch` where the lengths differ.
    pub fn add(&self, rhs: &TArr) -> (r: Result<TArr, ArithmeticError>)
        requires
            self.wf(),
            rhs.wf(),
        ensures
            match r {
                Ok(sum) => {
                    &&& self.items@.len() == rhs.items@.len()
                    &&& sum.wf()
                    &&& sum.items@ == TArr::from_ints(
                        Seq::new(self.items@.len(), |i: int| self@[i] + rhs@[i]),
                    )
                },
                Err(e) => e == ArithmeticError::LengthMismatch && self.items@.len()
                    != rhs.items@.len(),
            },
    {
        if self.items.len() != rhs.items.len() {
            return Err(ArithmeticError::LengthMismatch);
        }
        let mut items: Vec<IntCode> = Vec::new();
        let mut i: usize = 0;
        while i < self.items.len()
            invariant
                i <= self.items@.len(),
                self.items@.len() == rhs.items@.len(),
                self.wf(),
                rhs.wf(),
                items@.len() == i,
                forall|j: int|
                    0 <= j < i ==> (#[trigger] items@[j]) == IntCode::from_int(
                        self.items@[j].value() + rhs.items@[j].value(),
                    ) && items@[j].wf(),
            decreases self.items@.len() - i,
        {
            let item = self.items[i].add(&rhs.items[i]);
            items.push(item);
            i = i + 1;
        }
        let sum = TArr { items };
        assert(sum.items@ =~= TArr::from_ints(
            Seq::new(self.items@.len(), |i: int| self@[i] + rhs@[i]),
        ));
        Ok(sum)
    }

    /// The difference of two arrays of one length, item by item, or
    /// `LengthMismatch` where the lengths differ.
    pub fn sub(&self, rhs: &TArr) -> (r: Result<TArr, ArithmeticError>)
        requires
            self.wf(),
            rhs.wf(),
        ensures
            match r {
                Ok(difference) => {
                    &&& self.items@.len() == rhs.items@.len()
                    &&& difference.wf()
                    &&& difference.items@ == TArr::from_ints(
                        Seq::new(self.items@.len(), |i: int| self@[i] - rhs@[i]),
                    )
                },
                Err(e) => e == ArithmeticError::LengthMismatch && self.items@.len()
                    != rhs.items@.len(),
            },
    {
        if self.items.len() != rhs.items.len() {
            return Err(ArithmeticError::LengthMismatch);
        }
        let mut items: Vec<IntCode> = Vec::new();
        let mut i: usize = 0;
        while i < self.items.len()
            invariant
                i <= self.items@.len(),
                self.items@.len() == rhs.items@.len(),
                self.wf(),
                rhs.wf(),
                items@.len() == i,
                forall|j: int|
                    0 <= j < i ==> (#[trigger] items@[j]) == IntCode::from_int(
                        self.items@[j].value() - rhs.items@[j].value(),
                    ) && items@[j].wf(),
            decreases self.items@.len() - i,
        {
            let item = self.items[i].sub(&rhs.items[i]);
            items.push(item);
            i = i + 1;
        }
        let difference = TArr { items };
        assert(difference.items@ =~= TArr::from_ints(
            Seq::new(self.items@.len(), |i: int| self@[i] - rhs@[i]),
        ));
        Ok(difference)
    }

    /// Every item times `scalar`.
    pub fn mul(&self, scalar: &IntCode) -> (r: TArr)
        requires
            self.wf(),
            scalar.wf(),
        ensures
            r.wf(),
            r.items@ == TArr::from_ints(
                Seq::new(self.items@.len(), |i: int| self@[i] * scalar.value()),
            ),
    {
        let mut items: Vec<IntCode> = Vec::new();
        let mut i: usize = 0;
        while i < self.items.len()
            invariant
                i <= self.items@.len(),
                self.wf(),
                scalar.wf(),
                items@.len() == i,
                forall|j: int|
                    0 <= j < i ==> (#[trigger] items@[j]) == IntCode::from_int(
                        self.items@[j].value() * scalar.value(),
                    ) && items@[j].wf(),
            decreases self.items@.len() - i,
        {
            let item = self.items[i].mul(scalar);
            items.push(item);
            i = i + 1;
        }
        let product = TArr { items };
        assert(product.items@ =~= TArr::from_ints(
            Seq::new(self.items@.len(), |i: int| self@[i] * scalar.value()),
        ));
        product
    }

    /// Every item divided by `scalar`, rounded towards zero, or
    /// `DivisionByZero` where `scalar` is zero and there is an item to
    /// divide.
    pub fn div(&self, scalar: &IntCode) -> (r: Result<TArr, ArithmeticError>)
        requires
            self.wf(),
            scalar.wf(),
        ensures
            match r {
                Ok(quotient) => {
                    &&& scalar.value() != 0 || self.items@.len() == 0
                    &&& quotient.wf()
                    &&& quotient.items@ == TArr::from_ints(
                        Seq::new(self.items@.len(), |i: int| trunc_div(self@[i], scalar.value())),
                    )
                },
                Err(e) => e == ArithmeticError::DivisionByZero && scalar.value() == 0
                    && self.items@.len() > 0,
            },
    {
        let mut items: Vec<IntCode> = Vec::new();
        let mut i: usize = 0;
        while i < self.items.len()
            invariant
                i <= self.items@.len(),
                self.wf(),
                scalar.wf(),
                items@.len() == i,
                i > 0 ==> scalar.value() != 0,
                forall|j: int|
                    0 <= j < i ==> (#[trigger] items@[j]) == IntCode::from_int(
                        trunc_div(self.items@[j].value(), scalar.value()),
                    ) && items@[j].wf(),
            decreases self.items@.len() - i,
        {
            match self.items[i].div(scalar) {
                Ok(item) => {
                    items.push(item);
                },
                Err(e) => {
                    return Err(e);
                },
            }
            i = i + 1;
        }
        let quotient = TArr { items };
        assert(quotient.items@ =~= TArr::from_ints(
            Seq::new(self.items@.len(), |i: int| trunc_div(self@[i], scalar.value())),
        ));
        Ok(quotient)
    }
}

impl IntCode {
    /// `self` times every item of `rhs`.
    pub fn mul_each(&self, rhs: &TArr) -> (r: TArr)
        requires
            self.wf(),
            rhs.wf(),
        ensures
            r.wf(),
            r.items@ == TArr::from_ints(
                Seq::new(rhs.items@.len(), |i: int| self.value() * rhs@[i]),
            ),
    {
        let mut items: Vec<IntCode> = Vec::new();
        let mut i: usize = 0;
        while i < rhs.items.len()
            invariant
                i <= rhs.items@.len(),
                self.wf(),
                rhs.wf(),
                items@.len() == i,
                forall|j: int|
                    0 <= j < i ==> (#[trigger] items@[j]) == IntCode::from_int(
                        self.value() * rhs.items@[j].value(),
                    ) && items@[j].wf(),
            decreases rhs.items@.len() - i,
        {
            let item = self.mul(&rhs.items[i]);
            items.push(item);
            i = i + 1;
        }
        let product = TArr { items };
        assert(product.items@ =~= TArr::from_ints(
            Seq::new(rhs.items@.len(), |i: int| self.value() * rhs@[i]),
        ));
        product
    }

    /// `self` divided by every item of `rhs`, rounded towards zero, or
    /// `DivisionByZero` where an item is zero.
    pub fn div_each(&self, rhs: &TArr) -> (r: Result<TArr, ArithmeticError>)
        requires
            self.wf(),
            rhs.wf(),
        ensures
            match r {
                Ok(quotient) => {
                    &&& forall|i: int| 0 <= i < rhs.items@.len() ==> #[trigger] rhs@[i] != 0
                    &&& quotient.wf()
                    &&& quotient.items@ == TArr::from_ints(
                        Seq::new(rhs.items@.len(), |i: int| trunc_div(self.value(), rhs@[i])),
                    )
                },
                Err(e) => e == ArithmeticError::DivisionByZero && exists|i: int|
                    0 <= i < rhs.items@.len() && #[trigger] rhs@[i] == 0,
            },
    {
        let mut items: Vec<IntCode> = Vec::new();
        let mut i: usize = 0;
        while i < rhs.items.len()
            invariant
                i <= rhs.items@.len(),
                self.wf(),
                rhs.wf(),
                items@.len() == i,
                forall|j: int| 0 <= j < i ==> #[trigger] rhs@[j] != 0,
                forall|j: int|
                    0 <= j < i ==> (#[trigger] items@[j]) == IntCode::from_int(
                        trunc_div(self.value(), rhs.items@[j].value()),
                    ) && items@[j].wf(),
            decreases rhs.items@.len() - i,
        {
            match self.div(&rhs.items[i]) {
                Ok(item) => {
                    items.push(item);
                },
                Err(e) => {
                    assert(rhs@[i as int] == 0);
                    return Err(e);
                },
            }
            assert(rhs@[i as int] != 0);
            i = i + 1;
        }
        let quotient = TArr { items };
        assert(quotient.items@ =~= TArr::from_ints(
            Seq::new(rhs.items@.len(), |i: int| trunc_div(self.value(), rhs@[i])),
        ));
        Ok(quotient)
    }
}

impl Len for TArr {
    type Output = UIntCode;

    /// The number of items, as a canonical chain.
    open spec fn len_spec(&self) -> UIntCode {
        UIntCode::from_nat(self.items@.len())
    }

    fn len(&self) -> (r: UIntCode) {
        gen_uint(self.items.len() as u64)
    }
}

} // verus!
