use vstd::prelude::*;
use crate::language::vm::{RDLTypes, RdlV};
use crate::language::text::decimal_value;
use crate::language::parser::{is_u16_text, sign_stripped, parse_u16};

verus! {

/// The port-sized number a value stands for: a boolean is 1 or 0, a
/// number is cut to its low 16 bits, a text is the number it spells from 0
/// to 65535 (else 0), a list is the sum of its items, an object is 0.
pub open spec fn u16_value(v: RdlV) -> int
    decreases v, 0nat,
{
    match v {
        RdlV::Bool(b) => if b { 1 } else { 0 },
        RdlV::Num(n) => (n as u16) as int,
        RdlV::Str(s) => if is_u16_text(s) { decimal_value(sign_stripped(s)) } else { 0 },
        RdlV::Vector(items) => u16_sum(items),
        RdlV::Obj(_) => 0,
    }
}

/// The sum of the port-sized numbers of a list's items.
pub open spec fn u16_sum(items: Seq<RdlV>) -> int
    decreases items, 1nat,
{
    if items.len() == 0 {
        0
    } else {
        proof {
            assert(decreases_to!(items => items[items.len() - 1]));
        }
        u16_sum(items.subrange(0, items.len() - 1)) + u16_value(items[items.len() - 1])
    }
}

/// No sum along the way goes past 65535: every list's items fit and so
/// does their sum.
pub open spec fn u16_fits(v: RdlV) -> bool
    decreases v, 0nat,
{
    match v {
        RdlV::Vector(items) => u16_sum(items) <= 65535 && u16_all_fit(items),
        _ => true,
    }
}

/// Every item of a list fits (see `u16_fits`).
pub open spec fn u16_all_fit(items: Seq<RdlV>) -> bool
    decreases items, 1nat,
{
    if items.len() == 0 {
        true
    } else {
        proof {
            assert(decreases_to!(items => items[items.len() - 1]));
        }
        u16_all_fit(items.subrange(0, items.len() - 1)) && u16_fits(items[items.len() - 1])
    }
}

/// A value's number is never negative.
pub proof fn lemma_u16_value_nonneg(v: RdlV)
    ensures
        u16_value(v) >= 0,
    decreases v, 0nat,
{
    match v {
        RdlV::Vector(items) => lemma_u16_sum_nonneg(items),
        RdlV::Str(t) => if is_u16_text(t) {
            lemma_decimal_nonneg(sign_stripped(t));
        },
        _ => {},
    }
}

/// Digits spell a number that is not negative.
proof fn lemma_decimal_nonneg(s: Seq<char>)
    requires
        forall|i: int| 0 <= i < s.len() ==> crate::language::text::is_digit_char(#[trigger] s[i]),
    ensures
        decimal_value(s) >= 0,
    decreases s.len(),
{
    if s.len() > 0 {
        lemma_decimal_nonneg(s.drop_last());
    }
}

/// A sum of numbers is never negative.
pub proof fn lemma_u16_sum_nonneg(items: Seq<RdlV>)
    ensures
        u16_sum(items) >= 0,
    decreases items, 1nat,
{
    if items.len() > 0 {
        assert(decreases_to!(items => items[items.len() - 1]));
        lemma_u16_sum_nonneg(items.subrange(0, items.len() - 1));
        lemma_u16_value_nonneg(items[items.len() - 1]);
    }
}

/// The sum and the fitting of the first `i` items, from those of all.
proof fn lemma_prefix(items: Seq<RdlV>, i: int)
    requires
        0 <= i <= items.len(),
        u16_all_fit(items),
    ensures
        u16_sum(items.subrange(0, i)) <= u16_sum(items),
        u16_all_fit(items.subrange(0, i)),
        i < items.len() ==> u16_fits(items[i]),
    decreases items.len(),
{
    if i < items.len() {
        let n = items.len() - 1;
        assert(items.subrange(0, n).subrange(0, i) =~= items.subrange(0, i));
        lemma_u16_value_nonneg(items[n]);
        if i < n {
            lemma_prefix(items.subrange(0, n), i);
            assert(items.subrange(0, n)[i] == items[i]);
        }
    } else {
        assert(items.subrange(0, i) =~= items);
    }
}

impl RDLTypes {
    /// The port-sized number the value stands for (see `u16_value`).
    pub fn to_u16(&self) -> (r: u16)
        requires
            u16_fits(self@),
        ensures
            r == u16_value(self@),
        decreases self,
    {
        match self {
            RDLTypes::Boolean(b) => if *b { 1 } else { 0 },
            RDLTypes::Number(n) => #[verifier::truncate] (*n as u16),
            RDLTypes::String(s) => match parse_u16(s.as_str()) {
                Some(v) => v,
                None => 0,
            },
            RDLTypes::Vector(items) => {
                let ghost view = match self@ {
                    RdlV::Vector(vs) => vs,
                    _ => Seq::empty(),
                };
                let n = items.len();
                let mut total: u16 = 0;
                let mut i: usize = 0;
                while i < n
                    invariant
                        i <= n,
                        n == items@.len(),
                        *self == RDLTypes::Vector(*items),
                        view.len() == n,
                        forall|j: int| 0 <= j < n ==> #[trigger] view[j] == items@[j]@,
                        u16_sum(view) <= 65535,
                        u16_all_fit(view),
                        total == u16_sum(view.subrange(0, i as int)),
                    decreases n - i,
                {
                    proof {
                        lemma_prefix(view, i + 1);
                        lemma_prefix(view, i as int);
                        assert(view.subrange(0, i + 1).subrange(0, i as int) =~= view.subrange(0, i as int));
                        assert(view.subrange(0, i + 1)[i as int] == view[i as int]);
                        lemma_u16_value_nonneg(view[i as int]);
                    }
                    proof {
                        let vs = self->Vector_0;
                        assert(vs == *items);
                        assert(decreases_to!(*self => vs));
                        assert(decreases_to!(vs => vs@));
                        assert(decreases_to!(vs@ => vs@[i as int]));
                    }
                    let x = items[i].to_u16();
                    total = total + x;
                    i = i + 1;
                }
                proof {
                    assert(view.subrange(0, n as int) =~= view);
                }
                total
            },
            RDLTypes::Object(_) => 0,
        }
    }
}

} // verus!
