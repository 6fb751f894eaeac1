use vstd::prelude::*;
use crate::number::{number_of, parse_u64};
use crate::text::chars_of;
use crate::token::{ResultType, ValueType};

verus! {

pub open spec fn opt_view(o: Option<String>) -> Option<Seq<char>> {
    match o {
        Some(s) => Some(s@),
        None => None,
    }
}

/// Text of the last result in `rs` named `key` whose value is a constant.
pub open spec fn last_const(rs: Seq<ResultType>, key: Seq<char>) -> Option<Seq<char>>
    decreases rs.len(),
{
    if rs.len() == 0 {
        None
    } else {
        let r = rs[rs.len() - 1];
        if r.variable@ == key && r.value is Const {
            Some(r.value->Const_0@)
        } else {
            last_const(rs.subrange(0, rs.len() - 1), key)
        }
    }
}

/// Value of the last result in `rs` named `key` whose value is a constant
/// that reads as a decimal number.
pub open spec fn last_number(rs: Seq<ResultType>, key: Seq<char>) -> Option<nat>
    decreases rs.len(),
{
    if rs.len() == 0 {
        None
    } else {
        let r = rs[rs.len() - 1];
        if r.variable@ == key && r.value is Const && number_of(r.value->Const_0@, 10) is Some {
            number_of(r.value->Const_0@, 10)
        } else {
            last_number(rs.subrange(0, rs.len() - 1), key)
        }
    }
}

pub fn str_eq(a: &str, b: &str) -> (r: bool)
    ensures
        r == (a@ == b@),
{
    let x = chars_of(a);
    let y = chars_of(b);
    if x.len() != y.len() {
        return false;
    }
    let mut i: usize = 0;
    while i < x.len()
        invariant
            x@ == a@,
            y@ == b@,
            x@.len() == y@.len(),
            0 <= i <= x@.len(),
            forall|j: int| 0 <= j < i ==> x@[j] == y@[j],
        decreases x.len() - i,
    {
        if x[i] != y[i] {
            return false;
        }
        i = i + 1;
    }
    assert(x@ =~= y@);
    true
}

pub fn const_text(v: &ValueType) -> (r: Option<&String>)
    ensures
        r matches Some(s) ==> *v == ValueType::Const(*s),
        r is None ==> !(v is Const),
{
    match v {
        ValueType::Const(s) => Some(s),
        _ => None,
    }
}

pub fn find_last_const(rs: &Vec<ResultType>, key: &str) -> (r: Option<String>)
    ensures
        opt_view(r) == last_const(rs@, key@),
{
    let mut i = rs.len();
    assert(rs@.subrange(0, i as int) =~= rs@);
    while i > 0
        invariant
            0 <= i <= rs@.len(),
            last_const(rs@, key@) == last_const(rs@.subrange(0, i as int), key@),
        decreases i,
    {
        let ghost pre = rs@.subrange(0, i as int);
        assert(pre.subrange(0, pre.len() - 1) =~= rs@.subrange(0, i - 1));
        let r = &rs[i - 1];
        if str_eq(r.variable.as_str(), key) {
            if let Some(s) = const_text(&r.value) {
                return Some(s.clone());
            }
        }
        i = i - 1;
    }
    None
}

pub fn find_last_number(rs: &Vec<ResultType>, key: &str) -> (r: Option<u64>)
    ensures
        r matches Some(n) ==> last_number(rs@, key@) == Some(n as nat),
        r is None ==> last_number(rs@, key@) is None,
{
    let mut i = rs.len();
    assert(rs@.subrange(0, i as int) =~= rs@);
    while i > 0
        invariant
            0 <= i <= rs@.len(),
            last_number(rs@, key@) == last_number(rs@.subrange(0, i as int), key@),
        decreases i,
    {
        let ghost pre = rs@.subrange(0, i as int);
        assert(pre.subrange(0, pre.len() - 1) =~= rs@.subrange(0, i - 1));
        let r = &rs[i - 1];
        if str_eq(r.variable.as_str(), key) {
            if let Some(s) = const_text(&r.value) {
                if let Some(n) = parse_u64(s.as_str()) {
                    return Some(n);
                }
            }
        }
        i = i - 1;
    }
    None
}

} // verus!
