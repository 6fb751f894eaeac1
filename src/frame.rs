use vstd::prelude::*;
use crate::fields::{find_last_const, find_last_number, last_const, last_number, opt_view, str_eq};
use crate::token::{
    AsyncClassType, AsyncRecordType, OutOfBandRecordType, ResultType, Tuple, ValueType,
};

verus! {

/// A stack frame reported at a stop or at a thread selection.
#[derive(Debug, Clone, PartialEq, Eq)]
pub struct Frame {
    pub addr: String,
    pub func: Option<String>,
    pub fullname: Option<String>,
    pub line: Option<u64>,
}

pub open spec fn opt_nat(o: Option<u64>) -> Option<nat> {
    match o {
        Some(n) => Some(n as nat),
        None => None,
    }
}

/// `r` is `frame={...}`, a tuple, empty or not.
pub open spec fn is_frame_result(r: ResultType) -> bool {
    r.variable@ == "frame"@ && r.value is Tuple
}

/// The results inside a tuple value; none for the empty tuple.
pub open spec fn tuple_results(v: ValueType) -> Seq<ResultType> {
    match v {
        ValueType::Tuple(Tuple::Results(rs)) => rs@,
        _ => Seq::empty(),
    }
}

/// `f` holds what the results `rs` of a frame tuple give: the last constant
/// of each of `addr` (empty when there is none), `func` and `fullname`, and
/// the last `line` that reads as a number.
pub open spec fn frame_fields(f: Frame, rs: Seq<ResultType>) -> bool {
    &&& f.addr@ == (match last_const(rs, "addr"@) {
        Some(a) => a,
        None => Seq::empty(),
    })
    &&& opt_view(f.func) == last_const(rs, "func"@)
    &&& opt_view(f.fullname) == last_const(rs, "fullname"@)
    &&& opt_nat(f.line) == last_number(rs, "line"@)
}

pub open spec fn frame_of(f: Frame, r: ResultType) -> bool {
    is_frame_result(r) && frame_fields(f, tuple_results(r.value))
}

/// Index of the last frame result in `rs`.
pub open spec fn last_frame_index(rs: Seq<ResultType>) -> Option<int>
    decreases rs.len(),
{
    if rs.len() == 0 {
        None
    } else if is_frame_result(rs[rs.len() - 1]) {
        Some(rs.len() - 1)
    } else {
        last_frame_index(rs.subrange(0, rs.len() - 1))
    }
}

/// The results of `*stopped` and `=thread-selected` records, which carry
/// the frame to show; `None` for other records.
pub open spec fn frame_results(a: OutOfBandRecordType) -> Option<Seq<ResultType>> {
    let OutOfBandRecordType::AsyncRecord(a) = a;
    match a {
        AsyncRecordType::ExecAsyncOutput(e) => if e.async_output.async_class
            == AsyncClassType::Stopped {
            Some(e.async_output.resaults@)
        } else {
            None
        },
        AsyncRecordType::NotifyAsyncOutput(n) => if n.async_output.async_class
            == AsyncClassType::ThreadSelected {
            Some(n.async_output.resaults@)
        } else {
            None
        },
    }
}

impl Frame {
    /// Reads a frame from `frame={...}`.
    pub fn try_from(r: &ResultType) -> (res: Result<Frame, String>)
        ensures
            res is Ok <==> is_frame_result(*r),
            res matches Ok(f) ==> frame_of(f, *r),
    {
        if !str_eq(r.variable.as_str(), "frame") {
            return Err(String::from_str("not frame"));
        }
        match &r.value {
            ValueType::Tuple(Tuple::Results(rs)) => {
                let addr = match find_last_const(rs, "addr") {
                    Some(a) => a,
                    None => String::new(),
                };
                let f = Frame {
                    addr,
                    func: find_last_const(rs, "func"),
                    fullname: find_last_const(rs, "fullname"),
                    line: find_last_number(rs, "line"),
                };
                Ok(f)
            },
            ValueType::Tuple(Tuple::Empty) => {
                let f = Frame { addr: String::new(), func: None, fullname: None, line: None };
                assert(tuple_results(r.value).len() == 0);
                Ok(f)
            },
            _ => Err(String::from_str("not frame")),
        }
    }
}

/// The frame of the last `frame=` result of a `*stopped` or
/// `=thread-selected` record.
pub fn get_frame(a: &OutOfBandRecordType) -> (r: Option<Frame>)
    ensures
        r is Some <==> (frame_results(*a) matches Some(rs) && last_frame_index(rs) is Some),
        r matches Some(f) ==> frame_of(f, frame_results(*a)->0[last_frame_index(
            frame_results(*a)->0,
        )->0]),
{
    let OutOfBandRecordType::AsyncRecord(rec) = a;
    let rs = match rec {
        AsyncRecordType::ExecAsyncOutput(e) => {
            if e.async_output.async_class != AsyncClassType::Stopped {
                return None;
            }
            &e.async_output.resaults
        },
        AsyncRecordType::NotifyAsyncOutput(n) => {
            if n.async_output.async_class != AsyncClassType::ThreadSelected {
                return None;
            }
            &n.async_output.resaults
        },
    };
    assert(frame_results(*a) == Some(rs@));
    let mut i = rs.len();
    assert(rs@.subrange(0, i as int) =~= rs@);
    while i > 0
        invariant
            0 <= i <= rs@.len(),
            frame_results(*a) == Some(rs@),
            last_frame_index(rs@) == last_frame_index(rs@.subrange(0, i as int)),
        decreases i,
    {
        let ghost pre = rs@.subrange(0, i as int);
        assert(pre.subrange(0, pre.len() - 1) =~= rs@.subrange(0, i - 1));
        match Frame::try_from(&rs[i - 1]) {
            Ok(f) => {
                assert(last_frame_index(pre) == Some(i - 1));
                return Some(f);
            },
            Err(_) => {},
        }
        i = i - 1;
    }
    None
}

/// Where a frame is shown in its source file: `(fullname, line)`, when both are known.
pub fn show_file(frame: &Frame) -> (r: Option<(String, u64)>)
    ensures
        r is Some <==> (frame.fullname is Some && frame.line is Some),
        r matches Some((file, line)) ==> file@ == frame.fullname->0@ && line == frame.line->0,
{
    match (&frame.fullname, &frame.line) {
        (Some(file), Some(line)) => Some((file.clone(), *line)),
        _ => None,
    }
}

/// Where a frame is shown in disassembly: `(func, addr)`, when the function is known.
pub fn show_asm(frame: &Frame) -> (r: Option<(String, String)>)
    ensures
        r is Some <==> frame.func is Some,
        r matches Some((func, addr)) ==> func@ == frame.func->0@ && addr@ == frame.addr@,
{
    match &frame.func {
        Some(func) => Some((func.clone(), frame.addr.clone())),
        None => None,
    }
}

} // verus!
