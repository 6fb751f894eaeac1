use vstd::prelude::*;
use crate::fields::{
    const_text, find_last_const, find_last_number, last_const, last_number, str_eq,
};
use crate::number::{number_of, parse_u64};
use crate::token::{
    AsyncClassType, AsyncRecordType, List, OutOfBandRecordType, ResultType, Tuple, ValueType,
};

verus! {

/// A breakpoint as the debugger reports it.
#[derive(Debug, Clone, PartialEq, Eq)]
pub enum BreakPointAction {
    Signal(BreakPointSignalAction),
    Multiple(BreakPointMultipleAction),
}

/// A breakpoint with several locations; `bps` are its children.
#[derive(Debug, Clone, PartialEq, Eq)]
pub struct BreakPointMultipleAction {
    pub number: String,
    pub enabled: bool,
    pub bps: Vec<BreakPointSignalAction>,
}

/// A breakpoint, or one location of a multi-location breakpoint.
#[derive(Debug, Clone, PartialEq, Eq)]
pub struct BreakPointSignalAction {
    pub number: String,
    pub enabled: bool,
    pub src: Option<BreakPointSignalActionSrc>,
    pub addr: String,
}

#[derive(Debug, Clone, PartialEq, Eq)]
pub struct BreakPointSignalActionSrc {
    pub fullname: String,
    pub line: u64,
}

pub struct SignalView {
    pub number: Seq<char>,
    pub enabled: bool,
    pub src: Option<(Seq<char>, nat)>,
    pub addr: Seq<char>,
}

pub enum BreakpointView {
    Signal(SignalView),
    Multiple(Seq<char>, bool, Seq<SignalView>),
}

impl View for BreakPointSignalAction {
    type V = SignalView;

    open spec fn view(&self) -> SignalView {
        SignalView {
            number: self.number@,
            enabled: self.enabled,
            src: match self.src {
                Some(s) => Some((s.fullname@, s.line as nat)),
                None => None,
            },
            addr: self.addr@,
        }
    }
}

impl View for BreakPointAction {
    type V = BreakpointView;

    open spec fn view(&self) -> BreakpointView {
        match self {
            BreakPointAction::Signal(s) => BreakpointView::Signal(s@),
            BreakPointAction::Multiple(m) => BreakpointView::Multiple(
                m.number@,
                m.enabled,
                m.bps@.map_values(|b: BreakPointSignalAction| b@),
            ),
        }
    }
}

pub open spec fn opt_signal_view(o: Option<BreakPointSignalAction>) -> Option<SignalView> {
    match o {
        Some(s) => Some(s@),
        None => None,
    }
}

pub open spec fn opt_bkpt_view(o: Option<BreakPointAction>) -> Option<BreakpointView> {
    match o {
        Some(b) => Some(b@),
        None => None,
    }
}

/// `"y"` is enabled, `"n"` is disabled; anything else says nothing.
pub open spec fn flag_of(v: ValueType) -> Option<bool> {
    match v {
        ValueType::Const(s) => if s@ == "y"@ {
            Some(true)
        } else if s@ == "n"@ {
            Some(false)
        } else {
            None
        },
        _ => None,
    }
}

/// What the last `enabled` result of `rs` says.
pub open spec fn enabled_of(rs: Seq<ResultType>) -> Option<bool>
    decreases rs.len(),
{
    if rs.len() == 0 {
        None
    } else if rs[rs.len() - 1].variable@ == "enabled"@ {
        flag_of(rs[rs.len() - 1].value)
    } else {
        enabled_of(rs.subrange(0, rs.len() - 1))
    }
}

pub open spec fn is_multiple_marker(r: ResultType) -> bool {
    r.variable@ == "addr"@ && r.value is Const && r.value->Const_0@ == "<MULTIPLE>"@
}

/// Some `addr` of `rs` is `<MULTIPLE>`.
pub open spec fn has_multiple(rs: Seq<ResultType>) -> bool
    decreases rs.len(),
{
    rs.len() > 0 && (is_multiple_marker(rs[rs.len() - 1]) || has_multiple(
        rs.subrange(0, rs.len() - 1),
    ))
}

pub open spec fn is_plain_addr(r: ResultType) -> bool {
    &&& r.variable@ == "addr"@
    &&& r.value is Const
    &&& r.value->Const_0@ != "<MULTIPLE>"@
    &&& r.value->Const_0@ != "<PENDING>"@
}

/// The last `addr` of `rs` that is an address, not a marker.
pub open spec fn plain_addr(rs: Seq<ResultType>) -> Option<Seq<char>>
    decreases rs.len(),
{
    if rs.len() == 0 {
        None
    } else if is_plain_addr(rs[rs.len() - 1]) {
        Some(rs[rs.len() - 1].value->Const_0@)
    } else {
        plain_addr(rs.subrange(0, rs.len() - 1))
    }
}

pub open spec fn src_of(rs: Seq<ResultType>) -> Option<(Seq<char>, nat)> {
    match (last_const(rs, "fullname"@), last_number(rs, "line"@)) {
        (Some(f), Some(l)) => Some((f, l)),
        _ => None,
    }
}

/// A location: it needs a number, an address and an enabled flag; the
/// source position is kept when both file and line are there.
pub open spec fn signal_of_results(rs: Seq<ResultType>) -> Option<SignalView> {
    match (last_const(rs, "addr"@), last_const(rs, "number"@), enabled_of(rs)) {
        (Some(addr), Some(number), Some(enabled)) => Some(
            SignalView { number, enabled, src: src_of(rs), addr },
        ),
        _ => None,
    }
}

pub open spec fn signal_of_value(v: ValueType) -> Option<SignalView> {
    match v {
        ValueType::Tuple(Tuple::Results(rs)) => signal_of_results(rs@),
        _ => None,
    }
}

/// The locations that the values `vs` describe, in order; others are skipped.
pub open spec fn signals_of_values(vs: Seq<ValueType>) -> Seq<SignalView>
    decreases vs.len(),
{
    if vs.len() == 0 {
        Seq::empty()
    } else {
        let pre = signals_of_values(vs.subrange(0, vs.len() - 1));
        match signal_of_value(vs[vs.len() - 1]) {
            Some(p) => pre.push(p),
            None => pre,
        }
    }
}

/// The locations listed inline under `locations=[...]`.
pub open spec fn locations_of(rs: Seq<ResultType>) -> Seq<SignalView>
    decreases rs.len(),
{
    if rs.len() == 0 {
        Seq::empty()
    } else {
        let pre = locations_of(rs.subrange(0, rs.len() - 1));
        let r = rs[rs.len() - 1];
        if r.variable@ == "locations"@ && r.value is List && r.value->List_0 is Values {
            pre + signals_of_values(r.value->List_0->Values_0@)
        } else {
            pre
        }
    }
}

/// The breakpoint that the results of a `bkpt={...}` tuple describe.
pub open spec fn bkpt_of_results(rs: Seq<ResultType>) -> Option<BreakpointView> {
    match (plain_addr(rs), last_const(rs, "number"@), enabled_of(rs), has_multiple(rs)) {
        (Some(addr), Some(number), Some(enabled), false) => Some(
            BreakpointView::Signal(SignalView { number, enabled, src: src_of(rs), addr }),
        ),
        (_, Some(number), Some(enabled), true) => if last_const(rs, "fullname"@) is None
            && last_number(rs, "line"@) is None {
            Some(BreakpointView::Multiple(number, enabled, locations_of(rs)))
        } else {
            None
        },
        _ => None,
    }
}

pub open spec fn bkpt_of_result(r: ResultType) -> Option<BreakpointView> {
    if r.variable@ == "bkpt"@ && r.value matches ValueType::Tuple(Tuple::Results(_)) {
        bkpt_of_results(r.value->Tuple_0->Results_0@)
    } else {
        None
    }
}

/// Results and sibling values of a `=breakpoint-created` or
/// `=breakpoint-modified` record.
pub open spec fn bkpt_event(a: OutOfBandRecordType) -> Option<(Seq<ResultType>, Seq<ValueType>)> {
    let OutOfBandRecordType::AsyncRecord(a) = a;
    match a {
        AsyncRecordType::NotifyAsyncOutput(n) => if n.async_output.async_class
            == AsyncClassType::BreakpointCreated || n.async_output.async_class
            == AsyncClassType::BreakpointModified {
            Some((n.async_output.resaults@, n.async_output.values@))
        } else {
            None
        },
        _ => None,
    }
}

/// The results inside `bkpt={...}` when that is the last result of `rs`.
pub open spec fn bkpt_tuple(rs: Seq<ResultType>) -> Option<Seq<ResultType>> {
    if rs.len() > 0 && rs.last().variable@ == "bkpt"@ && rs.last().value is Tuple
        && rs.last().value->Tuple_0 is Results {
        Some(rs.last().value->Tuple_0->Results_0@)
    } else {
        None
    }
}

/// The breakpoint a record reports: read from its last result; the
/// locations of a multi-location breakpoint are those listed inline followed
/// by those given as sibling values.
pub open spec fn show_bkpt_spec(a: OutOfBandRecordType) -> Option<BreakpointView> {
    match bkpt_event(a) {
        Some((rs, vs)) => if rs.len() == 0 {
            None
        } else {
            match bkpt_of_result(rs[rs.len() - 1]) {
                Some(BreakpointView::Multiple(n, e, bps)) => Some(
                    BreakpointView::Multiple(n, e, bps + signals_of_values(vs)),
                ),
                other => other,
            }
        },
        None => None,
    }
}

/// The id of a `=breakpoint-deleted` record, from its last result `id="N"`.
pub open spec fn deleted_id_spec(a: OutOfBandRecordType) -> Option<nat> {
    let OutOfBandRecordType::AsyncRecord(a) = a;
    match a {
        AsyncRecordType::NotifyAsyncOutput(n) => {
            let rs = n.async_output.resaults@;
            if n.async_output.async_class == AsyncClassType::BreakpointDeleted && rs.len() > 0 {
                let r = rs[rs.len() - 1];
                if r.variable@ == "id"@ && r.value is Const {
                    number_of(r.value->Const_0@, 10)
                } else {
                    None
                }
            } else {
                None
            }
        },
        _ => None,
    }
}

/// The id of the breakpoint that a `=breakpoint-deleted` record removes.
pub fn show_breakpoint_deleted(a: &OutOfBandRecordType) -> (r: Option<u64>)
    ensures
        r matches Some(n) ==> deleted_id_spec(*a) == Some(n as nat),
        r is None ==> deleted_id_spec(*a) is None,
{
    let OutOfBandRecordType::AsyncRecord(rec) = a;
    match rec {
        AsyncRecordType::NotifyAsyncOutput(n) => {
            let rs = &n.async_output.resaults;
            if n.async_output.async_class != AsyncClassType::BreakpointDeleted || rs.len() == 0 {
                return None;
            }
            let r = &rs[rs.len() - 1];
            if !str_eq(r.variable.as_str(), "id") {
                return None;
            }
            match const_text(&r.value) {
                Some(v) => parse_u64(v.as_str()),
                None => None,
            }
        },
        _ => None,
    }
}

fn find_enabled(rs: &Vec<ResultType>) -> (r: Option<bool>)
    ensures
        r == enabled_of(rs@),
{
    let mut i = rs.len();
    assert(rs@.subrange(0, i as int) =~= rs@);
    while i > 0
        invariant
            0 <= i <= rs@.len(),
            enabled_of(rs@) == enabled_of(rs@.subrange(0, i as int)),
        decreases i,
    {
        let ghost pre = rs@.subrange(0, i as int);
        assert(pre.subrange(0, pre.len() - 1) =~= rs@.subrange(0, i - 1));
        let r = &rs[i - 1];
        if str_eq(r.variable.as_str(), "enabled") {
            return match const_text(&r.value) {
                Some(v) => if str_eq(v.as_str(), "y") {
                    Some(true)
                } else if str_eq(v.as_str(), "n") {
                    Some(false)
                } else {
                    None
                },
                None => None,
            };
        }
        i = i - 1;
    }
    None
}

fn find_multiple(rs: &Vec<ResultType>) -> (r: bool)
    ensures
        r == has_multiple(rs@),
{
    let mut i = rs.len();
    assert(rs@.subrange(0, i as int) =~= rs@);
    while i > 0
        invariant
            0 <= i <= rs@.len(),
            has_multiple(rs@) == has_multiple(rs@.subrange(0, i as int)),
        decreases i,
    {
        let ghost pre = rs@.subrange(0, i as int);
        assert(pre.subrange(0, pre.len() - 1) =~= rs@.subrange(0, i - 1));
        let r = &rs[i - 1];
        if str_eq(r.variable.as_str(), "addr") {
            if let Some(v) = const_text(&r.value) {
                if str_eq(v.as_str(), "<MULTIPLE>") {
                    return true;
                }
            }
        }
        i = i - 1;
    }
    false
}

fn find_plain_addr(rs: &Vec<ResultType>) -> (r: Option<String>)
    ensures
        crate::fields::opt_view(r) == plain_addr(rs@),
{
    let mut i = rs.len();
    assert(rs@.subrange(0, i as int) =~= rs@);
    while i > 0
        invariant
            0 <= i <= rs@.len(),
            plain_addr(rs@) == plain_addr(rs@.subrange(0, i as int)),
        decreases i,
    {
        let ghost pre = rs@.subrange(0, i as int);
        assert(pre.subrange(0, pre.len() - 1) =~= rs@.subrange(0, i - 1));
        let r = &rs[i - 1];
        if str_eq(r.variable.as_str(), "addr") {
            if let Some(v) = const_text(&r.value) {
                if !str_eq(v.as_str(), "<MULTIPLE>") && !str_eq(v.as_str(), "<PENDING>") {
                    return Some(v.clone());
                }
            }
        }
        i = i - 1;
    }
    None
}

fn src_from(rs: &Vec<ResultType>) -> (r: Option<BreakPointSignalActionSrc>)
    ensures
        (match r {
            Some(s) => Some((s.fullname@, s.line as nat)),
            None => None,
        }) == src_of(rs@),
{
    match (find_last_const(rs, "fullname"), find_last_number(rs, "line")) {
        (Some(fullname), Some(line)) => Some(BreakPointSignalActionSrc { fullname, line }),
        _ => None,
    }
}

/// One location `{number=..,enabled=..,addr=..,...}` of a breakpoint.
fn get_from_signal_point(v: &ValueType) -> (r: Option<BreakPointSignalAction>)
    ensures
        opt_signal_view(r) == signal_of_value(*v),
{
    match v {
        ValueType::Tuple(Tuple::Results(rs)) => {
            match (find_last_const(rs, "addr"), find_last_const(rs, "number"), find_enabled(rs)) {
                (Some(addr), Some(number), Some(enabled)) => {
                    let src = src_from(rs);
                    Some(BreakPointSignalAction { number, enabled, src, addr })
                },
                _ => None,
            }
        },
        _ => None,
    }
}

/// Appends the locations that `vs` describe to `bps`.
fn push_signal_points(bps: &mut Vec<BreakPointSignalAction>, vs: &Vec<ValueType>)
    ensures
        final(bps)@.map_values(|b: BreakPointSignalAction| b@) == old(bps)@.map_values(
            |b: BreakPointSignalAction| b@,
        ) + signals_of_values(vs@),
{
    let ghost start = old(bps)@.map_values(|b: BreakPointSignalAction| b@);
    let mut i: usize = 0;
    assert(vs@.subrange(0, 0) =~= Seq::<ValueType>::empty());
    assert(start + signals_of_values(vs@.subrange(0, 0)) =~= start);
    while i < vs.len()
        invariant
            0 <= i <= vs@.len(),
            bps@.map_values(|b: BreakPointSignalAction| b@) == start + signals_of_values(
                vs@.subrange(0, i as int),
            ),
        decreases vs.len() - i,
    {
        let ghost pre = vs@.subrange(0, i + 1);
        assert(pre.subrange(0, pre.len() - 1) =~= vs@.subrange(0, i as int));
        let ghost before = bps@;
        match get_from_signal_point(&vs[i]) {
            Some(p) => {
                bps.push(p);
                assert(bps@.map_values(|b: BreakPointSignalAction| b@) =~= before.map_values(
                    |b: BreakPointSignalAction| b@,
                ).push(p@));
            },
            None => {},
        }
        i = i + 1;
    }
    assert(vs@.subrange(0, i as int) =~= vs@);
}

fn is_locations_list(r: &ResultType) -> (l: Option<&Vec<ValueType>>)
    ensures
        l matches Some(vs) ==> r.variable@ == "locations"@ && r.value == ValueType::List(
            List::Values(*vs),
        ),
        l is None ==> !(r.variable@ == "locations"@ && r.value is List && r.value->List_0 is Values),
{
    if !str_eq(r.variable.as_str(), "locations") {
        return None;
    }
    match &r.value {
        ValueType::List(List::Values(vs)) => Some(vs),
        _ => None,
    }
}

fn collect_locations(rs: &Vec<ResultType>) -> (bps: Vec<BreakPointSignalAction>)
    ensures
        bps@.map_values(|b: BreakPointSignalAction| b@) == locations_of(rs@),
{
    let mut bps: Vec<BreakPointSignalAction> = Vec::new();
    let mut i: usize = 0;
    assert(rs@.subrange(0, 0) =~= Seq::<ResultType>::empty());
    assert(bps@.map_values(|b: BreakPointSignalAction| b@) =~= Seq::<SignalView>::empty());
    while i < rs.len()
        invariant
            0 <= i <= rs@.len(),
            bps@.map_values(|b: BreakPointSignalAction| b@) == locations_of(
                rs@.subrange(0, i as int),
            ),
        decreases rs.len() - i,
    {
        let ghost pre = rs@.subrange(0, i + 1);
        assert(pre.subrange(0, pre.len() - 1) =~= rs@.subrange(0, i as int));
        if let Some(vs) = is_locations_list(&rs[i]) {
            push_signal_points(&mut bps, vs);
        }
        i = i + 1;
    }
    assert(rs@.subrange(0, i as int) =~= rs@);
    bps
}

/// The breakpoint that `bkpt={...}` describes.
fn get_from_bkpt(r: &ResultType) -> (b: Option<BreakPointAction>)
    ensures
        opt_bkpt_view(b) == bkpt_of_result(*r),
{
    if !str_eq(r.variable.as_str(), "bkpt") {
        return None;
    }
    let rs = match &r.value {
        ValueType::Tuple(Tuple::Results(rs)) => rs,
        _ => {
            return None;
        },
    };
    let addr = find_plain_addr(rs);
    let number = find_last_const(rs, "number");
    let enabled = find_enabled(rs);
    let multiple = find_multiple(rs);
    match (addr, number, enabled, multiple) {
        (Some(addr), Some(number), Some(enabled), false) => {
            let src = src_from(rs);
            Some(BreakPointAction::Signal(BreakPointSignalAction { number, enabled, src, addr }))
        },
        (_, Some(number), Some(enabled), true) => {
            if find_last_const(rs, "fullname").is_none() && find_last_number(
                rs,
                "line",
            ).is_none() {
                let bps = collect_locations(rs);
                Some(BreakPointAction::Multiple(BreakPointMultipleAction { number, enabled, bps }))
            } else {
                None
            }
        },
        _ => None,
    }
}

/// The breakpoint that a `=breakpoint-created` or `=breakpoint-modified`
/// record reports. The locations of a multi-location breakpoint are read both
/// from its inline `locations=[...]` list and from sibling values of the record.
pub fn show_bkpt(a: &OutOfBandRecordType) -> (r: Option<BreakPointAction>)
    ensures
        opt_bkpt_view(r) == show_bkpt_spec(*a),
{
    let OutOfBandRecordType::AsyncRecord(rec) = a;
    match rec {
        AsyncRecordType::NotifyAsyncOutput(n) => {
            let o = &n.async_output;
            if !(o.async_class == AsyncClassType::BreakpointCreated || o.async_class
                == AsyncClassType::BreakpointModified) {
                return None;
            }
            if o.resaults.len() == 0 {
                return None;
            }
            let ret = get_from_bkpt(&o.resaults[o.resaults.len() - 1]);
            match ret {
                Some(BreakPointAction::Multiple(mut m)) => {
                    push_signal_points(&mut m.bps, &o.values);
                    Some(BreakPointAction::Multiple(m))
                },
                other => other,
            }
        },
        _ => None,
    }
}

/// Inserting a list-valued result that is not `enabled` changes none of
/// the fields read from a breakpoint tuple; inserting it into results with
/// no `locations` of their own gives exactly its locations.
proof fn lemma_insert_list_result(rs: Seq<ResultType>, p: int, x: ResultType)
    requires
        0 <= p <= rs.len(),
        x.value is List,
        x.variable@ != "enabled"@,
    ensures
        forall|key: Seq<char>| #[trigger] last_const(rs.insert(p, x), key) == last_const(rs, key),
        forall|key: Seq<char>| #[trigger] last_number(rs.insert(p, x), key) == last_number(rs, key),
        enabled_of(rs.insert(p, x)) == enabled_of(rs),
        plain_addr(rs.insert(p, x)) == plain_addr(rs),
        has_multiple(rs.insert(p, x)) == has_multiple(rs),
        (forall|i: int| 0 <= i < rs.len() ==> (#[trigger] rs[i]).variable@ != "locations"@)
            ==> locations_of(rs) == Seq::<SignalView>::empty() && locations_of(rs.insert(p, x))
            == (if x.variable@ == "locations"@ && x.value->List_0 is Values {
            signals_of_values(x.value->List_0->Values_0@)
        } else {
            Seq::<SignalView>::empty()
        }),
    decreases rs.len(),
{
    let t = rs.insert(p, x);
    let n = rs.len() as int;
    if p == n {
        assert(t.subrange(0, t.len() - 1) =~= rs);
        assert(t[t.len() - 1] == x);
        assert forall|key: Seq<char>| #[trigger] last_const(t, key) == last_const(rs, key) by {}
        assert forall|key: Seq<char>| #[trigger] last_number(t, key) == last_number(rs, key) by {}
        if forall|i: int| 0 <= i < rs.len() ==> (#[trigger] rs[i]).variable@ != "locations"@ {
            lemma_no_locations(rs);
            assert(Seq::<SignalView>::empty() + signals_of_values(x.value->List_0->Values_0@)
                =~= signals_of_values(x.value->List_0->Values_0@));
        }
    } else {
        let pre = rs.subrange(0, n - 1);
        lemma_insert_list_result(pre, p, x);
        assert(t.subrange(0, t.len() - 1) =~= pre.insert(p, x));
        assert(t[t.len() - 1] == rs[n - 1]);
        assert forall|key: Seq<char>| #[trigger] last_const(t, key) == last_const(rs, key) by {
            assert(last_const(pre.insert(p, x), key) == last_const(pre, key));
        }
        assert forall|key: Seq<char>| #[trigger] last_number(t, key) == last_number(rs, key) by {
            assert(last_number(pre.insert(p, x), key) == last_number(pre, key));
        }
        if forall|i: int| 0 <= i < rs.len() ==> (#[trigger] rs[i]).variable@ != "locations"@ {
            assert forall|i: int| 0 <= i < pre.len() implies (#[trigger] pre[i]).variable@
                != "locations"@ by {
                assert(pre[i] == rs[i]);
            }
            assert(rs[n - 1].variable@ != "locations"@);
        }
    }
}

proof fn lemma_no_locations(rs: Seq<ResultType>)
    requires
        forall|i: int| 0 <= i < rs.len() ==> (#[trigger] rs[i]).variable@ != "locations"@,
    ensures
        locations_of(rs) == Seq::<SignalView>::empty(),
    decreases rs.len(),
{
    if rs.len() > 0 {
        let pre = rs.subrange(0, rs.len() - 1);
        assert forall|i: int| 0 <= i < pre.len() implies (#[trigger] pre[i]).variable@
            != "locations"@ by {
            assert(pre[i] == rs[i]);
        }
        lemma_no_locations(pre);
        assert(rs[rs.len() - 1].variable@ != "locations"@);
    }
}

/// Where the children of a multi-location breakpoint come from does not
/// matter: listed inline as `locations=[...]` at any place among the
/// parent's results, or given as sibling values of the record, they give
/// the same breakpoint. The parent's own results hold no other `locations`,
/// and `bkpt` is the record's last result, which is the one that is read.
pub proof fn lemma_locations_dialects_agree(
    inline: OutOfBandRecordType,
    sibling: OutOfBandRecordType,
    inline_results: Seq<ResultType>,
    sibling_results: Seq<ResultType>,
    parent: Seq<ResultType>,
    at: int,
    locations: ResultType,
    children: Seq<ValueType>,
)
    requires
        bkpt_event(inline) == Some((inline_results, Seq::<ValueType>::empty())),
        0 <= at <= parent.len(),
        bkpt_tuple(inline_results) == Some(parent.insert(at, locations)),
        forall|i: int| 0 <= i < parent.len() ==> (#[trigger] parent[i]).variable@ != "locations"@,
        locations.variable@ == "locations"@,
        locations.value is List,
        locations.value->List_0 is Values,
        locations.value->List_0->Values_0@ == children,
        bkpt_event(sibling) == Some((sibling_results, children)),
        bkpt_tuple(sibling_results) == Some(parent),
    ensures
        show_bkpt_spec(inline) == show_bkpt_spec(sibling),
{
    assert("locations"@ != "enabled"@) by {
        reveal_strlit("locations");
        reveal_strlit("enabled");
        assert("locations"@.len() == 9);
        assert("enabled"@.len() == 7);
    }
    lemma_insert_list_result(parent, at, locations);
    let p = parent.insert(at, locations);
    assert(last_const(p, "number"@) == last_const(parent, "number"@));
    assert(last_const(p, "fullname"@) == last_const(parent, "fullname"@));
    assert(last_number(p, "line"@) == last_number(parent, "line"@));
    assert(locations_of(parent) + signals_of_values(children) =~= signals_of_values(children));
}

} // verus!
