use vstd::prelude::*;
use crate::breakpointmi::{
    BreakPointAction, BreakPointMultipleAction, BreakPointSignalAction, BreakPointSignalActionSrc,
    BreakpointView, SignalView,
};

verus! {

/// A breakpoint as the code view keeps it.
#[derive(Debug, Clone, PartialEq, Eq)]
pub enum BreakPointData {
    Signal(BreakPointSignalData),
    Multiple(BreakPointMultipleData),
}

#[derive(Debug, Clone, PartialEq, Eq)]
pub struct BreakPointMultipleData {
    pub number: String,
    pub enabled: bool,
    pub bps: Vec<BreakPointSignalData>,
}

#[derive(Debug, Clone, PartialEq, Eq)]
pub struct BreakPointSignalData {
    pub number: String,
    pub enabled: bool,
    pub src: Option<BreakPointSignalSrcData>,
    pub addr: String,
}

#[derive(Debug, Clone, PartialEq, Eq)]
pub struct BreakPointSignalSrcData {
    pub fullname: String,
    pub line: u64,
}

impl View for BreakPointSignalData {
    type V = SignalView;

    open spec fn view(&self) -> SignalView {
        SignalView {
            number: self.number@,
            enabled: self.enabled,
            src: match self.src {
                Some(s) => Some((s.fullname@, s.line as nat)),
                None => None,
            },
            addr: self.addr@,
        }
    }
}

impl View for BreakPointData {
    type V = BreakpointView;

    open spec fn view(&self) -> BreakpointView {
        match self {
            BreakPointData::Signal(s) => BreakpointView::Signal(s@),
            BreakPointData::Multiple(m) => BreakpointView::Multiple(
                m.number@,
                m.enabled,
                m.bps@.map_values(|b: BreakPointSignalData| b@),
            ),
        }
    }
}

impl BreakPointSignalSrcData {
    pub fn from(a: &BreakPointSignalActionSrc) -> (r: Self)
        ensures
            r.fullname@ == a.fullname@,
            r.line == a.line,
    {
        BreakPointSignalSrcData { fullname: a.fullname.clone(), line: a.line }
    }
}

impl BreakPointSignalData {
    pub fn from(a: &BreakPointSignalAction) -> (r: Self)
        ensures
            r@ == a@,
    {
        let src = match &a.src {
            Some(s) => Some(BreakPointSignalSrcData::from(s)),
            None => None,
        };
        BreakPointSignalData {
            number: a.number.clone(),
            enabled: a.enabled,
            src,
            addr: a.addr.clone(),
        }
    }

    /// The number that identifies this location (`"5.1"`).
    pub fn get_key(&self) -> (r: String)
        ensures
            r@ == self.number@,
    {
        self.number.clone()
    }
}

impl BreakPointMultipleData {
    pub fn from(a: &BreakPointMultipleAction) -> (r: Self)
        ensures
            r.number@ == a.number@,
            r.enabled == a.enabled,
            r.bps@.map_values(|b: BreakPointSignalData| b@) == a.bps@.map_values(
                |b: BreakPointSignalAction| b@,
            ),
    {
        let mut bps: Vec<BreakPointSignalData> = Vec::new();
        let mut i: usize = 0;
        while i < a.bps.len()
            invariant
                0 <= i <= a.bps@.len(),
                bps@.map_values(|b: BreakPointSignalData| b@) == a.bps@.subrange(
                    0,
                    i as int,
                ).map_values(|b: BreakPointSignalAction| b@),
            decreases a.bps.len() - i,
        {
            let b = BreakPointSignalData::from(&a.bps[i]);
            let ghost before = bps@;
            bps.push(b);
            assert(bps@.map_values(|b: BreakPointSignalData| b@) =~= a.bps@.subrange(
                0,
                i + 1,
            ).map_values(|b: BreakPointSignalAction| b@)) by {
                let x = bps@.map_values(|b: BreakPointSignalData| b@);
                let y = a.bps@.subrange(0, i + 1).map_values(|b: BreakPointSignalAction| b@);
                let z = a.bps@.subrange(0, i as int).map_values(|b: BreakPointSignalAction| b@);
                assert(z.len() == i);
                assert(before.map_values(|b: BreakPointSignalData| b@).len() == before.len());
                assert(before.len() == i);
                assert(x.len() == y.len());
                assert forall|k: int| 0 <= k < x.len() implies x[k] == y[k] by {
                    if k < i {
                        assert(x[k] == before.map_values(|b: BreakPointSignalData| b@)[k]);
                        assert(y[k] == z[k]);
                    } else {
                        assert(x[k] == b@);
                    }
                }
            }
            i = i + 1;
        }
        assert(a.bps@.subrange(0, i as int) =~= a.bps@);
        BreakPointMultipleData { number: a.number.clone(), enabled: a.enabled, bps }
    }

    pub fn get_key(&self) -> (r: String)
        ensures
            r@ == self.number@,
    {
        self.number.clone()
    }
}

impl BreakPointData {
    pub fn from(a: &BreakPointAction) -> (r: Self)
        ensures
            r@ == a@,
    {
        match a {
            BreakPointAction::Signal(p) => BreakPointData::Signal(BreakPointSignalData::from(p)),
            BreakPointAction::Multiple(p) => BreakPointData::Multiple(
                BreakPointMultipleData::from(p),
            ),
        }
    }

    /// The breakpoint's number, which identifies it.
    pub fn get_key(&self) -> (r: String)
        ensures
            r@ == key_of(*self),
    {
        match self {
            BreakPointData::Signal(p) => p.get_key(),
            BreakPointData::Multiple(p) => p.get_key(),
        }
    }
}

pub open spec fn key_of(b: BreakPointData) -> Seq<char> {
    match b {
        BreakPointData::Signal(p) => p.number@,
        BreakPointData::Multiple(p) => p.number@,
    }
}

// ---------------------------------------------------------------------------
// Markers of a visible range.

/// Adds a contributor to the marker of `line`: a line is shown enabled when
/// any of its contributors is enabled.
pub open spec fn mark(m: Map<u64, bool>, line: u64, enabled: bool) -> Map<u64, bool> {
    if m.contains_key(line) {
        m.insert(line, m[line] || enabled)
    } else {
        m.insert(line, enabled)
    }
}

/// Source positions `(file, line, enabled)` of a breakpoint; a child of a
/// multi-location breakpoint counts as enabled only when its parent is.
pub open spec fn child_src_points(cs: Seq<BreakPointSignalData>, parent: bool) -> Seq<
    (Seq<char>, u64, bool),
>
    decreases cs.len(),
{
    if cs.len() == 0 {
        Seq::empty()
    } else {
        let pre = child_src_points(cs.subrange(0, cs.len() - 1), parent);
        let c = cs[cs.len() - 1];
        match c.src {
            Some(s) => pre.push((s.fullname@, s.line, c.enabled && parent)),
            None => pre,
        }
    }
}

pub open spec fn src_points_of(b: BreakPointData) -> Seq<(Seq<char>, u64, bool)> {
    match b {
        BreakPointData::Signal(s) => match s.src {
            Some(src) => seq![(src.fullname@, src.line, s.enabled)],
            None => Seq::empty(),
        },
        BreakPointData::Multiple(m) => child_src_points(m.bps@, m.enabled),
    }
}

pub open spec fn src_points(bps: Seq<BreakPointData>) -> Seq<(Seq<char>, u64, bool)>
    decreases bps.len(),
{
    if bps.len() == 0 {
        Seq::empty()
    } else {
        src_points(bps.subrange(0, bps.len() - 1)) + src_points_of(bps[bps.len() - 1])
    }
}

/// Markers of the lines `start..=end` of `file`.
pub open spec fn src_marks(pts: Seq<(Seq<char>, u64, bool)>, file: Seq<char>, start: u64, end: u64) -> Map<
    u64,
    bool,
>
    decreases pts.len(),
{
    if pts.len() == 0 {
        Map::empty()
    } else {
        let m = src_marks(pts.subrange(0, pts.len() - 1), file, start, end);
        let p = pts[pts.len() - 1];
        if p.0 == file && start <= p.1 && p.1 <= end {
            mark(m, p.1, p.2)
        } else {
            m
        }
    }
}

/// Addresses `(addr, enabled)` of a breakpoint and of each of its children.
pub open spec fn child_addr_points(cs: Seq<BreakPointSignalData>, parent: bool) -> Seq<
    (Seq<char>, bool),
>
    decreases cs.len(),
{
    if cs.len() == 0 {
        Seq::empty()
    } else {
        let c = cs[cs.len() - 1];
        child_addr_points(cs.subrange(0, cs.len() - 1), parent).push((c.addr@, c.enabled && parent))
    }
}

pub open spec fn addr_points_of(b: BreakPointData) -> Seq<(Seq<char>, bool)> {
    match b {
        BreakPointData::Signal(s) => seq![(s.addr@, s.enabled)],
        BreakPointData::Multiple(m) => child_addr_points(m.bps@, m.enabled),
    }
}

pub open spec fn addr_points(bps: Seq<BreakPointData>) -> Seq<(Seq<char>, bool)>
    decreases bps.len(),
{
    if bps.len() == 0 {
        Seq::empty()
    } else {
        addr_points(bps.subrange(0, bps.len() - 1)) + addr_points_of(bps[bps.len() - 1])
    }
}

/// Location `p` puts a marker on `line` of `file` within `start..=end`.
pub open spec fn marks_line(p: (Seq<char>, u64, bool), file: Seq<char>, start: u64, end: u64, line: u64) -> bool {
    p.0 == file && start <= p.1 && p.1 <= end && p.1 == line
}

/// A line of the visible range carries a marker exactly when some location
/// of the file is on it, and the marker shows enabled exactly when one of
/// those locations is enabled: contributors on one line combine by "or".
pub proof fn lemma_src_marks_or(
    pts: Seq<(Seq<char>, u64, bool)>,
    file: Seq<char>,
    start: u64,
    end: u64,
    line: u64,
)
    ensures
        src_marks(pts, file, start, end).contains_key(line) <==> exists|i: int|
            0 <= i < pts.len() && marks_line(#[trigger] pts[i], file, start, end, line),
        src_marks(pts, file, start, end).contains_key(line) ==> (src_marks(
            pts,
            file,
            start,
            end,
        )[line] <==> exists|i: int|
            0 <= i < pts.len() && marks_line(#[trigger] pts[i], file, start, end, line)
                && pts[i].2),
    decreases pts.len(),
{
    if pts.len() > 0 {
        let n = pts.len() - 1;
        let pre = pts.subrange(0, n);
        lemma_src_marks_or(pre, file, start, end, line);
        assert forall|i: int| 0 <= i < n implies pre[i] == pts[i] by {}
        if exists|i: int| 0 <= i < pts.len() && marks_line(#[trigger] pts[i], file, start, end, line) {
            let i = choose|i: int| 0 <= i < pts.len() && marks_line(#[trigger] pts[i], file, start, end, line);
            if i < n {
                assert(marks_line(pre[i], file, start, end, line));
            }
        }
        if exists|i: int|
            0 <= i < pts.len() && marks_line(#[trigger] pts[i], file, start, end, line) && pts[i].2 {
            let i = choose|i: int|
                0 <= i < pts.len() && marks_line(#[trigger] pts[i], file, start, end, line) && pts[i].2;
            if i < n {
                assert(marks_line(pre[i], file, start, end, line) && pre[i].2);
            }
        }
        if exists|i: int| 0 <= i < n && marks_line(#[trigger] pre[i], file, start, end, line) {
            let i = choose|i: int| 0 <= i < n && marks_line(#[trigger] pre[i], file, start, end, line);
            assert(marks_line(pts[i], file, start, end, line));
        }
        if exists|i: int| 0 <= i < n && marks_line(#[trigger] pre[i], file, start, end, line) && pre[i].2 {
            let i = choose|i: int| 0 <= i < n && marks_line(#[trigger] pre[i], file, start, end, line) && pre[i].2;
            assert(marks_line(pts[i], file, start, end, line) && pts[i].2);
        }
    }
}

} // verus!
