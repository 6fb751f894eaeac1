use vstd::prelude::*;
use std::collections::HashMap;
use crate::breakpoint::{addr_points, child_addr_points, mark, BreakPointData, BreakPointSignalData};
use crate::disassemble::{DisassembleFunction, DisassembleFunctionLine};
use crate::number::{addr_to_u64, address_of, push_number, radix_text};
use crate::srcfiledata::{
    copy_spans, highlight_range, lines_range, range_of, span_view, spans_view, text_lines, Color,
};
use crate::text::push_str;

verus! {

broadcast use vstd::std_specs::hash::group_hash_axioms;

/// Addresses strictly ascending.
pub open spec fn table_sorted(t: Seq<(u64, u64)>) -> bool {
    forall|i: int, j: int| 0 <= i < j < t.len() ==> (#[trigger] t[i]).0 < (#[trigger] t[j]).0
}

/// Line id that the table gives for address `a`.
pub open spec fn table_lookup(t: Seq<(u64, u64)>, a: nat) -> Option<u64> {
    if exists|i: int| 0 <= i < t.len() && (#[trigger] t[i]).0 == a {
        Some(t[choose|i: int| 0 <= i < t.len() && (#[trigger] t[i]).0 == a].1)
    } else {
        None
    }
}

/// Line id of an address written `0x...`.
pub open spec fn line_id_of(t: Seq<(u64, u64)>, addr: Seq<char>) -> Option<u64> {
    match address_of(addr) {
        Some(a) => table_lookup(t, a),
        None => None,
    }
}

/// `insts[i]` is the first of `insts[..n]` at address `a`.
pub open spec fn first_at(insts: Seq<DisassembleFunctionLine>, i: int, a: nat) -> bool {
    address_of(insts[i].address@) == Some(a) && forall|j: int|
        0 <= j < i ==> address_of(#[trigger] insts[j].address@) != Some(a)
}

/// Entry `e` stands for the first instruction of `insts[..n]` at its
/// address, on line `index + 2`.
pub open spec fn from_first(insts: Seq<DisassembleFunctionLine>, n: int, e: (u64, u64)) -> bool {
    exists|i: int| 0 <= i < n && #[trigger] first_at(insts, i, e.0 as nat) && e.1 == i + 2
}

pub open spec fn has_addr(t: Seq<(u64, u64)>, a: nat) -> bool {
    exists|k: int| 0 <= k < t.len() && (#[trigger] t[k]).0 == a
}

pub open spec fn covered(t: Seq<(u64, u64)>, o: Option<nat>) -> bool {
    match o {
        Some(a) => has_addr(t, a),
        None => true,
    }
}

/// The table of the first `n` instructions: each instruction whose address
/// reads as a number is on line `index + 2` (the listing opens with a header
/// line); where several share an address the first one counts.
pub open spec fn table_upto(t: Seq<(u64, u64)>, insts: Seq<DisassembleFunctionLine>, n: int) -> bool {
    &&& table_sorted(t)
    &&& forall|k: int| 0 <= k < t.len() ==> from_first(insts, n, #[trigger] t[k])
    &&& forall|i: int| 0 <= i < n ==> covered(t, #[trigger] address_of(insts[i].address@))
}

pub open spec fn table_of(t: Seq<(u64, u64)>, insts: Seq<DisassembleFunctionLine>) -> bool {
    table_upto(t, insts, insts.len() as int)
}

pub open spec fn spaces(n: nat) -> Seq<char> {
    Seq::new(n, |i: int| ' ')
}

pub open spec fn asm_header(func: Seq<char>) -> Seq<char> {
    "Dump of assembler code for function "@ + func + ":\n"@
}

/// `    <address> <+<offset>>:<padding> <inst>\n`, the offsets padded to `width`.
pub open spec fn asm_line(l: DisassembleFunctionLine, width: nat) -> Seq<char> {
    let off = radix_text(l.offset as nat, 10);
    "    "@ + l.address@ + " <+"@ + off + ">:"@ + spaces(
        if width > off.len() {
            (width - off.len()) as nat
        } else {
            0
        },
    ) + " "@ + l.inst@ + "\n"@
}

pub open spec fn asm_body(insts: Seq<DisassembleFunctionLine>, width: nat) -> Seq<Seq<char>>
    decreases insts.len(),
{
    if insts.len() == 0 {
        Seq::empty()
    } else {
        asm_body(insts.subrange(0, insts.len() - 1), width).push(
            asm_line(insts[insts.len() - 1], width),
        )
    }
}

/// The listing of a function: a header, one line per instruction, and a footer.
pub open spec fn asm_listing(f: DisassembleFunction) -> Seq<Seq<char>> {
    let insts = f.insts@;
    if insts.len() == 0 {
        Seq::empty()
    } else {
        let width = radix_text(insts[insts.len() - 1].offset as nat, 10).len();
        seq![asm_header(f.func@)] + asm_body(insts, width) + seq!["End of assembler dump."@]
    }
}

/// Markers of the listing lines `start..=end` for the addresses `pts`.
pub open spec fn asm_marks(pts: Seq<(Seq<char>, bool)>, t: Seq<(u64, u64)>, start: u64, end: u64) -> Map<
    u64,
    bool,
>
    decreases pts.len(),
{
    if pts.len() == 0 {
        Map::empty()
    } else {
        let m = asm_marks(pts.subrange(0, pts.len() - 1), t, start, end);
        let p = pts[pts.len() - 1];
        match line_id_of(t, p.0) {
            Some(l) => if start <= l && l <= end {
                mark(m, l, p.1)
            } else {
                m
            },
            None => m,
        }
    }
}

/// A disassembled function of the entity cache.
pub struct AsmFuncData {
    pub func_name: String,
    pub addrs: Vec<(u64, u64)>,
    pub lines: Vec<String>,
    pub lines_highlight: Vec<Vec<(Color, String)>>,
    pub read_done: bool,
    pub highlight_done: bool,
}

/// Inserts `(a, l)` into an ascending table unless `a` is already there.
fn insert_sorted(t: &mut Vec<(u64, u64)>, a: u64, l: u64) -> (r: Option<usize>)
    requires
        table_sorted(old(t)@),
    ensures
        table_sorted(final(t)@),
        r is None <==> has_addr(old(t)@, a as nat),
        r is None ==> final(t)@ == old(t)@,
        r matches Some(p) ==> p <= old(t)@.len() && final(t)@ == old(t)@.insert(p as int, (a, l)),
{
    let mut p = t.len();
    while p > 0 && t[p - 1].0 > a
        invariant
            0 <= p <= t@.len(),
            t@ == old(t)@,
            table_sorted(t@),
            forall|k: int| p <= k < t@.len() ==> (#[trigger] t@[k]).0 > a,
        decreases p,
    {
        p = p - 1;
    }
    if p > 0 && t[p - 1].0 == a {
        return None;
    }
    assert(forall|k: int| 0 <= k < p ==> (#[trigger] t@[k]).0 < a) by {
        assert forall|k: int| 0 <= k < p implies (#[trigger] t@[k]).0 < a by {
            if k < p - 1 {
                assert(t@[k].0 < t@[p - 1].0);
            }
        }
    }
    assert(!has_addr(old(t)@, a as nat));
    t.insert(p, (a, l));
    assert(table_sorted(t@)) by {
        assert forall|i: int, j: int| 0 <= i < j < t@.len() implies (#[trigger] t@[i]).0 < (
        #[trigger] t@[j]).0 by {
            let o = old(t)@;
            if j < p {
                assert(t@[i] == o[i] && t@[j] == o[j]);
            } else if j == p {
                assert(t@[i] == o[i]);
            } else if i == p {
                assert(t@[j] == o[j - 1]);
            } else if i < p {
                assert(t@[i] == o[i] && t@[j] == o[j - 1]);
            } else {
                assert(t@[i] == o[i - 1] && t@[j] == o[j - 1]);
            }
        }
    }
    Some(p)
}

proof fn lemma_from_first_grows(insts: Seq<DisassembleFunctionLine>, n: int, e: (u64, u64))
    requires
        from_first(insts, n, e),
    ensures
        from_first(insts, n + 1, e),
{
    let i = choose|i: int| 0 <= i < n && #[trigger] first_at(insts, i, e.0 as nat) && e.1 == i + 2;
    assert(0 <= i < n + 1 && first_at(insts, i, e.0 as nat) && e.1 == i + 2);
}

proof fn lemma_table_extend_same(
    t: Seq<(u64, u64)>,
    insts: Seq<DisassembleFunctionLine>,
    i: int,
)
    requires
        0 <= i < insts.len(),
        table_upto(t, insts, i),
        covered(t, address_of(insts[i].address@)),
    ensures
        table_upto(t, insts, i + 1),
{
    assert forall|k: int| 0 <= k < t.len() implies from_first(insts, i + 1, #[trigger] t[k]) by {
        lemma_from_first_grows(insts, i, t[k]);
    }
    assert forall|j: int| 0 <= j < i + 1 implies covered(t, #[trigger] address_of(insts[j].address@)) by {
        if j < i {
            assert(covered(t, address_of(insts[j].address@)));
        }
    }
}

proof fn lemma_table_extend_insert(
    old_t: Seq<(u64, u64)>,
    t: Seq<(u64, u64)>,
    insts: Seq<DisassembleFunctionLine>,
    i: int,
    a: u64,
    p: int,
)
    requires
        0 <= i < insts.len(),
        insts.len() < u64::MAX - 2,
        table_upto(old_t, insts, i),
        table_sorted(t),
        address_of(insts[i].address@) == Some(a as nat),
        !has_addr(old_t, a as nat),
        0 <= p <= old_t.len(),
        t == old_t.insert(p, (a, (i + 2) as u64)),
    ensures
        table_upto(t, insts, i + 1),
{
    assert(t[p] == (a, (i + 2) as u64));
    assert(first_at(insts, i, a as nat)) by {
        assert forall|j: int| 0 <= j < i implies address_of(#[trigger] insts[j].address@) != Some(
            a as nat,
        ) by {
            assert(covered(old_t, address_of(insts[j].address@)));
        }
    }
    assert forall|k: int| 0 <= k < t.len() implies from_first(insts, i + 1, #[trigger] t[k]) by {
        if k == p {
            assert(0 <= i < i + 1 && first_at(insts, i, t[k].0 as nat) && t[k].1 == i + 2);
        } else {
            let k0 = if k < p {
                k
            } else {
                k - 1
            };
            assert(t[k] == old_t[k0]);
            assert(from_first(insts, i, old_t[k0]));
            lemma_from_first_grows(insts, i, old_t[k0]);
        }
    }
    assert forall|j: int| 0 <= j < i + 1 implies covered(t, #[trigger] address_of(insts[j].address@)) by {
        if j == i {
            assert(t[p].0 == a);
        } else {
            assert(covered(old_t, address_of(insts[j].address@)));
            match address_of(insts[j].address@) {
                Some(b) => {
                    let k = choose|k: int| 0 <= k < old_t.len() && (#[trigger] old_t[k]).0 == b;
                    if k < p {
                        assert(t[k] == old_t[k]);
                    } else {
                        assert(t[k + 1] == old_t[k]);
                    }
                },
                None => {},
            }
        }
    }
}

impl AsmFuncData {
    pub open spec fn wf(&self) -> bool {
        table_sorted(self.addrs@)
    }

    pub fn new(func_name: String) -> (r: Self)
        ensures
            r.func_name@ == func_name@,
            r.addrs@.len() == 0,
            r.lines@.len() == 0,
            r.lines_highlight@.len() == 0,
            !r.read_done,
            !r.highlight_done,
            r.wf(),
    {
        AsmFuncData {
            func_name,
            lines: Vec::new(),
            lines_highlight: Vec::new(),
            addrs: Vec::new(),
            read_done: false,
            highlight_done: false,
        }
    }

    /// Builds the address table of a listing.
    fn create_addr_map(&mut self, func: &DisassembleFunction)
        requires
            func.insts@.len() < u64::MAX - 2,
        ensures
            table_of(final(self).addrs@, func.insts@),
            final(self).func_name == old(self).func_name,
            final(self).lines == old(self).lines,
            final(self).lines_highlight == old(self).lines_highlight,
            final(self).read_done == old(self).read_done,
            final(self).highlight_done == old(self).highlight_done,
    {
        let insts = &func.insts;
        let mut t: Vec<(u64, u64)> = Vec::new();
        let mut i: usize = 0;
        while i < insts.len()
            invariant
                0 <= i <= insts@.len(),
                insts@.len() < u64::MAX - 2,
                table_upto(t@, insts@, i as int),
            decreases insts.len() - i,
        {
            let ghost old_t = t@;
            match addr_to_u64(insts[i].address.as_str()) {
                Some(a) => {
                    let ins = insert_sorted(&mut t, a, (i as u64) + 2);
                    proof {
                        match ins {
                            None => lemma_table_extend_same(t@, insts@, i as int),
                            Some(p) => lemma_table_extend_insert(
                                old_t,
                                t@,
                                insts@,
                                i as int,
                                a,
                                p as int,
                            ),
                        }
                    }
                },
                None => {
                    proof {
                        lemma_table_extend_same(t@, insts@, i as int);
                    }
                },
            }
            i = i + 1;
        }
        self.addrs = t;
    }

    /// Appends the listing of `func` and builds its address table; a
    /// function without instructions changes nothing.
    pub fn add_lines(&mut self, func: &DisassembleFunction)
        requires
            func.insts@.len() < u64::MAX - 2,
        ensures
            text_lines(final(self).lines@) == text_lines(old(self).lines@) + asm_listing(*func),
            func.insts@.len() > 0 ==> table_of(final(self).addrs@, func.insts@),
            func.insts@.len() == 0 ==> final(self).addrs == old(self).addrs,
            final(self).func_name == old(self).func_name,
            final(self).lines_highlight == old(self).lines_highlight,
            final(self).read_done == old(self).read_done,
            final(self).highlight_done == old(self).highlight_done,
    {
        let n = func.insts.len();
        if n == 0 {
            return;
        }
        let width = dec_len(func.insts[n - 1].offset);
        let ghost old_lines = text_lines(self.lines@);
        let mut header = String::new();
        push_str(&mut header, "Dump of assembler code for function ");
        push_str(&mut header, func.func.as_str());
        push_str(&mut header, ":\n");
        let ghost hv = header@;
        self.lines.push(header);
        assert(text_lines(self.lines@) =~= old_lines.push(hv));
        let mut i: usize = 0;
        while i < n
            invariant
                0 <= i <= n == func.insts@.len(),
                width == radix_text(func.insts@[n - 1].offset as nat, 10).len(),
                text_lines(self.lines@) == old_lines + seq![asm_header(func.func@)] + asm_body(
                    func.insts@.subrange(0, i as int),
                    width as nat,
                ),
                self.func_name == old(self).func_name,
                self.addrs == old(self).addrs,
                self.lines_highlight == old(self).lines_highlight,
                self.read_done == old(self).read_done,
                self.highlight_done == old(self).highlight_done,
            decreases n - i,
        {
            let line = asm_line_text(&func.insts[i], width);
            let ghost lv = line@;
            let ghost before = text_lines(self.lines@);
            self.lines.push(line);
            proof {
                let pre = func.insts@.subrange(0, i + 1);
                assert(pre.subrange(0, pre.len() - 1) =~= func.insts@.subrange(0, i as int));
                assert(text_lines(self.lines@) =~= before.push(lv));
            }
            i = i + 1;
        }
        let mut footer = String::new();
        push_str(&mut footer, "End of assembler dump.");
        let ghost fv = footer@;
        let ghost before = text_lines(self.lines@);
        self.lines.push(footer);
        assert(text_lines(self.lines@) =~= before.push(fv));
        assert(func.insts@.subrange(0, n as int) =~= func.insts@);
        assert(text_lines(self.lines@) =~= old_lines + asm_listing(*func));
        self.create_addr_map(func);
    }

    /// Line id of an address written `0x...`; `None` when it does not read
    /// as an address or is not in the table.
    pub fn get_line_id(&self, addr: &str) -> (r: Option<u64>)
        requires
            self.wf(),
        ensures
            r == line_id_of(self.addrs@, addr@),
    {
        match addr_to_u64(addr) {
            Some(a) => lookup(&self.addrs, a),
            None => None,
        }
    }

    /// Breakpoint markers of the listing lines `start_line..=end_line`: each
    /// line whose address holds a breakpoint maps to whether any of them is enabled.
    pub fn get_breakpoint_need_show_in_range(
        &self,
        breakpoints: &Vec<BreakPointData>,
        start_line: u64,
        end_line: u64,
    ) -> (r: HashMap<u64, bool>)
        requires
            self.wf(),
        ensures
            r@ == asm_marks(addr_points(breakpoints@), self.addrs@, start_line, end_line),
    {
        let mut m: HashMap<u64, bool> = HashMap::new();
        let ghost t = self.addrs@;
        let mut i: usize = 0;
        assert(breakpoints@.subrange(0, 0) =~= Seq::<BreakPointData>::empty());
        assert(m@ =~= Map::<u64, bool>::empty());
        while i < breakpoints.len()
            invariant
                0 <= i <= breakpoints@.len(),
                t == self.addrs@,
                self.wf(),
                m@ == asm_marks(addr_points(breakpoints@.subrange(0, i as int)), t, start_line, end_line),
            decreases breakpoints.len() - i,
        {
            let ghost pts0 = addr_points(breakpoints@.subrange(0, i as int));
            let ghost pre = breakpoints@.subrange(0, i + 1);
            assert(pre.subrange(0, pre.len() - 1) =~= breakpoints@.subrange(0, i as int));
            match &breakpoints[i] {
                BreakPointData::Signal(s) => {
                    self.add_mark(&mut m, &s.addr, s.enabled, start_line, end_line);
                    proof {
                        let p = (s.addr@, s.enabled);
                        assert(addr_points(pre) =~= pts0.push(p));
                        assert(pts0.push(p).subrange(0, pts0.len() as int) =~= pts0);
                    }
                },
                BreakPointData::Multiple(mb) => {
                    let mut j: usize = 0;
                    assert(mb.bps@.subrange(0, 0) =~= Seq::<BreakPointSignalData>::empty());
                    assert(pts0 + child_addr_points(mb.bps@.subrange(0, 0), mb.enabled) =~= pts0);
                    while j < mb.bps.len()
                        invariant
                            0 <= j <= mb.bps@.len(),
                            t == self.addrs@,
                            self.wf(),
                            m@ == asm_marks(
                                pts0 + child_addr_points(mb.bps@.subrange(0, j as int), mb.enabled),
                                t,
                                start_line,
                                end_line,
                            ),
                        decreases mb.bps.len() - j,
                    {
                        let ghost cpre = mb.bps@.subrange(0, j + 1);
                        assert(cpre.subrange(0, cpre.len() - 1) =~= mb.bps@.subrange(0, j as int));
                        let ghost before = pts0 + child_addr_points(mb.bps@.subrange(0, j as int), mb.enabled);
                        let c = &mb.bps[j];
                        self.add_mark(&mut m, &c.addr, c.enabled && mb.enabled, start_line, end_line);
                        proof {
                            let p = (c.addr@, c.enabled && mb.enabled);
                            assert(pts0 + child_addr_points(cpre, mb.enabled) =~= before.push(p));
                            assert(before.push(p).subrange(0, before.len() as int) =~= before);
                        }
                        j = j + 1;
                    }
                    assert(mb.bps@.subrange(0, j as int) =~= mb.bps@);
                    assert(addr_points(pre) =~= pts0 + child_addr_points(mb.bps@, mb.enabled));
                },
            }
            i = i + 1;
        }
        assert(breakpoints@.subrange(0, i as int) =~= breakpoints@);
        m
    }

    fn add_mark(&self, m: &mut HashMap<u64, bool>, addr: &String, enabled: bool, start_line: u64, end_line: u64)
        requires
            self.wf(),
        ensures
            final(m)@ == (match line_id_of(self.addrs@, addr@) {
                Some(l) => if start_line <= l && l <= end_line {
                    mark(old(m)@, l, enabled)
                } else {
                    old(m)@
                },
                None => old(m)@,
            }),
    {
        match self.get_line_id(addr.as_str()) {
            Some(line) => {
                if start_line <= line && line <= end_line {
                    let old_mark = match m.get(&line) {
                        Some(b) => Some(*b),
                        None => None,
                    };
                    match old_mark {
                        Some(b) => {
                            m.insert(line, b || enabled);
                        },
                        None => {
                            m.insert(line, enabled);
                        },
                    }
                }
            },
            None => {},
        }
    }

    /// What the status line shows for a listing: the function and, when the
    /// table is not empty, its first and last address in hexadecimal.
    pub fn get_status(&self) -> (r: String)
        ensures
            r@ == (if self.addrs@.len() > 0 {
                "** Dump of assembler code for function "@ + self.func_name@ + ": (0x"@
                    + radix_text(self.addrs@[0].0 as nat, 16) + " - 0x"@ + radix_text(
                    self.addrs@[self.addrs@.len() - 1].0 as nat,
                    16,
                ) + ") **"@
            } else {
                "** Dump of assembler code for function "@ + self.func_name@ + ": **"@
            }),
    {
        let mut r = String::new();
        push_str(&mut r, "** Dump of assembler code for function ");
        push_str(&mut r, self.func_name.as_str());
        let n = self.addrs.len();
        if n > 0 {
            push_str(&mut r, ": (0x");
            push_number(&mut r, self.addrs[0].0, 16);
            push_str(&mut r, " - 0x");
            push_number(&mut r, self.addrs[n - 1].0, 16);
            push_str(&mut r, ") **");
        } else {
            push_str(&mut r, ": **");
        }
        r
    }

    pub fn get_key(&self) -> (r: String)
        ensures
            r@ == self.func_name@,
    {
        self.func_name.clone()
    }

    pub fn get_file_name(&self) -> (r: String)
        ensures
            r@ == self.func_name@,
    {
        self.func_name.clone()
    }

    pub fn get_read_done(&self) -> (r: bool)
        ensures
            r == self.read_done,
    {
        self.read_done
    }

    pub fn set_read_done(&mut self)
        ensures
            final(self).read_done,
            final(self).func_name == old(self).func_name,
            final(self).addrs == old(self).addrs,
            final(self).lines == old(self).lines,
            final(self).lines_highlight == old(self).lines_highlight,
            final(self).highlight_done == old(self).highlight_done,
    {
        self.read_done = true;
    }

    pub fn get_highlight_done(&self) -> (r: bool)
        ensures
            r == self.highlight_done,
    {
        self.highlight_done
    }

    pub fn set_highlight_done(&mut self)
        ensures
            final(self).highlight_done,
            final(self).func_name == old(self).func_name,
            final(self).addrs == old(self).addrs,
            final(self).lines == old(self).lines,
            final(self).lines_highlight == old(self).lines_highlight,
            final(self).read_done == old(self).read_done,
    {
        self.highlight_done = true;
    }

    pub fn get_lines_len(&self) -> (r: usize)
        ensures
            r == self.lines@.len(),
    {
        self.lines.len()
    }

    pub fn get_lines(&self) -> (r: &Vec<String>)
        ensures
            r == &self.lines,
    {
        &self.lines
    }

    /// Lines `start..end`, counted from 1, with the range handed back.
    pub fn get_lines_range(&self, start: usize, end: usize) -> (r: (Vec<String>, usize, usize))
        ensures
            ({
                let (lo, hi, e) = range_of(text_lines(self.lines@).len(), start, end);
                text_lines(r.0@) == text_lines(self.lines@).subrange(lo, hi) && r.1 == start
                    && r.2 == e
            }),
    {
        lines_range(&self.lines, start, end)
    }

    /// Highlighted lines `start..end`, counted from 1, with the range handed back.
    pub fn get_highlight_lines_range(&self, start: usize, end: usize) -> (r: (
        Vec<Vec<(Color, String)>>,
        usize,
        usize,
    ))
        ensures
            ({
                let (lo, hi, e) = range_of(spans_view(self.lines_highlight@).len(), start, end);
                spans_view(r.0@) == spans_view(self.lines_highlight@).subrange(lo, hi) && r.1
                    == start && r.2 == e
            }),
    {
        highlight_range(&self.lines_highlight, start, end)
    }

    /// Sets the highlighted listing: the header names the function in blue,
    /// `body` holds the spans of the instruction lines, and the footer is plain.
    pub fn add_highlight_lines(&mut self, body: Vec<Vec<(Color, String)>>)
        requires
            old(self).lines@.len() >= 2,
        ensures
            spans_view(final(self).lines_highlight@) == seq![
                seq![
                    (Color::White, "Dump of assembler code for function "@),
                    (Color::Blue, old(self).func_name@),
                    (Color::White, ":\n"@),
                ],
            ] + spans_view(body@) + seq![
                seq![(Color::White, old(self).lines@[old(self).lines@.len() - 1]@)],
            ],
            final(self).func_name == old(self).func_name,
            final(self).addrs == old(self).addrs,
            final(self).lines == old(self).lines,
            final(self).read_done == old(self).read_done,
            final(self).highlight_done == old(self).highlight_done,
    {
        let mut out: Vec<Vec<(Color, String)>> = Vec::new();
        let mut head: Vec<(Color, String)> = Vec::new();
        head.push((Color::White, String::from_str("Dump of assembler code for function ")));
        head.push((Color::Blue, self.func_name.clone()));
        head.push((Color::White, String::from_str(":\n")));
        let ghost hv = span_view(head@);
        assert(hv =~= seq![
            (Color::White, "Dump of assembler code for function "@),
            (Color::Blue, self.func_name@),
            (Color::White, ":\n"@),
        ]);
        out.push(head);
        assert(spans_view(out@) =~= seq![hv]);
        let mut i: usize = 0;
        while i < body.len()
            invariant
                0 <= i <= body@.len(),
                spans_view(out@) == seq![hv] + spans_view(body@).subrange(0, i as int),
            decreases body.len() - i,
        {
            let ghost before = spans_view(out@);
            let l = copy_spans(&body[i]);
            out.push(l);
            assert(spans_view(out@) =~= before.push(span_view(body@[i as int]@)));
            assert(seq![hv] + spans_view(body@).subrange(0, i + 1) =~= before.push(
                span_view(body@[i as int]@),
            ));
            i = i + 1;
        }
        let last = self.lines[self.lines.len() - 1].clone();
        let mut tail: Vec<(Color, String)> = Vec::new();
        tail.push((Color::White, last));
        let ghost tv = span_view(tail@);
        let ghost before = spans_view(out@);
        out.push(tail);
        assert(spans_view(out@) =~= before.push(tv));
        assert(spans_view(body@).subrange(0, i as int) =~= spans_view(body@));
        assert(tv =~= seq![(Color::White, old(self).lines@[old(self).lines@.len() - 1]@)]);
        assert(spans_view(out@) =~= seq![hv] + spans_view(body@) + seq![tv]);
        self.lines_highlight = out;
    }
}

/// Number of decimal digits of `n`.
fn dec_len(n: u64) -> (r: usize)
    ensures
        r == radix_text(n as nat, 10).len(),
    decreases n,
{
    proof {
        reveal_with_fuel(pow10, 21);
        assert(pow10(19) == 10000000000000000000nat);
    }
    if n < 10 {
        1
    } else {
        let k = dec_len(n / 10);
        proof {
            assert(radix_text(n as nat, 10) == radix_text((n / 10) as nat, 10).push(
                crate::number::digit_char((n % 10) as nat),
            ));
            lemma_radix_len_bound((n / 10) as nat, 19);
        }
        k + 1
    }
}

spec fn pow10(k: nat) -> nat
    decreases k,
{
    if k == 0 {
        1
    } else {
        10 * pow10((k - 1) as nat)
    }
}

proof fn lemma_radix_len_bound(n: nat, k: nat)
    requires
        n < pow10(k),
    ensures
        radix_text(n, 10).len() <= (if k == 0 { 1 } else { k }),
    decreases k,
{
    if n >= 10 {
        assert(k > 0) by {
            if k == 0 {
                assert(pow10(0) == 1);
            }
        }
        let p = pow10((k - 1) as nat);
        assert(n / 10 < p) by (nonlinear_arith)
            requires
                n < 10 * p,
        ;
        assert(k - 1 > 0) by {
            if k == 1 {
                assert(pow10(0) == 1);
                assert(pow10(1) == 10);
            }
        }
        lemma_radix_len_bound(n / 10, (k - 1) as nat);
    }
}

fn asm_line_text(l: &DisassembleFunctionLine, width: usize) -> (r: String)
    ensures
        r@ == asm_line(*l, width as nat),
{
    let mut s = String::new();
    push_str(&mut s, "    ");
    push_str(&mut s, l.address.as_str());
    push_str(&mut s, " <+");
    let ghost before_off = s@;
    push_number(&mut s, l.offset, 10);
    push_str(&mut s, ">:");
    let k = dec_len(l.offset);
    let pad = if width > k { width - k } else { 0 };
    let ghost before_pad = s@;
    let mut j: usize = 0;
    while j < pad
        invariant
            0 <= j <= pad,
            s@ == before_pad + spaces(j as nat),
        decreases pad - j,
    {
        s.push(' ');
        assert(spaces((j + 1) as nat) =~= spaces(j as nat).push(' '));
        j = j + 1;
    }
    push_str(&mut s, " ");
    push_str(&mut s, l.inst.as_str());
    push_str(&mut s, "\n");
    s
}

/// Binary search of an ascending table.
fn lookup(t: &Vec<(u64, u64)>, a: u64) -> (r: Option<u64>)
    requires
        table_sorted(t@),
    ensures
        r == table_lookup(t@, a as nat),
{
    let mut lo: usize = 0;
    let mut hi: usize = t.len();
    while lo < hi
        invariant
            0 <= lo <= hi <= t@.len(),
            table_sorted(t@),
            forall|k: int| 0 <= k < lo ==> (#[trigger] t@[k]).0 < a,
            forall|k: int| hi <= k < t@.len() ==> (#[trigger] t@[k]).0 > a,
        decreases hi - lo,
    {
        let mid = lo + (hi - lo) / 2;
        let e = t[mid];
        if e.0 == a {
            proof {
                let c = choose|i: int| 0 <= i < t@.len() && (#[trigger] t@[i]).0 == a as nat;
                if c < mid {
                    assert(t@[c].0 < t@[mid as int].0);
                } else if c > mid {
                    assert(t@[mid as int].0 < t@[c].0);
                }
            }
            return Some(e.1);
        } else if e.0 < a {
            assert forall|k: int| 0 <= k < mid + 1 implies (#[trigger] t@[k]).0 < a by {
                if k < mid {
                    assert(t@[k].0 < t@[mid as int].0);
                }
            }
            lo = mid + 1;
        } else {
            assert forall|k: int| mid <= k < t@.len() implies (#[trigger] t@[k]).0 > a by {
                if k > mid {
                    assert(t@[mid as int].0 < t@[k].0);
                }
            }
            hi = mid;
        }
    }
    assert(!(exists|i: int| 0 <= i < t@.len() && (#[trigger] t@[i]).0 == a as nat));
    None
}

} // verus!
