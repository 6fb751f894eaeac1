use vstd::prelude::*;
use std::collections::HashMap;
use crate::breakpoint::{
    child_src_points, mark, src_marks, src_points, src_points_of, BreakPointData,
};
use crate::text::{chars_of, push_str};

verus! {

broadcast use vstd::std_specs::hash::group_hash_axioms;

/// Colour of a highlighted span.
#[derive(Copy, Clone, Debug, PartialEq, Eq, Structural)]
pub enum Color {
    White,
    Blue,
    Rgb(u8, u8, u8),
}

pub open spec fn is_control(c: char) -> bool {
    (c as u32) <= 0x1f || (c as u32) == 0x7f
}

/// Name of a control character, as in the ASCII table.
pub open spec fn mnemonic(c: char) -> Seq<char> {
    let n = c as u32;
    if n == 0x00 { "NUL"@ } else if n == 0x01 { "SOH"@ } else if n == 0x02 { "STX"@ }
    else if n == 0x03 { "ETX"@ } else if n == 0x04 { "EOT"@ } else if n == 0x05 { "ENQ"@ }
    else if n == 0x06 { "ACK"@ } else if n == 0x07 { "BEL"@ } else if n == 0x08 { "BS"@ }
    else if n == 0x09 { "HT"@ } else if n == 0x0a { "LF"@ } else if n == 0x0b { "VT"@ }
    else if n == 0x0c { "FF"@ } else if n == 0x0d { "CR"@ } else if n == 0x0e { "SO"@ }
    else if n == 0x0f { "SI"@ } else if n == 0x10 { "DLE"@ } else if n == 0x11 { "DC1"@ }
    else if n == 0x12 { "DC2"@ } else if n == 0x13 { "DC3"@ } else if n == 0x14 { "DC4"@ }
    else if n == 0x15 { "NAK"@ } else if n == 0x16 { "SYN"@ } else if n == 0x17 { "ETB"@ }
    else if n == 0x18 { "CAN"@ } else if n == 0x19 { "EM"@ } else if n == 0x1a { "SUB"@ }
    else if n == 0x1b { "ESC"@ } else if n == 0x1c { "FS"@ } else if n == 0x1d { "GS"@ }
    else if n == 0x1e { "RS"@ } else if n == 0x1f { "US"@ } else { "DEL"@ }
}

/// What a character of a source line is shown as: a tab as four spaces, a
/// carriage return as nothing, any other control character as `\{NAME}`.
pub open spec fn sanitize_char(c: char) -> Seq<char> {
    if c == '\t' {
        seq![' ', ' ', ' ', ' ']
    } else if c == '\r' {
        Seq::empty()
    } else if is_control(c) {
        seq!['\\', '{'] + mnemonic(c) + seq!['}']
    } else {
        seq![c]
    }
}

pub open spec fn sanitized(s: Seq<char>) -> Seq<char>
    decreases s.len(),
{
    if s.len() == 0 {
        Seq::empty()
    } else {
        sanitized(s.subrange(0, s.len() - 1)) + sanitize_char(s[s.len() - 1])
    }
}

/// A line of one character shows as: four spaces for a tab, nothing for a
/// carriage return, `\{NAME}` for any other control character (0x00 to
/// 0x1f and 0x7f), and the character itself otherwise.
pub proof fn lemma_sanitized_char(c: char)
    ensures
        c == '\t' ==> sanitized(seq![c]) == seq![' ', ' ', ' ', ' '],
        c == '\r' ==> sanitized(seq![c]).len() == 0,
        is_control(c) && c != '\t' && c != '\r' ==> sanitized(seq![c]) == seq!['\\', '{']
            + mnemonic(c) + seq!['}'],
        !is_control(c) ==> sanitized(seq![c]) == seq![c],
{
    let s = seq![c];
    assert(s.subrange(0, 0).len() == 0);
    assert(sanitized(s.subrange(0, 0)) == Seq::<char>::empty());
    assert(sanitized(s) =~= sanitize_char(c));
}

fn mnemonic_of(c: char) -> (r: &'static str)
    ensures
        r@ == mnemonic(c),
{
    let n = c as u32;
    if n == 0x00 { "NUL" } else if n == 0x01 { "SOH" } else if n == 0x02 { "STX" }
    else if n == 0x03 { "ETX" } else if n == 0x04 { "EOT" } else if n == 0x05 { "ENQ" }
    else if n == 0x06 { "ACK" } else if n == 0x07 { "BEL" } else if n == 0x08 { "BS" }
    else if n == 0x09 { "HT" } else if n == 0x0a { "LF" } else if n == 0x0b { "VT" }
    else if n == 0x0c { "FF" } else if n == 0x0d { "CR" } else if n == 0x0e { "SO" }
    else if n == 0x0f { "SI" } else if n == 0x10 { "DLE" } else if n == 0x11 { "DC1" }
    else if n == 0x12 { "DC2" } else if n == 0x13 { "DC3" } else if n == 0x14 { "DC4" }
    else if n == 0x15 { "NAK" } else if n == 0x16 { "SYN" } else if n == 0x17 { "ETB" }
    else if n == 0x18 { "CAN" } else if n == 0x19 { "EM" } else if n == 0x1a { "SUB" }
    else if n == 0x1b { "ESC" } else if n == 0x1c { "FS" } else if n == 0x1d { "GS" }
    else if n == 0x1e { "RS" } else if n == 0x1f { "US" } else { "DEL" }
}

pub open spec fn text_lines(v: Seq<String>) -> Seq<Seq<char>> {
    v.map_values(|s: String| s@)
}

pub open spec fn span_view(v: Seq<(Color, String)>) -> Seq<(Color, Seq<char>)> {
    v.map_values(|p: (Color, String)| (p.0, p.1@))
}

pub open spec fn spans_view(v: Seq<Vec<(Color, String)>>) -> Seq<Seq<(Color, Seq<char>)>> {
    v.map_values(|l: Vec<(Color, String)>| span_view(l@))
}

/// Lines `start..end` of a text of `len` lines, counted from 1, as the
/// window asks for them: the window is cut at `len + 1`. Gives the first
/// index, the index past the last, and the end that is handed back.
pub open spec fn range_of(len: nat, start: usize, end: usize) -> (int, int, usize) {
    let n: int = if len + 1 > usize::MAX { usize::MAX as int } else { len + 1 as int };
    let e: usize = if (end as int) < n { end } else { n as usize };
    let lo: int = if start == 0 { 0 } else { start - 1 };
    let cnt: int = if e >= start { e - start } else { 0 };
    let lo2: int = if lo < len { lo } else { len as int };
    let hi: int = if cnt < len - lo2 { lo2 + cnt } else { len as int };
    (lo2, hi, e)
}

pub fn copy_spans(v: &Vec<(Color, String)>) -> (r: Vec<(Color, String)>)
    ensures
        span_view(r@) == span_view(v@),
{
    let mut r: Vec<(Color, String)> = Vec::new();
    let mut i: usize = 0;
    while i < v.len()
        invariant
            0 <= i <= v@.len(),
            span_view(r@) == span_view(v@.subrange(0, i as int)),
        decreases v.len() - i,
    {
        let (c, t) = &v[i];
        let ghost before = r@;
        let t2 = t.clone();
        r.push((*c, t2));
        proof {
            let x = span_view(r@);
            let y = span_view(v@.subrange(0, i + 1));
            assert(span_view(before).len() == i);
            assert forall|k: int| 0 <= k < x.len() implies x[k] == y[k] by {
                if k < i {
                    assert(x[k] == span_view(before)[k]);
                    assert(span_view(before)[k] == span_view(v@.subrange(0, i as int))[k]);
                }
            }
            assert(x =~= y);
        }
        i = i + 1;
    }
    assert(v@.subrange(0, i as int) =~= v@);
    r
}

/// A source file of the entity cache.
pub struct SrcFileData {
    pub file_name: String,
    pub lines: Vec<String>,
    pub lines_highlight: Vec<Vec<(Color, String)>>,
    pub read_done: bool,
    pub highlight_done: bool,
}

impl SrcFileData {
    pub open spec fn lines_view(&self) -> Seq<Seq<char>> {
        text_lines(self.lines@)
    }

    pub open spec fn highlight_view(&self) -> Seq<Seq<(Color, Seq<char>)>> {
        spans_view(self.lines_highlight@)
    }

    pub open spec fn read_done_spec(&self) -> bool {
        self.read_done
    }

    pub open spec fn highlight_done_spec(&self) -> bool {
        self.highlight_done
    }

    pub fn new(file_name: String) -> (r: Self)
        ensures
            r.file_name@ == file_name@,
            r.lines_view().len() == 0,
            r.highlight_view().len() == 0,
            !r.read_done_spec(),
            !r.highlight_done_spec(),
    {
        SrcFileData {
            file_name,
            lines: Vec::new(),
            lines_highlight: Vec::new(),
            read_done: false,
            highlight_done: false,
        }
    }

    /// Replaces the control characters of a line read from a file by what
    /// is shown in their place.
    pub fn read_file_filter(line: String) -> (r: String)
        ensures
            r@ == sanitized(line@),
    {
        let cs = chars_of(line.as_str());
        let mut r = String::new();
        let mut i: usize = 0;
        while i < cs.len()
            invariant
                cs@ == line@,
                0 <= i <= cs@.len(),
                r@ == sanitized(cs@.subrange(0, i as int)),
            decreases cs.len() - i,
        {
            let c = cs[i];
            let ghost before = r@;
            if c == '\t' {
                push_str(&mut r, "    ");
                proof {
                    reveal_strlit("    ");
                }
            } else if c == '\r' {
            } else if (c as u32) <= 0x1f || (c as u32) == 0x7f {
                r.push('\\');
                r.push('{');
                push_str(&mut r, mnemonic_of(c));
                r.push('}');
            } else {
                r.push(c);
            }
            proof {
                let pre = cs@.subrange(0, i + 1);
                assert(pre.subrange(0, pre.len() - 1) =~= cs@.subrange(0, i as int));
                assert(r@ =~= before + sanitize_char(c));
            }
            i = i + 1;
        }
        assert(cs@.subrange(0, i as int) =~= cs@);
        r
    }

    pub fn add_line(&mut self, line: String)
        ensures
            final(self).lines_view() == old(self).lines_view().push(line@),
            final(self).file_name == old(self).file_name,
            final(self).highlight_view() == old(self).highlight_view(),
            final(self).read_done_spec() == old(self).read_done_spec(),
            final(self).highlight_done_spec() == old(self).highlight_done_spec(),
    {
        let ghost l = line@;
        self.lines.push(line);
        assert(text_lines(self.lines@) =~= text_lines(old(self).lines@).push(l));
    }

    pub fn add_highlight_line(&mut self, line: Vec<(Color, String)>)
        ensures
            final(self).highlight_view() == old(self).highlight_view().push(span_view(line@)),
            final(self).file_name == old(self).file_name,
            final(self).lines_view() == old(self).lines_view(),
            final(self).read_done_spec() == old(self).read_done_spec(),
            final(self).highlight_done_spec() == old(self).highlight_done_spec(),
    {
        let ghost l = span_view(line@);
        self.lines_highlight.push(line);
        assert(spans_view(self.lines_highlight@) =~= spans_view(old(self).lines_highlight@).push(l));
    }

    pub fn get_file_name(&self) -> (r: String)
        ensures
            r@ == self.file_name@,
    {
        self.file_name.clone()
    }

    pub fn get_key(&self) -> (r: String)
        ensures
            r@ == self.file_name@,
    {
        self.file_name.clone()
    }

    /// What the status line shows for a source file: its name.
    pub fn get_status(&self) -> (r: String)
        ensures
            r@ == self.file_name@,
    {
        self.file_name.clone()
    }

    pub fn get_read_done(&self) -> (r: bool)
        ensures
            r == self.read_done_spec(),
    {
        self.read_done
    }

    pub fn set_read_done(&mut self)
        ensures
            final(self).read_done_spec(),
            final(self).file_name == old(self).file_name,
            final(self).lines_view() == old(self).lines_view(),
            final(self).highlight_view() == old(self).highlight_view(),
            final(self).highlight_done_spec() == old(self).highlight_done_spec(),
    {
        self.read_done = true;
    }

    pub fn get_highlight_done(&self) -> (r: bool)
        ensures
            r == self.highlight_done_spec(),
    {
        self.highlight_done
    }

    pub fn set_highlight_done(&mut self)
        ensures
            final(self).highlight_done_spec(),
            final(self).file_name == old(self).file_name,
            final(self).lines_view() == old(self).lines_view(),
            final(self).highlight_view() == old(self).highlight_view(),
            final(self).read_done_spec() == old(self).read_done_spec(),
    {
        self.highlight_done = true;
    }

    pub fn get_lines_len(&self) -> (r: usize)
        ensures
            r == self.lines_view().len(),
    {
        self.lines.len()
    }

    pub fn get_lines(&self) -> (r: &Vec<String>)
        ensures
            text_lines(r@) == self.lines_view(),
    {
        &self.lines
    }

    /// Lines `start..end`, counted from 1, with the range handed back.
    pub fn get_lines_range(&self, start: usize, end: usize) -> (r: (Vec<String>, usize, usize))
        ensures
            ({
                let (lo, hi, e) = range_of(self.lines_view().len(), start, end);
                text_lines(r.0@) == self.lines_view().subrange(lo, hi) && r.1 == start && r.2 == e
            }),
    {
        lines_range(&self.lines, start, end)
    }

    /// Highlighted lines `start..end`, counted from 1, with the range handed back.
    pub fn get_highlight_lines_range(&self, start: usize, end: usize) -> (r: (
        Vec<Vec<(Color, String)>>,
        usize,
        usize,
    ))
        ensures
            ({
                let (lo, hi, e) = range_of(self.highlight_view().len(), start, end);
                spans_view(r.0@) == self.highlight_view().subrange(lo, hi) && r.1 == start && r.2
                    == e
            }),
    {
        highlight_range(&self.lines_highlight, start, end)
    }

    /// Breakpoint markers of the lines `start_line..=end_line` of this file:
    /// each line with a breakpoint maps to whether any of them is enabled.
    pub fn get_breakpoint_need_show_in_range(
        &self,
        breakpoints: &Vec<BreakPointData>,
        start_line: u64,
        end_line: u64,
    ) -> (r: HashMap<u64, bool>)
        ensures
            r@ == src_marks(src_points(breakpoints@), self.file_name@, start_line, end_line),
    {
        let mut m: HashMap<u64, bool> = HashMap::new();
        let ghost file = self.file_name@;
        let mut i: usize = 0;
        assert(breakpoints@.subrange(0, 0) =~= Seq::<BreakPointData>::empty());
        assert(m@ =~= Map::<u64, bool>::empty());
        while i < breakpoints.len()
            invariant
                0 <= i <= breakpoints@.len(),
                file == self.file_name@,
                m@ == src_marks(src_points(breakpoints@.subrange(0, i as int)), file, start_line, end_line),
            decreases breakpoints.len() - i,
        {
            let ghost pts0 = src_points(breakpoints@.subrange(0, i as int));
            let ghost pre = breakpoints@.subrange(0, i + 1);
            assert(pre.subrange(0, pre.len() - 1) =~= breakpoints@.subrange(0, i as int));
            match &breakpoints[i] {
                BreakPointData::Signal(s) => {
                    match &s.src {
                        Some(src) => {
                            self.add_mark(&mut m, &src.fullname, src.line, s.enabled, start_line, end_line);
                            proof {
                                let p = (src.fullname@, src.line, s.enabled);
                                assert(src_points(pre) =~= pts0.push(p));
                                assert(pts0.push(p).subrange(0, pts0.len() as int) =~= pts0);
                            }
                        },
                        None => {
                            assert(src_points(pre) =~= pts0);
                        },
                    }
                },
                BreakPointData::Multiple(mb) => {
                    let mut j: usize = 0;
                    assert(mb.bps@.subrange(0, 0) =~= Seq::<crate::breakpoint::BreakPointSignalData>::empty());
                    assert(pts0 + child_src_points(mb.bps@.subrange(0, 0), mb.enabled) =~= pts0);
                    while j < mb.bps.len()
                        invariant
                            0 <= j <= mb.bps@.len(),
                            file == self.file_name@,
                            m@ == src_marks(
                                pts0 + child_src_points(mb.bps@.subrange(0, j as int), mb.enabled),
                                file,
                                start_line,
                                end_line,
                            ),
                        decreases mb.bps.len() - j,
                    {
                        let ghost cpre = mb.bps@.subrange(0, j + 1);
                        assert(cpre.subrange(0, cpre.len() - 1) =~= mb.bps@.subrange(0, j as int));
                        let ghost before = pts0 + child_src_points(mb.bps@.subrange(0, j as int), mb.enabled);
                        let c = &mb.bps[j];
                        match &c.src {
                            Some(src) => {
                                self.add_mark(&mut m, &src.fullname, src.line, c.enabled && mb.enabled, start_line, end_line);
                                proof {
                                    let p = (src.fullname@, src.line, c.enabled && mb.enabled);
                                    assert(pts0 + child_src_points(cpre, mb.enabled) =~= before.push(p));
                                    assert(before.push(p).subrange(0, before.len() as int) =~= before);
                                }
                            },
                            None => {
                                assert(pts0 + child_src_points(cpre, mb.enabled) =~= before);
                            },
                        }
                        j = j + 1;
                    }
                    assert(mb.bps@.subrange(0, j as int) =~= mb.bps@);
                    assert(src_points(pre) =~= pts0 + child_src_points(mb.bps@, mb.enabled));
                },
            }
            i = i + 1;
        }
        assert(breakpoints@.subrange(0, i as int) =~= breakpoints@);
        m
    }

    fn add_mark(&self, m: &mut HashMap<u64, bool>, fullname: &String, line: u64, enabled: bool, start_line: u64, end_line: u64)
        ensures
            final(m)@ == (if fullname@ == self.file_name@ && start_line <= line && line <= end_line {
                mark(old(m)@, line, enabled)
            } else {
                old(m)@
            }),
    {
        if crate::fields::str_eq(fullname.as_str(), self.file_name.as_str()) && start_line <= line && line <= end_line {
            let old_mark = match m.get(&line) {
                Some(b) => Some(*b),
                None => None,
            };
            match old_mark {
                Some(b) => {
                    m.insert(line, b || enabled);
                },
                None => {
                    m.insert(line, enabled);
                },
            }
        }
    }
}

pub fn lines_range(lines: &Vec<String>, start: usize, end: usize) -> (r: (Vec<String>, usize, usize))
    ensures
        ({
            let (lo, hi, e) = range_of(text_lines(lines@).len(), start, end);
            text_lines(r.0@) == text_lines(lines@).subrange(lo, hi) && r.1 == start && r.2 == e
        }),
{
    let len = lines.len();
    let n = if len < usize::MAX { len + 1 } else { usize::MAX };
    let e = if end < n { end } else { n };
    let lo = if start == 0 { 0 } else { start - 1 };
    let cnt = if e >= start { e - start } else { 0 };
    let lo2 = if lo < len { lo } else { len };
    let hi = if cnt < len - lo2 { lo2 + cnt } else { len };
    let mut out: Vec<String> = Vec::new();
    let mut i = lo2;
    while i < hi
        invariant
            lo2 <= i <= hi <= lines@.len(),
            text_lines(out@) == text_lines(lines@).subrange(lo2 as int, i as int),
        decreases hi - i,
    {
        let ghost before = out@;
        let l = lines[i].clone();
        out.push(l);
        proof {
            let x = text_lines(out@);
            let y = text_lines(lines@).subrange(lo2 as int, i + 1);
            assert(text_lines(before).len() == i - lo2);
            assert forall|k: int| 0 <= k < x.len() implies x[k] == y[k] by {
                if k < i - lo2 {
                    assert(x[k] == text_lines(before)[k]);
                }
            }
            assert(x =~= y);
        }
        i = i + 1;
    }
    (out, start, e)
}

pub fn highlight_range(lines: &Vec<Vec<(Color, String)>>, start: usize, end: usize) -> (r: (
    Vec<Vec<(Color, String)>>,
    usize,
    usize,
))
    ensures
        ({
            let (lo, hi, e) = range_of(spans_view(lines@).len(), start, end);
            spans_view(r.0@) == spans_view(lines@).subrange(lo, hi) && r.1 == start && r.2 == e
        }),
{
    let len = lines.len();
    let n = if len < usize::MAX { len + 1 } else { usize::MAX };
    let e = if end < n { end } else { n };
    let lo = if start == 0 { 0 } else { start - 1 };
    let cnt = if e >= start { e - start } else { 0 };
    let lo2 = if lo < len { lo } else { len };
    let hi = if cnt < len - lo2 { lo2 + cnt } else { len };
    let mut out: Vec<Vec<(Color, String)>> = Vec::new();
    let mut i = lo2;
    while i < hi
        invariant
            lo2 <= i <= hi <= lines@.len(),
            spans_view(out@) == spans_view(lines@).subrange(lo2 as int, i as int),
        decreases hi - i,
    {
        let ghost before = out@;
        let l = copy_spans(&lines[i]);
        out.push(l);
        proof {
            let x = spans_view(out@);
            let y = spans_view(lines@).subrange(lo2 as int, i + 1);
            assert(spans_view(before).len() == i - lo2);
            assert forall|k: int| 0 <= k < x.len() implies x[k] == y[k] by {
                if k < i - lo2 {
                    assert(x[k] == spans_view(before)[k]);
                }
            }
            assert(x =~= y);
        }
        i = i + 1;
    }
    (out, start, e)
}

} // verus!
