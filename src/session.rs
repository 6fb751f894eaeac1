use vstd::prelude::*;
use crate::breakpointmi::{opt_bkpt_view, show_bkpt, show_bkpt_spec, show_breakpoint_deleted, deleted_id_spec, BreakPointAction, BreakpointView};
use crate::disassemble::{disassemble_spec, function_view, get_disassemble_function, DisassembleFunction};
use crate::frame::{frame_of, frame_results, get_frame, last_frame_index, show_asm, show_file, Frame};
use crate::parser::parse_output_oneline;
use crate::text::push_str;
use crate::token::{is_text_of_line, OutOfBandRecordType, OutputOneline, ResultType};
use crate::fields::{last_const, last_number};
use crate::frame::{frame_fields, tuple_results};

verus! {

// ---------------------------------------------------------------------------
// Keystrokes on the console channel.

/// A key of the console pane.
#[derive(Copy, Clone, Debug, PartialEq, Eq, Structural)]
pub enum Key {
    Char(char),
    Enter,
    Backspace,
    Left,
    Right,
    Up,
    Down,
    Tab,
    Home,
    End,
    PageUp,
    PageDown,
    BackTab,
    Delete,
    Insert,
    Esc,
    Other,
}

/// UTF-8 encoding of a character.
pub open spec fn utf8_of(c: char) -> Seq<u8> {
    let n = c as u32;
    if n < 0x80 {
        seq![n as u8]
    } else if n < 0x800 {
        seq![(0xc0 | (n >> 6)) as u8, (0x80 | (n & 0x3f)) as u8]
    } else if n < 0x10000 {
        seq![(0xe0 | (n >> 12)) as u8, (0x80 | ((n >> 6) & 0x3f)) as u8, (0x80 | (n & 0x3f)) as u8]
    } else {
        seq![
            (0xf0 | (n >> 18)) as u8,
            (0x80 | ((n >> 12) & 0x3f)) as u8,
            (0x80 | ((n >> 6) & 0x3f)) as u8,
            (0x80 | (n & 0x3f)) as u8,
        ]
    }
}

pub open spec fn ascii_upper(c: char) -> char {
    if 'a' <= c && c <= 'z' {
        (((c as u32) - 32) as u8) as char
    } else {
        c
    }
}

/// Control code of `Ctrl` with a character, by the usual terminal rules.
pub open spec fn ctrl_code(c: char) -> Option<u8> {
    let u = ascii_upper(c);
    if u == '2' || u == '@' || u == ' ' {
        Some(0)
    } else if u == '3' || u == '[' {
        Some(27)
    } else if u == '4' || u == '\\' {
        Some(28)
    } else if u == '5' || u == ']' {
        Some(29)
    } else if u == '6' || u == '^' {
        Some(30)
    } else if u == '7' || u == '-' || u == '_' {
        Some(31)
    } else if 'A' <= u && u <= '_' {
        Some(((u as u32) - 64) as u8)
    } else {
        None
    }
}

/// Bytes that a key sends to the console.
pub open spec fn key_bytes(key: Key, ctrl: bool) -> Option<Seq<u8>> {
    match key {
        Key::Char(c) => if ctrl && ctrl_code(c) is Some {
            Some(seq![ctrl_code(c)->0])
        } else {
            Some(utf8_of(c))
        },
        Key::Enter => Some(seq![10u8]),
        Key::Backspace => Some(seq![8u8]),
        Key::Left => Some(seq![27u8, 91, 68]),
        Key::Right => Some(seq![27u8, 91, 67]),
        Key::Up => Some(seq![27u8, 91, 65]),
        Key::Down => Some(seq![27u8, 91, 66]),
        Key::Tab => Some(seq![9u8]),
        Key::Home => Some(seq![27u8, 91, 72]),
        Key::End => Some(seq![27u8, 91, 70]),
        Key::PageUp => Some(seq![27u8, 91, 53, 126]),
        Key::PageDown => Some(seq![27u8, 91, 54, 126]),
        Key::BackTab => Some(seq![27u8, 91, 90]),
        Key::Delete => Some(seq![27u8, 91, 51, 126]),
        Key::Insert => Some(seq![27u8, 91, 50, 126]),
        Key::Esc => Some(seq![27u8]),
        Key::Other => None,
    }
}

fn utf8_encode(c: char) -> (r: Vec<u8>)
    ensures
        r@ == utf8_of(c),
{
    let n = c as u32;
    if n < 0x80 {
        vec![n as u8]
    } else if n < 0x800 {
        vec![(0xc0 | (n >> 6)) as u8, (0x80 | (n & 0x3f)) as u8]
    } else if n < 0x10000 {
        vec![(0xe0 | (n >> 12)) as u8, (0x80 | ((n >> 6) & 0x3f)) as u8, (0x80 | (n & 0x3f)) as u8]
    } else {
        vec![
            (0xf0 | (n >> 18)) as u8,
            (0x80 | ((n >> 12) & 0x3f)) as u8,
            (0x80 | ((n >> 6) & 0x3f)) as u8,
            (0x80 | (n & 0x3f)) as u8,
        ]
    }
}

fn ctrl_of(c: char) -> (r: Option<u8>)
    ensures
        r == ctrl_code(c),
{
    let u = if 'a' <= c && c <= 'z' {
        (((c as u32) - 32) as u8) as char
    } else {
        c
    };
    if u == '2' || u == '@' || u == ' ' {
        Some(0)
    } else if u == '3' || u == '[' {
        Some(27)
    } else if u == '4' || u == '\\' {
        Some(28)
    } else if u == '5' || u == ']' {
        Some(29)
    } else if u == '6' || u == '^' {
        Some(30)
    } else if u == '7' || u == '-' || u == '_' {
        Some(31)
    } else if 'A' <= u && u <= '_' {
        Some(((u as u32) - 64) as u8)
    } else {
        None
    }
}

/// Bytes to write to the console for a key, `ctrl` telling whether Control is held.
pub fn handle_pane_key_event(key: Key, ctrl: bool) -> (r: Option<Vec<u8>>)
    ensures
        match r {
            Some(v) => key_bytes(key, ctrl) == Some(v@),
            None => key_bytes(key, ctrl) is None,
        },
{
    let v: Vec<u8> = match key {
        Key::Char(c) => {
            if ctrl {
                match ctrl_of(c) {
                    Some(b) => vec![b],
                    None => utf8_encode(c),
                }
            } else {
                utf8_encode(c)
            }
        },
        Key::Enter => vec![10u8],
        Key::Backspace => vec![8u8],
        Key::Left => vec![27u8, 91, 68],
        Key::Right => vec![27u8, 91, 67],
        Key::Up => vec![27u8, 91, 65],
        Key::Down => vec![27u8, 91, 66],
        Key::Tab => vec![9u8],
        Key::Home => vec![27u8, 91, 72],
        Key::End => vec![27u8, 91, 70],
        Key::PageUp => vec![27u8, 91, 53, 126],
        Key::PageDown => vec![27u8, 91, 54, 126],
        Key::BackTab => vec![27u8, 91, 90],
        Key::Delete => vec![27u8, 91, 51, 126],
        Key::Insert => vec![27u8, 91, 50, 126],
        Key::Esc => vec![27u8],
        Key::Other => {
            return None;
        },
    };
    proof {
        match key {
            Key::Char(c) => {},
            _ => {
                assert(v@ =~= key_bytes(key, ctrl)->0);
            },
        }
    }
    Some(v)
}

// ---------------------------------------------------------------------------
// Starting the debugger.

/// Arguments of the debugger process: it runs without a window and opens its
/// machine interface on the terminal `mi_pty`, followed by the user's arguments.
pub fn gdb_argv(gdb_path: &str, mi_pty: &str, user_args: &Vec<String>) -> (r: Vec<String>)
    ensures
        r@.len() == 4 + user_args@.len(),
        r@[0]@ == gdb_path@,
        r@[1]@ == "--nw"@,
        r@[2]@ == "--ex"@,
        r@[3]@ == "new-ui mi3 "@ + mi_pty@,
        forall|i: int| 0 <= i < user_args@.len() ==> (#[trigger] r@[4 + i])@ == user_args@[i]@,
{
    let mut r: Vec<String> = Vec::new();
    r.push(String::from_str(gdb_path));
    r.push(String::from_str("--nw"));
    r.push(String::from_str("--ex"));
    let mut ui = String::from_str("new-ui mi3 ");
    push_str(&mut ui, mi_pty);
    r.push(ui);
    let mut i: usize = 0;
    while i < user_args.len()
        invariant
            0 <= i <= user_args@.len(),
            r@.len() == 4 + i,
            r@[0]@ == gdb_path@,
            r@[1]@ == "--nw"@,
            r@[2]@ == "--ex"@,
            r@[3]@ == "new-ui mi3 "@ + mi_pty@,
            forall|k: int| 0 <= k < i ==> (#[trigger] r@[4 + k])@ == user_args@[k]@,
        decreases user_args.len() - i,
    {
        r.push(user_args[i].clone());
        i = i + 1;
    }
    r
}

/// The command that asks for the listing of the function around `addr`.
pub fn disassemble_command(addr: &str) -> (r: String)
    ensures
        r@ == "-data-disassemble -a "@ + addr@ + " -- 0"@,
{
    let mut r = String::from_str("-data-disassemble -a ");
    push_str(&mut r, addr);
    push_str(&mut r, " -- 0");
    r
}

// ---------------------------------------------------------------------------
// Framing the bytes of the machine-interface channel into lines.

/// Lines completed by `input` after a partial line `buf`, and the partial
/// line left. A line keeps its `\n`; a `\r` just before it is dropped, so
/// that `\r\n` ends a line as `\n` does.
pub open spec fn frame_lines(buf: Seq<u8>, input: Seq<u8>) -> (Seq<Seq<u8>>, Seq<u8>)
    decreases input.len(),
{
    if input.len() == 0 {
        (Seq::empty(), buf)
    } else {
        let (ls, b) = frame_lines(buf, input.subrange(0, input.len() - 1));
        let c = input[input.len() - 1];
        if c == 10 {
            let body = if b.len() > 0 && b[b.len() - 1] == 13 {
                b.subrange(0, b.len() - 1)
            } else {
                b
            };
            (ls.push(body.push(10)), Seq::empty())
        } else {
            (ls, b.push(c))
        }
    }
}

/// The partial line of the machine-interface channel.
pub struct LineFramer {
    pub line: Vec<u8>,
}

impl LineFramer {
    pub fn new() -> (r: Self)
        ensures
            r.line@.len() == 0,
    {
        LineFramer { line: Vec::new() }
    }

    /// Feeds the bytes of one read; returns the lines they complete.
    pub fn feed(&mut self, bytes: &[u8]) -> (r: Vec<Vec<u8>>)
        ensures
            r@.map_values(|l: Vec<u8>| l@) == frame_lines(old(self).line@, bytes@).0,
            final(self).line@ == frame_lines(old(self).line@, bytes@).1,
    {
        let mut out: Vec<Vec<u8>> = Vec::new();
        let mut i: usize = 0;
        while i < bytes.len()
            invariant
                0 <= i <= bytes@.len(),
                out@.map_values(|l: Vec<u8>| l@) == frame_lines(old(self).line@, bytes@.subrange(0, i as int)).0,
                self.line@ == frame_lines(old(self).line@, bytes@.subrange(0, i as int)).1,
            decreases bytes.len() - i,
        {
            let ghost pre = bytes@.subrange(0, i + 1);
            assert(pre.subrange(0, pre.len() - 1) =~= bytes@.subrange(0, i as int));
            let c = bytes[i];
            if c == 10 {
                let n = self.line.len();
                if n > 0 && self.line[n - 1] == 13 {
                    let ghost b = self.line@;
                    self.line.pop();
                    assert(self.line@ =~= b.subrange(0, b.len() - 1));
                }
                self.line.push(10);
                let done = self.line.clone();
                self.line = Vec::new();
                let ghost before = out@;
                out.push(done);
                assert(out@.map_values(|l: Vec<u8>| l@) =~= before.map_values(|l: Vec<u8>| l@).push(done@));
            } else {
                self.line.push(c);
            }
            i = i + 1;
        }
        assert(bytes@.subrange(0, i as int) =~= bytes@);
        out
    }
}

// ---------------------------------------------------------------------------
// Events of the machine-interface channel.

/// What one line of the machine-interface channel reports.
#[derive(Debug, PartialEq, Eq)]
pub enum MiAction {
    ShowFile(String, u64, Frame),
    ShowAsm(String, String, Frame),
    Breakpoint(BreakPointAction),
    BreakpointDeleted(u64),
    ReadAsmFunc(DisassembleFunction),
}

/// The results inside the frame that the record `a` carries, if any.
pub open spec fn frame_tuple(a: OutOfBandRecordType) -> Option<Seq<ResultType>> {
    match frame_results(a) {
        Some(rs) => match last_frame_index(rs) {
            Some(i) => Some(tuple_results(rs[i].value)),
            None => None,
        },
        None => None,
    }
}

/// How many frame events the record gives: one when its frame is shown in
/// source (file and line known) or else in disassembly (function known).
pub open spec fn frame_event_count(a: OutOfBandRecordType) -> int {
    match frame_tuple(a) {
        Some(ft) => if (last_const(ft, "fullname"@) is Some && last_number(ft, "line"@) is Some)
            || last_const(ft, "func"@) is Some {
            1
        } else {
            0
        },
        None => 0,
    }
}

/// `e` shows the frame of `a`: in its source file when file and line are
/// known, else in disassembly.
pub open spec fn is_frame_event(a: OutOfBandRecordType, e: MiAction) -> bool {
    let ft = frame_tuple(a)->0;
    match e {
        MiAction::ShowFile(file, line, f) => {
            &&& frame_fields(f, ft)
            &&& last_const(ft, "fullname"@) == Some(file@)
            &&& last_number(ft, "line"@) == Some(line as nat)
        },
        MiAction::ShowAsm(func, addr, f) => {
            &&& frame_fields(f, ft)
            &&& !(last_const(ft, "fullname"@) is Some && last_number(ft, "line"@) is Some)
            &&& last_const(ft, "func"@) == Some(func@)
            &&& addr@ == f.addr@
        },
        _ => false,
    }
}

/// The events of an out-of-band record, in order: the frame to show, the
/// breakpoint it reports, and the breakpoint it deletes, each when there is one.
pub open spec fn out_of_band_events(a: OutOfBandRecordType, es: Seq<MiAction>) -> bool {
    let nf = frame_event_count(a);
    let nb = if show_bkpt_spec(a) is Some { 1int } else { 0 };
    let nd = if deleted_id_spec(a) is Some { 1int } else { 0 };
    &&& es.len() == nf + nb + nd
    &&& nf == 1 ==> is_frame_event(a, es[0])
    &&& nb == 1 ==> (es[nf] matches MiAction::Breakpoint(b) && Some(b@) == show_bkpt_spec(a))
    &&& nd == 1 ==> (es[nf + nb] matches MiAction::BreakpointDeleted(id) && deleted_id_spec(a)
        == Some(id as nat))
}

pub open spec fn line_events(o: OutputOneline, es: Seq<MiAction>) -> bool {
    match o {
        OutputOneline::OutOfBandRecord(a) => out_of_band_events(a, es),
        OutputOneline::ResultRecord(r) => match disassemble_spec(r) {
            Some(d) => es.len() == 1 && (es[0] matches MiAction::ReadAsmFunc(f) && function_view(
                Some(f),
            ) == Some(d)),
            None => es.len() == 0,
        },
    }
}

/// The events of one parsed line.
pub fn record_actions(o: OutputOneline) -> (r: Vec<MiAction>)
    ensures
        line_events(o, r@),
{
    let mut actions: Vec<MiAction> = Vec::new();
    match o {
        OutputOneline::OutOfBandRecord(a) => {
            if let Some(frame) = get_frame(&a) {
                if let Some((file, line)) = show_file(&frame) {
                    actions.push(MiAction::ShowFile(file, line, frame));
                } else if let Some((func, addr)) = show_asm(&frame) {
                    actions.push(MiAction::ShowAsm(func, addr, frame));
                }
            }
            let ghost nf = actions@.len();
            assert(nf == frame_event_count(a));
            if let Some(b) = show_bkpt(&a) {
                actions.push(MiAction::Breakpoint(b));
            }
            let ghost nb = actions@.len() - nf;
            if let Some(id) = show_breakpoint_deleted(&a) {
                actions.push(MiAction::BreakpointDeleted(id));
            }
        },
        OutputOneline::ResultRecord(r) => {
            if let Some(d) = get_disassemble_function(r) {
                actions.push(MiAction::ReadAsmFunc(d));
            }
        },
    }
    actions
}

/// The events of one line of the machine-interface channel; a line that
/// does not parse gives none.
pub fn gdb_mi_line(line: &str) -> (r: Vec<MiAction>)
    ensures
        (exists|o: OutputOneline| is_text_of_line(o, line@)) ==> exists|o: OutputOneline|
            is_text_of_line(o, line@) && line_events(o, r@),
        !(exists|o: OutputOneline| is_text_of_line(o, line@)) ==> r@.len() == 0,
{
    match parse_output_oneline(line) {
        Ok(o) => {
            let ghost og = o;
            let r = record_actions(o);
            assert(is_text_of_line(og, line@) && line_events(og, r@));
            r
        },
        Err(_) => Vec::new(),
    }
}

// ---------------------------------------------------------------------------
// The end of the session.

/// What the session asks for at a tick or after an event.
#[derive(Copy, Clone, Debug, PartialEq, Eq, Structural)]
pub enum SessionAction {
    /// The debugger exited: the session ended.
    GdbExit,
    /// Shut the application down.
    Quit,
}

/// Whether the end of the session has been reported.
pub struct Session {
    pub ended: bool,
}

/// One tick: `exited` tells whether the debugger's wait status came back.
/// The end is reported once, at the first tick that sees the exit.
pub open spec fn tick_step(ended: bool, exited: bool) -> (bool, Option<SessionAction>) {
    if exited && !ended {
        (true, Some(SessionAction::GdbExit))
    } else {
        (ended, None)
    }
}

/// How many times a run of ticks reports the end, from state `ended`.
pub open spec fn exits_reported(ended: bool, ticks: Seq<bool>) -> nat
    decreases ticks.len(),
{
    if ticks.len() == 0 {
        0
    } else {
        let (e, a) = tick_step(ended, ticks[0]);
        (if a is Some { 1nat } else { 0nat }) + exits_reported(e, ticks.subrange(1, ticks.len() as int))
    }
}

impl Session {
    pub fn new() -> (r: Self)
        ensures
            !r.ended,
    {
        Session { ended: false }
    }

    /// A tick of the application loop.
    pub fn tick(&mut self, exited: bool) -> (r: Option<SessionAction>)
        ensures
            (final(self).ended, r) == tick_step(old(self).ended, exited),
    {
        if exited && !self.ended {
            self.ended = true;
            Some(SessionAction::GdbExit)
        } else {
            None
        }
    }

    /// The action that follows an event: the end of the session asks to quit.
    pub fn handle(&self, a: SessionAction) -> (r: Option<SessionAction>)
        ensures
            r == (if a == SessionAction::GdbExit { Some(SessionAction::Quit) } else { None }),
    {
        match a {
            SessionAction::GdbExit => Some(SessionAction::Quit),
            SessionAction::Quit => None,
        }
    }
}

/// However many ticks see the debugger gone, the end of the session is
/// reported exactly once if any of them does and it was not reported
/// before, and never otherwise.
pub proof fn lemma_exit_reported_once(ended: bool, ticks: Seq<bool>)
    ensures
        exits_reported(ended, ticks) == (if !ended && (exists|i: int| 0 <= i < ticks.len() && ticks[i]) {
            1nat
        } else {
            0nat
        }),
    decreases ticks.len(),
{
    if ended {
        lemma_ended_reports_none(ticks);
    } else if ticks.len() > 0 {
        let rest = ticks.subrange(1, ticks.len() as int);
        if ticks[0] {
            lemma_ended_reports_none(rest);
        } else {
            lemma_exit_reported_once(false, rest);
            if exists|i: int| 0 <= i < ticks.len() && ticks[i] {
                let i = choose|i: int| 0 <= i < ticks.len() && ticks[i];
                assert(rest[i - 1]);
            }
            if exists|i: int| 0 <= i < rest.len() && rest[i] {
                let i = choose|i: int| 0 <= i < rest.len() && rest[i];
                assert(ticks[i + 1]);
            }
        }
    }
}

proof fn lemma_ended_reports_none(ticks: Seq<bool>)
    ensures
        exits_reported(true, ticks) == 0,
    decreases ticks.len(),
{
    if ticks.len() > 0 {
        lemma_ended_reports_none(ticks.subrange(1, ticks.len() as int));
    }
}

} // verus!
