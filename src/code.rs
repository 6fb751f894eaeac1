use vstd::prelude::*;
use crate::asmfuncdata::{line_id_of, AsmFuncData};
use crate::breakpoint::{key_of, BreakPointData};
use crate::breakpointmi::BreakPointAction;
use crate::disassemble::DisassembleFunction;
use crate::fields::str_eq;
use crate::frame::Frame;
use crate::number::{radix_text, u64_to_string};
use crate::srcfiledata::{span_view, spans_view, text_lines, Color, SrcFileData};

verus! {

/// The source line to show.
#[derive(Debug, Clone, PartialEq, Eq)]
pub struct FileNeedShowSrcFile {
    pub name: String,
    pub line: u64,
}

/// The instruction to show.
#[derive(Debug, Clone, PartialEq, Eq)]
pub struct FileNeedShowAsmFunc {
    pub name: String,
    pub addr: String,
}

/// What the code view shows.
#[derive(Debug, Clone, PartialEq, Eq)]
pub enum FileNeedShow {
    Nothing,
    SrcFile(FileNeedShowSrcFile),
    AsmFile(FileNeedShowAsmFunc),
}

/// The entity to show and the line to show in it: an index into the
/// source files or into the listings of the cache, and a line id.
#[derive(Copy, Clone, Debug, PartialEq, Eq, Structural)]
pub enum FileDataReal {
    Nothing,
    SrcFile(usize, u64),
    AsmFile(usize, u64),
}

/// Work that the cache asks of the caller.
#[derive(Debug, Clone, PartialEq, Eq)]
pub enum Action {
    /// Start the task that reads this file line by line.
    ReadFile(String, Frame),
    /// Ask the debugger to disassemble the function at this address.
    DisassembleAsm(String),
    /// Show the frame in disassembly instead (its source cannot be read).
    ShowAsm(String, String, Frame),
    /// Start the task that highlights these lines of a source file.
    HighlightFile(String, Vec<String>),
    /// Highlight the instruction lines of this listing.
    HighlightAsm(String, Vec<String>),
}

/// Where an entity of the cache stands.
#[derive(Copy, Clone, Debug, PartialEq, Eq, Structural)]
pub enum EntityState {
    Unrequested,
    Loading,
    Highlighting,
    HighlightReady,
}

/// The entity cache: source files and disassembled functions, each loaded
/// once, and the breakpoints to mark in them.
pub struct Code {
    pub files_set: Vec<SrcFileData>,
    pub read_fail_files_set: Vec<String>,
    pub asm_func_set: Vec<AsmFuncData>,
    pub breakpoint_set: Vec<BreakPointData>,
    pub file_need_show: FileNeedShow,
}

pub open spec fn file_index(files: Seq<SrcFileData>, key: Seq<char>) -> Option<int> {
    if exists|i: int| 0 <= i < files.len() && (#[trigger] files[i]).file_name@ == key {
        Some(choose|i: int| 0 <= i < files.len() && (#[trigger] files[i]).file_name@ == key)
    } else {
        None
    }
}

pub open spec fn asm_index(fs: Seq<AsmFuncData>, key: Seq<char>) -> Option<int> {
    if exists|i: int| 0 <= i < fs.len() && (#[trigger] fs[i]).func_name@ == key {
        Some(choose|i: int| 0 <= i < fs.len() && (#[trigger] fs[i]).func_name@ == key)
    } else {
        None
    }
}

pub open spec fn has_failed(fails: Seq<String>, key: Seq<char>) -> bool {
    exists|i: int| 0 <= i < fails.len() && (#[trigger] fails[i])@ == key
}

impl Code {
    /// Keys are unique in each set, and each listing's table is ascending.
    pub open spec fn wf(&self) -> bool {
        &&& forall|i: int, j: int|
            0 <= i < j < self.files_set@.len() ==> (#[trigger] self.files_set@[i]).file_name@
                != (#[trigger] self.files_set@[j]).file_name@
        &&& forall|i: int, j: int|
            0 <= i < j < self.asm_func_set@.len() ==> (#[trigger] self.asm_func_set@[i]).func_name@
                != (#[trigger] self.asm_func_set@[j]).func_name@
        &&& forall|i: int| 0 <= i < self.asm_func_set@.len() ==> (#[trigger] self.asm_func_set@[i]).wf()
        &&& forall|i: int, j: int|
            0 <= i < j < self.breakpoint_set@.len() ==> key_of(
                #[trigger] self.breakpoint_set@[i],
            ) != key_of(#[trigger] self.breakpoint_set@[j])
    }

    /// Where the source file `key` stands.
    pub open spec fn file_state(&self, key: Seq<char>) -> EntityState {
        match file_index(self.files_set@, key) {
            None => EntityState::Unrequested,
            Some(i) => {
                let f = self.files_set@[i];
                if !f.read_done {
                    EntityState::Loading
                } else if !f.highlight_done {
                    EntityState::Highlighting
                } else {
                    EntityState::HighlightReady
                }
            },
        }
    }

    /// A request for `file` starts a read exactly when the file is neither
    /// in the cache nor known to be unreadable.
    pub open spec fn starts_read(&self, file: Seq<char>) -> bool {
        file_index(self.files_set@, file) is None && !has_failed(self.read_fail_files_set@, file)
    }

    pub fn new() -> (r: Self)
        ensures
            r.wf(),
            r.files_set@.len() == 0,
            r.read_fail_files_set@.len() == 0,
            r.asm_func_set@.len() == 0,
            r.breakpoint_set@.len() == 0,
            r.file_need_show == FileNeedShow::Nothing,
    {
        Code {
            files_set: Vec::new(),
            read_fail_files_set: Vec::new(),
            asm_func_set: Vec::new(),
            breakpoint_set: Vec::new(),
            file_need_show: FileNeedShow::Nothing,
        }
    }

    pub fn get_breakpoints(&self) -> (r: &Vec<BreakPointData>)
        ensures
            r == &self.breakpoint_set,
    {
        &self.breakpoint_set
    }

    fn find_file(&self, key: &str) -> (r: Option<usize>)
        requires
            self.wf(),
        ensures
            r matches Some(i) ==> file_index(self.files_set@, key@) == Some(i as int),
            r is None ==> file_index(self.files_set@, key@) is None,
    {
        let mut i: usize = 0;
        while i < self.files_set.len()
            invariant
                0 <= i <= self.files_set@.len(),
                self.wf(),
                forall|k: int| 0 <= k < i ==> (#[trigger] self.files_set@[k]).file_name@ != key@,
            decreases self.files_set.len() - i,
        {
            if str_eq(self.files_set[i].file_name.as_str(), key) {
                proof {
                    let c = choose|k: int|
                        0 <= k < self.files_set@.len() && (#[trigger] self.files_set@[k]).file_name@
                            == key@;
                    if c != i {
                        if c < i {
                            assert(self.files_set@[c].file_name@ != self.files_set@[i as int].file_name@);
                        } else {
                            assert(self.files_set@[i as int].file_name@ != self.files_set@[c].file_name@);
                        }
                    }
                }
                return Some(i);
            }
            i = i + 1;
        }
        None
    }

    fn find_asm(&self, key: &str) -> (r: Option<usize>)
        requires
            self.wf(),
        ensures
            r matches Some(i) ==> asm_index(self.asm_func_set@, key@) == Some(i as int),
            r is None ==> asm_index(self.asm_func_set@, key@) is None,
    {
        let mut i: usize = 0;
        while i < self.asm_func_set.len()
            invariant
                0 <= i <= self.asm_func_set@.len(),
                self.wf(),
                forall|k: int| 0 <= k < i ==> (#[trigger] self.asm_func_set@[k]).func_name@ != key@,
            decreases self.asm_func_set.len() - i,
        {
            if str_eq(self.asm_func_set[i].func_name.as_str(), key) {
                proof {
                    let c = choose|k: int|
                        0 <= k < self.asm_func_set@.len() && (#[trigger] self.asm_func_set@[k]).func_name@
                            == key@;
                    if c != i {
                        if c < i {
                            assert(self.asm_func_set@[c].func_name@ != self.asm_func_set@[i as int].func_name@);
                        } else {
                            assert(self.asm_func_set@[i as int].func_name@ != self.asm_func_set@[c].func_name@);
                        }
                    }
                }
                return Some(i);
            }
            i = i + 1;
        }
        None
    }

    fn is_failed(&self, key: &str) -> (r: bool)
        ensures
            r == has_failed(self.read_fail_files_set@, key@),
    {
        let mut i: usize = 0;
        while i < self.read_fail_files_set.len()
            invariant
                0 <= i <= self.read_fail_files_set@.len(),
                forall|k: int| 0 <= k < i ==> (#[trigger] self.read_fail_files_set@[k])@ != key@,
            decreases self.read_fail_files_set.len() - i,
        {
            if str_eq(self.read_fail_files_set[i].as_str(), key) {
                return true;
            }
            i = i + 1;
        }
        false
    }
}

impl Code {
    /// A request to show `line` of `file`: a file that cannot be read is
    /// shown in disassembly when the frame names its function; any other
    /// file becomes the one to show and is read only if it is not cached yet.
    pub fn show_file(&mut self, file: String, line_id: u64, frame: Frame) -> (r: Option<Action>)
        requires
            old(self).wf(),
        ensures
            final(self).wf(),
            show_file_post(*old(self), *final(self), file@),
            (r matches Some(Action::ReadFile(f, _)) && f@ == file@) <==> old(self).starts_read(file@),
            r matches Some(Action::ReadFile(_, fr)) ==> fr == frame,
            old(self).starts_read(file@) ==> final(self).file_state(file@) == EntityState::Loading,
            old(self).starts_read(file@) ==> grows_by_one(old(self).files_set@, final(self).files_set@)
                && fresh_src(final(self).files_set@.last(), file@),
            !old(self).starts_read(file@) && !has_failed(old(self).read_fail_files_set@, file@)
                ==> r is None,
            has_failed(old(self).read_fail_files_set@, file@) ==> final(self).file_need_show
                == old(self).file_need_show,
            !old(self).starts_read(file@) ==> final(self).files_set == old(self).files_set,
            has_failed(old(self).read_fail_files_set@, file@) ==> (r is Some <==> frame.func is Some),
            has_failed(old(self).read_fail_files_set@, file@) ==> (r matches Some(Action::ShowAsm(
                func,
                addr,
                _,
            )) ==> func@ == frame.func->0@ && addr@ == frame.addr@),
            !has_failed(old(self).read_fail_files_set@, file@) ==> (final(self).file_need_show
                matches FileNeedShow::SrcFile(s) && s.name@ == file@ && s.line == line_id),
            final(self).asm_func_set == old(self).asm_func_set,
            final(self).breakpoint_set == old(self).breakpoint_set,
    {
        if self.is_failed(file.as_str()) {
            return match &frame.func {
                Some(func) => {
                    let func = func.clone();
                    let addr = frame.addr.clone();
                    Some(Action::ShowAsm(func, addr, frame))
                },
                None => None,
            };
        }
        self.file_need_show = FileNeedShow::SrcFile(
            FileNeedShowSrcFile { name: file.clone(), line: line_id },
        );
        match self.find_file(file.as_str()) {
            Some(_) => None,
            None => {
                let data = SrcFileData::new(file.clone());
                let ghost old_files = self.files_set@;
                self.files_set.push(data);
                proof {
                    let n = old_files.len() as int;
                    assert(self.files_set@[n].file_name@ == file@);
                    assert forall|i: int, j: int|
                        0 <= i < j < self.files_set@.len() implies (#[trigger] self.files_set@[i]).file_name@
                        != (#[trigger] self.files_set@[j]).file_name@ by {
                        if j == n {
                            assert(old_files[i].file_name@ != file@);
                        } else {
                            assert(old_files[i].file_name@ != old_files[j].file_name@);
                        }
                    }
                    let c = choose|i: int|
                        0 <= i < self.files_set@.len() && (#[trigger] self.files_set@[i]).file_name@
                            == file@;
                    if c != n {
                        assert(old_files[c].file_name@ != file@);
                    }
                    assert(self.files_set@.subrange(0, n) =~= old_files);
                }
                Some(Action::ReadFile(file, frame))
            },
        }
    }

    /// A request to show the instruction at `addr` of `func`: the listing
    /// becomes the one to show and is asked for only if it is not cached yet.
    pub fn show_asm(&mut self, func: String, addr: String) -> (r: Option<Action>)
        requires
            old(self).wf(),
        ensures
            final(self).wf(),
            (r is Some) <==> asm_index(old(self).asm_func_set@, func@) is None,
            r matches Some(a) ==> (a matches Action::DisassembleAsm(x) && x@ == addr@),
            asm_index(final(self).asm_func_set@, func@) is Some,
            asm_index(old(self).asm_func_set@, func@) is Some ==> final(self).asm_func_set
                == old(self).asm_func_set,
            asm_index(old(self).asm_func_set@, func@) is None ==> grows_by_one(
                old(self).asm_func_set@,
                final(self).asm_func_set@,
            ) && fresh_asm(final(self).asm_func_set@.last(), func@),
            final(self).file_need_show matches FileNeedShow::AsmFile(s) && s.name@ == func@
                && s.addr@ == addr@,
            final(self).files_set == old(self).files_set,
            final(self).read_fail_files_set == old(self).read_fail_files_set,
            final(self).breakpoint_set == old(self).breakpoint_set,
    {
        self.file_need_show = FileNeedShow::AsmFile(
            FileNeedShowAsmFunc { name: func.clone(), addr: addr.clone() },
        );
        match self.find_asm(func.as_str()) {
            Some(_) => None,
            None => {
                let data = AsmFuncData::new(func.clone());
                let ghost old_fs = self.asm_func_set@;
                self.asm_func_set.push(data);
                proof {
                    let n = old_fs.len() as int;
                    assert(self.asm_func_set@[n].func_name@ == func@);
                    assert forall|i: int, j: int|
                        0 <= i < j < self.asm_func_set@.len() implies (#[trigger] self.asm_func_set@[i]).func_name@
                        != (#[trigger] self.asm_func_set@[j]).func_name@ by {
                        if j == n {
                            assert(old_fs[i].func_name@ != func@);
                        } else {
                            assert(old_fs[i].func_name@ != old_fs[j].func_name@);
                        }
                    }
                    assert forall|i: int| 0 <= i < self.asm_func_set@.len() implies (
                    #[trigger] self.asm_func_set@[i]).wf() by {
                        if i < n {
                            assert(old_fs[i].wf());
                        }
                    }
                    let c = choose|i: int|
                        0 <= i < self.asm_func_set@.len() && (#[trigger] self.asm_func_set@[i]).func_name@
                            == func@;
                    assert(self.asm_func_set@.subrange(0, n) =~= old_fs);
                }
                Some(Action::DisassembleAsm(addr))
            },
        }
    }

    /// A line that the read task of `file` delivered.
    pub fn file_read_line(&mut self, file: &str, line: String)
        requires
            old(self).wf(),
        ensures
            final(self).wf(),
            match file_index(old(self).files_set@, file@) {
                Some(i) => final(self).files_set@ == old(self).files_set@.update(
                    i,
                    final(self).files_set@[i],
                ) && final(self).files_set@[i].lines_view() == old(self).files_set@[i].lines_view().push(
                    line@,
                ) && final(self).files_set@[i].file_name == old(self).files_set@[i].file_name
                    && final(self).files_set@[i].highlight_view() == old(self).files_set@[i].highlight_view()
                    && final(self).files_set@[i].read_done == old(self).files_set@[i].read_done
                    && final(self).files_set@[i].highlight_done == old(self).files_set@[i].highlight_done,
                None => final(self).files_set == old(self).files_set,
            },
            final(self).file_need_show == old(self).file_need_show,
            final(self).asm_func_set == old(self).asm_func_set,
            final(self).breakpoint_set == old(self).breakpoint_set,
            final(self).read_fail_files_set == old(self).read_fail_files_set,
    {
        if let Some(i) = self.find_file(file) {
            let mut f = self.files_set.remove(i);
            f.add_line(line);
            self.files_set.insert(i, f);
            proof {
                assert(self.files_set@ =~= old(self).files_set@.update(i as int, self.files_set@[i as int]));
                self.lemma_files_renamed_none(*old(self), i as int);
            }
        }
    }

    /// The read task of `file` reached the end: the file is read and its
    /// highlighting is asked for.
    pub fn file_read_end(&mut self, file: &str) -> (r: Option<Action>)
        requires
            old(self).wf(),
        ensures
            final(self).wf(),
            r is Some <==> file_index(old(self).files_set@, file@) is Some,
            r matches Some(a) ==> (a matches Action::HighlightFile(f, lines) && f@ == file@
                && crate::srcfiledata::text_lines(lines@) == old(self).files_set@[file_index(
                old(self).files_set@,
                file@,
            )->0].lines_view()),
            match file_index(old(self).files_set@, file@) {
                Some(i) => final(self).files_set@ == old(self).files_set@.update(
                    i,
                    final(self).files_set@[i],
                ) && final(self).files_set@[i].read_done && final(self).files_set@[i].highlight_done
                    == old(self).files_set@[i].highlight_done && final(self).files_set@[i].file_name
                    == old(self).files_set@[i].file_name && final(self).files_set@[i].lines_view()
                    == old(self).files_set@[i].lines_view() && final(self).files_set@[i].highlight_view()
                    == old(self).files_set@[i].highlight_view() && (!old(self).files_set@[i].highlight_done
                    ==> final(self).file_state(file@) == EntityState::Highlighting),
                None => final(self).files_set == old(self).files_set,
            },
            final(self).file_need_show == old(self).file_need_show,
            final(self).asm_func_set == old(self).asm_func_set,
            final(self).breakpoint_set == old(self).breakpoint_set,
            final(self).read_fail_files_set == old(self).read_fail_files_set,
    {
        match self.find_file(file) {
            Some(i) => {
                let mut f = self.files_set.remove(i);
                f.set_read_done();
                let lines = f.get_lines().clone();
                let name = f.get_file_name();
                self.files_set.insert(i, f);
                proof {
                    assert(self.files_set@ =~= old(self).files_set@.update(i as int, self.files_set@[i as int]));
                    self.lemma_files_renamed_none(*old(self), i as int);
                    assert(file_index(self.files_set@, file@) is Some);
                    let c = file_index(self.files_set@, file@)->0;
                    if c != i {
                        assert(self.files_set@[c].file_name@ != self.files_set@[i as int].file_name@);
                    }
                    assert(crate::srcfiledata::text_lines(lines@) =~= old(self).files_set@[i as int].lines_view());
                }
                Some(Action::HighlightFile(name, lines))
            },
            None => None,
        }
    }

    /// The read task of `file` could not open it: the file is dropped from
    /// the cache and remembered as unreadable, and the frame is shown in
    /// disassembly when it names its function.
    pub fn file_read_fail(&mut self, file: &str, frame: Frame) -> (r: Option<Action>)
        requires
            old(self).wf(),
        ensures
            final(self).wf(),
            has_failed(final(self).read_fail_files_set@, file@),
            file_index(final(self).files_set@, file@) is None,
            final(self).file_need_show == FileNeedShow::Nothing,
            r is Some <==> frame.func is Some,
            r matches Some(a) ==> (a matches Action::ShowAsm(func, addr, _) && func@
                == frame.func->0@ && addr@ == frame.addr@),
            r matches Some(Action::ShowAsm(_, _, f)) ==> f == frame,
            match file_index(old(self).files_set@, file@) {
                Some(i) => final(self).files_set@ == old(self).files_set@.remove(i),
                None => final(self).files_set == old(self).files_set,
            },
            final(self).asm_func_set == old(self).asm_func_set,
            final(self).breakpoint_set == old(self).breakpoint_set,
    {
        if let Some(i) = self.find_file(file) {
            let ghost old_files = self.files_set@;
            let _ = self.files_set.remove(i);
            proof {
                assert forall|a: int, b: int|
                    0 <= a < b < self.files_set@.len() implies (#[trigger] self.files_set@[a]).file_name@
                    != (#[trigger] self.files_set@[b]).file_name@ by {
                    let a0 = if a < i { a } else { a + 1 };
                    let b0 = if b < i { b } else { b + 1 };
                    assert(self.files_set@[a] == old_files[a0]);
                    assert(self.files_set@[b] == old_files[b0]);
                }
                if file_index(self.files_set@, file@) is Some {
                    let c = choose|k: int|
                        0 <= k < self.files_set@.len() && (#[trigger] self.files_set@[k]).file_name@
                            == file@;
                    let c0 = if c < i { c } else { c + 1 };
                    assert(self.files_set@[c] == old_files[c0]);
                    assert(old_files[c0].file_name@ != old_files[i as int].file_name@);
                }
            }
        }
        if !self.is_failed(file) {
            let ghost old_fails = self.read_fail_files_set@;
            self.read_fail_files_set.push(String::from_str(file));
            assert(self.read_fail_files_set@[old_fails.len() as int]@ == file@);
        }
        self.file_need_show = FileNeedShow::Nothing;
        match &frame.func {
            Some(func) => {
                let func = func.clone();
                let addr = frame.addr.clone();
                Some(Action::ShowAsm(func, addr, frame))
            },
            None => None,
        }
    }

    /// One highlighted line of `file`.
    pub fn file_highlight_line(&mut self, file: &str, spans: Vec<(Color, String)>)
        requires
            old(self).wf(),
        ensures
            final(self).wf(),
            match file_index(old(self).files_set@, file@) {
                Some(i) => final(self).files_set@ == old(self).files_set@.update(
                    i,
                    final(self).files_set@[i],
                ) && final(self).files_set@[i].highlight_view() == old(self).files_set@[i].highlight_view().push(
                    span_view(spans@),
                ) && final(self).files_set@[i].file_name == old(self).files_set@[i].file_name
                    && final(self).files_set@[i].lines_view() == old(self).files_set@[i].lines_view()
                    && final(self).files_set@[i].read_done == old(self).files_set@[i].read_done
                    && final(self).files_set@[i].highlight_done == old(self).files_set@[i].highlight_done,
                None => final(self).files_set == old(self).files_set,
            },
            final(self).file_need_show == old(self).file_need_show,
            final(self).asm_func_set == old(self).asm_func_set,
            final(self).breakpoint_set == old(self).breakpoint_set,
            final(self).read_fail_files_set == old(self).read_fail_files_set,
    {
        if let Some(i) = self.find_file(file) {
            let mut f = self.files_set.remove(i);
            f.add_highlight_line(spans);
            self.files_set.insert(i, f);
            proof {
                assert(self.files_set@ =~= old(self).files_set@.update(i as int, self.files_set@[i as int]));
                self.lemma_files_renamed_none(*old(self), i as int);
            }
        }
    }

    /// The highlight task of `file` finished.
    pub fn file_highlight_end(&mut self, file: &str)
        requires
            old(self).wf(),
        ensures
            final(self).wf(),
            match file_index(old(self).files_set@, file@) {
                Some(i) => final(self).files_set@ == old(self).files_set@.update(
                    i,
                    final(self).files_set@[i],
                ) && final(self).files_set@[i].highlight_done && final(self).files_set@[i].read_done
                    == old(self).files_set@[i].read_done && final(self).files_set@[i].file_name
                    == old(self).files_set@[i].file_name && final(self).files_set@[i].lines_view()
                    == old(self).files_set@[i].lines_view() && final(self).files_set@[i].highlight_view()
                    == old(self).files_set@[i].highlight_view(),
                None => final(self).files_set == old(self).files_set,
            },
            final(self).file_need_show == old(self).file_need_show,
            final(self).asm_func_set == old(self).asm_func_set,
            final(self).breakpoint_set == old(self).breakpoint_set,
            final(self).read_fail_files_set == old(self).read_fail_files_set,
    {
        if let Some(i) = self.find_file(file) {
            let mut f = self.files_set.remove(i);
            f.set_highlight_done();
            self.files_set.insert(i, f);
            proof {
                assert(self.files_set@ =~= old(self).files_set@.update(i as int, self.files_set@[i as int]));
                self.lemma_files_renamed_none(*old(self), i as int);
            }
        }
    }

    proof fn lemma_files_renamed_none(&self, before: Code, i: int)
        requires
            before.wf(),
            0 <= i < before.files_set@.len(),
            self.files_set@ == before.files_set@.update(i, self.files_set@[i]),
            self.files_set@[i].file_name == before.files_set@[i].file_name,
            self.asm_func_set == before.asm_func_set,
            self.breakpoint_set == before.breakpoint_set,
        ensures
            self.wf(),
    {
        assert forall|a: int, b: int|
            0 <= a < b < self.files_set@.len() implies (#[trigger] self.files_set@[a]).file_name@
            != (#[trigger] self.files_set@[b]).file_name@ by {
            assert(before.files_set@[a].file_name@ != before.files_set@[b].file_name@);
        }
    }

    /// The debugger's listing of `func` arrived: it fills the entity that
    /// asked for it, and its instruction lines are to be highlighted.
    pub fn read_asm_func(&mut self, func: &DisassembleFunction) -> (r: Option<Action>)
        requires
            old(self).wf(),
            func.insts@.len() < u64::MAX - 2,
        ensures
            final(self).wf(),
            r is Some <==> asm_index(old(self).asm_func_set@, func.func@) is Some,
            r matches Some(a) ==> (a matches Action::HighlightAsm(name, _) && name@ == func.func@),
            match asm_index(old(self).asm_func_set@, func.func@) {
                Some(i) => {
                    &&& final(self).asm_func_set@ == old(self).asm_func_set@.update(
                        i,
                        final(self).asm_func_set@[i],
                    )
                    &&& final(self).asm_func_set@[i].read_done
                    &&& text_lines(final(self).asm_func_set@[i].lines@) == text_lines(
                        old(self).asm_func_set@[i].lines@,
                    ) + crate::asmfuncdata::asm_listing(*func)
                    &&& func.insts@.len() > 0 ==> crate::asmfuncdata::table_of(
                        final(self).asm_func_set@[i].addrs@,
                        func.insts@,
                    )
                    &&& final(self).asm_func_set@[i].func_name == old(self).asm_func_set@[i].func_name
                    &&& final(self).asm_func_set@[i].lines_highlight == old(self).asm_func_set@[i].lines_highlight
                    &&& final(self).asm_func_set@[i].highlight_done == old(self).asm_func_set@[i].highlight_done
                    &&& r matches Some(Action::HighlightAsm(_, lines)) && text_lines(lines@)
                        == text_lines(final(self).asm_func_set@[i].lines@)
                },
                None => final(self).asm_func_set == old(self).asm_func_set,
            },
            final(self).file_need_show == old(self).file_need_show,
            final(self).files_set == old(self).files_set,
            final(self).breakpoint_set == old(self).breakpoint_set,
            final(self).read_fail_files_set == old(self).read_fail_files_set,
    {
        match self.find_asm(func.func.as_str()) {
            Some(i) => {
                let mut a = self.asm_func_set.remove(i);
                proof {
                    assert(old(self).asm_func_set@[i as int].wf());
                }
                a.add_lines(func);
                a.set_read_done();
                let lines = a.get_lines().clone();
                let name = a.get_key();
                self.asm_func_set.insert(i, a);
                proof {
                    let before = old(self).asm_func_set@;
                    assert(self.asm_func_set@ =~= before.update(i as int, self.asm_func_set@[i as int]));
                    assert forall|x: int, y: int|
                        0 <= x < y < self.asm_func_set@.len() implies (#[trigger] self.asm_func_set@[x]).func_name@
                        != (#[trigger] self.asm_func_set@[y]).func_name@ by {
                        assert(before[x].func_name@ != before[y].func_name@);
                    }
                    assert forall|x: int| 0 <= x < self.asm_func_set@.len() implies (
                    #[trigger] self.asm_func_set@[x]).wf() by {
                        if x != i {
                            assert(before[x].wf());
                        } else if func.insts@.len() == 0 {
                            assert(before[x].wf());
                        }
                    }
                }
                assert(text_lines(lines@) =~= text_lines(self.asm_func_set@[i as int].lines@));
                Some(Action::HighlightAsm(name, lines))
            },
            None => None,
        }
    }

    /// The highlighted instruction lines of the listing of `func`.
    pub fn asm_highlight_done(&mut self, func: &str, body: Vec<Vec<(Color, String)>>)
        requires
            old(self).wf(),
        ensures
            final(self).wf(),
            match asm_index(old(self).asm_func_set@, func@) {
                Some(i) => if old(self).asm_func_set@[i].lines@.len() >= 2 {
                    let o = old(self).asm_func_set@[i];
                    let n = final(self).asm_func_set@[i];
                    &&& final(self).asm_func_set@ == old(self).asm_func_set@.update(i, n)
                    &&& n.highlight_done
                    &&& spans_view(n.lines_highlight@) == seq![
                        seq![
                            (Color::White, "Dump of assembler code for function "@),
                            (Color::Blue, o.func_name@),
                            (Color::White, ":\n"@),
                        ],
                    ] + spans_view(body@) + seq![seq![(Color::White, o.lines@[o.lines@.len() - 1]@)]]
                    &&& n.func_name == o.func_name
                    &&& n.lines == o.lines
                    &&& n.addrs == o.addrs
                    &&& n.read_done == o.read_done
                } else {
                    final(self).asm_func_set == old(self).asm_func_set
                },
                None => final(self).asm_func_set == old(self).asm_func_set,
            },
            final(self).file_need_show == old(self).file_need_show,
            final(self).files_set == old(self).files_set,
            final(self).breakpoint_set == old(self).breakpoint_set,
            final(self).read_fail_files_set == old(self).read_fail_files_set,
    {
        if let Some(i) = self.find_asm(func) {
            if self.asm_func_set[i].lines.len() >= 2 {
                let mut a = self.asm_func_set.remove(i);
                a.add_highlight_lines(body);
                a.set_highlight_done();
                self.asm_func_set.insert(i, a);
                proof {
                    let before = old(self).asm_func_set@;
                    assert(self.asm_func_set@ =~= before.update(i as int, self.asm_func_set@[i as int]));
                    assert forall|x: int, y: int|
                        0 <= x < y < self.asm_func_set@.len() implies (#[trigger] self.asm_func_set@[x]).func_name@
                        != (#[trigger] self.asm_func_set@[y]).func_name@ by {
                        assert(before[x].func_name@ != before[y].func_name@);
                    }
                    assert forall|x: int| 0 <= x < self.asm_func_set@.len() implies (
                    #[trigger] self.asm_func_set@[x]).wf() by {
                        assert(before[x].wf());
                    }
                }
            }
        }
    }

    fn remove_breakpoint(&mut self, key: &str)
        requires
            old(self).wf(),
        ensures
            final(self).wf(),
            forall|i: int| 0 <= i < final(self).breakpoint_set@.len() ==> key_of(
                #[trigger] final(self).breakpoint_set@[i],
            ) != key@,
            forall|i: int|
                0 <= i < old(self).breakpoint_set@.len() && key_of(
                    #[trigger] old(self).breakpoint_set@[i],
                ) != key@ ==> final(self).breakpoint_set@.contains(old(self).breakpoint_set@[i]),
            forall|b: BreakPointData| #[trigger] final(self).breakpoint_set@.contains(b) ==> old(self).breakpoint_set@.contains(b),
            final(self).files_set == old(self).files_set,
            final(self).asm_func_set == old(self).asm_func_set,
            final(self).read_fail_files_set == old(self).read_fail_files_set,
            final(self).file_need_show == old(self).file_need_show,
    {
        let mut i: usize = 0;
        while i < self.breakpoint_set.len()
            invariant
                0 <= i <= self.breakpoint_set@.len(),
                *self == *old(self),
                old(self).wf(),
                forall|k: int| 0 <= k < i ==> key_of(#[trigger] self.breakpoint_set@[k]) != key@,
            decreases self.breakpoint_set.len() - i,
        {
            let k = self.breakpoint_set[i].get_key();
            if str_eq(k.as_str(), key) {
                let ghost before = self.breakpoint_set@;
                let _ = self.breakpoint_set.remove(i);
                proof {
                    assert(old(self).wf());
                    assert forall|a: int| 0 <= a < self.breakpoint_set@.len() implies key_of(
                        #[trigger] self.breakpoint_set@[a],
                    ) != key@ by {
                        let a0 = if a < i { a } else { a + 1 };
                        assert(self.breakpoint_set@[a] == before[a0]);
                        if a >= i {
                            assert(key_of(before[i as int]) != key_of(before[a0]));
                        }
                    }
                    assert forall|a: int, b: int|
                        0 <= a < b < self.breakpoint_set@.len() implies key_of(
                        #[trigger] self.breakpoint_set@[a],
                    ) != key_of(#[trigger] self.breakpoint_set@[b]) by {
                        let a0 = if a < i { a } else { a + 1 };
                        let b0 = if b < i { b } else { b + 1 };
                        assert(self.breakpoint_set@[a] == before[a0]);
                        assert(self.breakpoint_set@[b] == before[b0]);
                    }
                    assert forall|a: int|
                        0 <= a < before.len() && key_of(#[trigger] before[a]) != key@ implies self.breakpoint_set@.contains(
                        before[a],
                    ) by {
                        let a1 = if a < i { a } else { a - 1 };
                        assert(a != i);
                        assert(self.breakpoint_set@[a1] == before[a]);
                    }
                    assert forall|b: BreakPointData| #[trigger] self.breakpoint_set@.contains(b) implies before.contains(b) by {
                        let a = choose|a: int| 0 <= a < self.breakpoint_set@.len() && self.breakpoint_set@[a] == b;
                        let a0 = if a < i { a } else { a + 1 };
                        assert(self.breakpoint_set@[a] == before[a0]);
                    }
                }
                return;
            }
            i = i + 1;
        }
        proof {
            assert forall|a: int|
                0 <= a < self.breakpoint_set@.len() && key_of(#[trigger] self.breakpoint_set@[a]) != key@ implies self.breakpoint_set@.contains(
                self.breakpoint_set@[a],
            ) by {}
        }
    }

    /// A breakpoint reported by the debugger replaces the one with its number.
    pub fn breakpoint(&mut self, bkpt: &BreakPointAction)
        requires
            old(self).wf(),
        ensures
            final(self).wf(),
            exists|i: int|
                0 <= i < final(self).breakpoint_set@.len() && (#[trigger] final(self).breakpoint_set@[i])@
                    == bkpt@,
            forall|b: BreakPointData| #[trigger] final(self).breakpoint_set@.contains(b) ==> (b@
                == bkpt@ || (old(self).breakpoint_set@.contains(b) && key_of(b) != action_key(*bkpt))),
            forall|i: int|
                0 <= i < old(self).breakpoint_set@.len() && key_of(
                    #[trigger] old(self).breakpoint_set@[i],
                ) != action_key(*bkpt) ==> final(self).breakpoint_set@.contains(
                old(self).breakpoint_set@[i],
            ),
            final(self).files_set == old(self).files_set,
            final(self).asm_func_set == old(self).asm_func_set,
            final(self).read_fail_files_set == old(self).read_fail_files_set,
            final(self).file_need_show == old(self).file_need_show,
    {
        let data = BreakPointData::from(bkpt);
        let key = data.get_key();
        assert(key@ == action_key(*bkpt));
        self.remove_breakpoint(key.as_str());
        let ghost mid = self.breakpoint_set@;
        self.breakpoint_set.push(data);
        proof {
            let n = mid.len() as int;
            assert(self.breakpoint_set@[n] == data);
            assert forall|a: int, b: int|
                0 <= a < b < self.breakpoint_set@.len() implies key_of(
                #[trigger] self.breakpoint_set@[a],
            ) != key_of(#[trigger] self.breakpoint_set@[b]) by {
                if b == n {
                    assert(key_of(mid[a]) != key@);
                } else {
                    assert(self.breakpoint_set@[a] == mid[a]);
                }
            }
            assert forall|b: BreakPointData| #[trigger] self.breakpoint_set@.contains(b) implies (b@
                == bkpt@ || (old(self).breakpoint_set@.contains(b) && key_of(b) != action_key(*bkpt))) by {
                let a = choose|a: int| 0 <= a < self.breakpoint_set@.len() && self.breakpoint_set@[a] == b;
                if a < n {
                    assert(mid[a] == b);
                    assert(mid.contains(b));
                    assert(key_of(mid[a]) != key@);
                }
            }
            assert forall|i: int|
                0 <= i < old(self).breakpoint_set@.len() && key_of(
                    #[trigger] old(self).breakpoint_set@[i],
                ) != action_key(*bkpt) implies self.breakpoint_set@.contains(
                old(self).breakpoint_set@[i],
            ) by {
                assert(mid.contains(old(self).breakpoint_set@[i]));
                let a = choose|a: int| 0 <= a < mid.len() && mid[a] == old(self).breakpoint_set@[i];
                assert(self.breakpoint_set@[a] == mid[a]);
            }
        }
    }

    /// `=breakpoint-deleted`: the breakpoint numbered `id` goes away.
    pub fn breakpoint_deleted(&mut self, id: u64)
        requires
            old(self).wf(),
        ensures
            final(self).wf(),
            forall|i: int| 0 <= i < final(self).breakpoint_set@.len() ==> key_of(
                #[trigger] final(self).breakpoint_set@[i],
            ) != radix_text(id as nat, 10),
            forall|i: int|
                0 <= i < old(self).breakpoint_set@.len() && key_of(
                    #[trigger] old(self).breakpoint_set@[i],
                ) != radix_text(id as nat, 10) ==> final(self).breakpoint_set@.contains(
                old(self).breakpoint_set@[i],
            ),
            forall|b: BreakPointData| #[trigger] final(self).breakpoint_set@.contains(b) ==> old(self).breakpoint_set@.contains(b),
            final(self).files_set == old(self).files_set,
            final(self).asm_func_set == old(self).asm_func_set,
            final(self).read_fail_files_set == old(self).read_fail_files_set,
            final(self).file_need_show == old(self).file_need_show,
    {
        let key = u64_to_string(id);
        self.remove_breakpoint(key.as_str());
    }
}

impl Code {
    /// What the view shows: the entity named by `file_need_show` once it is
    /// read, with the line to show; a listing shows the line of its address,
    /// and an address that is not in its table shows nothing.
    pub fn get_file_need_show_return_file(&self) -> (r: FileDataReal)
        requires
            self.wf(),
        ensures
            r == (match self.file_need_show {
                FileNeedShow::Nothing => FileDataReal::Nothing,
                FileNeedShow::SrcFile(f) => match file_index(self.files_set@, f.name@) {
                    Some(i) => if self.files_set@[i].read_done {
                        FileDataReal::SrcFile(i as usize, f.line)
                    } else {
                        FileDataReal::Nothing
                    },
                    None => FileDataReal::Nothing,
                },
                FileNeedShow::AsmFile(f) => match asm_index(self.asm_func_set@, f.name@) {
                    Some(i) => if self.asm_func_set@[i].read_done {
                        match line_id_of(self.asm_func_set@[i].addrs@, f.addr@) {
                            Some(id) => FileDataReal::AsmFile(i as usize, id),
                            None => FileDataReal::Nothing,
                        }
                    } else {
                        FileDataReal::Nothing
                    },
                    None => FileDataReal::Nothing,
                },
            }),
    {
        match &self.file_need_show {
            FileNeedShow::Nothing => FileDataReal::Nothing,
            FileNeedShow::SrcFile(f) => match self.find_file(f.name.as_str()) {
                Some(i) => {
                    if self.files_set[i].read_done {
                        FileDataReal::SrcFile(i, f.line)
                    } else {
                        FileDataReal::Nothing
                    }
                },
                None => FileDataReal::Nothing,
            },
            FileNeedShow::AsmFile(f) => match self.find_asm(f.name.as_str()) {
                Some(i) => {
                    if self.asm_func_set[i].read_done {
                        assert(self.asm_func_set@[i as int].wf());
                        match self.asm_func_set[i].get_line_id(f.addr.as_str()) {
                            Some(id) => FileDataReal::AsmFile(i, id),
                            None => FileDataReal::Nothing,
                        }
                    } else {
                        FileDataReal::Nothing
                    }
                },
                None => FileDataReal::Nothing,
            },
        }
    }
}

/// The number of a reported breakpoint.
pub open spec fn action_key(a: BreakPointAction) -> Seq<char> {
    match a {
        BreakPointAction::Signal(p) => p.number@,
        BreakPointAction::Multiple(p) => p.number@,
    }
}

/// A source entity just created for `name`: nothing read, nothing highlighted.
pub open spec fn fresh_src(e: SrcFileData, name: Seq<char>) -> bool {
    &&& e.file_name@ == name
    &&& e.lines_view().len() == 0
    &&& e.highlight_view().len() == 0
    &&& !e.read_done
    &&& !e.highlight_done
}

/// A listing just created for `name`: no lines, no table, nothing highlighted.
pub open spec fn fresh_asm(e: AsmFuncData, name: Seq<char>) -> bool {
    &&& e.func_name@ == name
    &&& e.addrs@.len() == 0
    &&& e.lines@.len() == 0
    &&& e.lines_highlight@.len() == 0
    &&& !e.read_done
    &&& !e.highlight_done
}

/// `after` is `before` with one more entity at the end.
pub open spec fn grows_by_one<T>(before: Seq<T>, after: Seq<T>) -> bool {
    after.len() == before.len() + 1 && after.subrange(0, before.len() as int) == before
}

/// What a request to show `file` does to the cache: an unreadable file is
/// left alone; any other is in the cache afterwards, and the set of
/// unreadable files does not change.
pub open spec fn show_file_post(before: Code, after: Code, file: Seq<char>) -> bool {
    &&& after.read_fail_files_set@ == before.read_fail_files_set@
    &&& !has_failed(before.read_fail_files_set@, file) ==> file_index(after.files_set@, file) is Some
}

/// Showing the same file twice starts at most one read: after a first
/// request, a second one for the same file starts none.
pub proof fn lemma_second_request_starts_no_read(before: Code, after: Code, file: Seq<char>)
    requires
        show_file_post(before, after, file),
    ensures
        !after.starts_read(file),
{
}

} // verus!
