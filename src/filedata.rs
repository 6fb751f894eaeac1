use vstd::prelude::*;
use crate::asmfuncdata::AsmFuncData;
use crate::number::radix_text;
use crate::srcfiledata::{range_of, spans_view, text_lines, Color, SrcFileData};

verus! {

/// An entity of the cache is found by its key.
pub trait HashSelf {
    spec fn key_view(&self) -> Seq<char>;

    fn get_key(&self) -> (r: String)
        ensures
            r@ == self.key_view(),
    ;
}

/// Access to the raw text of an entity.
pub trait TextFileData {
    spec fn name_view(&self) -> Seq<char>;

    spec fn text_view(&self) -> Seq<Seq<char>>;

    spec fn read_done_view(&self) -> bool;

    fn get_file_name(&self) -> (r: String)
        ensures
            r@ == self.name_view(),
    ;

    fn get_read_done(&self) -> (r: bool)
        ensures
            r == self.read_done_view(),
    ;

    fn get_lines_len(&self) -> (r: usize)
        ensures
            r == self.text_view().len(),
    ;

    /// Lines `start..end`, counted from 1, with the range handed back.
    fn get_lines_range(&self, start: usize, end: usize) -> (r: (Vec<String>, usize, usize))
        ensures
            ({
                let (lo, hi, e) = range_of(self.text_view().len(), start, end);
                text_lines(r.0@) == self.text_view().subrange(lo, hi) && r.1 == start && r.2 == e
            }),
    ;
}

/// Access to the highlighted text of an entity.
pub trait HighlightFileData: TextFileData {
    spec fn highlight_view(&self) -> Seq<Seq<(Color, Seq<char>)>>;

    spec fn highlight_done_view(&self) -> bool;

    fn get_highlight_done(&self) -> (r: bool)
        ensures
            r == self.highlight_done_view(),
    ;

    /// Highlighted lines `start..end`, counted from 1, with the range handed back.
    fn get_highlight_lines_range(&self, start: usize, end: usize) -> (r: (
        Vec<Vec<(Color, String)>>,
        usize,
        usize,
    ))
        ensures
            ({
                let (lo, hi, e) = range_of(self.highlight_view().len(), start, end);
                spans_view(r.0@) == self.highlight_view().subrange(lo, hi) && r.1 == start && r.2
                    == e
            }),
    ;
}

/// The status line of an entity.
pub trait StatusFileData: TextFileData {
    spec fn status_view(&self) -> Seq<char>;

    fn get_status(&self) -> (r: String)
        ensures
            r@ == self.status_view(),
    ;
}

/// Everything the view needs of an entity.
pub trait FileData: TextFileData + HighlightFileData + StatusFileData + HashSelf {}

impl HashSelf for SrcFileData {
    open spec fn key_view(&self) -> Seq<char> {
        self.file_name@
    }

    fn get_key(&self) -> (r: String) {
        SrcFileData::get_key(self)
    }
}

impl TextFileData for SrcFileData {
    open spec fn name_view(&self) -> Seq<char> {
        self.file_name@
    }

    open spec fn text_view(&self) -> Seq<Seq<char>> {
        self.lines_view()
    }

    open spec fn read_done_view(&self) -> bool {
        self.read_done
    }

    fn get_file_name(&self) -> (r: String) {
        SrcFileData::get_file_name(self)
    }

    fn get_read_done(&self) -> (r: bool) {
        SrcFileData::get_read_done(self)
    }

    fn get_lines_len(&self) -> (r: usize) {
        SrcFileData::get_lines_len(self)
    }

    fn get_lines_range(&self, start: usize, end: usize) -> (r: (Vec<String>, usize, usize)) {
        SrcFileData::get_lines_range(self, start, end)
    }
}

impl HighlightFileData for SrcFileData {
    open spec fn highlight_view(&self) -> Seq<Seq<(Color, Seq<char>)>> {
        spans_view(self.lines_highlight@)
    }

    open spec fn highlight_done_view(&self) -> bool {
        self.highlight_done
    }

    fn get_highlight_done(&self) -> (r: bool) {
        SrcFileData::get_highlight_done(self)
    }

    fn get_highlight_lines_range(&self, start: usize, end: usize) -> (r: (
        Vec<Vec<(Color, String)>>,
        usize,
        usize,
    )) {
        SrcFileData::get_highlight_lines_range(self, start, end)
    }
}

impl StatusFileData for SrcFileData {
    open spec fn status_view(&self) -> Seq<char> {
        self.file_name@
    }

    fn get_status(&self) -> (r: String) {
        SrcFileData::get_status(self)
    }
}

impl FileData for SrcFileData {}

impl HashSelf for AsmFuncData {
    open spec fn key_view(&self) -> Seq<char> {
        self.func_name@
    }

    fn get_key(&self) -> (r: String) {
        AsmFuncData::get_key(self)
    }
}

impl TextFileData for AsmFuncData {
    open spec fn name_view(&self) -> Seq<char> {
        self.func_name@
    }

    open spec fn text_view(&self) -> Seq<Seq<char>> {
        text_lines(self.lines@)
    }

    open spec fn read_done_view(&self) -> bool {
        self.read_done
    }

    fn get_file_name(&self) -> (r: String) {
        AsmFuncData::get_file_name(self)
    }

    fn get_read_done(&self) -> (r: bool) {
        AsmFuncData::get_read_done(self)
    }

    fn get_lines_len(&self) -> (r: usize) {
        AsmFuncData::get_lines_len(self)
    }

    fn get_lines_range(&self, start: usize, end: usize) -> (r: (Vec<String>, usize, usize)) {
        AsmFuncData::get_lines_range(self, start, end)
    }
}

impl HighlightFileData for AsmFuncData {
    open spec fn highlight_view(&self) -> Seq<Seq<(Color, Seq<char>)>> {
        spans_view(self.lines_highlight@)
    }

    open spec fn highlight_done_view(&self) -> bool {
        self.highlight_done
    }

    fn get_highlight_done(&self) -> (r: bool) {
        AsmFuncData::get_highlight_done(self)
    }

    fn get_highlight_lines_range(&self, start: usize, end: usize) -> (r: (
        Vec<Vec<(Color, String)>>,
        usize,
        usize,
    )) {
        AsmFuncData::get_highlight_lines_range(self, start, end)
    }
}

impl StatusFileData for AsmFuncData {
    open spec fn status_view(&self) -> Seq<char> {
        if self.addrs@.len() > 0 {
            "** Dump of assembler code for function "@ + self.func_name@ + ": (0x"@ + radix_text(
                self.addrs@[0].0 as nat,
                16,
            ) + " - 0x"@ + radix_text(self.addrs@[self.addrs@.len() - 1].0 as nat, 16) + ") **"@
        } else {
            "** Dump of assembler code for function "@ + self.func_name@ + ": **"@
        }
    }

    fn get_status(&self) -> (r: String) {
        AsmFuncData::get_status(self)
    }
}

impl FileData for AsmFuncData {}

} // verus!
