use vstd::prelude::*;

verus! {

/// Punctuation of the machine-interface grammar.
#[derive(Copy, Clone, Debug, PartialEq, Eq, Structural)]
pub enum Tok {
    Eq,
    DoubleQuotes,
    Comma,
}

/// Line ending that closed a record.
#[derive(Copy, Clone, Debug, PartialEq, Eq, Structural)]
pub enum NewLineType {
    Linux,
    Windows,
}

/// A value: a quoted constant, a tuple `{...}` or a list `[...]`.
#[derive(Debug, PartialEq, Eq)]
pub enum ValueType {
    Const(String),
    Tuple(Tuple),
    List(List),
}

/// `variable=value`.
#[derive(Debug, PartialEq, Eq)]
pub struct ResultType {
    pub variable: String,
    pub value: ValueType,
}

#[derive(Debug, PartialEq, Eq)]
pub enum Tuple {
    Empty,
    Results(Vec<ResultType>),
}

#[derive(Debug, PartialEq, Eq)]
pub enum List {
    Empty,
    Results(Vec<ResultType>),
    Values(Vec<ValueType>),
}

/// Class of an asynchronous record; names that are not listed here are `Unknown`.
#[derive(Copy, Clone, Debug, PartialEq, Eq, Structural)]
pub enum AsyncClassType {
    Stopped,
    Running,
    ThreadSelected,
    BreakpointCreated,
    BreakpointModified,
    BreakpointDeleted,
    Unknown,
}

#[derive(Debug, PartialEq, Eq)]
pub struct AsyncOutputType {
    pub async_class: AsyncClassType,
    pub resaults: Vec<ResultType>,
    /// Bare values that follow the results (older dialects attach the
    /// locations of a multi-location breakpoint this way).
    pub values: Vec<ValueType>,
}

/// `*class,...`
#[derive(Debug, PartialEq, Eq)]
pub struct ExecAsyncOutputType {
    pub async_output: AsyncOutputType,
}

/// `=class,...`
#[derive(Debug, PartialEq, Eq)]
pub struct NotifyAsyncOutputType {
    pub async_output: AsyncOutputType,
}

#[derive(Debug, PartialEq, Eq)]
pub enum AsyncRecordType {
    NotifyAsyncOutput(NotifyAsyncOutputType),
    ExecAsyncOutput(ExecAsyncOutputType),
}

#[derive(Debug, PartialEq, Eq)]
pub enum OutOfBandRecordType {
    AsyncRecord(AsyncRecordType),
}

#[derive(Copy, Clone, Debug, PartialEq, Eq, Structural)]
pub enum ResultClassType {
    Done,
    Other,
}

/// `^class,...`: the reply to a command.
#[derive(Debug, PartialEq, Eq)]
pub struct ResultRecordType {
    pub result_class: ResultClassType,
    pub results: Vec<ResultType>,
}

/// One line of machine-interface output.
#[derive(Debug, PartialEq, Eq)]
pub enum OutputOneline {
    OutOfBandRecord(OutOfBandRecordType),
    ResultRecord(ResultRecordType),
}

// ---------------------------------------------------------------------------
// The text of a value.

pub open spec fn is_ident_char(c: char) -> bool {
    ('a' <= c && c <= 'z') || ('A' <= c && c <= 'Z') || ('0' <= c && c <= '9') || c == '-'
        || c == '_'
}

/// A variable or class name: one or more identifier characters.
pub open spec fn is_ident(s: Seq<char>) -> bool {
    s.len() > 0 && forall|i: int| 0 <= i < s.len() ==> is_ident_char(#[trigger] s[i])
}

/// Body of a quoted constant as it stands between the quotes. A backslash
/// escapes the next character and both are kept; an unescaped quote cannot occur.
pub open spec fn is_cstring_body(s: Seq<char>) -> bool
    decreases s.len(),
{
    if s.len() == 0 {
        true
    } else if s[0] == '"' {
        false
    } else if s[0] == '\\' {
        s.len() >= 2 && is_cstring_body(s.subrange(2, s.len() as int))
    } else {
        is_cstring_body(s.subrange(1, s.len() as int))
    }
}

pub open spec fn text_value(v: ValueType) -> Seq<char>
    decreases v,
{
    match v {
        ValueType::Const(s) => seq!['"'] + s@ + seq!['"'],
        ValueType::Tuple(t) => match t {
            Tuple::Empty => seq!['{', '}'],
            Tuple::Results(rs) => seq!['{'] + text_results(rs@) + seq!['}'],
        },
        ValueType::List(l) => match l {
            List::Empty => seq!['[', ']'],
            List::Results(rs) => seq!['['] + text_results(rs@) + seq![']'],
            List::Values(vs) => seq!['['] + text_values(vs@) + seq![']'],
        },
    }
}

pub open spec fn text_result(r: ResultType) -> Seq<char>
    decreases r,
{
    r.variable@ + seq!['='] + text_value(r.value)
}

/// Results joined by commas.
pub open spec fn text_results(rs: Seq<ResultType>) -> Seq<char>
    decreases rs,
{
    if rs.len() == 0 {
        Seq::empty()
    } else if rs.len() == 1 {
        text_result(rs[0])
    } else {
        text_results(rs.subrange(0, rs.len() - 1)) + seq![','] + text_result(rs[rs.len() - 1])
    }
}

/// Values joined by commas.
pub open spec fn text_values(vs: Seq<ValueType>) -> Seq<char>
    decreases vs,
{
    if vs.len() == 0 {
        Seq::empty()
    } else if vs.len() == 1 {
        text_value(vs[0])
    } else {
        text_values(vs.subrange(0, vs.len() - 1)) + seq![','] + text_value(vs[vs.len() - 1])
    }
}

/// Each result preceded by a comma.
pub open spec fn comma_results(rs: Seq<ResultType>) -> Seq<char>
    decreases rs,
{
    if rs.len() == 0 {
        Seq::empty()
    } else {
        comma_results(rs.subrange(0, rs.len() - 1)) + seq![','] + text_result(rs[rs.len() - 1])
    }
}

/// Each value preceded by a comma.
pub open spec fn comma_values(vs: Seq<ValueType>) -> Seq<char>
    decreases vs,
{
    if vs.len() == 0 {
        Seq::empty()
    } else {
        comma_values(vs.subrange(0, vs.len() - 1)) + seq![','] + text_value(vs[vs.len() - 1])
    }
}

/// A value that the grammar can produce: constants hold a valid quoted body,
/// names are identifiers, and a non-empty tuple or list is never empty.
pub open spec fn wf_value(v: ValueType) -> bool
    decreases v,
{
    match v {
        ValueType::Const(s) => is_cstring_body(s@),
        ValueType::Tuple(t) => match t {
            Tuple::Empty => true,
            Tuple::Results(rs) => rs@.len() > 0 && wf_results(rs@),
        },
        ValueType::List(l) => match l {
            List::Empty => true,
            List::Results(rs) => rs@.len() > 0 && wf_results(rs@),
            List::Values(vs) => vs@.len() > 0 && wf_values(vs@),
        },
    }
}

pub open spec fn wf_result(r: ResultType) -> bool
    decreases r,
{
    is_ident(r.variable@) && wf_value(r.value)
}

pub open spec fn wf_results(rs: Seq<ResultType>) -> bool
    decreases rs,
{
    if rs.len() == 0 {
        true
    } else {
        wf_results(rs.subrange(0, rs.len() - 1)) && wf_result(rs[rs.len() - 1])
    }
}

pub open spec fn wf_values(vs: Seq<ValueType>) -> bool
    decreases vs,
{
    if vs.len() == 0 {
        true
    } else {
        wf_values(vs.subrange(0, vs.len() - 1)) && wf_value(vs[vs.len() - 1])
    }
}

pub open spec fn async_class_of(name: Seq<char>) -> AsyncClassType {
    if name == "stopped"@ {
        AsyncClassType::Stopped
    } else if name == "running"@ {
        AsyncClassType::Running
    } else if name == "thread-selected"@ {
        AsyncClassType::ThreadSelected
    } else if name == "breakpoint-created"@ {
        AsyncClassType::BreakpointCreated
    } else if name == "breakpoint-modified"@ {
        AsyncClassType::BreakpointModified
    } else if name == "breakpoint-deleted"@ {
        AsyncClassType::BreakpointDeleted
    } else {
        AsyncClassType::Unknown
    }
}

pub open spec fn result_class_of(name: Seq<char>) -> ResultClassType {
    if name == "done"@ {
        ResultClassType::Done
    } else {
        ResultClassType::Other
    }
}

/// `"\n"` or `"\r\n"`.
pub open spec fn is_line_end(e: Seq<char>) -> bool {
    e == seq!['\n'] || e == seq!['\r', '\n']
}

pub open spec fn async_output_of(a: AsyncRecordType) -> AsyncOutputType {
    match a {
        AsyncRecordType::NotifyAsyncOutput(n) => n.async_output,
        AsyncRecordType::ExecAsyncOutput(e) => e.async_output,
    }
}

pub open spec fn async_prefix(a: AsyncRecordType) -> char {
    match a {
        AsyncRecordType::NotifyAsyncOutput(_) => '=',
        AsyncRecordType::ExecAsyncOutput(_) => '*',
    }
}

/// `s` is the text of the out-of-band record `r`: its prefix, a class name
/// that names its class, its results and bare values, each after a comma,
/// and a line end.
pub open spec fn is_text_of_out_of_band(r: OutOfBandRecordType, s: Seq<char>) -> bool {
    let OutOfBandRecordType::AsyncRecord(a) = r;
    let o = async_output_of(a);
    &&& wf_results(o.resaults@)
    &&& wf_values(o.values@)
    &&& exists|name: Seq<char>, e: Seq<char>|
        #![trigger is_ident(name), is_line_end(e)]
        is_ident(name) && is_line_end(e) && async_class_of(name) == o.async_class && s
            == seq![async_prefix(a)] + name + comma_results(o.resaults@) + comma_values(
            o.values@,
        ) + e
}

/// `s` is the text of the result record `r`: `^`, a class name, its results
/// each after a comma, and a line end.
pub open spec fn is_text_of_result_record(r: ResultRecordType, s: Seq<char>) -> bool {
    &&& wf_results(r.results@)
    &&& exists|name: Seq<char>, e: Seq<char>|
        #![trigger is_ident(name), is_line_end(e)]
        is_ident(name) && is_line_end(e) && result_class_of(name) == r.result_class && s
            == seq!['^'] + name + comma_results(r.results@) + e
}

pub open spec fn is_text_of_line(o: OutputOneline, s: Seq<char>) -> bool {
    match o {
        OutputOneline::OutOfBandRecord(r) => is_text_of_out_of_band(r, s),
        OutputOneline::ResultRecord(r) => is_text_of_result_record(r, s),
    }
}

} // verus!
