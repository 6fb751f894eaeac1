use vstd::prelude::*;
use crate::text::{chars_of, range_is, string_of_range};
use crate::token::{
    comma_results, comma_values, is_cstring_body, is_ident, is_ident_char, text_result,
    text_results, text_value, text_values, wf_result, wf_results, wf_value, wf_values, List,
    ResultType, Tuple, ValueType, Tok, AsyncClassType, AsyncOutputType, AsyncRecordType,
    ExecAsyncOutputType, NotifyAsyncOutputType, OutOfBandRecordType, OutputOneline,
    ResultClassType, ResultRecordType, async_class_of, result_class_of, is_line_end,
    is_text_of_line, is_text_of_out_of_band, is_text_of_result_record, async_prefix,
    async_output_of,
};

verus! {

/// A line that does not fit the grammar; `position` is where parsing stopped.
#[derive(Copy, Clone, Debug, PartialEq, Eq, Structural)]
pub struct ParseError {
    pub position: usize,
}

fn ident_char(c: char) -> (b: bool)
    ensures
        b == is_ident_char(c),
{
    ('a' <= c && c <= 'z') || ('A' <= c && c <= 'Z') || ('0' <= c && c <= '9') || c == '-'
        || c == '_'
}

/// End of the run of identifier characters that starts at `pos`.
fn ident_end(s: &Vec<char>, pos: usize) -> (e: usize)
    requires
        pos <= s@.len(),
    ensures
        pos <= e <= s@.len(),
        forall|i: int| pos <= i < e ==> is_ident_char(#[trigger] s@[i]),
        e < s@.len() ==> !is_ident_char(s@[e as int]),
{
    let mut e = pos;
    while e < s.len() && ident_char(s[e])
        invariant
            pos <= e <= s@.len(),
            forall|i: int| pos <= i < e ==> is_ident_char(#[trigger] s@[i]),
        decreases s@.len() - e,
    {
        e = e + 1;
    }
    e
}

proof fn lemma_cstring_body_append(a: Seq<char>, b: Seq<char>)
    requires
        is_cstring_body(a),
        is_cstring_body(b),
    ensures
        is_cstring_body(a + b),
    decreases a.len(),
{
    if a.len() == 0 {
        assert(a + b =~= b);
    } else if a[0] == '\\' {
        lemma_cstring_body_append(a.subrange(2, a.len() as int), b);
        assert((a + b).subrange(2, (a + b).len() as int) =~= a.subrange(2, a.len() as int) + b);
    } else {
        lemma_cstring_body_append(a.subrange(1, a.len() as int), b);
        assert((a + b).subrange(1, (a + b).len() as int) =~= a.subrange(1, a.len() as int) + b);
    }
}

/// Position just after the quote that closes the constant opened at `pos`.
fn cstring_end(s: &Vec<char>, pos: usize) -> (r: Option<usize>)
    requires
        pos < s@.len(),
        s@[pos as int] == '"',
    ensures
        r matches Some(e) ==> pos + 2 <= e <= s@.len() && s@[e - 1] == '"' && is_cstring_body(
            s@.subrange(pos + 1, e - 1),
        ),
        forall|b: Seq<char>|
            #![trigger is_cstring_body(b)]
            is_cstring_body(b) && pos + b.len() + 2 <= s@.len() && s@.subrange(
                pos + 1,
                pos + 1 + b.len(),
            ) == b && s@[pos + 1 + b.len()] == '"' ==> r == Some((pos + b.len() + 2) as usize),
{
    let len = s.len();
    let mut p = pos + 1;
    assert(is_cstring_body(s@.subrange(pos + 1, p as int))) by {
        assert(s@.subrange(pos + 1, p as int).len() == 0);
    }
    assert forall|b: Seq<char>|
        #![trigger is_cstring_body(b)]
        is_cstring_body(b) && pos + b.len() + 2 <= s@.len() && s@.subrange(
            pos + 1,
            pos + 1 + b.len(),
        ) == b && s@[pos + 1 + b.len()] == '"' implies p <= pos + 1 + b.len() && is_cstring_body(
        b.subrange(p - pos - 1, b.len() as int),
    ) by {
        assert(b.subrange(0, b.len() as int) =~= b);
    }
    loop
        invariant
            pos + 1 <= p <= s@.len(),
            is_cstring_body(s@.subrange(pos + 1, p as int)),
            forall|b: Seq<char>|
                #![trigger is_cstring_body(b)]
                is_cstring_body(b) && pos + b.len() + 2 <= s@.len() && s@.subrange(
                    pos + 1,
                    pos + 1 + b.len(),
                ) == b && s@[pos + 1 + b.len()] == '"' ==> p <= pos + 1 + b.len()
                    && is_cstring_body(b.subrange(p - pos - 1, b.len() as int)),
        decreases s@.len() - p,
    {
        if p >= s.len() {
            return None;
        }
        let c = s[p];
        if c == '"' {
            proof {
                assert forall|b: Seq<char>|
                    #![trigger is_cstring_body(b)]
                    is_cstring_body(b) && pos + b.len() + 2 <= s@.len() && s@.subrange(
                        pos + 1,
                        pos + 1 + b.len(),
                    ) == b && s@[pos + 1 + b.len()] == '"' implies p == pos + 1 + b.len() by {
                    let rb = b.subrange(p - pos - 1, b.len() as int);
                    if p < pos + 1 + b.len() {
                        assert(rb[0] == b[p - pos - 1]);
                        assert(b[p - pos - 1] == s@[p as int]);
                    }
                }
            }
            return Some(p + 1);
        }
        let step: usize = if c == '\\' {
            2
        } else {
            1
        };
        proof {
            assert forall|b: Seq<char>|
                #![trigger is_cstring_body(b)]
                is_cstring_body(b) && pos + b.len() + 2 <= s@.len() && s@.subrange(
                    pos + 1,
                    pos + 1 + b.len(),
                ) == b && s@[pos + 1 + b.len()] == '"' implies p + step <= pos + 1 + b.len()
                && is_cstring_body(b.subrange(p + step - pos - 1, b.len() as int)) by {
                let rb = b.subrange(p - pos - 1, b.len() as int);
                if p == pos + 1 + b.len() {
                    assert(s@[p as int] == '"');
                }
                assert(rb.len() > 0);
                assert(rb[0] == b[p - pos - 1]);
                assert(b[p - pos - 1] == s@[p as int]);
                assert(rb.subrange(step as int, rb.len() as int) =~= b.subrange(
                    p + step - pos - 1,
                    b.len() as int,
                ));
            }
        }
        if step > s.len() - p {
            return None;
        }
        proof {
            let piece = s@.subrange(p as int, p + step);
            let rest = piece.subrange(step as int, piece.len() as int);
            assert(rest.len() == 0);
            assert(is_cstring_body(rest));
            assert(is_cstring_body(piece));
            lemma_cstring_body_append(s@.subrange(pos + 1, p as int), piece);
            assert(s@.subrange(pos + 1, p + step) =~= s@.subrange(pos + 1, p as int) + piece);
        }
        p = p + step;
    }
}

proof fn lemma_text_results_push(rs: Seq<ResultType>, r: ResultType)
    ensures
        rs.len() == 0 ==> text_results(rs.push(r)) == text_result(r),
        rs.len() > 0 ==> text_results(rs.push(r)) == text_results(rs) + seq![','] + text_result(
            r,
        ),
        wf_results(rs) && wf_result(r) ==> wf_results(rs.push(r)),
        comma_results(rs.push(r)) == comma_results(rs) + seq![','] + text_result(r),
{
    assert(rs.push(r).subrange(0, rs.len() as int) =~= rs);
}

proof fn lemma_text_values_push(vs: Seq<ValueType>, v: ValueType)
    ensures
        vs.len() == 0 ==> text_values(vs.push(v)) == text_value(v),
        vs.len() > 0 ==> text_values(vs.push(v)) == text_values(vs) + seq![','] + text_value(v),
        wf_values(vs) && wf_value(v) ==> wf_values(vs.push(v)),
        comma_values(vs.push(v)) == comma_values(vs) + seq![','] + text_value(v),
{
    assert(vs.push(v).subrange(0, vs.len() as int) =~= vs);
}

/// `t` stands in `s` at `pos`.
pub open spec fn text_at(s: Seq<char>, pos: int, t: Seq<char>) -> bool {
    0 <= pos && pos + t.len() <= s.len() && s.subrange(pos, pos + t.len()) == t
}

proof fn lemma_text_results_split(rs: Seq<ResultType>, k: int)
    requires
        0 < k < rs.len(),
    ensures
        text_results(rs) == text_results(rs.subrange(0, k)) + seq![','] + text_results(
            rs.subrange(k, rs.len() as int),
        ),
    decreases rs.len(),
{
    let n = rs.len() as int;
    let last = rs.subrange(0, n - 1);
    if k == n - 1 {
        let t = rs.subrange(k, n);
        assert(t.len() == 1);
        assert(t[0] == rs[n - 1]);
        assert(last =~= rs.subrange(0, k));
    } else {
        lemma_text_results_split(last, k);
        assert(last.subrange(0, k) =~= rs.subrange(0, k));
        let t = rs.subrange(k, n);
        assert(t.subrange(0, t.len() - 1) =~= last.subrange(k, last.len() as int));
        assert(t[t.len() - 1] == rs[n - 1]);
    }
}

proof fn lemma_text_values_split(vs: Seq<ValueType>, k: int)
    requires
        0 < k < vs.len(),
    ensures
        text_values(vs) == text_values(vs.subrange(0, k)) + seq![','] + text_values(
            vs.subrange(k, vs.len() as int),
        ),
    decreases vs.len(),
{
    let n = vs.len() as int;
    let last = vs.subrange(0, n - 1);
    if k == n - 1 {
        let t = vs.subrange(k, n);
        assert(t.len() == 1);
        assert(t[0] == vs[n - 1]);
        assert(last =~= vs.subrange(0, k));
    } else {
        lemma_text_values_split(last, k);
        assert(last.subrange(0, k) =~= vs.subrange(0, k));
        let t = vs.subrange(k, n);
        assert(t.subrange(0, t.len() - 1) =~= last.subrange(k, last.len() as int));
        assert(t[t.len() - 1] == vs[n - 1]);
    }
}

/// Offset of the `k`-th result in the text of `rs`.
pub open spec fn results_offset(rs: Seq<ResultType>, k: int) -> int {
    if k == 0 {
        0
    } else {
        text_results(rs.subrange(0, k)).len() + 1int
    }
}

pub open spec fn values_offset(vs: Seq<ValueType>, k: int) -> int {
    if k == 0 {
        0
    } else {
        text_values(vs.subrange(0, k)).len() + 1int
    }
}

proof fn lemma_results_at(s: Seq<char>, start: int, rs: Seq<ResultType>, close: char, k: int)
    requires
        0 <= k < rs.len(),
        text_at(s, start, text_results(rs) + seq![close]),
    ensures
        text_at(s, start + results_offset(rs, k), text_result(rs[k])),
        s[start + results_offset(rs, k) + text_result(rs[k]).len()] == (if k + 1 < rs.len() {
            ','
        } else {
            close
        }),
        results_offset(rs, k + 1) == results_offset(rs, k) + text_result(rs[k]).len() + 1,
        start + results_offset(rs, k) + text_result(rs[k]).len() < s.len(),
{
    let n = rs.len() as int;
    let whole = text_results(rs) + seq![close];
    let tail = rs.subrange(k, n);
    let tk = text_result(rs[k]);
    // the text from the k-th result on
    let rest = if k + 1 < n {
        lemma_text_results_split(tail, 1);
        assert(tail.subrange(0, 1).len() == 1 && tail.subrange(0, 1)[0] == rs[k]);
        assert(tail.subrange(1, tail.len() as int) =~= rs.subrange(k + 1, n));
        seq![','] + text_results(rs.subrange(k + 1, n))
    } else {
        assert(tail.len() == 1 && tail[0] == rs[k]);
        Seq::<char>::empty()
    };
    assert(text_results(tail) == tk + rest);
    let off = results_offset(rs, k);
    if k > 0 {
        lemma_text_results_split(rs, k);
    } else {
        assert(rs.subrange(0, n) =~= rs);
    }
    assert(text_results(rs) =~= text_results(rs).subrange(0, off) + tk + rest) by {
        if k > 0 {
            assert(text_results(rs) == text_results(rs.subrange(0, k)) + seq![','] + tk + rest);
        } else {
            assert(tail =~= rs);
        }
    }
    assert(s.subrange(start + off, start + off + tk.len()) =~= tk) by {
        assert forall|i: int| 0 <= i < tk.len() implies s[start + off + i] == tk[i] by {
            assert(whole[off + i] == s.subrange(start, start + whole.len())[off + i]);
        }
    }
    let nxt = start + off + tk.len();
    assert(off + tk.len() < whole.len());
    assert(s[nxt] == whole[off + tk.len()]) by {
        assert(whole[off + tk.len()] == s.subrange(start, start + whole.len())[off + tk.len()]);
    }
    if k + 1 < n {
        assert(whole[off + tk.len()] == ',');
        let upto = rs.subrange(0, k + 1);
        assert(upto.subrange(0, k) =~= rs.subrange(0, k));
        assert(upto[k] == rs[k]);
    } else {
        assert(whole[off + tk.len()] == close);
        let upto = rs.subrange(0, k + 1);
        assert(upto.subrange(0, k) =~= rs.subrange(0, k));
        assert(upto[k] == rs[k]);
    }
}

proof fn lemma_values_at(s: Seq<char>, start: int, vs: Seq<ValueType>, close: char, k: int)
    requires
        0 <= k < vs.len(),
        text_at(s, start, text_values(vs) + seq![close]),
    ensures
        text_at(s, start + values_offset(vs, k), text_value(vs[k])),
        s[start + values_offset(vs, k) + text_value(vs[k]).len()] == (if k + 1 < vs.len() {
            ','
        } else {
            close
        }),
        values_offset(vs, k + 1) == values_offset(vs, k) + text_value(vs[k]).len() + 1,
        start + values_offset(vs, k) + text_value(vs[k]).len() < s.len(),
{
    let n = vs.len() as int;
    let whole = text_values(vs) + seq![close];
    let tail = vs.subrange(k, n);
    let tk = text_value(vs[k]);
    let rest = if k + 1 < n {
        lemma_text_values_split(tail, 1);
        assert(tail.subrange(0, 1).len() == 1 && tail.subrange(0, 1)[0] == vs[k]);
        assert(tail.subrange(1, tail.len() as int) =~= vs.subrange(k + 1, n));
        seq![','] + text_values(vs.subrange(k + 1, n))
    } else {
        assert(tail.len() == 1 && tail[0] == vs[k]);
        Seq::<char>::empty()
    };
    assert(text_values(tail) == tk + rest);
    let off = values_offset(vs, k);
    if k > 0 {
        lemma_text_values_split(vs, k);
    } else {
        assert(vs.subrange(0, n) =~= vs);
    }
    assert(text_values(vs) =~= text_values(vs).subrange(0, off) + tk + rest) by {
        if k > 0 {
            assert(text_values(vs) == text_values(vs.subrange(0, k)) + seq![','] + tk + rest);
        } else {
            assert(tail =~= vs);
        }
    }
    assert(s.subrange(start + off, start + off + tk.len()) =~= tk) by {
        assert forall|i: int| 0 <= i < tk.len() implies s[start + off + i] == tk[i] by {
            assert(whole[off + i] == s.subrange(start, start + whole.len())[off + i]);
        }
    }
    let nxt = start + off + tk.len();
    assert(off + tk.len() < whole.len());
    assert(s[nxt] == whole[off + tk.len()]) by {
        assert(whole[off + tk.len()] == s.subrange(start, start + whole.len())[off + tk.len()]);
    }
    let upto = vs.subrange(0, k + 1);
    assert(upto.subrange(0, k) =~= vs.subrange(0, k));
    assert(upto[k] == vs[k]);
}

pub open spec fn value_cand(s: Seq<char>, pos: int, v: ValueType) -> bool {
    wf_value(v) && text_at(s, pos, text_value(v))
}

pub open spec fn result_cand(s: Seq<char>, pos: int, r: ResultType) -> bool {
    wf_result(r) && text_at(s, pos, text_result(r))
}

pub open spec fn results_cand(s: Seq<char>, start: int, rs: Seq<ResultType>, close: char) -> bool {
    rs.len() > 0 && wf_results(rs) && text_at(s, start, text_results(rs) + seq![close])
}

pub open spec fn values_cand(s: Seq<char>, start: int, vs: Seq<ValueType>, close: char) -> bool {
    vs.len() > 0 && wf_values(vs) && text_at(s, start, text_values(vs) + seq![close])
}

proof fn lemma_wf_results_index(rs: Seq<ResultType>, i: int)
    requires
        wf_results(rs),
        0 <= i < rs.len(),
    ensures
        wf_result(rs[i]),
    decreases rs.len(),
{
    if i < rs.len() - 1 {
        let pre = rs.subrange(0, rs.len() - 1);
        lemma_wf_results_index(pre, i);
        assert(pre[i] == rs[i]);
    }
}

proof fn lemma_wf_values_index(vs: Seq<ValueType>, i: int)
    requires
        wf_values(vs),
        0 <= i < vs.len(),
    ensures
        wf_value(vs[i]),
    decreases vs.len(),
{
    if i < vs.len() - 1 {
        let pre = vs.subrange(0, vs.len() - 1);
        lemma_wf_values_index(pre, i);
        assert(pre[i] == vs[i]);
    }
}

/// The text of a value opens with `"`, `{` or `[`, and the text of a
/// non-empty result list with a name character.
proof fn lemma_value_text_opens(v: ValueType)
    requires
        wf_value(v),
    ensures
        text_value(v).len() >= 2,
        v is Const ==> text_value(v)[0] == '"',
        v is Tuple ==> text_value(v)[0] == '{',
        v is List ==> text_value(v)[0] == '[',
        v == ValueType::Tuple(Tuple::Empty) ==> text_value(v)[1] == '}',
        v == ValueType::List(List::Empty) ==> text_value(v)[1] == ']',
        (v is Tuple && v->Tuple_0 is Results) ==> is_ident_char(text_value(v)[1]),
        (v is List && v->List_0 is Results) ==> is_ident_char(text_value(v)[1]),
        (v is List && v->List_0 is Values) ==> (text_value(v)[1] == '"' || text_value(v)[1]
            == '{' || text_value(v)[1] == '['),
    decreases v,
{
    match v {
        ValueType::Const(b) => {},
        ValueType::Tuple(t) => match t {
            Tuple::Empty => {},
            Tuple::Results(rs) => {
                lemma_results_text_opens(rs@);
            },
        },
        ValueType::List(l) => match l {
            List::Empty => {},
            List::Results(rs) => {
                lemma_results_text_opens(rs@);
            },
            List::Values(vs) => {
                lemma_values_text_opens(vs@);
            },
        },
    }
}

proof fn lemma_results_text_opens(rs: Seq<ResultType>)
    requires
        rs.len() > 0,
        wf_results(rs),
    ensures
        text_results(rs).len() > 0,
        is_ident_char(text_results(rs)[0]),
    decreases rs,
{
    lemma_wf_results_index(rs, 0);
    let r0 = rs[0];
    assert(r0.variable@.len() > 0 && is_ident_char(r0.variable@[0]));
    let t0 = text_result(r0);
    assert(t0 == r0.variable@ + seq!['='] + text_value(r0.value));
    assert(t0[0] == r0.variable@[0]);
    if rs.len() > 1 {
        lemma_text_results_split(rs, 1);
        let one = rs.subrange(0, 1);
        assert(one.len() == 1 && one[0] == r0);
        assert(text_results(one) == t0);
        assert(text_results(rs)[0] == t0[0]);
    } else {
        assert(text_results(rs) == t0);
    }
}

proof fn lemma_values_text_opens(vs: Seq<ValueType>)
    requires
        vs.len() > 0,
        wf_values(vs),
    ensures
        text_values(vs).len() > 0,
        text_values(vs)[0] == '"' || text_values(vs)[0] == '{' || text_values(vs)[0] == '[',
    decreases vs,
{
    lemma_wf_values_index(vs, 0);
    assert(decreases_to!(vs => vs[0]));
    lemma_value_text_opens(vs[0]);
    let t0 = text_value(vs[0]);
    if vs.len() > 1 {
        lemma_text_values_split(vs, 1);
        let one = vs.subrange(0, 1);
        assert(one.len() == 1 && one[0] == vs[0]);
        assert(text_values(one) == t0);
        assert(text_values(vs)[0] == t0[0]);
    } else {
        assert(text_values(vs) == t0);
    }
}

/// The character at `pos + i` of a text that stands at `pos`.
proof fn lemma_text_at_index(s: Seq<char>, pos: int, t: Seq<char>, i: int)
    requires
        text_at(s, pos, t),
        0 <= i < t.len(),
    ensures
        s[pos + i] == t[i],
{
    assert(s.subrange(pos, pos + t.len())[i] == s[pos + i]);
}

/// A text that stands at `pos` and is `a + b`: `b` stands at `pos + |a|`.
proof fn lemma_text_at_suffix(s: Seq<char>, pos: int, a: Seq<char>, b: Seq<char>)
    requires
        text_at(s, pos, a + b),
    ensures
        text_at(s, pos + a.len(), b),
        text_at(s, pos, a),
{
    assert(s.subrange(pos + a.len(), pos + a.len() + b.len()) =~= (a + b).subrange(
        a.len() as int,
        (a + b).len() as int,
    ));
    assert((a + b).subrange(a.len() as int, (a + b).len() as int) =~= b);
    assert(s.subrange(pos, pos + a.len()) =~= (a + b).subrange(0, a.len() as int));
    assert((a + b).subrange(0, a.len() as int) =~= a);
}

/// The value that starts at `pos`, and the position just after it. When a
/// value's text stands at `pos`, that value is read.
fn value_at(s: &Vec<char>, pos: usize) -> (r: Option<(ValueType, usize)>)
    requires
        pos <= s@.len(),
    ensures
        r matches Some((v, e)) ==> pos < e <= s@.len() && wf_value(v) && s@.subrange(
            pos as int,
            e as int,
        ) == text_value(v),
        forall|v: ValueType|
            #![trigger value_cand(s@, pos as int, v)]
            value_cand(s@, pos as int, v) ==> (r matches Some((_, e)) && e == pos + text_value(
                v,
            ).len()),
    decreases s@.len() - pos, 1nat,
{
    if pos >= s.len() {
        proof {
            assert forall|v: ValueType| #![trigger value_cand(s@, pos as int, v)] !value_cand(s@, pos as int, v) by {
                if value_cand(s@, pos as int, v) {
                    lemma_value_text_opens(v);
                }
            }
        }
        return None;
    }
    let c = s[pos];
    proof {
        assert forall|v: ValueType| #![trigger value_cand(s@, pos as int, v)] value_cand(s@, pos as int, v) implies
            text_value(v).len() >= 2 && s@[pos as int] == text_value(v)[0] && s@[pos + 1] == text_value(v)[1]
            && (c == '"' <==> v is Const) && (c == '{' <==> v is Tuple) && (c == '[' <==> v is List) by {
            lemma_value_text_opens(v);
            lemma_text_at_index(s@, pos as int, text_value(v), 0);
            lemma_text_at_index(s@, pos as int, text_value(v), 1);
        }
    }
    if c == '"' {
        let ce = cstring_end(s, pos);
        proof {
            assert forall|v: ValueType| #![trigger value_cand(s@, pos as int, v)] value_cand(s@, pos as int, v) implies
                ce == Some((pos + text_value(v).len()) as usize) by {
                let b = v->Const_0@;
                assert(text_value(v) == seq!['"'] + b + seq!['"']);
                assert(seq!['"'] + b + seq!['"'] =~= seq!['"'] + (b + seq!['"']));
                lemma_text_at_suffix(s@, pos as int, seq!['"'], b + seq!['"']);
                lemma_text_at_suffix(s@, pos + 1, b, seq!['"']);
                lemma_text_at_index(s@, pos + 1 + b.len(), seq!['"'], 0);
                assert(is_cstring_body(b));
            }
        }
        match ce {
            None => None,
            Some(e) => {
                let body = string_of_range(s, pos + 1, e - 1);
                let v = ValueType::Const(body);
                assert(s@.subrange(pos as int, e as int) =~= seq!['"'] + body@ + seq!['"']);
                Some((v, e))
            },
        }
    } else if c == '{' {
        if pos + 1 < s.len() && s[pos + 1] == '}' {
            assert(s@.subrange(pos as int, pos + 2) =~= seq!['{', '}']);
            proof {
                assert forall|v: ValueType| #![trigger value_cand(s@, pos as int, v)] value_cand(s@, pos as int, v) implies
                    v == ValueType::Tuple(Tuple::Empty) by {
                    lemma_value_text_opens(v);
                }
            }
            return Some((ValueType::Tuple(Tuple::Empty), pos + 2));
        }
        let got = results_until(s, pos + 1, '}');
        proof {
            assert forall|v: ValueType| #![trigger value_cand(s@, pos as int, v)] value_cand(s@, pos as int, v) implies
                (got matches Some((_, e)) && e == pos + text_value(v).len()) by {
                lemma_value_text_opens(v);
                if v == ValueType::Tuple(Tuple::Empty) {
                    assert(pos + 1 < s@.len());
                } else {
                    let rs = v->Tuple_0->Results_0@;
                    assert(text_value(v) == seq!['{'] + (text_results(rs) + seq!['}']));
                    lemma_text_at_suffix(s@, pos as int, seq!['{'], text_results(rs) + seq!['}']);
                    assert(results_cand(s@, pos + 1, rs, '}'));
                }
            }
        }
        match got {
            None => None,
            Some((rs, e)) => {
                assert(s@.subrange(pos as int, e as int) =~= seq!['{'] + s@.subrange(
                    pos + 1,
                    e as int,
                ));
                Some((ValueType::Tuple(Tuple::Results(rs)), e))
            },
        }
    } else if c == '[' {
        if pos + 1 < s.len() && s[pos + 1] == ']' {
            assert(s@.subrange(pos as int, pos + 2) =~= seq!['[', ']']);
            proof {
                assert forall|v: ValueType| #![trigger value_cand(s@, pos as int, v)] value_cand(s@, pos as int, v) implies
                    v == ValueType::List(List::Empty) by {
                    lemma_value_text_opens(v);
                }
            }
            return Some((ValueType::List(List::Empty), pos + 2));
        }
        if pos + 1 < s.len() && ident_char(s[pos + 1]) {
            let got = results_until(s, pos + 1, ']');
            proof {
                assert forall|v: ValueType| #![trigger value_cand(s@, pos as int, v)] value_cand(s@, pos as int, v) implies
                    (got matches Some((_, e)) && e == pos + text_value(v).len()) by {
                    lemma_value_text_opens(v);
                    let rs = v->List_0->Results_0@;
                    assert(text_value(v) == seq!['['] + (text_results(rs) + seq![']']));
                    lemma_text_at_suffix(s@, pos as int, seq!['['], text_results(rs) + seq![']']);
                    assert(results_cand(s@, pos + 1, rs, ']'));
                }
            }
            match got {
                None => None,
                Some((rs, e)) => {
                    assert(s@.subrange(pos as int, e as int) =~= seq!['['] + s@.subrange(
                        pos + 1,
                        e as int,
                    ));
                    Some((ValueType::List(List::Results(rs)), e))
                },
            }
        } else {
            let got = values_until(s, pos + 1, ']');
            proof {
                assert forall|v: ValueType| #![trigger value_cand(s@, pos as int, v)] value_cand(s@, pos as int, v) implies
                    (got matches Some((_, e)) && e == pos + text_value(v).len()) by {
                    lemma_value_text_opens(v);
                    let vs = v->List_0->Values_0@;
                    assert(text_value(v) == seq!['['] + (text_values(vs) + seq![']']));
                    lemma_text_at_suffix(s@, pos as int, seq!['['], text_values(vs) + seq![']']);
                    assert(values_cand(s@, pos + 1, vs, ']'));
                }
            }
            match got {
                None => None,
                Some((vs, e)) => {
                    assert(s@.subrange(pos as int, e as int) =~= seq!['['] + s@.subrange(
                        pos + 1,
                        e as int,
                    ));
                    Some((ValueType::List(List::Values(vs)), e))
                },
            }
        }
    } else {
        None
    }
}

/// The result `name=value` that starts at `pos`, and the position just
/// after it. When a result's text stands at `pos`, that result is read.
fn result_at(s: &Vec<char>, pos: usize) -> (r: Option<(ResultType, usize)>)
    requires
        pos <= s@.len(),
    ensures
        r matches Some((res, e)) ==> pos < e <= s@.len() && wf_result(res) && s@.subrange(
            pos as int,
            e as int,
        ) == text_result(res),
        forall|x: ResultType|
            #![trigger result_cand(s@, pos as int, x)]
            result_cand(s@, pos as int, x) ==> (r matches Some((_, e)) && e == pos + text_result(
                x,
            ).len()),
    decreases s@.len() - pos, 0nat,
{
    let n = ident_end(s, pos);
    proof {
        assert forall|x: ResultType| #![trigger result_cand(s@, pos as int, x)] result_cand(s@, pos as int, x) implies
            n == pos + x.variable@.len() && n < s@.len() && s@[n as int] == '=' && value_cand(s@, n + 1, x.value) by {
            let name = x.variable@;
            let t = text_result(x);
            assert(t == name + (seq!['='] + text_value(x.value)));
            lemma_text_at_suffix(s@, pos as int, name, seq!['='] + text_value(x.value));
            lemma_text_at_suffix(s@, pos + name.len(), seq!['='], text_value(x.value));
            lemma_text_at_index(s@, pos + name.len(), seq!['='], 0);
            if n < pos + name.len() {
                lemma_text_at_index(s@, pos as int, name, n - pos);
                assert(is_ident_char(name[n - pos]));
            }
            if n > pos + name.len() {
                assert(is_ident_char(s@[pos + name.len()]));
            }
        }
    }
    if n == pos || n >= s.len() || s[n] != '=' {
        proof {
            assert forall|x: ResultType| #![trigger result_cand(s@, pos as int, x)] !result_cand(s@, pos as int, x) by {
                if result_cand(s@, pos as int, x) {
                    assert(x.variable@.len() > 0);
                }
            }
        }
        return None;
    }
    let got = value_at(s, n + 1);
    match got {
        None => None,
        Some((v, e)) => {
            let variable = string_of_range(s, pos, n);
            assert(is_ident(variable@)) by {
                assert forall|i: int| 0 <= i < variable@.len() implies is_ident_char(
                    #[trigger] variable@[i],
                ) by {
                    assert(variable@[i] == s@[pos + i]);
                }
            }
            let res = ResultType { variable, value: v };
            assert(s@.subrange(pos as int, e as int) =~= variable@ + seq!['='] + s@.subrange(
                n + 1,
                e as int,
            ));
            Some((res, e))
        },
    }
}

/// Results separated by commas from `start` up to the character `close`;
/// the position returned is just after `close`. When the text of a list of
/// results and `close` stand at `start`, it is read to its end.
fn results_until(s: &Vec<char>, start: usize, close: char) -> (r: Option<(Vec<ResultType>, usize)>)
    requires
        start <= s@.len(),
        close == '}' || close == ']',
    ensures
        r matches Some((rs, e)) ==> start < e <= s@.len() && rs@.len() > 0 && wf_results(rs@)
            && s@.subrange(start as int, e as int) == text_results(rs@) + seq![close],
        forall|xs: Seq<ResultType>|
            #![trigger results_cand(s@, start as int, xs, close)]
            results_cand(s@, start as int, xs, close) ==> (r matches Some((_, e)) && e == start
                + text_results(xs).len() + 1),
    decreases s@.len() - start, 2nat,
{
    let mut rs: Vec<ResultType> = Vec::new();
    let mut p = start;
    loop
        invariant
            start <= p <= s@.len(),
            close == '}' || close == ']',
            wf_results(rs@),
            rs@.len() == 0 ==> p == start,
            rs@.len() > 0 ==> s@.subrange(start as int, p as int) == text_results(rs@) + seq![','],
            forall|xs: Seq<ResultType>|
                #![trigger results_cand(s@, start as int, xs, close)]
                results_cand(s@, start as int, xs, close) ==> rs@.len() < xs.len() && p == start
                    + results_offset(xs, rs@.len() as int),
        decreases s@.len() - p,
    {
        let ghost k = rs@.len() as int;
        let got = result_at(s, p);
        proof {
            assert forall|xs: Seq<ResultType>| #![trigger results_cand(s@, start as int, xs, close)]
                results_cand(s@, start as int, xs, close) implies (got matches Some((_, e)) && e == p
                + text_result(xs[k]).len() && e < s@.len() && s@[e as int] == (if k + 1 < xs.len() {
                ','
            } else {
                close
            }) && results_offset(xs, k + 1) == results_offset(xs, k) + text_result(xs[k]).len() + 1) by {
                lemma_results_at(s@, start as int, xs, close, k);
                lemma_wf_results_index(xs, k);
                assert(result_cand(s@, p as int, xs[k]));
            }
        }
        match got {
            None => {
                return None;
            },
            Some((res, e)) => {
                proof {
                    lemma_text_results_push(rs@, res);
                    if rs@.len() > 0 {
                        assert(s@.subrange(start as int, e as int) =~= s@.subrange(
                            start as int,
                            p as int,
                        ) + s@.subrange(p as int, e as int));
                    }
                }
                rs.push(res);
                p = e;
            },
        }
        if p >= s.len() {
            return None;
        }
        let c = s[p];
        assert(s@.subrange(start as int, p + 1) =~= s@.subrange(start as int, p as int) + seq![
            c,
        ]);
        if c == close {
            proof {
                assert forall|xs: Seq<ResultType>| #![trigger results_cand(s@, start as int, xs, close)]
                    results_cand(s@, start as int, xs, close) implies p + 1 == start + text_results(xs).len() + 1 by {
                    assert(k + 1 == xs.len());
                    assert(xs.subrange(0, k + 1) =~= xs);
                }
            }
            return Some((rs, p + 1));
        }
        if c != ',' {
            return None;
        }
        p = p + 1;
    }
}

/// Values separated by commas from `start` up to the character `close`;
/// the position returned is just after `close`. When the text of a list of
/// values and `close` stand at `start`, it is read to its end.
fn values_until(s: &Vec<char>, start: usize, close: char) -> (r: Option<(Vec<ValueType>, usize)>)
    requires
        start <= s@.len(),
        close == '}' || close == ']',
    ensures
        r matches Some((vs, e)) ==> start < e <= s@.len() && vs@.len() > 0 && wf_values(vs@)
            && s@.subrange(start as int, e as int) == text_values(vs@) + seq![close],
        forall|xs: Seq<ValueType>|
            #![trigger values_cand(s@, start as int, xs, close)]
            values_cand(s@, start as int, xs, close) ==> (r matches Some((_, e)) && e == start
                + text_values(xs).len() + 1),
    decreases s@.len() - start, 2nat,
{
    let mut vs: Vec<ValueType> = Vec::new();
    let mut p = start;
    loop
        invariant
            start <= p <= s@.len(),
            close == '}' || close == ']',
            wf_values(vs@),
            vs@.len() == 0 ==> p == start,
            vs@.len() > 0 ==> s@.subrange(start as int, p as int) == text_values(vs@) + seq![','],
            forall|xs: Seq<ValueType>|
                #![trigger values_cand(s@, start as int, xs, close)]
                values_cand(s@, start as int, xs, close) ==> vs@.len() < xs.len() && p == start
                    + values_offset(xs, vs@.len() as int),
        decreases s@.len() - p,
    {
        let ghost k = vs@.len() as int;
        let got = value_at(s, p);
        proof {
            assert forall|xs: Seq<ValueType>| #![trigger values_cand(s@, start as int, xs, close)]
                values_cand(s@, start as int, xs, close) implies (got matches Some((_, e)) && e == p
                + text_value(xs[k]).len() && e < s@.len() && s@[e as int] == (if k + 1 < xs.len() {
                ','
            } else {
                close
            }) && values_offset(xs, k + 1) == values_offset(xs, k) + text_value(xs[k]).len() + 1) by {
                lemma_values_at(s@, start as int, xs, close, k);
                lemma_wf_values_index(xs, k);
                assert(value_cand(s@, p as int, xs[k]));
            }
        }
        match got {
            None => {
                return None;
            },
            Some((v, e)) => {
                proof {
                    lemma_text_values_push(vs@, v);
                    if vs@.len() > 0 {
                        assert(s@.subrange(start as int, e as int) =~= s@.subrange(
                            start as int,
                            p as int,
                        ) + s@.subrange(p as int, e as int));
                    }
                }
                vs.push(v);
                p = e;
            },
        }
        if p >= s.len() {
            return None;
        }
        let c = s[p];
        assert(s@.subrange(start as int, p + 1) =~= s@.subrange(start as int, p as int) + seq![
            c,
        ]);
        if c == close {
            proof {
                assert forall|xs: Seq<ValueType>| #![trigger values_cand(s@, start as int, xs, close)]
                    values_cand(s@, start as int, xs, close) implies p + 1 == start + text_values(xs).len() + 1 by {
                    assert(k + 1 == xs.len());
                    assert(xs.subrange(0, k + 1) =~= xs);
                }
            }
            return Some((vs, p + 1));
        }
        if c != ',' {
            return None;
        }
        p = p + 1;
    }
}

fn async_class_at(s: &Vec<char>, a: usize, b: usize) -> (c: AsyncClassType)
    requires
        a <= b <= s@.len(),
    ensures
        c == async_class_of(s@.subrange(a as int, b as int)),
{
    if range_is(s, a, b, "stopped") {
        AsyncClassType::Stopped
    } else if range_is(s, a, b, "running") {
        AsyncClassType::Running
    } else if range_is(s, a, b, "thread-selected") {
        AsyncClassType::ThreadSelected
    } else if range_is(s, a, b, "breakpoint-created") {
        AsyncClassType::BreakpointCreated
    } else if range_is(s, a, b, "breakpoint-modified") {
        AsyncClassType::BreakpointModified
    } else if range_is(s, a, b, "breakpoint-deleted") {
        AsyncClassType::BreakpointDeleted
    } else {
        AsyncClassType::Unknown
    }
}

fn starts_value(c: char) -> (b: bool)
    ensures
        b == (c == '"' || c == '{' || c == '['),
{
    c == '"' || c == '{' || c == '['
}

proof fn lemma_comma_results_split(rs: Seq<ResultType>, k: int)
    requires
        0 <= k <= rs.len(),
    ensures
        comma_results(rs) == comma_results(rs.subrange(0, k)) + comma_results(
            rs.subrange(k, rs.len() as int),
        ),
    decreases rs.len(),
{
    let n = rs.len() as int;
    if k == n {
        assert(rs.subrange(0, k) =~= rs);
        assert(rs.subrange(k, n).len() == 0);
        assert(comma_results(rs) + Seq::<char>::empty() =~= comma_results(rs));
    } else {
        let last = rs.subrange(0, n - 1);
        lemma_comma_results_split(last, k);
        assert(last.subrange(0, k) =~= rs.subrange(0, k));
        let t = rs.subrange(k, n);
        assert(t.subrange(0, t.len() - 1) =~= last.subrange(k, last.len() as int));
        assert(t[t.len() - 1] == rs[n - 1]);
    }
}

proof fn lemma_comma_values_split(vs: Seq<ValueType>, k: int)
    requires
        0 <= k <= vs.len(),
    ensures
        comma_values(vs) == comma_values(vs.subrange(0, k)) + comma_values(
            vs.subrange(k, vs.len() as int),
        ),
    decreases vs.len(),
{
    let n = vs.len() as int;
    if k == n {
        assert(vs.subrange(0, k) =~= vs);
        assert(vs.subrange(k, n).len() == 0);
        assert(comma_values(vs) + Seq::<char>::empty() =~= comma_values(vs));
    } else {
        let last = vs.subrange(0, n - 1);
        lemma_comma_values_split(last, k);
        assert(last.subrange(0, k) =~= vs.subrange(0, k));
        let t = vs.subrange(k, n);
        assert(t.subrange(0, t.len() - 1) =~= last.subrange(k, last.len() as int));
        assert(t[t.len() - 1] == vs[n - 1]);
    }
}

/// What may follow the results of a record: no comma with a name after it.
pub open spec fn ends_results(rest: Seq<char>) -> bool {
    rest.len() >= 1 && !(rest[0] == ',' && rest.len() >= 2 && is_ident_char(rest[1]))
}

/// What may follow the values of a record: no comma with a value after it.
pub open spec fn ends_values(rest: Seq<char>) -> bool {
    rest.len() >= 1 && !(rest[0] == ',' && rest.len() >= 2 && (rest[1] == '"' || rest[1] == '{'
        || rest[1] == '['))
}

pub open spec fn comma_results_cand(s: Seq<char>, start: int, xs: Seq<ResultType>, rest: Seq<char>) -> bool {
    &&& wf_results(xs)
    &&& 0 <= start <= s.len()
    &&& s.subrange(start, s.len() as int) == comma_results(xs) + rest
    &&& ends_results(rest)
}

pub open spec fn comma_values_cand(s: Seq<char>, start: int, xs: Seq<ValueType>, rest: Seq<char>) -> bool {
    &&& wf_values(xs)
    &&& 0 <= start <= s.len()
    &&& s.subrange(start, s.len() as int) == comma_values(xs) + rest
    &&& ends_values(rest)
}

/// Where the `k`-th result of a comma list stands.
proof fn lemma_comma_results_at(s: Seq<char>, start: int, xs: Seq<ResultType>, rest: Seq<char>, k: int)
    requires
        comma_results_cand(s, start, xs, rest),
        0 <= k <= xs.len(),
    ensures
        ({
            let off = comma_results(xs.subrange(0, k)).len() as int;
            let p = start + off;
            &&& k < xs.len() ==> p + 1 < s.len() && s[p] == ',' && is_ident_char(s[p + 1])
                && text_at(s, p + 1, text_result(xs[k])) && comma_results(xs.subrange(0, k + 1)).len()
                == off + 1 + text_result(xs[k]).len()
            &&& k == xs.len() ==> !(s.len() - p > 1 && s[p] == ',' && is_ident_char(s[p + 1])) && s.subrange(p, s.len() as int) == rest
        }),
{
    let n = xs.len() as int;
    let whole = comma_results(xs) + rest;
    lemma_comma_results_split(xs, k);
    let off = comma_results(xs.subrange(0, k)).len() as int;
    let p = start + off;
    let tail = comma_results(xs.subrange(k, n)) + rest;
    assert(whole =~= comma_results(xs.subrange(0, k)) + tail);
    assert(s.subrange(p, s.len() as int) =~= tail) by {
        assert forall|i: int| 0 <= i < tail.len() implies s.subrange(p, s.len() as int)[i] == tail[i] by {
            assert(s.subrange(start, s.len() as int)[off + i] == whole[off + i]);
        }
    }
    if k < n {
        let tk = text_result(xs[k]);
        let ys = xs.subrange(k, n);
        lemma_comma_results_split(ys, 1);
        let one = ys.subrange(0, 1);
        assert(one.subrange(0, 0) =~= Seq::<ResultType>::empty());
        assert(comma_results(one.subrange(0, 0)) == Seq::<char>::empty());
        assert(one[0] == xs[k]);
        assert(comma_results(one) =~= seq![','] + tk);
        assert(ys.subrange(1, ys.len() as int) =~= xs.subrange(k + 1, n));
        let after = comma_results(xs.subrange(k + 1, n)) + rest;
        assert(tail =~= seq![','] + tk + after);
        lemma_wf_results_index(xs, k);
        assert(tk == xs[k].variable@ + seq!['='] + text_value(xs[k].value));
        assert(tk[0] == xs[k].variable@[0]);
        assert(is_ident_char(xs[k].variable@[0]));
        assert(s[p] == tail[0]) by {
            assert(s.subrange(p, s.len() as int)[0] == s[p]);
        }
        assert(s[p + 1] == tail[1]) by {
            assert(s.subrange(p, s.len() as int)[1] == s[p + 1]);
        }
        assert(s.subrange(p + 1, p + 1 + tk.len()) =~= tk) by {
            assert forall|i: int| 0 <= i < tk.len() implies s[p + 1 + i] == tk[i] by {
                assert(s.subrange(p, s.len() as int)[1 + i] == s[p + 1 + i]);
                assert(tail[1 + i] == tk[i]);
            }
        }
        let upto = xs.subrange(0, k + 1);
        assert(upto.subrange(0, k) =~= xs.subrange(0, k));
        assert(upto[k] == xs[k]);
    } else {
        assert(xs.subrange(k, n).len() == 0);
        assert(tail =~= rest);
        if s.len() - p > 1 {
            assert(s[p] == rest[0]) by {
                assert(s.subrange(p, s.len() as int)[0] == s[p]);
            }
            assert(s[p + 1] == rest[1]) by {
                assert(s.subrange(p, s.len() as int)[1] == s[p + 1]);
            }
        }
    }
}

proof fn lemma_comma_values_at(s: Seq<char>, start: int, xs: Seq<ValueType>, rest: Seq<char>, k: int)
    requires
        comma_values_cand(s, start, xs, rest),
        0 <= k <= xs.len(),
    ensures
        ({
            let off = comma_values(xs.subrange(0, k)).len() as int;
            let p = start + off;
            &&& k < xs.len() ==> p + 1 < s.len() && s[p] == ',' && (s[p + 1] == '"' || s[p + 1]
                == '{' || s[p + 1] == '[') && text_at(s, p + 1, text_value(xs[k]))
                && comma_values(xs.subrange(0, k + 1)).len() == off + 1 + text_value(xs[k]).len()
            &&& k == xs.len() ==> !(s.len() - p > 1 && s[p] == ',' && (s[p + 1] == '"' || s[p + 1]
                == '{' || s[p + 1] == '[')) && s.subrange(p, s.len() as int) == rest
        }),
{
    let n = xs.len() as int;
    let whole = comma_values(xs) + rest;
    lemma_comma_values_split(xs, k);
    let off = comma_values(xs.subrange(0, k)).len() as int;
    let p = start + off;
    let tail = comma_values(xs.subrange(k, n)) + rest;
    assert(whole =~= comma_values(xs.subrange(0, k)) + tail);
    assert(s.subrange(p, s.len() as int) =~= tail) by {
        assert forall|i: int| 0 <= i < tail.len() implies s.subrange(p, s.len() as int)[i] == tail[i] by {
            assert(s.subrange(start, s.len() as int)[off + i] == whole[off + i]);
        }
    }
    if k < n {
        let tk = text_value(xs[k]);
        let ys = xs.subrange(k, n);
        lemma_comma_values_split(ys, 1);
        let one = ys.subrange(0, 1);
        assert(one.subrange(0, 0) =~= Seq::<ValueType>::empty());
        assert(comma_values(one.subrange(0, 0)) == Seq::<char>::empty());
        assert(one[0] == xs[k]);
        assert(comma_values(one) =~= seq![','] + tk);
        assert(ys.subrange(1, ys.len() as int) =~= xs.subrange(k + 1, n));
        let after = comma_values(xs.subrange(k + 1, n)) + rest;
        assert(tail =~= seq![','] + tk + after);
        lemma_wf_values_index(xs, k);
        lemma_value_text_opens(xs[k]);
        assert(s[p] == tail[0]) by {
            assert(s.subrange(p, s.len() as int)[0] == s[p]);
        }
        assert(s[p + 1] == tail[1]) by {
            assert(s.subrange(p, s.len() as int)[1] == s[p + 1]);
        }
        assert(s.subrange(p + 1, p + 1 + tk.len()) =~= tk) by {
            assert forall|i: int| 0 <= i < tk.len() implies s[p + 1 + i] == tk[i] by {
                assert(s.subrange(p, s.len() as int)[1 + i] == s[p + 1 + i]);
                assert(tail[1 + i] == tk[i]);
            }
        }
        let upto = xs.subrange(0, k + 1);
        assert(upto.subrange(0, k) =~= xs.subrange(0, k));
        assert(upto[k] == xs[k]);
    } else {
        assert(xs.subrange(k, n).len() == 0);
        assert(tail =~= rest);
        if s.len() - p > 1 {
            assert(s[p] == rest[0]) by {
                assert(s.subrange(p, s.len() as int)[0] == s[p]);
            }
            assert(s[p + 1] == rest[1]) by {
                assert(s.subrange(p, s.len() as int)[1] == s[p + 1]);
            }
        }
    }
}

/// The results that follow position `start`, each after a comma, up to the
/// first comma that is not followed by a name.
fn comma_results_from(s: &Vec<char>, start: usize) -> (r: Result<(Vec<ResultType>, usize), ParseError>)
    requires
        start <= s@.len(),
    ensures
        r matches Ok((rs, e)) ==> start <= e <= s@.len() && wf_results(rs@) && s@.subrange(
            start as int,
            e as int,
        ) == comma_results(rs@),
        forall|xs: Seq<ResultType>, rest: Seq<char>|
            #![trigger comma_results_cand(s@, start as int, xs, rest)]
            comma_results_cand(s@, start as int, xs, rest) ==> (r matches Ok((_, e)) && s@.subrange(
                e as int,
                s@.len() as int,
            ) == rest),
{
    let mut rs: Vec<ResultType> = Vec::new();
    let mut p = start;
    assert(s@.subrange(start as int, p as int) =~= comma_results(rs@));
    proof {
        assert forall|xs: Seq<ResultType>, rest: Seq<char>|
            #![trigger comma_results_cand(s@, start as int, xs, rest)]
            comma_results_cand(s@, start as int, xs, rest) implies rs@.len() <= xs.len() && p
            == start + comma_results(xs.subrange(0, rs@.len() as int)).len() by {
            assert(xs.subrange(0, 0).len() == 0);
        }
    }
    while s.len() - p > 1 && s[p] == ',' && ident_char(s[p + 1])
        invariant
            start <= p <= s@.len(),
            wf_results(rs@),
            s@.subrange(start as int, p as int) == comma_results(rs@),
            forall|xs: Seq<ResultType>, rest: Seq<char>|
                #![trigger comma_results_cand(s@, start as int, xs, rest)]
                comma_results_cand(s@, start as int, xs, rest) ==> rs@.len() <= xs.len() && p
                    == start + comma_results(xs.subrange(0, rs@.len() as int)).len(),
        decreases s@.len() - p,
    {
        let ghost k = rs@.len() as int;
        proof {
            assert forall|xs: Seq<ResultType>, rest: Seq<char>|
                #![trigger comma_results_cand(s@, start as int, xs, rest)]
                comma_results_cand(s@, start as int, xs, rest) implies k < xs.len() && result_cand(s@, p + 1, xs[k])
                && comma_results(xs.subrange(0, k + 1)).len() == p - start + 1 + text_result(xs[k]).len() by {
                lemma_comma_results_at(s@, start as int, xs, rest, k);
                lemma_wf_results_index(xs, k);
            }
        }
        match result_at(s, p + 1) {
            None => {
                return Err(ParseError { position: p + 1 });
            },
            Some((res, e)) => {
                proof {
                    lemma_text_results_push(rs@, res);
                    assert(s@.subrange(start as int, e as int) =~= s@.subrange(
                        start as int,
                        p as int,
                    ) + seq![','] + s@.subrange(p + 1, e as int));
                }
                rs.push(res);
                p = e;
            },
        }
    }
    proof {
        assert forall|xs: Seq<ResultType>, rest: Seq<char>|
            #![trigger comma_results_cand(s@, start as int, xs, rest)]
            comma_results_cand(s@, start as int, xs, rest) implies s@.subrange(p as int, s@.len() as int) == rest by {
            let k = rs@.len() as int;
            lemma_comma_results_at(s@, start as int, xs, rest, k);
        }
    }
    Ok((rs, p))
}

/// The bare values that follow position `start`, each after a comma.
fn comma_values_from(s: &Vec<char>, start: usize) -> (r: Result<(Vec<ValueType>, usize), ParseError>)
    requires
        start <= s@.len(),
    ensures
        r matches Ok((vs, e)) ==> start <= e <= s@.len() && wf_values(vs@) && s@.subrange(
            start as int,
            e as int,
        ) == comma_values(vs@),
        forall|xs: Seq<ValueType>, rest: Seq<char>|
            #![trigger comma_values_cand(s@, start as int, xs, rest)]
            comma_values_cand(s@, start as int, xs, rest) ==> (r matches Ok((_, e)) && s@.subrange(
                e as int,
                s@.len() as int,
            ) == rest),
{
    let mut vs: Vec<ValueType> = Vec::new();
    let mut p = start;
    assert(s@.subrange(start as int, p as int) =~= comma_values(vs@));
    proof {
        assert forall|xs: Seq<ValueType>, rest: Seq<char>|
            #![trigger comma_values_cand(s@, start as int, xs, rest)]
            comma_values_cand(s@, start as int, xs, rest) implies vs@.len() <= xs.len() && p
            == start + comma_values(xs.subrange(0, vs@.len() as int)).len() by {
            assert(xs.subrange(0, 0).len() == 0);
        }
    }
    while s.len() - p > 1 && s[p] == ',' && starts_value(s[p + 1])
        invariant
            start <= p <= s@.len(),
            wf_values(vs@),
            s@.subrange(start as int, p as int) == comma_values(vs@),
            forall|xs: Seq<ValueType>, rest: Seq<char>|
                #![trigger comma_values_cand(s@, start as int, xs, rest)]
                comma_values_cand(s@, start as int, xs, rest) ==> vs@.len() <= xs.len() && p
                    == start + comma_values(xs.subrange(0, vs@.len() as int)).len(),
        decreases s@.len() - p,
    {
        let ghost k = vs@.len() as int;
        proof {
            assert forall|xs: Seq<ValueType>, rest: Seq<char>|
                #![trigger comma_values_cand(s@, start as int, xs, rest)]
                comma_values_cand(s@, start as int, xs, rest) implies k < xs.len() && value_cand(s@, p + 1, xs[k])
                && comma_values(xs.subrange(0, k + 1)).len() == p - start + 1 + text_value(xs[k]).len() by {
                lemma_comma_values_at(s@, start as int, xs, rest, k);
                lemma_wf_values_index(xs, k);
            }
        }
        match value_at(s, p + 1) {
            None => {
                return Err(ParseError { position: p + 1 });
            },
            Some((v, e)) => {
                proof {
                    lemma_text_values_push(vs@, v);
                    assert(s@.subrange(start as int, e as int) =~= s@.subrange(
                        start as int,
                        p as int,
                    ) + seq![','] + s@.subrange(p + 1, e as int));
                }
                vs.push(v);
                p = e;
            },
        }
    }
    proof {
        assert forall|xs: Seq<ValueType>, rest: Seq<char>|
            #![trigger comma_values_cand(s@, start as int, xs, rest)]
            comma_values_cand(s@, start as int, xs, rest) implies s@.subrange(p as int, s@.len() as int) == rest by {
            let k = vs@.len() as int;
            lemma_comma_values_at(s@, start as int, xs, rest, k);
        }
    }
    Ok((vs, p))
}

/// Whether the line ends at `p` with `\n` or `\r\n`.
fn line_end_at(s: &Vec<char>, p: usize) -> (b: bool)
    requires
        p <= s@.len(),
    ensures
        b == is_line_end(s@.subrange(p as int, s@.len() as int)),
{
    let n = s.len();
    let r = (n - p == 1 && s[p] == '\n') || (n - p == 2 && s[p] == '\r' && s[p + 1] == '\n');
    proof {
        let t = s@.subrange(p as int, n as int);
        let lf = seq!['\n'];
        let crlf = seq!['\r', '\n'];
        assert(lf.len() == 1 && lf[0] == '\n');
        assert(crlf.len() == 2 && crlf[0] == '\r' && crlf[1] == '\n');
        if r {
            if t.len() == 1 {
                assert(t =~= lf);
            } else {
                assert(t =~= crlf);
            }
        } else {
            if t == lf {
                assert(t[0] == '\n');
            }
            if t == crlf {
                assert(t[0] == '\r' && t[1] == '\n');
            }
        }
    }
    r
}

/// Class name of a record: the identifier that starts at position 1.
fn class_name_end(s: &Vec<char>) -> (r: Result<usize, ParseError>)
    requires
        s@.len() >= 1,
    ensures
        r matches Ok(e) ==> 1 < e <= s@.len() && is_ident(s@.subrange(1, e as int)),
        forall|name: Seq<char>|
            #![trigger is_ident(name)]
            is_ident(name) && 1 + name.len() < s@.len() && s@.subrange(1, (1 + name.len()) as int) == name
                && !is_ident_char(s@[(1 + name.len()) as int]) ==> (r matches Ok(e) && e == 1
                + name.len()),
{
    let e = ident_end(s, 1);
    proof {
        assert forall|name: Seq<char>|
            #![trigger is_ident(name)]
            is_ident(name) && 1 + name.len() < s@.len() && s@.subrange(1, (1 + name.len()) as int) == name
                && !is_ident_char(s@[(1 + name.len()) as int]) implies e == 1 + name.len() by {
            if e < 1 + name.len() {
                assert(s@.subrange(1, (1 + name.len()) as int)[e - 1] == s@[e as int]);
                assert(is_ident_char(name[e - 1]));
            }
        }
    }
    if e == 1 {
        return Err(ParseError { position: 1 });
    }
    assert(is_ident(s@.subrange(1, e as int))) by {
        assert forall|i: int| 0 <= i < e - 1 implies is_ident_char(
            #[trigger] s@.subrange(1, e as int)[i],
        ) by {
            assert(s@.subrange(1, e as int)[i] == s@[1 + i]);
        }
    }
    Ok(e)
}

/// What follows a class name: a comma or the line end, never a name character.
proof fn lemma_after_name(rs: Seq<ResultType>, vs: Seq<ValueType>, e: Seq<char>)
    requires
        is_line_end(e),
        wf_values(vs),
    ensures
        (comma_results(rs) + comma_values(vs) + e).len() >= 1,
        !is_ident_char((comma_results(rs) + comma_values(vs) + e)[0]),
        ends_results(comma_values(vs) + e),
        ends_values(e),
{
    let lf = seq!['\n'];
    let crlf = seq!['\r', '\n'];
    assert(e.len() >= 1 && (e[0] == '\n' || e[0] == '\r')) by {
        if e == lf {
            assert(e[0] == '\n');
        } else {
            assert(e[0] == '\r');
        }
    }
    if rs.len() > 0 {
        lemma_comma_results_split(rs, 1);
        let one = rs.subrange(0, 1);
        assert(one.subrange(0, 0) =~= Seq::<ResultType>::empty());
        assert(comma_results(one.subrange(0, 0)) == Seq::<char>::empty());
        assert(comma_results(one) == seq![','] + text_result(one[0]));
        assert(comma_results(one)[0] == ',');
    }
    if vs.len() > 0 {
        lemma_comma_values_split(vs, 1);
        let one = vs.subrange(0, 1);
        assert(one.subrange(0, 0) =~= Seq::<ValueType>::empty());
        assert(comma_values(one.subrange(0, 0)) == Seq::<char>::empty());
        assert(one[0] == vs[0]);
        assert(comma_values(one) =~= seq![','] + text_value(vs[0]));
        lemma_wf_values_index(vs, 0);
        lemma_value_text_opens(vs[0]);
        assert(comma_values(vs)[0] == ',');
        assert(comma_values(vs)[1] == text_value(vs[0])[0]);
    }
    let t = comma_results(rs) + comma_values(vs) + e;
    if rs.len() == 0 {
        assert(comma_results(rs).len() == 0);
        if vs.len() == 0 {
            assert(comma_values(vs).len() == 0);
            assert(t =~= e);
        } else {
            assert(t[0] == comma_values(vs)[0]);
        }
    } else {
        assert(t[0] == comma_results(rs)[0]);
    }
    if vs.len() == 0 {
        assert(comma_values(vs) + e =~= e);
    } else {
        assert((comma_values(vs) + e)[1] == comma_values(vs)[1]);
    }
}

/// The parts of the text of an out-of-band record: class name, results,
/// values and line end, with what the scanning steps need of them.
proof fn lemma_out_of_band_parts(s: Seq<char>) -> (parts: (Seq<char>, Seq<ResultType>, Seq<ValueType>, Seq<char>))
    requires
        exists|o: OutOfBandRecordType| is_text_of_out_of_band(o, s),
    ensures
        is_ident(parts.0),
        1 + parts.0.len() < s.len(),
        s.subrange(1, (1 + parts.0.len()) as int) == parts.0,
        !is_ident_char(s[(1 + parts.0.len()) as int]),
        comma_results_cand(s, (1 + parts.0.len()) as int, parts.1, comma_values(parts.2) + parts.3),
        wf_values(parts.2),
        ends_values(parts.3),
        is_line_end(parts.3),
        s[0] == '=' || s[0] == '*',
{
    let o = choose|o: OutOfBandRecordType| is_text_of_out_of_band(o, s);
    let OutOfBandRecordType::AsyncRecord(a) = o;
    let out = async_output_of(a);
    let (nm, e) = choose|nm: Seq<char>, e: Seq<char>|
        #![trigger is_ident(nm), is_line_end(e)]
        is_ident(nm) && is_line_end(e) && async_class_of(nm) == out.async_class && s == seq![
            async_prefix(a),
        ] + nm + comma_results(out.resaults@) + comma_values(out.values@) + e;
    let crs = out.resaults@;
    let cvs = out.values@;
    lemma_after_name(crs, cvs, e);
    let tail = comma_results(crs) + comma_values(cvs) + e;
    assert(s =~= seq![async_prefix(a)] + nm + tail);
    assert(s.subrange(1, (1 + nm.len()) as int) =~= nm);
    assert(s[(1 + nm.len()) as int] == tail[0]);
    assert(s.subrange((1 + nm.len()) as int, s.len() as int) =~= comma_results(crs) + (comma_values(cvs) + e));
    (nm, crs, cvs, e)
}

/// The parts of the text of a result record: class name, results and line end.
proof fn lemma_result_record_parts(s: Seq<char>) -> (parts: (Seq<char>, Seq<ResultType>, Seq<char>))
    requires
        exists|o: ResultRecordType| is_text_of_result_record(o, s),
    ensures
        is_ident(parts.0),
        1 + parts.0.len() < s.len(),
        s.subrange(1, (1 + parts.0.len()) as int) == parts.0,
        !is_ident_char(s[(1 + parts.0.len()) as int]),
        comma_results_cand(s, (1 + parts.0.len()) as int, parts.1, parts.2),
        is_line_end(parts.2),
        s[0] == '^',
{
    let o = choose|o: ResultRecordType| is_text_of_result_record(o, s);
    let (nm, e) = choose|nm: Seq<char>, e: Seq<char>|
        #![trigger is_ident(nm), is_line_end(e)]
        is_ident(nm) && is_line_end(e) && result_class_of(nm) == o.result_class && s == seq!['^']
            + nm + comma_results(o.results@) + e;
    let crs = o.results@;
    let none = Seq::<ValueType>::empty();
    lemma_after_name(crs, none, e);
    assert(comma_values(none) =~= Seq::<char>::empty());
    assert(comma_values(none) + e =~= e);
    let tail = comma_results(crs) + e;
    assert(comma_results(crs) + comma_values(none) + e =~= tail);
    assert(s =~= seq!['^'] + nm + tail);
    assert(s.subrange(1, (1 + nm.len()) as int) =~= nm);
    assert(s[(1 + nm.len()) as int] == tail[0]);
    assert(s.subrange((1 + nm.len()) as int, s.len() as int) =~= comma_results(crs) + e);
    (nm, crs, e)
}

#[verifier::rlimit(60)]
fn out_of_band_of(s: &Vec<char>) -> (r: Result<OutOfBandRecordType, ParseError>)
    requires
        s@.len() >= 1,
        s@[0] == '=' || s@[0] == '*',
    ensures
        r matches Ok(rec) ==> is_text_of_out_of_band(rec, s@),
        (exists|o: OutOfBandRecordType| is_text_of_out_of_band(o, s@)) ==> r is Ok,
{
    let ghost cand = exists|o: OutOfBandRecordType| is_text_of_out_of_band(o, s@);
    let ghost mut name: Seq<char> = Seq::empty();
    let ghost mut crs: Seq<ResultType> = Seq::empty();
    let ghost mut cvs: Seq<ValueType> = Seq::empty();
    let ghost mut ce: Seq<char> = Seq::empty();
    proof {
        if cand {
            let parts = lemma_out_of_band_parts(s@);
            name = parts.0;
            crs = parts.1;
            cvs = parts.2;
            ce = parts.3;
        }
    }
    let n1 = class_name_end(s)?;
    proof {
        if cand {
            assert(is_ident(name));
            assert(n1 == 1 + name.len());
            assert(comma_results_cand(s@, n1 as int, crs, comma_values(cvs) + ce));
        }
    }
    let class = async_class_at(s, 1, n1);
    let (resaults, n2) = comma_results_from(s, n1)?;
    proof {
        if cand {
            assert(s@.subrange(n2 as int, s@.len() as int) == comma_values(cvs) + ce);
            assert(comma_values_cand(s@, n2 as int, cvs, ce));
        }
    }
    let (values, n3) = comma_values_from(s, n2)?;
    proof {
        if cand {
            assert(s@.subrange(n3 as int, s@.len() as int) == ce);
        }
    }
    if !line_end_at(s, n3) {
        return Err(ParseError { position: n3 });
    }
    let ghost rs = resaults@;
    let ghost vs = values@;
    let async_output = AsyncOutputType { async_class: class, resaults, values };
    let a = if s[0] == '=' {
        AsyncRecordType::NotifyAsyncOutput(NotifyAsyncOutputType { async_output })
    } else {
        AsyncRecordType::ExecAsyncOutput(ExecAsyncOutputType { async_output })
    };
    let rec = OutOfBandRecordType::AsyncRecord(a);
    proof {
        let name = s@.subrange(1, n1 as int);
        let e = s@.subrange(n3 as int, s@.len() as int);
        assert(is_ident(name));
        assert(is_line_end(e));
        assert(s@ =~= seq![async_prefix(a)] + name + comma_results(rs) + comma_values(vs) + e) by {
            assert(s@ =~= s@.subrange(0, 1) + s@.subrange(1, n1 as int) + s@.subrange(
                n1 as int,
                n2 as int,
            ) + s@.subrange(n2 as int, n3 as int) + s@.subrange(n3 as int, s@.len() as int));
        }
    }
    Ok(rec)
}

#[verifier::rlimit(60)]
fn result_record_of(s: &Vec<char>) -> (r: Result<ResultRecordType, ParseError>)
    requires
        s@.len() >= 1,
        s@[0] == '^',
    ensures
        r matches Ok(rec) ==> is_text_of_result_record(rec, s@),
        (exists|o: ResultRecordType| is_text_of_result_record(o, s@)) ==> r is Ok,
{
    let ghost cand = exists|o: ResultRecordType| is_text_of_result_record(o, s@);
    let ghost mut name: Seq<char> = Seq::empty();
    let ghost mut crs: Seq<ResultType> = Seq::empty();
    let ghost mut ce: Seq<char> = Seq::empty();
    proof {
        if cand {
            let parts = lemma_result_record_parts(s@);
            name = parts.0;
            crs = parts.1;
            ce = parts.2;
        }
    }
    let n1 = class_name_end(s)?;
    proof {
        if cand {
            assert(is_ident(name));
            assert(n1 == 1 + name.len());
            assert(comma_results_cand(s@, n1 as int, crs, ce));
        }
    }
    let result_class = if range_is(s, 1, n1, "done") {
        ResultClassType::Done
    } else {
        ResultClassType::Other
    };
    let (results, n2) = comma_results_from(s, n1)?;
    proof {
        if cand {
            assert(s@.subrange(n2 as int, s@.len() as int) == ce);
        }
    }
    if !line_end_at(s, n2) {
        return Err(ParseError { position: n2 });
    }
    let ghost rs = results@;
    let rec = ResultRecordType { result_class, results };
    proof {
        let name = s@.subrange(1, n1 as int);
        let e = s@.subrange(n2 as int, s@.len() as int);
        assert(is_ident(name));
        assert(is_line_end(e));
        assert(s@ =~= seq!['^'] + name + comma_results(rs) + e) by {
            assert(s@ =~= s@.subrange(0, 1) + s@.subrange(1, n1 as int) + s@.subrange(
                n1 as int,
                n2 as int,
            ) + s@.subrange(n2 as int, s@.len() as int));
        }
    }
    Ok(rec)
}

/// Parses one line of machine-interface output, line end included; it is
/// read exactly when it is the text of a record.
pub fn parse_output_oneline(line: &str) -> (r: Result<OutputOneline, ParseError>)
    ensures
        r matches Ok(o) ==> is_text_of_line(o, line@),
        r is Ok <==> exists|o: OutputOneline| is_text_of_line(o, line@),
{
    let s = chars_of(line);
    let ghost oob = exists|o: OutOfBandRecordType| is_text_of_out_of_band(o, s@);
    let ghost rr = exists|o: ResultRecordType| is_text_of_result_record(o, s@);
    proof {
        assert((exists|o: OutputOneline| is_text_of_line(o, line@)) ==> oob || rr) by {
            if exists|o: OutputOneline| is_text_of_line(o, line@) {
                let o = choose|o: OutputOneline| is_text_of_line(o, line@);
                match o {
                    OutputOneline::OutOfBandRecord(rec) => {
                        assert(is_text_of_out_of_band(rec, s@));
                    },
                    OutputOneline::ResultRecord(rec) => {
                        assert(is_text_of_result_record(rec, s@));
                    },
                }
            }
        }
        if oob {
            lemma_out_of_band_parts(s@);
        }
        if rr {
            lemma_result_record_parts(s@);
        }
    }
    if s.len() == 0 {
        return Err(ParseError { position: 0 });
    }
    if s[0] == '=' || s[0] == '*' {
        let rec = out_of_band_of(&s)?;
        let o = OutputOneline::OutOfBandRecord(rec);
        assert(is_text_of_line(o, line@));
        Ok(o)
    } else if s[0] == '^' {
        let rec = result_record_of(&s)?;
        let o = OutputOneline::ResultRecord(rec);
        assert(is_text_of_line(o, line@));
        Ok(o)
    } else {
        Err(ParseError { position: 0 })
    }
}

/// Parses one out-of-band record (`=...` or `*...`), line end included; it
/// is read exactly when it is the text of such a record.
pub fn parse_out_of_band_record(line: &str) -> (r: Result<OutOfBandRecordType, ParseError>)
    ensures
        r matches Ok(rec) ==> is_text_of_out_of_band(rec, line@),
        r is Ok <==> exists|o: OutOfBandRecordType| is_text_of_out_of_band(o, line@),
{
    let s = chars_of(line);
    proof {
        if exists|o: OutOfBandRecordType| is_text_of_out_of_band(o, s@) {
            let o = choose|o: OutOfBandRecordType| is_text_of_out_of_band(o, s@);
            let OutOfBandRecordType::AsyncRecord(a) = o;
            let out = async_output_of(a);
            let (nm, e) = choose|nm: Seq<char>, e: Seq<char>|
                #![trigger is_ident(nm), is_line_end(e)]
                is_ident(nm) && is_line_end(e) && async_class_of(nm) == out.async_class && s@
                    == seq![async_prefix(a)] + nm + comma_results(out.resaults@) + comma_values(
                    out.values@,
                ) + e;
            assert(s@[0] == async_prefix(a));
        }
    }
    if s.len() == 0 || !(s[0] == '=' || s[0] == '*') {
        return Err(ParseError { position: 0 });
    }
    out_of_band_of(&s)
}

/// Parses a whole text as one value; it is read exactly when it is the text
/// of a value.
pub fn parse_value(text: &str) -> (r: Option<ValueType>)
    ensures
        r matches Some(v) ==> wf_value(v) && text@ == text_value(v),
        r is Some <==> exists|v: ValueType| wf_value(v) && text@ == text_value(v),
{
    let s = chars_of(text);
    let got = value_at(&s, 0);
    proof {
        if exists|v: ValueType| wf_value(v) && text@ == text_value(v) {
            let v = choose|v: ValueType| wf_value(v) && text@ == text_value(v);
            assert(s@.subrange(0, text_value(v).len() as int) =~= s@);
            assert(value_cand(s@, 0, v));
        }
    }
    match got {
        Some((v, e)) => {
            if e == s.len() {
                assert(s@.subrange(0, e as int) =~= s@);
                Some(v)
            } else {
                None
            }
        },
        None => None,
    }
}

/// Parses a whole text as one tuple `{...}`.
pub fn parse_tuple(text: &str) -> (r: Option<Tuple>)
    ensures
        r matches Some(t) ==> wf_value(ValueType::Tuple(t)) && text@ == text_value(
            ValueType::Tuple(t),
        ),
        r is Some <==> exists|v: ValueType| v is Tuple && wf_value(v) && text@ == text_value(v),
{
    match parse_value(text) {
        Some(ValueType::Tuple(t)) => Some(t),
        other => {
            proof {
                if exists|v: ValueType| v is Tuple && wf_value(v) && text@ == text_value(v) {
                    let v = choose|v: ValueType| v is Tuple && wf_value(v) && text@ == text_value(v);
                    let w = other->0;
                    lemma_value_text_opens(v);
                    lemma_value_text_opens(w);
                }
            }
            None
        },
    }
}

/// Parses a whole text as one list `[...]`.
pub fn parse_list(text: &str) -> (r: Option<List>)
    ensures
        r matches Some(l) ==> wf_value(ValueType::List(l)) && text@ == text_value(
            ValueType::List(l),
        ),
        r is Some <==> exists|v: ValueType| v is List && wf_value(v) && text@ == text_value(v),
{
    match parse_value(text) {
        Some(ValueType::List(l)) => Some(l),
        other => {
            proof {
                if exists|v: ValueType| v is List && wf_value(v) && text@ == text_value(v) {
                    let v = choose|v: ValueType| v is List && wf_value(v) && text@ == text_value(v);
                    let w = other->0;
                    lemma_value_text_opens(v);
                    lemma_value_text_opens(w);
                }
            }
            None
        },
    }
}

/// Parses a whole text as one constant and returns what stands between the
/// quotes; it is read exactly when it is a quoted constant.
pub fn parse_c_string(text: &str) -> (r: Option<String>)
    ensures
        r matches Some(b) ==> is_cstring_body(b@) && text@ == seq!['"'] + b@ + seq!['"'],
        r is Some <==> exists|b: Seq<char>| is_cstring_body(b) && text@ == seq!['"'] + b + seq!['"'],
{
    let s = chars_of(text);
    proof {
        if exists|b: Seq<char>| is_cstring_body(b) && text@ == seq!['"'] + b + seq!['"'] {
            let b = choose|b: Seq<char>| is_cstring_body(b) && text@ == seq!['"'] + b + seq!['"'];
            assert(s@[0] == '"');
            assert(s@.subrange(1, (1 + b.len()) as int) =~= b);
            assert(s@[(1 + b.len()) as int] == '"');
        }
    }
    if s.len() == 0 || s[0] != '"' {
        return None;
    }
    match cstring_end(&s, 0) {
        Some(e) => {
            if e == s.len() {
                let body = string_of_range(&s, 1, e - 1);
                assert(s@ =~= seq!['"'] + body@ + seq!['"']);
                Some(body)
            } else {
                None
            }
        },
        None => None,
    }
}

/// Parses a whole text as one result `name=value`; it is read exactly when
/// it is the text of a result.
pub fn parse_result(text: &str) -> (r: Option<ResultType>)
    ensures
        r matches Some(res) ==> wf_result(res) && text@ == text_result(res),
        r is Some <==> exists|x: ResultType| wf_result(x) && text@ == text_result(x),
{
    let s = chars_of(text);
    let got = result_at(&s, 0);
    proof {
        if exists|x: ResultType| wf_result(x) && text@ == text_result(x) {
            let x = choose|x: ResultType| wf_result(x) && text@ == text_result(x);
            assert(s@.subrange(0, text_result(x).len() as int) =~= s@);
            assert(result_cand(s@, 0, x));
        }
    }
    match got {
        Some((res, e)) => {
            if e == s.len() {
                assert(s@.subrange(0, e as int) =~= s@);
                Some(res)
            } else {
                None
            }
        },
        None => None,
    }
}

/// Parses a whole text as a name; `None` exactly when it is not one.
pub fn parse_ident(text: &str) -> (r: Option<String>)
    ensures
        r matches Some(n) ==> n@ == text@,
        r is Some <==> is_ident(text@),
{
    let s = chars_of(text);
    let e = ident_end(&s, 0);
    if e == 0 || e != s.len() {
        return None;
    }
    assert(s@.subrange(0, e as int) =~= s@);
    Some(string_of_range(&s, 0, e))
}

/// Parses a whole text as one punctuation token.
pub fn parse_tok(text: &str) -> (r: Option<Tok>)
    ensures
        r == Some(Tok::Eq) <==> text@ == seq!['='],
        r == Some(Tok::DoubleQuotes) <==> text@ == seq!['"'],
        r == Some(Tok::Comma) <==> text@ == seq![','],
        r is None <==> !(text@ == seq!['='] || text@ == seq!['"'] || text@ == seq![',']),
{
    let s = chars_of(text);
    if s.len() != 1 {
        return None;
    }
    let c = s[0];
    proof {
        let eq = seq!['='];
        let dq = seq!['"'];
        let cm = seq![','];
        assert(eq.len() == 1 && eq[0] == '=');
        assert(dq.len() == 1 && dq[0] == '"');
        assert(cm.len() == 1 && cm[0] == ',');
        if c == '=' {
            assert(s@ =~= eq);
        } else if c == '"' {
            assert(s@ =~= dq);
        } else if c == ',' {
            assert(s@ =~= cm);
        }
        assert(s@ == eq ==> s@[0] == '=');
        assert(s@ == dq ==> s@[0] == '"');
        assert(s@ == cm ==> s@[0] == ',');
    }
    if c == '=' {
        Some(Tok::Eq)
    } else if c == '"' {
        Some(Tok::DoubleQuotes)
    } else if c == ',' {
        Some(Tok::Comma)
    } else {
        None
    }
}

} // verus!
