use vstd::prelude::*;
use crate::srcfiledata::{span_view, spans_view, text_lines, Color};

verus! {

/// What syntect gives `lines` of a file with the extension `ext`, with its
/// default syntaxes for lines without their newline and its
/// `base16-ocean.dark` theme: `None` when no syntax has that extension,
/// else for each line the colours and texts of its spans, or `None` where
/// syntect failed on the line.
pub uninterp spec fn highlighted(lines: Seq<Seq<char>>, ext: Seq<char>) -> Option<
    Seq<Option<Seq<((u8, u8, u8), Seq<char>)>>>,
>;

/// The texts of a line's spans joined in order.
pub open spec fn joined(l: Seq<((u8, u8, u8), Seq<char>)>) -> Seq<char>
    decreases l.len(),
{
    if l.len() == 0 {
        Seq::empty()
    } else {
        joined(l.subrange(0, l.len() - 1)) + l[l.len() - 1].1
    }
}

/// The texts of a line's coloured spans joined in order.
pub open spec fn span_text(l: Seq<(Color, Seq<char>)>) -> Seq<char>
    decreases l.len(),
{
    if l.len() == 0 {
        Seq::empty()
    } else {
        span_text(l.subrange(0, l.len() - 1)) + l[l.len() - 1].1
    }
}

pub open spec fn raw_view(v: Option<Vec<Option<Vec<((u8, u8, u8), String)>>>>) -> Option<
    Seq<Option<Seq<((u8, u8, u8), Seq<char>)>>>,
> {
    match v {
        Some(ls) => Some(
            ls@.map_values(
                |l: Option<Vec<((u8, u8, u8), String)>>| match l {
                    Some(spans) => Some(
                        spans@.map_values(|p: ((u8, u8, u8), String)| (p.0, p.1@)),
                    ),
                    None => None,
                },
            ),
        ),
        None => None,
    }
}

/// Relies on syntect's `SyntaxSet::find_syntax_by_extension` over its
/// default syntaxes, then `HighlightLines::highlight_line` run over the
/// lines in order, for the foreground colour of each span. There is one
/// entry per line, and the texts of a line's spans make up the line, as
/// syntect documents for its highlighting iterator.
#[verifier::external_body]
fn syntect_lines(lines: &Vec<String>, ext: &str) -> (r: Option<Vec<Option<Vec<((u8, u8, u8), String)>>>>)
    ensures
        raw_view(r) == highlighted(text_lines(lines@), ext@),
        r matches Some(ls) ==> ls@.len() == lines@.len(),
        r matches Some(ls) ==> forall|i: int|
            0 <= i < ls@.len() && (#[trigger] ls@[i]) is Some ==> joined(
                ls@[i]->0@.map_values(|p: ((u8, u8, u8), String)| (p.0, p.1@)),
            ) == lines@[i]@,
{
    let ps = syntect::parsing::SyntaxSet::load_defaults_nonewlines();
    let ts = syntect::highlighting::ThemeSet::load_defaults();
    let syntax = ps.find_syntax_by_extension(ext)?;
    let mut h = syntect::easy::HighlightLines::new(syntax, &ts.themes["base16-ocean.dark"]);
    Some(lines.iter().map(|l| h.highlight_line(l, &ps).ok().map(|v| {
        v.iter().map(|(s, t)| ((s.foreground.r, s.foreground.g, s.foreground.b), t.to_string())).collect()
    })).collect())
}

fn color_line(l: &Vec<((u8, u8, u8), String)>) -> (r: Vec<(Color, String)>)
    ensures
        span_view(r@) == l@.map_values(|p: ((u8, u8, u8), String)| (p.0, p.1@)).map_values(
            |p: ((u8, u8, u8), Seq<char>)| (Color::Rgb(p.0.0, p.0.1, p.0.2), p.1),
        ),
{
    let mut r: Vec<(Color, String)> = Vec::new();
    let mut i: usize = 0;
    while i < l.len()
        invariant
            0 <= i <= l@.len(),
            span_view(r@) == l@.subrange(0, i as int).map_values(
                |p: ((u8, u8, u8), String)| (p.0, p.1@),
            ).map_values(|p: ((u8, u8, u8), Seq<char>)| (Color::Rgb(p.0.0, p.0.1, p.0.2), p.1)),
        decreases l.len() - i,
    {
        let ((cr, cg, cb), t) = &l[i];
        let ghost before = r@;
        r.push((Color::Rgb(*cr, *cg, *cb), t.clone()));
        proof {
            let x = span_view(r@);
            let y = l@.subrange(0, i + 1).map_values(|p: ((u8, u8, u8), String)| (p.0, p.1@)).map_values(
                |p: ((u8, u8, u8), Seq<char>)| (Color::Rgb(p.0.0, p.0.1, p.0.2), p.1),
            );
            assert(span_view(before).len() == i);
            assert forall|k: int| 0 <= k < x.len() implies x[k] == y[k] by {
                if k < i {
                    assert(x[k] == span_view(before)[k]);
                }
            }
            assert(x =~= y);
        }
        i = i + 1;
    }
    assert(l@.subrange(0, i as int) =~= l@);
    r
}

proof fn lemma_colored_text(l: Seq<((u8, u8, u8), Seq<char>)>)
    ensures
        span_text(
            l.map_values(|p: ((u8, u8, u8), Seq<char>)| (Color::Rgb(p.0.0, p.0.1, p.0.2), p.1)),
        ) == joined(l),
    decreases l.len(),
{
    let m = l.map_values(|p: ((u8, u8, u8), Seq<char>)| (Color::Rgb(p.0.0, p.0.1, p.0.2), p.1));
    if l.len() > 0 {
        let pre = l.subrange(0, l.len() - 1);
        lemma_colored_text(pre);
        assert(m.subrange(0, m.len() - 1) =~= pre.map_values(
            |p: ((u8, u8, u8), Seq<char>)| (Color::Rgb(p.0.0, p.0.1, p.0.2), p.1),
        ));
    }
}

/// The spans shown for one line: what syntect gave, coloured, or the whole
/// line as one white span where it gave nothing.
pub open spec fn shown_line(o: Option<Seq<((u8, u8, u8), Seq<char>)>>, line: Seq<char>) -> Seq<
    (Color, Seq<char>),
> {
    match o {
        Some(l) => l.map_values(
            |p: ((u8, u8, u8), Seq<char>)| (Color::Rgb(p.0.0, p.0.1, p.0.2), p.1),
        ),
        None => seq![(Color::White, line)],
    }
}

/// The spans shown for `lines` of a file with the extension `ext`: every
/// line white when syntect has no syntax for it.
pub open spec fn shown(lines: Seq<Seq<char>>, ext: Seq<char>) -> Seq<Seq<(Color, Seq<char>)>> {
    match highlighted(lines, ext) {
        Some(ls) => Seq::new(lines.len(), |i: int| shown_line(ls[i], lines[i])),
        None => Seq::new(lines.len(), |i: int| seq![(Color::White, lines[i])]),
    }
}

/// Highlights the lines of a file with the extension `ext`: one list of
/// spans per line, whose texts make up the line.
pub fn highlight_lines(lines: &Vec<String>, ext: &str) -> (r: Vec<Vec<(Color, String)>>)
    ensures
        spans_view(r@) == shown(text_lines(lines@), ext@),
        r@.len() == lines@.len(),
        forall|i: int| 0 <= i < r@.len() ==> span_text(#[trigger] spans_view(r@)[i]) == lines@[i]@,
{
    let raw = syntect_lines(lines, ext);
    let ghost tl = text_lines(lines@);
    let mut r: Vec<Vec<(Color, String)>> = Vec::new();
    let mut i: usize = 0;
    while i < lines.len()
        invariant
            0 <= i <= lines@.len(),
            tl == text_lines(lines@),
            raw_view(raw) == highlighted(tl, ext@),
            raw matches Some(ls) ==> ls@.len() == lines@.len(),
            raw matches Some(ls) ==> forall|k: int|
                0 <= k < ls@.len() && (#[trigger] ls@[k]) is Some ==> joined(
                    ls@[k]->0@.map_values(|p: ((u8, u8, u8), String)| (p.0, p.1@)),
                ) == lines@[k]@,
            spans_view(r@) == shown(tl, ext@).subrange(0, i as int),
            forall|k: int| 0 <= k < i ==> span_text(#[trigger] spans_view(r@)[k]) == lines@[k]@,
        decreases lines.len() - i,
    {
        let ghost before = r@;
        let l: Vec<(Color, String)> = match &raw {
            Some(ls) => match &ls[i] {
                Some(spans) => color_line(spans),
                None => vec![(Color::White, lines[i].clone())],
            },
            None => vec![(Color::White, lines[i].clone())],
        };
        proof {
            let want = shown(tl, ext@)[i as int];
            assert(tl[i as int] == lines@[i as int]@);
            if raw is Some && raw->0@[i as int] is Some {
                let g = raw->0@[i as int]->0@.map_values(|p: ((u8, u8, u8), String)| (p.0, p.1@));
                assert(raw_view(raw)->0[i as int] == Some(g));
                lemma_colored_text(g);
            } else {
                if raw is Some {
                    assert(raw_view(raw)->0[i as int] is None);
                }
                assert(span_view(l@) =~= seq![(Color::White, lines@[i as int]@)]);
                assert(span_text(span_view(l@)) =~= lines@[i as int]@) by {
                    let v = span_view(l@);
                    assert(v.subrange(0, 0).len() == 0);
                    assert(span_text(v.subrange(0, 0)) == Seq::<char>::empty());
                }
            }
            assert(span_view(l@) == want);
        }
        r.push(l);
        proof {
            let x = spans_view(r@);
            let y = shown(tl, ext@).subrange(0, i + 1);
            assert(spans_view(before).len() == i);
            assert forall|k: int| 0 <= k < x.len() implies x[k] == y[k] by {
                if k < i {
                    assert(x[k] == spans_view(before)[k]);
                }
            }
            assert(x =~= y);
            assert forall|k: int| 0 <= k < i + 1 implies span_text(#[trigger] spans_view(r@)[k])
                == lines@[k]@ by {
                if k < i {
                    assert(spans_view(r@)[k] == spans_view(before)[k]);
                }
            }
        }
        i = i + 1;
    }
    assert(shown(tl, ext@).subrange(0, i as int) =~= shown(tl, ext@));
    r
}

/// Highlights the instruction lines of a listing: all lines but the header
/// and the footer, as assembly.
pub fn highlight_listing_body(lines: &Vec<String>) -> (r: Vec<Vec<(Color, String)>>)
    ensures
        lines@.len() >= 2 ==> spans_view(r@) == shown(
            text_lines(lines@.subrange(1, lines@.len() - 1)),
            "asm"@,
        ),
        forall|i: int| 0 <= i < r@.len() ==> span_text(#[trigger] spans_view(r@)[i]) == lines@[i
            + 1]@,
        lines@.len() >= 2 ==> r@.len() == lines@.len() - 2,
        lines@.len() < 2 ==> r@.len() == 0,
{
    let n = lines.len();
    if n < 2 {
        return Vec::new();
    }
    let mut body: Vec<String> = Vec::new();
    let mut i: usize = 1;
    while i < n - 1
        invariant
            n == lines@.len(),
            1 <= i <= n - 1,
            text_lines(body@) == text_lines(lines@.subrange(1, i as int)),
        decreases n - 1 - i,
    {
        let ghost before = body@;
        body.push(lines[i].clone());
        proof {
            let x = text_lines(body@);
            let y = text_lines(lines@.subrange(1, i + 1));
            assert(text_lines(before).len() == i - 1);
            assert forall|k: int| 0 <= k < x.len() implies x[k] == y[k] by {
                if k < i - 1 {
                    assert(x[k] == text_lines(before)[k]);
                }
            }
            assert(x =~= y);
        }
        i = i + 1;
    }
    highlight_lines(&body, "asm")
}

} // verus!
