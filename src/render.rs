use vstd::prelude::*;
use vstd::string::*;
use vstd::seq_lib::lemma_flatten_concat;
use unicode_segmentation::UnicodeSegmentation;
use crate::error::{Diagnostic, Error};
use crate::lexer::{chars_of, line_end};

verus! {

/// The extended grapheme clusters of a text, in order.
pub uninterp spec fn graphemes_of(s: Seq<char>) -> Seq<Seq<char>>;

/// Relies on unicode_segmentation's `graphemes(true)`: the text's extended grapheme
/// clusters, in order; they are consecutive slices of the text that together spell it.
#[verifier::external_body]
fn graphemes(s: &str) -> (r: Vec<String>)
    ensures
        r@.map_values(|g: String| g@) == graphemes_of(s@),
        r@.map_values(|g: String| g@).flatten() == s@,
{
    s.graphemes(true).map(|g| g.to_string()).collect()
}

/// Where line `k` (counted from 1) of `s` starts, looking from offset `i`, which starts a
/// line; past the last line, the last line.
pub open spec fn line_start(s: Seq<char>, i: int, k: int) -> int
    decreases s.len() - i,
{
    if k <= 1 || i < 0 || i >= s.len() {
        i
    } else {
        let e = line_end(s, i);
        if i <= e < s.len() {
            line_start(s, e + 1, k - 1)
        } else {
            i
        }
    }
}

/// Line `k` of `s`, without its newline.
pub open spec fn source_line(s: Seq<char>, k: int) -> Seq<char> {
    let a = line_start(s, 0, k);
    s.subrange(a, line_end(s, a))
}

/// The line a diagnostic cites; the end of input is on the last line.
pub open spec fn cited_line(d: Diagnostic) -> int {
    match d {
        Diagnostic::UnexpectedCharacter(_, l, _, _) => l,
        Diagnostic::UnexpectedEOI(_) => usize::MAX as int,
        Diagnostic::ExpectedToken(_, l, _, _) => l,
        Diagnostic::ExpectedExpression(l, _, _) => l,
        Diagnostic::MismatchedTypes(l, _, _, _) => l,
        Diagnostic::ImpossibleOperation(l, _, _, _) => l,
        Diagnostic::TooManyConstants(l, _, _) => l,
    }
}

/// Where the span that a diagnostic cites on `line` starts, as an offset in clusters, and
/// how many it covers. The lexer counts columns from 1 on the first line and from 2 after
/// a newline; the end of input stands just past the line's last cluster.
pub open spec fn cited_span(d: Diagnostic, line: Seq<char>) -> (int, int) {
    let first = if cited_line(d) <= 1 {
        1int
    } else {
        2int
    };
    match d {
        Diagnostic::UnexpectedCharacter(_, _, c, n) => (c - first, n),
        Diagnostic::UnexpectedEOI(_) => (graphemes_of(line).len() as int, 0),
        Diagnostic::ExpectedToken(_, _, c, n) => (c - first, n),
        Diagnostic::ExpectedExpression(_, c, n) => (c - first, n),
        Diagnostic::MismatchedTypes(_, c, n, _) => (c - first, n),
        Diagnostic::ImpossibleOperation(_, c, n, _) => (c - first, n),
        Diagnostic::TooManyConstants(_, c, n) => (c - first, n),
    }
}

/// The clusters before the span, under it and after it, as offsets `(a, b)` into `n`
/// clusters. A span that starts past the end gets one extra cluster, a space, to stand
/// under.
pub open spec fn cut(n: int, idx: int, len: int) -> (int, int) {
    if idx >= n {
        (n, n + 1)
    } else {
        let a = if idx < 0 {
            0
        } else {
            idx
        };
        (a, if a + len < n { a + len } else { n })
    }
}

/// The clusters of the cited line, with the space added where the span starts past its
/// end.
pub open spec fn padded(g: Seq<Seq<char>>, idx: int) -> Seq<Seq<char>> {
    if idx >= g.len() {
        g.push(" "@)
    } else {
        g
    }
}

/// A source line cut round the span that a diagnostic cites.
pub struct Underlined {
    pub before: String,
    pub under: String,
    pub after: String,
}

fn line_end_in(s: &Vec<char>, i: usize) -> (e: usize)
    requires
        i <= s@.len(),
    ensures
        e == line_end(s@, i as int),
        i <= e <= s@.len(),
{
    let mut j = i;
    while j < s.len() && s[j] != '\n'
        invariant
            i <= j <= s@.len(),
            line_end(s@, j as int) == line_end(s@, i as int),
        decreases s@.len() - j,
    {
        j = j + 1;
    }
    j
}

proof fn lemma_parts_rebuild(parts: Seq<Seq<char>>, a: int, b: int)
    requires
        0 <= a <= b <= parts.len(),
    ensures
        parts.subrange(0, a).flatten() + parts.subrange(a, b).flatten() + parts.subrange(
            b,
            parts.len() as int,
        ).flatten() == parts.flatten(),
{
    let (x, y, z) = (parts.subrange(0, a), parts.subrange(a, b), parts.subrange(b, parts.len() as int));
    assert(parts =~= x + y + z);
    lemma_flatten_concat(x, y);
    lemma_flatten_concat(x + y, z);
}

/// The bounds of line `k` of `s`.
fn line_bounds(s: &Vec<char>, k: usize) -> (r: (usize, usize))
    ensures
        r.0 == line_start(s@, 0, k as int),
        r.1 == line_end(s@, r.0 as int),
        r.0 <= r.1 <= s@.len(),
{
    let mut i: usize = 0;
    let mut left = k;
    let mut last = false;
    while left > 1 && i < s.len() && !last
        invariant
            i <= s@.len(),
            line_start(s@, i as int, left as int) == line_start(s@, 0, k as int),
            last ==> line_start(s@, i as int, left as int) == i,
        decreases s@.len() - i, if last { 0int } else { 1int },
    {
        let e = line_end_in(s, i);
        if e < s.len() {
            i = e + 1;
            left = left - 1;
        } else {
            last = true;
        }
    }
    (i, line_end_in(s, i))
}

/// The clusters `g[a..b]`, one after the other.
fn joined(g: &Vec<String>, a: usize, b: usize) -> (r: String)
    requires
        a <= b <= g@.len(),
    ensures
        r@ == g@.map_values(|x: String| x@).subrange(a as int, b as int).flatten(),
{
    let ghost v = g@.map_values(|x: String| x@);
    let mut s = String::new();
    let mut j = a;
    assert(v.subrange(a as int, a as int) =~= Seq::<Seq<char>>::empty());
    while j < b
        invariant
            a <= j <= b <= g@.len(),
            v == g@.map_values(|x: String| x@),
            s@ == v.subrange(a as int, j as int).flatten(),
        decreases b - j,
    {
        proof {
            assert(v.subrange(a as int, j + 1) =~= v.subrange(a as int, j as int).push(v[j as int]));
            v.subrange(a as int, j as int).lemma_flatten_push(v[j as int]);
        }
        s.append(g[j].as_str());
        j = j + 1;
    }
    s
}

/// Cuts the source line that `error` cites into the text before its span, the text
/// under it and the text after it, by grapheme clusters.
pub fn underline(error: &Error, source: &str) -> (r: Underlined)
    ensures
        ({
            let line = source_line(source@, cited_line(error@));
            let g = graphemes_of(line);
            let (idx, len) = cited_span(error@, line);
            let parts = padded(g, idx);
            let (a, b) = cut(g.len() as int, idx, len);
            &&& r.before@ == parts.subrange(0, a).flatten()
            &&& r.under@ == parts.subrange(a, b).flatten()
            &&& r.after@ == parts.subrange(b, parts.len() as int).flatten()
            &&& r.before@ + r.under@ + r.after@ == line + if idx >= g.len() {
                " "@
            } else {
                Seq::<char>::empty()
            }
        }),
{
    let chars = chars_of(source);
    let k: usize = match error {
        Error::UnexpectedCharacter(_, l, _, _) => *l,
        Error::UnexpectedEOI(_) => usize::MAX,
        Error::ExpectedToken(_, l, _, _) => *l,
        Error::ExpectedExpression(l, _, _) => *l,
        Error::MismatchedTypes(l, _, _, _) => *l,
        Error::ImpossibleOperation(l, _, _, _) => *l,
        Error::TooManyConstants(l, _, _) => *l,
    };
    let (start, end) = line_bounds(&chars, k);
    let text = source.substring_char(start, end);
    let mut g = graphemes(text);
    let first: usize = if k <= 1 { 1 } else { 2 };
    // The offset in clusters where the span starts, and whether it lies before the line.
    let (idx, before_line, len) = match error.location() {
        Some((col, len)) => if col >= first {
            (col - first, false, len)
        } else {
            (0, true, len)
        },
        None => (g.len(), false, 0),
    };
    let ghost clusters = g@.map_values(|x: String| x@);
    let n = g.len();
    let (a, b) = if !before_line && idx >= n {
        g.push(" ".to_owned());
        proof {
            assert(g@.map_values(|x: String| x@) =~= clusters.push(" "@));
        }
        (n, g.len())
    } else {
        (idx, if len < n - idx { idx + len } else { n })
    };
    let total = g.len();
    let r = Underlined { before: joined(&g, 0, a), under: joined(&g, a, b), after: joined(&g, b, total) };
    proof {
        lemma_parts_rebuild(g@.map_values(|x: String| x@), a as int, b as int);
        if g@.len() > clusters.len() {
            clusters.lemma_flatten_push(" "@);
        }
    }
    r
}

} // verus!
