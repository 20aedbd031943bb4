//! Splitting text at a separator character.
use vstd::prelude::*;

verus! {

/// The texts of a list of strings.
pub open spec fn views(v: Seq<String>) -> Seq<Seq<char>> {
    v.map_values(|s: String| s@)
}

/// Pieces finished so far, and the piece being read, after reading `s`.
pub open spec fn piece_state(s: Seq<char>, sep: char) -> (Seq<Seq<char>>, Seq<char>)
    decreases s.len(),
{
    if s.len() == 0 {
        (seq![], seq![])
    } else {
        let (done, cur) = piece_state(s.drop_last(), sep);
        if s.last() == sep {
            (done.push(cur), seq![])
        } else {
            (done, cur.push(s.last()))
        }
    }
}

/// The runs of characters between separators, empty ones included.
pub open spec fn pieces(s: Seq<char>, sep: char) -> Seq<Seq<char>> {
    let (done, cur) = piece_state(s, sep);
    done.push(cur)
}

/// The runs of characters each ended by a separator, or by the end of a text
/// that does not end with one: no piece at all for an empty text.
pub open spec fn terminated_pieces(s: Seq<char>, sep: char) -> Seq<Seq<char>> {
    let (done, cur) = piece_state(s, sep);
    if cur.len() > 0 {
        done.push(cur)
    } else {
        done
    }
}

fn split_state(value: &str, sep: char) -> (r: (Vec<String>, usize))
    ensures
        r.1 <= value@.len(),
        piece_state(value@, sep) == (views(r.0@), value@.subrange(r.1 as int, value@.len() as int)),
{
    let n = value.unicode_len();
    let mut out: Vec<String> = Vec::new();
    let mut start: usize = 0;
    let mut i: usize = 0;
    while i < n
        invariant
            n == value@.len(),
            start <= i <= n,
            piece_state(value@.subrange(0, i as int), sep) == (views(out@), value@.subrange(start as int, i as int)),
        decreases n - i,
    {
        let c = value.get_char(i);
        assert(value@.subrange(0, i + 1).drop_last() =~= value@.subrange(0, i as int));
        if c == sep {
            let piece = String::from_str(value.substring_char(start, i));
            let ghost before = out@;
            out.push(piece);
            assert(views(out@) =~= views(before).push(piece@));
            start = i + 1;
            assert(value@.subrange(start as int, i + 1) =~= seq![]);
        } else {
            assert(value@.subrange(start as int, i + 1) =~= value@.subrange(start as int, i as int).push(c));
        }
        i = i + 1;
    }
    assert(value@.subrange(0, n as int) =~= value@);
    (out, start)
}

/// Splits `value` at every `sep`.
pub fn split_on(value: &str, sep: char) -> (r: Vec<String>)
    ensures
        views(r@) == pieces(value@, sep),
{
    let (mut out, start) = split_state(value, sep);
    let n = value.unicode_len();
    let piece = String::from_str(value.substring_char(start, n));
    let ghost before = out@;
    out.push(piece);
    assert(views(out@) =~= views(before).push(piece@));
    out
}

/// Splits `value` into the pieces that `sep` ends.
pub fn split_terminated(value: &str, sep: char) -> (r: Vec<String>)
    ensures
        views(r@) == terminated_pieces(value@, sep),
{
    let (mut out, start) = split_state(value, sep);
    let n = value.unicode_len();
    if start < n {
        let piece = String::from_str(value.substring_char(start, n));
        let ghost before = out@;
        out.push(piece);
        assert(views(out@) =~= views(before).push(piece@));
    }
    out
}

/// The characters with the Unicode White_Space property, which
/// `char::is_whitespace` tests for.
pub open spec fn is_white_space(c: char) -> bool {
    ('\t' <= c && c <= '\r') || c == ' ' || c == '\u{85}' || c == '\u{a0}' || c == '\u{1680}' || ('\u{2000}' <= c
        && c <= '\u{200a}') || c == '\u{2028}' || c == '\u{2029}' || c == '\u{202f}' || c == '\u{205f}' || c
        == '\u{3000}'
}

fn white_space(c: char) -> (r: bool)
    ensures
        r == is_white_space(c),
{
    ('\t' <= c && c <= '\r') || c == ' ' || c == '\u{85}' || c == '\u{a0}' || c == '\u{1680}' || ('\u{2000}' <= c
        && c <= '\u{200a}') || c == '\u{2028}' || c == '\u{2029}' || c == '\u{202f}' || c == '\u{205f}' || c
        == '\u{3000}'
}

/// `s` without its leading white space.
pub open spec fn trim_start(s: Seq<char>) -> Seq<char>
    decreases s.len(),
{
    if s.len() > 0 && is_white_space(s[0]) {
        trim_start(s.drop_first())
    } else {
        s
    }
}

/// `s` without its trailing white space.
pub open spec fn trim_end(s: Seq<char>) -> Seq<char>
    decreases s.len(),
{
    if s.len() > 0 && is_white_space(s.last()) {
        trim_end(s.drop_last())
    } else {
        s
    }
}

/// `s` without leading and trailing white space.
pub open spec fn trimmed(s: Seq<char>) -> Seq<char> {
    trim_end(trim_start(s))
}

/// `text` without leading and trailing white space.
pub fn trim(text: &str) -> (r: String)
    ensures
        r@ == trimmed(text@),
{
    let n = text.unicode_len();
    let mut i: usize = 0;
    assert(text@.subrange(0, n as int) =~= text@);
    while i < n && white_space(text.get_char(i))
        invariant
            i <= n == text@.len(),
            trim_start(text@) == trim_start(text@.subrange(i as int, n as int)),
        decreases n - i,
    {
        assert(text@.subrange(i as int, n as int).drop_first() =~= text@.subrange(i + 1, n as int));
        i = i + 1;
    }
    let ghost t = text@.subrange(i as int, n as int);
    assert(trim_start(text@) == t) by {
        if i < n {
            assert(t[0] == text@[i as int]);
        }
    };
    let mut j: usize = n;
    assert(t.subrange(0, (j - i) as int) =~= t);
    while j > i && white_space(text.get_char(j - 1))
        invariant
            i <= j <= n == text@.len(),
            t == text@.subrange(i as int, n as int),
            trim_end(t) == trim_end(t.subrange(0, (j - i) as int)),
        decreases j,
    {
        assert(t.subrange(0, (j - i) as int).drop_last() =~= t.subrange(0, (j - 1 - i) as int));
        assert(t.subrange(0, (j - i) as int).last() == text@[j - 1]);
        j = j - 1;
    }
    let r = String::from_str(text.substring_char(i, j));
    assert(r@ =~= t.subrange(0, (j - i) as int));
    proof {
        if j > i {
            assert(t.subrange(0, (j - i) as int).last() == text@[j - 1]);
        }
    }
    r
}

/// Runs finished so far, and the run being read, after reading `s`.
pub open spec fn field_state(s: Seq<char>) -> (Seq<Seq<char>>, Seq<char>)
    decreases s.len(),
{
    if s.len() == 0 {
        (seq![], seq![])
    } else {
        let (done, cur) = field_state(s.drop_last());
        if is_white_space(s.last()) {
            (if cur.len() > 0 { done.push(cur) } else { done }, seq![])
        } else {
            (done, cur.push(s.last()))
        }
    }
}

/// The non-empty runs of `s` between white space, in order.
pub open spec fn fields(s: Seq<char>) -> Seq<Seq<char>> {
    let (done, cur) = field_state(s);
    if cur.len() > 0 {
        done.push(cur)
    } else {
        done
    }
}

/// Splits `line` at white space, dropping empty runs.
pub fn split_fields(line: &str) -> (r: Vec<String>)
    ensures
        views(r@) == fields(line@),
{
    let n = line.unicode_len();
    let mut out: Vec<String> = Vec::new();
    let mut start: usize = 0;
    let mut i: usize = 0;
    while i < n
        invariant
            n == line@.len(),
            start <= i <= n,
            field_state(line@.subrange(0, i as int)) == (views(out@), line@.subrange(start as int, i as int)),
        decreases n - i,
    {
        let c = line.get_char(i);
        assert(line@.subrange(0, i + 1).drop_last() =~= line@.subrange(0, i as int));
        if white_space(c) {
            if start < i {
                let piece = String::from_str(line.substring_char(start, i));
                let ghost before = out@;
                out.push(piece);
                assert(views(out@) =~= views(before).push(piece@));
            }
            start = i + 1;
            assert(line@.subrange(start as int, i + 1) =~= seq![]);
        } else {
            assert(line@.subrange(start as int, i + 1) =~= line@.subrange(start as int, i as int).push(c));
        }
        i = i + 1;
    }
    assert(line@.subrange(0, n as int) =~= line@);
    if start < n {
        let piece = String::from_str(line.substring_char(start, n));
        let ghost before = out@;
        out.push(piece);
        assert(views(out@) =~= views(before).push(piece@));
    }
    out
}

/// A line without the `\r` of a `\r\n` line ending.
pub open spec fn without_cr(l: Seq<char>) -> Seq<char> {
    if l.len() > 0 && l.last() == '\r' {
        l.drop_last()
    } else {
        l
    }
}

/// The lines of `s`: split at `\n` or `\r\n` line endings, the last line
/// ending optional. A last line with no `\n` keeps a trailing `\r`.
pub open spec fn lines_of(s: Seq<char>) -> Seq<Seq<char>> {
    let ps = terminated_pieces(s, '\n');
    ps.map(
        |i: int, l: Seq<char>|
            if i < ps.len() - 1 || (s.len() > 0 && s.last() == '\n') {
                without_cr(l)
            } else {
                l
            },
    )
}

/// The lines of `text`.
pub fn split_lines(text: &str) -> (r: Vec<String>)
    ensures
        views(r@) == lines_of(text@),
{
    let ps = split_terminated(text, '\n');
    let n = text.unicode_len();
    let ends_with_newline = n > 0 && text.get_char(n - 1) == '\n';
    let ghost pv = views(ps@);
    let mut out: Vec<String> = Vec::new();
    let mut i: usize = 0;
    while i < ps.len()
        invariant
            i <= ps@.len(),
            pv == views(ps@),
            pv == terminated_pieces(text@, '\n'),
            ends_with_newline == (text@.len() > 0 && text@.last() == '\n'),
            views(out@) =~= lines_of(text@).subrange(0, i as int),
        decreases ps@.len() - i,
    {
        let piece = ps[i].as_str();
        let m = piece.unicode_len();
        let line = if (i + 1 < ps.len() || ends_with_newline) && m > 0 && piece.get_char(m - 1) == '\r' {
            String::from_str(piece.substring_char(0, m - 1))
        } else {
            String::from_str(piece)
        };
        assert(line@ == lines_of(text@)[i as int]) by {
            assert(pv[i as int] == piece@);
            if (i + 1 < ps@.len() || ends_with_newline) && m > 0 && piece@[m - 1] == '\r' {
                assert(line@ =~= piece@.drop_last());
            }
        };
        let ghost before = out@;
        out.push(line);
        assert(views(out@) =~= views(before).push(line@));
        i = i + 1;
    }
    out
}

} // verus!
