//! Mapping of changed file paths to change records.
//!
//! A key of a namespace is stored as `<root>/<namespace with '.' as '/'>/v<version>/<key>`.
//! Paths are read as sequences of segments: runs of characters between `/`
//! separators, empty runs dropped (so `//` and a trailing `/` change nothing).
use vstd::prelude::*;

use crate::text::views;

verus! {

/// Whether a namespace belongs to the user configuration or to the daemon state.
#[derive(Clone, Copy, Debug, PartialEq, Eq, Structural)]
pub enum Kind {
    Config,
    State,
}

/// A change of one key, or a liveness ping.
#[derive(Clone, Debug)]
pub enum Change {
    /// `(namespace, key, version)` of a changed configuration key.
    Config(String, String, u64),
    /// `(namespace, key, version)` of a changed state key.
    State(String, String, u64),
    /// `(namespace, version)` asked to be pinged.
    Ping(String, u64),
}

/// Mathematical value of a [`Change`].
pub enum ChangeView {
    Config(Seq<char>, Seq<char>, u64),
    State(Seq<char>, Seq<char>, u64),
    Ping(Seq<char>, u64),
}

impl View for Change {
    type V = ChangeView;

    open spec fn view(&self) -> ChangeView {
        match self {
            Change::Config(n, k, v) => ChangeView::Config(n@, k@, *v),
            Change::State(n, k, v) => ChangeView::State(n@, k@, *v),
            Change::Ping(n, v) => ChangeView::Ping(n@, *v),
        }
    }
}

/// The record of a change of `key` in `namespace`, version `version`, of the given kind.
pub open spec fn change_record(kind: Kind, namespace: Seq<char>, key: Seq<char>, version: u64) -> ChangeView {
    match kind {
        Kind::Config => ChangeView::Config(namespace, key, version),
        Kind::State => ChangeView::State(namespace, key, version),
    }
}

/// Segments finished so far, and the segment being read, after reading `s`.
pub open spec fn split_state(s: Seq<char>) -> (Seq<Seq<char>>, Seq<char>)
    decreases s.len(),
{
    if s.len() == 0 {
        (seq![], seq![])
    } else {
        let (done, cur) = split_state(s.drop_last());
        if s.last() == '/' {
            (if cur.len() > 0 { done.push(cur) } else { done }, seq![])
        } else {
            (done, cur.push(s.last()))
        }
    }
}

/// The non-empty runs of characters between `/` separators, in order.
pub open spec fn segments(s: Seq<char>) -> Seq<Seq<char>> {
    let (done, cur) = split_state(s);
    if cur.len() > 0 {
        done.push(cur)
    } else {
        done
    }
}

/// The name of the directory in which a write is staged.
pub open spec fn staging_segment() -> Seq<char> {
    ".atomicwrite"@
}

pub open spec fn is_digit(c: char) -> bool {
    '0' <= c && c <= '9'
}

pub open spec fn all_digits(s: Seq<char>) -> bool {
    forall|i: int| 0 <= i < s.len() ==> is_digit(#[trigger] s[i])
}

/// The number that the decimal digits `s` write.
pub open spec fn digits_value(s: Seq<char>) -> nat
    decreases s.len(),
{
    if s.len() == 0 {
        0
    } else {
        digits_value(s.drop_last()) * 10 + (s.last() as nat - '0' as nat) as nat
    }
}

/// The version that a directory named `v<digits>` stands for, if its name has that shape
/// and the number fits in a `u64`.
pub open spec fn version_of(seg: Seq<char>) -> Option<u64> {
    let digits = seg.drop_first();
    if seg.len() >= 2 && seg[0] == 'v' && all_digits(digits) && digits_value(digits) <= u64::MAX {
        Some(digits_value(digits) as u64)
    } else {
        None
    }
}

/// The segments joined with `sep` between each two.
pub open spec fn join_with(segs: Seq<Seq<char>>, sep: char) -> Seq<char>
    decreases segs.len(),
{
    if segs.len() == 0 {
        seq![]
    } else if segs.len() == 1 {
        segs[0]
    } else {
        join_with(segs.drop_last(), sep) + seq![sep] + segs.last()
    }
}

/// The segments joined with `.` between each two.
pub open spec fn join_dots(segs: Seq<Seq<char>>) -> Seq<char> {
    join_with(segs, '.')
}

/// The record of the segments of a path below its root:
/// namespace segments (at least one), `v<version>`, key.
pub open spec fn record_below(kind: Kind, rest: Seq<Seq<char>>) -> Option<ChangeView> {
    if rest.len() >= 3 && version_of(rest[rest.len() - 2]) is Some {
        Some(
            change_record(
                kind,
                join_dots(rest.subrange(0, rest.len() - 2)),
                rest.last(),
                version_of(rest[rest.len() - 2])->0,
            ),
        )
    } else {
        None
    }
}

pub open spec fn is_segment_prefix(p: Seq<Seq<char>>, s: Seq<Seq<char>>) -> bool {
    p.len() <= s.len() && s.subrange(0, p.len() as int) == p
}

/// Whether the path lies below the root.
pub open spec fn under_root(root: Option<Seq<char>>, path: Seq<char>) -> bool {
    root is Some && is_segment_prefix(segments(root->0), segments(path))
}

/// The segments of `path` below `root`.
pub open spec fn below_root(root: Seq<char>, path: Seq<char>) -> Seq<Seq<char>> {
    segments(path).subrange(segments(root).len() as int, segments(path).len() as int)
}

/// The change record that a changed path stands for, if any.
///
/// Nothing for a directory, for a path with a staging segment, for a path under
/// neither root, or for one that does not have the shape of a key. The
/// configuration root is tried first.
pub open spec fn classified(
    path: Seq<char>,
    is_file: bool,
    config_root: Option<Seq<char>>,
    state_root: Option<Seq<char>>,
) -> Option<ChangeView> {
    if !is_file || segments(path).contains(staging_segment()) {
        None
    } else if under_root(config_root, path) {
        record_below(Kind::Config, below_root(config_root->0, path))
    } else if under_root(state_root, path) {
        record_below(Kind::State, below_root(state_root->0, path))
    } else {
        None
    }
}

/// Splits a path into its segments.
pub fn path_segments(path: &str) -> (r: Vec<String>)
    ensures
        views(r@) == segments(path@),
{
    let n = path.unicode_len();
    let mut out: Vec<String> = Vec::new();
    let mut start: usize = 0;
    let mut i: usize = 0;
    while i < n
        invariant
            n == path@.len(),
            start <= i <= n,
            split_state(path@.subrange(0, i as int)) == (views(out@), path@.subrange(start as int, i as int)),
        decreases n - i,
    {
        let c = path.get_char(i);
        proof {
            assert(path@.subrange(0, i + 1).drop_last() =~= path@.subrange(0, i as int));
        }
        if c == '/' {
            if start < i {
                let seg = String::from_str(path.substring_char(start, i));
                let ghost before = out@;
                out.push(seg);
                assert(views(out@) =~= views(before).push(seg@));
            }
            start = i + 1;
            assert(path@.subrange(start as int, i + 1) =~= seq![]);
        } else {
            assert(path@.subrange(start as int, i + 1) =~= path@.subrange(start as int, i as int).push(c));
        }
        i = i + 1;
    }
    assert(path@.subrange(0, n as int) =~= path@);
    if start < n {
        let seg = String::from_str(path.substring_char(start, n));
        let ghost before = out@;
        out.push(seg);
        assert(views(out@) =~= views(before).push(seg@));
    }
    out
}

/// A longer run of digits writes a number at least as large.
pub proof fn lemma_digits_value_grows(s: Seq<char>, j: int, k: int)
    requires
        0 <= j <= k <= s.len(),
    ensures
        digits_value(s.subrange(0, j)) <= digits_value(s.subrange(0, k)),
    decreases k - j,
{
    if j < k {
        lemma_digits_value_grows(s, j, k - 1);
        assert(s.subrange(0, k).drop_last() =~= s.subrange(0, k - 1));
    }
}

/// Reads the version of a directory named `v<digits>`.
pub fn parse_version(seg: &str) -> (r: Option<u64>)
    ensures
        r == version_of(seg@),
{
    let n = seg.unicode_len();
    if n < 2 {
        return None;
    }
    if seg.get_char(0) != 'v' {
        return None;
    }
    let ghost digits = seg@.drop_first();
    let mut value: u64 = 0;
    let mut i: usize = 1;
    while i < n
        invariant
            1 <= i <= n,
            n == seg@.len(),
            seg@[0] == 'v',
            digits == seg@.drop_first(),
            all_digits(digits.subrange(0, i - 1)),
            value as nat == digits_value(digits.subrange(0, i - 1)),
        decreases n - i,
    {
        let c = seg.get_char(i);
        assert(digits[i - 1] == c);
        if c < '0' || c > '9' {
            assert(!all_digits(digits) && !is_digit(digits[i - 1]));
            return None;
        }
        let d = (c as u32 - '0' as u32) as u64;
        assert(digits.subrange(0, i as int).drop_last() =~= digits.subrange(0, i - 1));
        if value > (u64::MAX - d) / 10 {
            proof {
                assert(value * 10 + d > u64::MAX) by (nonlinear_arith)
                    requires
                        value > (u64::MAX - d) / 10,
                        d <= 9,
                ;
                if all_digits(digits) {
                    lemma_digits_value_grows(digits, i as int, digits.len() as int);
                    assert(digits.subrange(0, digits.len() as int) =~= digits);
                }
            }
            return None;
        }
        assert(value * 10 + d <= u64::MAX) by (nonlinear_arith)
            requires
                value <= (u64::MAX - d) / 10,
                d <= 9,
        ;
        value = value * 10 + d;
        i = i + 1;
        assert(all_digits(digits.subrange(0, i - 1)));
    }
    assert(digits.subrange(0, n - 1) =~= digits);
    Some(value)
}

/// Joins the segments `segs[from..to]` with the one-character `sep` between each two.
pub fn join_segments(segs: &Vec<String>, from: usize, to: usize, sep: &str) -> (r: String)
    requires
        from <= to <= segs@.len(),
        sep@.len() == 1,
    ensures
        r@ == join_with(views(segs@).subrange(from as int, to as int), sep@[0]),
{
    let mut out = String::new();
    let mut i: usize = from;
    assert(sep@ =~= seq![sep@[0]]);
    while i < to
        invariant
            from <= i <= to <= segs@.len(),
            out@ == join_with(views(segs@).subrange(from as int, i as int), sep@[0]),
            sep@ == seq![sep@[0]],
        decreases to - i,
    {
        let ghost part = views(segs@).subrange(from as int, i + 1);
        assert(part.drop_last() =~= views(segs@).subrange(from as int, i as int));
        assert(part.last() == segs@[i as int]@);
        if i > from {
            let ghost joined = out@;
            out.append(sep);
            out.append(segs[i].as_str());
            assert(out@ =~= joined + seq![sep@[0]] + part.last());
        } else {
            out.append(segs[i].as_str());
            assert(out@ =~= join_with(part, sep@[0]));
        }
        i = i + 1;
    }
    out
}

/// Whether `prefix` is an initial run of `segs`.
pub fn starts_with_segments(prefix: &Vec<String>, segs: &Vec<String>) -> (r: bool)
    ensures
        r == is_segment_prefix(views(prefix@), views(segs@)),
{
    if prefix.len() > segs.len() {
        return false;
    }
    let mut i: usize = 0;
    while i < prefix.len()
        invariant
            i <= prefix@.len() <= segs@.len(),
            forall|j: int| 0 <= j < i ==> prefix@[j]@ == segs@[j]@,
        decreases prefix@.len() - i,
    {
        if prefix[i] != segs[i] {
            assert(views(segs@).subrange(0, prefix@.len() as int)[i as int] != views(prefix@)[i as int]);
            return false;
        }
        i = i + 1;
    }
    assert(views(segs@).subrange(0, prefix@.len() as int) =~= views(prefix@));
    true
}

pub open spec fn option_view(r: Option<Change>) -> Option<ChangeView> {
    match r {
        Some(c) => Some(c@),
        None => None,
    }
}

/// The record of `segs[start..]`, read as the segments below a root.
fn record_from(kind: Kind, segs: &Vec<String>, start: usize) -> (r: Option<Change>)
    requires
        start <= segs@.len(),
    ensures
        option_view(r) == record_below(kind, views(segs@).subrange(start as int, segs@.len() as int)),
{
    let ghost rest = views(segs@).subrange(start as int, segs@.len() as int);
    let n = segs.len();
    if n - start < 3 {
        return None;
    }
    let version = match parse_version(segs[n - 2].as_str()) {
        Some(v) => v,
        None => {
            assert(rest[rest.len() - 2] == segs@[n - 2]@);
            return None;
        },
    };
    assert(rest[rest.len() - 2] == segs@[n - 2]@);
    proof {
        reveal_strlit(".");
    }
    let namespace = join_segments(segs, start, n - 2, ".");
    assert(views(segs@).subrange(start as int, n - 2) =~= rest.subrange(0, rest.len() - 2));
    let key = segs[n - 1].clone();
    match kind {
        Kind::Config => Some(Change::Config(namespace, key, version)),
        Kind::State => Some(Change::State(namespace, key, version)),
    }
}

pub open spec fn root_view(root: Option<&str>) -> Option<Seq<char>> {
    match root {
        Some(r) => Some(r@),
        None => None,
    }
}

/// Classifies a changed path: the change record it stands for, if any.
///
/// `is_file` tells whether the path names a regular file; the roots are the
/// configuration and state store directories, where known.
pub fn classify(path: &str, is_file: bool, config_root: Option<&str>, state_root: Option<&str>) -> (r: Option<Change>)
    ensures
        option_view(r) == classified(path@, is_file, root_view(config_root), root_view(state_root)),
{
    if !is_file {
        return None;
    }
    let segs = path_segments(path);
    let marker = String::from_str(".atomicwrite");
    let mut i: usize = 0;
    while i < segs.len()
        invariant
            i <= segs@.len(),
            marker@ == staging_segment(),
            views(segs@) == segments(path@),
            forall|j: int| 0 <= j < i ==> views(segs@)[j] != staging_segment(),
        decreases segs@.len() - i,
    {
        if segs[i] == marker {
            assert(views(segs@)[i as int] == staging_segment());
            return None;
        }
        i = i + 1;
    }
    assert(!views(segs@).contains(staging_segment()));
    if let Some(root) = config_root {
        let root_segs = path_segments(root);
        if starts_with_segments(&root_segs, &segs) {
            return record_from(Kind::Config, &segs, root_segs.len());
        }
    }
    if let Some(root) = state_root {
        let root_segs = path_segments(root);
        if starts_with_segments(&root_segs, &segs) {
            return record_from(Kind::State, &segs, root_segs.len());
        }
    }
    None
}

proof fn lemma_split_state_after_slash(x: Seq<char>, y: Seq<char>)
    ensures
        split_state(x + seq!['/'] + y) == (segments(x) + split_state(y).0, split_state(y).1),
    decreases y.len(),
{
    let z = x + seq!['/'] + y;
    if y.len() == 0 {
        assert(z.drop_last() =~= x);
        assert(segments(x) + split_state(y).0 =~= segments(x));
    } else {
        assert(z.drop_last() =~= x + seq!['/'] + y.drop_last());
        lemma_split_state_after_slash(x, y.drop_last());
        let (d, c) = split_state(y.drop_last());
        assert((segments(x) + d).push(c) =~= segments(x) + d.push(c));
    }
}

proof fn lemma_segments_after_slash(x: Seq<char>, y: Seq<char>)
    ensures
        segments(x + seq!['/'] + y) == segments(x) + segments(y),
{
    lemma_split_state_after_slash(x, y);
    let (d, c) = split_state(y);
    assert((segments(x) + d).push(c) =~= segments(x) + d.push(c));
}

/// A single path segment: not empty and free of separators.
pub open spec fn is_word(w: Seq<char>) -> bool {
    w.len() > 0 && !w.contains('/')
}

proof fn lemma_word_segments(w: Seq<char>)
    requires
        !w.contains('/'),
    ensures
        split_state(w) == (Seq::<Seq<char>>::empty(), w),
        w.len() > 0 ==> segments(w) == seq![w],
    decreases w.len(),
{
    if w.len() > 0 {
        assert(!w.drop_last().contains('/')) by {
            if w.drop_last().contains('/') {
                let i = choose|i: int| 0 <= i < w.drop_last().len() && w.drop_last()[i] == '/';
                assert(w[i] == '/');
            }
        };
        lemma_word_segments(w.drop_last());
        assert(w.drop_last().push(w.last()) =~= w);
        assert(w[w.len() - 1] != '/');
    }
}

/// `<root>/<a>/<b>/v3/<key>`.
pub open spec fn key_path(root: Seq<char>, a: Seq<char>, b: Seq<char>, key: Seq<char>) -> Seq<char> {
    root + seq!['/'] + a + seq!['/'] + b + seq!['/'] + seq!['v', '3'] + seq!['/'] + key
}

proof fn lemma_key_path_segments(root: Seq<char>, a: Seq<char>, b: Seq<char>, key: Seq<char>)
    requires
        is_word(a),
        is_word(b),
        is_word(key),
    ensures
        segments(key_path(root, a, b, key)) == segments(root) + seq![a, b, seq!['v', '3'], key],
{
    let v3 = seq!['v', '3'];
    assert(!v3.contains('/')) by {
        if v3.contains('/') {
            let i = choose|i: int| 0 <= i < v3.len() && v3[i] == '/';
        }
    };
    let upto_a = root + seq!['/'] + a;
    let upto_b = upto_a + seq!['/'] + b;
    let upto_v = upto_b + seq!['/'] + v3;
    let whole = upto_v + seq!['/'] + key;
    assert(whole =~= key_path(root, a, b, key));
    lemma_word_segments(a);
    lemma_word_segments(b);
    lemma_word_segments(v3);
    lemma_word_segments(key);
    lemma_segments_after_slash(root, a);
    lemma_segments_after_slash(upto_a, b);
    lemma_segments_after_slash(upto_b, v3);
    lemma_segments_after_slash(upto_v, key);
    assert(segments(whole) =~= segments(root) + seq![a, b, v3, key]);
}

proof fn lemma_key_path_record(kind: Kind, root: Seq<char>, a: Seq<char>, b: Seq<char>, key: Seq<char>)
    requires
        is_word(a),
        is_word(b),
        is_word(key),
    ensures
        !segments(key_path(root, a, b, key)).contains(staging_segment()) <==> (
            !segments(root).contains(staging_segment()) && a != staging_segment() && b != staging_segment()
                && key != staging_segment()),
        is_segment_prefix(segments(root), segments(key_path(root, a, b, key))),
        record_below(kind, below_root(root, key_path(root, a, b, key))) == Some(
            change_record(kind, a + seq!['.'] + b, key, 3),
        ),
{
    let path = key_path(root, a, b, key);
    let v3 = seq!['v', '3'];
    let tail = seq![a, b, v3, key];
    lemma_key_path_segments(root, a, b, key);
    let segs = segments(path);
    let n = segments(root).len() as int;
    assert(segs.subrange(0, n) =~= segments(root));
    assert(below_root(root, path) =~= tail);
    reveal_strlit(".atomicwrite");
    assert(v3 != staging_segment()) by {
        assert(v3.len() != staging_segment().len());
    };
    if !segs.contains(staging_segment()) {
        assert(segs[n] == a);
        assert(segs[n + 1] == b);
        assert(segs[n + 3] == key);
        assert(!segments(root).contains(staging_segment())) by {
            if segments(root).contains(staging_segment()) {
                let i = choose|i: int| 0 <= i < n && segments(root)[i] == staging_segment();
                assert(segs[i] == staging_segment());
            }
        };
    }
    if !segments(root).contains(staging_segment()) && a != staging_segment() && b != staging_segment()
        && key != staging_segment() {
        assert(!segs.contains(staging_segment())) by {
            if segs.contains(staging_segment()) {
                let i = choose|i: int| 0 <= i < segs.len() && segs[i] == staging_segment();
                if i < n {
                    assert(segments(root)[i] == staging_segment());
                } else {
                    assert(tail[i - n] == staging_segment());
                }
            }
        };
    }
    let digits = v3.drop_first();
    assert(digits =~= seq!['3']);
    assert(digits.drop_last() =~= Seq::<char>::empty());
    assert(digits.last() == '3');
    assert(digits_value(digits.drop_last()) == 0);
    assert(('3' as nat - '0' as nat) == 3);
    assert(digits_value(digits) == 3);
    assert(all_digits(digits));
    assert(version_of(v3) == Some(3u64));
    assert(tail.subrange(0, 2) =~= seq![a, b]);
    assert(seq![a, b].drop_last() =~= seq![a]);
    assert(seq![a][0] == a);
    assert(join_with(seq![a], '.') == a);
    assert(seq![a, b].last() == b);
    assert(join_with(seq![a, b], '.') == a + seq!['.'] + b);
}

/// A changed file at `<root>/<a>/<b>/v3/<key>`, where neither the root nor the
/// three names hold a staging segment, is the change of `key` in namespace
/// `a.b`, version 3: of the configuration where `root` is the configuration
/// root (which is tried first, whatever the state root), and of the state where
/// `root` is the state root and no configuration root is known.
pub proof fn lemma_key_path_classified(
    root: Seq<char>,
    a: Seq<char>,
    b: Seq<char>,
    key: Seq<char>,
    other_root: Option<Seq<char>>,
)
    requires
        is_word(a),
        is_word(b),
        is_word(key),
        a != staging_segment(),
        b != staging_segment(),
        key != staging_segment(),
        !segments(root).contains(staging_segment()),
    ensures
        classified(key_path(root, a, b, key), true, Some(root), other_root) == Some(
            ChangeView::Config(a + seq!['.'] + b, key, 3),
        ),
        classified(key_path(root, a, b, key), true, None, Some(root)) == Some(
            ChangeView::State(a + seq!['.'] + b, key, 3),
        ),
{
    lemma_key_path_record(Kind::Config, root, a, b, key);
    lemma_key_path_record(Kind::State, root, a, b, key);
}

/// A path with a staging segment anywhere is never a change.
pub proof fn lemma_staging_ignored(
    path: Seq<char>,
    is_file: bool,
    config_root: Option<Seq<char>>,
    state_root: Option<Seq<char>>,
)
    requires
        segments(path).contains(staging_segment()),
    ensures
        classified(path, is_file, config_root, state_root) is None,
{
}

/// What a file system event did, as far as changes go.
#[derive(Clone, Copy, Debug, PartialEq, Eq, Structural)]
pub enum EventClass {
    /// A file was only read or opened.
    Access,
    /// Only a file's metadata (permissions, times) changed.
    Metadata,
    /// Content was written, or a file was created, renamed or removed.
    Content,
}

/// Whether an event of this class can change a key: reads and metadata
/// changes cannot.
pub fn carries_changes(class: EventClass) -> (r: bool)
    ensures
        r == (class == EventClass::Content),
{
    match class {
        EventClass::Content => true,
        _ => false,
    }
}

/// The change records of the paths of one event, in order, those that stand
/// for no change left out. Each path comes with whether it names a file.
pub open spec fn batch_changes(
    paths: Seq<(Seq<char>, bool)>,
    config_root: Option<Seq<char>>,
    state_root: Option<Seq<char>>,
) -> Seq<ChangeView>
    decreases paths.len(),
{
    if paths.len() == 0 {
        seq![]
    } else {
        let before = batch_changes(paths.drop_last(), config_root, state_root);
        match classified(paths.last().0, paths.last().1, config_root, state_root) {
            Some(c) => before.push(c),
            None => before,
        }
    }
}

pub open spec fn path_views(paths: Seq<(String, bool)>) -> Seq<(Seq<char>, bool)> {
    paths.map_values(|p: (String, bool)| (p.0@, p.1))
}

pub open spec fn change_views(v: Seq<Change>) -> Seq<ChangeView> {
    v.map_values(|c: Change| c@)
}

/// The changes that one file system event of class `class` brings: none for
/// reads and metadata changes, else the records of its paths. An empty result
/// is no batch at all.
pub fn changes_of_event(
    class: EventClass,
    paths: &Vec<(String, bool)>,
    config_root: Option<&str>,
    state_root: Option<&str>,
) -> (r: Vec<Change>)
    ensures
        change_views(r@) == (if class == EventClass::Content {
            batch_changes(path_views(paths@), root_view(config_root), root_view(state_root))
        } else {
            Seq::<ChangeView>::empty()
        }),
{
    let mut out: Vec<Change> = Vec::new();
    if !carries_changes(class) {
        assert(change_views(out@) =~= Seq::<ChangeView>::empty());
        return out;
    }
    let ghost pv = path_views(paths@);
    let mut i: usize = 0;
    while i < paths.len()
        invariant
            i <= paths@.len(),
            pv == path_views(paths@),
            change_views(out@) == batch_changes(pv.subrange(0, i as int), root_view(config_root), root_view(state_root)),
        decreases paths@.len() - i,
    {
        let (path, is_file) = (&paths[i].0, paths[i].1);
        assert(pv.subrange(0, i + 1).drop_last() =~= pv.subrange(0, i as int));
        assert(pv.subrange(0, i + 1).last() == (path@, is_file));
        let ghost before = out@;
        match classify(path.as_str(), is_file, config_root, state_root) {
            Some(c) => {
                out.push(c);
                assert(change_views(out@) =~= change_views(before).push(c@));
            },
            None => {},
        }
        i = i + 1;
    }
    assert(pv.subrange(0, i as int) =~= pv);
    out
}

} // verus!
