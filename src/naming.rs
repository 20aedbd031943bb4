//! Bus addresses of the per-namespace endpoints.
//!
//! An endpoint of kind `K` for namespace `id`, version `v`, is served at
//! `/com/system76/CosmicSettingsDaemon/K/<id with '.' as '/'>/V<v>` under the
//! bus name `com.system76.CosmicSettingsDaemon.K.<id>.V<v>`. Where the namespace
//! makes either of these invalid, a number drawn from a counter stands in its
//! place: `.../K/C<n>/V<v>` and `....K.C<n>.V<v>`.
use vstd::prelude::*;

use crate::classify::{all_digits, digits_value, is_digit, Kind};

verus! {

/// The decimal digit `d`.
pub open spec fn digit_char(d: nat) -> char {
    if d == 0 {
        '0'
    } else if d == 1 {
        '1'
    } else if d == 2 {
        '2'
    } else if d == 3 {
        '3'
    } else if d == 4 {
        '4'
    } else if d == 5 {
        '5'
    } else if d == 6 {
        '6'
    } else if d == 7 {
        '7'
    } else if d == 8 {
        '8'
    } else {
        '9'
    }
}

/// The decimal writing of `n`, without leading zeros.
pub open spec fn dec(n: nat) -> Seq<char>
    decreases n,
{
    if n < 10 {
        seq![digit_char(n)]
    } else {
        dec(n / 10).push(digit_char(n % 10))
    }
}

pub open spec fn kind_word(kind: Kind) -> Seq<char> {
    match kind {
        Kind::Config => "Config"@,
        Kind::State => "State"@,
    }
}

pub open spec fn path_base() -> Seq<char> {
    "/com/system76/CosmicSettingsDaemon/"@
}

pub open spec fn name_base() -> Seq<char> {
    "com.system76.CosmicSettingsDaemon."@
}

pub open spec fn dots_as_slashes(s: Seq<char>) -> Seq<char> {
    s.map_values(|c: char| if c == '.' { '/' } else { c })
}

/// The object path derived from the namespace itself.
pub open spec fn preferred_path(kind: Kind, id: Seq<char>, version: u64) -> Seq<char> {
    path_base() + kind_word(kind) + seq!['/'] + dots_as_slashes(id) + seq!['/', 'V'] + dec(
        version as nat,
    )
}

/// The object path that stands in for the namespace by the number `n`.
pub open spec fn counted_path(kind: Kind, n: u64, version: u64) -> Seq<char> {
    path_base() + kind_word(kind) + seq!['/', 'C'] + dec(n as nat) + seq!['/', 'V'] + dec(
        version as nat,
    )
}

/// The bus name derived from the namespace itself.
pub open spec fn preferred_name(kind: Kind, id: Seq<char>, version: u64) -> Seq<char> {
    name_base() + kind_word(kind) + seq!['.'] + id + seq!['.', 'V'] + dec(version as nat)
}

/// The bus name that stands in for the namespace by the number `n`.
pub open spec fn counted_name(kind: Kind, n: u64, version: u64) -> Seq<char> {
    name_base() + kind_word(kind) + seq!['.', 'C'] + dec(n as nat) + seq!['.', 'V'] + dec(
        version as nat,
    )
}

pub open spec fn is_alpha(c: char) -> bool {
    ('a' <= c && c <= 'z') || ('A' <= c && c <= 'Z')
}

pub open spec fn is_path_char(c: char) -> bool {
    is_alpha(c) || is_digit(c) || c == '_'
}

/// The object path grammar of D-Bus: `/`, or `/` followed by `/`-separated
/// non-empty elements of ASCII letters, digits and `_`.
pub open spec fn is_object_path(s: Seq<char>) -> bool {
    &&& s.len() >= 1
    &&& s[0] == '/'
    &&& forall|i: int| 0 <= i < s.len() ==> s[i] == '/' || is_path_char(#[trigger] s[i])
    &&& forall|i: int| 0 < i < s.len() && #[trigger] s[i] == '/' ==> s[i - 1] != '/'
    &&& s.len() > 1 ==> s.last() != '/'
}

pub open spec fn is_name_char(c: char) -> bool {
    is_path_char(c) || c == '-'
}

pub open spec fn is_name_start(c: char) -> bool {
    is_alpha(c) || c == '_' || c == '-'
}

/// The well-known bus name grammar of D-Bus: at least two `.`-separated
/// elements of ASCII letters, digits, `_` and `-`, none starting with a digit,
/// 255 characters at most.
pub open spec fn is_well_known_name(s: Seq<char>) -> bool {
    &&& 1 <= s.len() <= 255
    &&& s.contains('.')
    &&& s.last() != '.'
    &&& forall|i: int| 0 <= i < s.len() ==> s[i] == '.' || is_name_char(#[trigger] s[i])
    &&& forall|i: int|
        0 <= i < s.len() && (i == 0 || s[i - 1] == '.') ==> is_name_start(#[trigger] s[i])
}

/// Why no address could be derived.
#[derive(Clone, Copy, Debug, PartialEq, Eq, Structural)]
pub enum NamingError {
    /// The namespace needed a stand-in number and the counter has none left.
    CounterExhausted,
}

/// The address derived, and the counter after: the preferred one where it is
/// valid, else the counted one, drawing the counter's number, while numbers are left.
pub open spec fn derivation(valid: bool, preferred: Seq<char>, counted: Seq<char>, counter: u64) -> (
    Result<Seq<char>, NamingError>,
    u64,
) {
    if valid {
        (Ok(preferred), counter)
    } else if counter < u64::MAX {
        (Ok(counted), (counter + 1) as u64)
    } else {
        (Err(NamingError::CounterExhausted), counter)
    }
}

pub open spec fn text_result(r: Result<String, NamingError>) -> Result<Seq<char>, NamingError> {
    match r {
        Ok(s) => Ok(s@),
        Err(e) => Err(e),
    }
}

/// Relies on zbus's `ObjectPath::try_from(&str)`, which succeeds exactly on the
/// D-Bus object path grammar.
#[verifier::external_body]
fn object_path_accepted(s: &str) -> (r: bool)
    ensures
        r == is_object_path(s@),
{
    zbus::zvariant::ObjectPath::try_from(s).is_ok()
}

/// Relies on zbus's `WellKnownName::try_from(&str)`, which succeeds exactly on the
/// D-Bus well-known name grammar.
#[verifier::external_body]
fn well_known_name_accepted(s: &str) -> (r: bool)
    ensures
        r == is_well_known_name(s@),
{
    zbus::names::WellKnownName::try_from(s).is_ok()
}

fn digit_str(d: u64) -> (r: &'static str)
    requires
        d < 10,
    ensures
        r@ == seq![digit_char(d as nat)],
{
    let digits = "0123456789";
    proof {
        reveal_strlit("0123456789");
    }
    let r = digits.substring_char(d as usize, d as usize + 1);
    assert(r@ =~= seq![digit_char(d as nat)]);
    r
}

/// Writes `n` in decimal.
pub fn decimal(n: u64) -> (r: String)
    ensures
        r@ == dec(n as nat),
    decreases n,
{
    if n < 10 {
        String::from_str(digit_str(n))
    } else {
        let mut r = decimal(n / 10);
        r.append(digit_str(n % 10));
        r
    }
}

/// `id` with every `.` replaced by `/`.
pub fn replace_dots(id: &str) -> (r: String)
    ensures
        r@ == dots_as_slashes(id@),
{
    let n = id.unicode_len();
    let mut out = String::new();
    let mut i: usize = 0;
    proof {
        reveal_strlit("/");
    }
    while i < n
        invariant
            i <= n == id@.len(),
            out@ =~= dots_as_slashes(id@.subrange(0, i as int)),
            "/"@ =~= seq!['/'],
        decreases n - i,
    {
        let c = id.get_char(i);
        if c == '.' {
            out.append("/");
        } else {
            out.append(id.substring_char(i, i + 1));
        }
        assert(dots_as_slashes(id@.subrange(0, i + 1)) =~= dots_as_slashes(id@.subrange(0, i as int)).push(
            if c == '.' { '/' } else { c },
        ));
        i = i + 1;
    }
    assert(id@.subrange(0, n as int) =~= id@);
    out
}

fn kind_str(kind: Kind) -> (r: &'static str)
    ensures
        r@ == kind_word(kind),
{
    match kind {
        Kind::Config => "Config",
        Kind::State => "State",
    }
}

fn path_with(kind: Kind, middle: &str, version: u64) -> (r: String)
    ensures
        r@ == path_base() + kind_word(kind) + seq!['/'] + middle@ + seq!['/', 'V'] + dec(version as nat),
{
    proof {
        reveal_strlit("/");
        reveal_strlit("/V");
    }
    let mut r = String::from_str("/com/system76/CosmicSettingsDaemon/");
    r.append(kind_str(kind));
    r.append("/");
    r.append(middle);
    r.append("/V");
    r.append(decimal(version).as_str());
    assert(r@ =~= path_base() + kind_word(kind) + seq!['/'] + middle@ + seq!['/', 'V'] + dec(
        version as nat,
    ));
    r
}

fn name_with(kind: Kind, middle: &str, version: u64) -> (r: String)
    ensures
        r@ == name_base() + kind_word(kind) + seq!['.'] + middle@ + seq!['.', 'V'] + dec(version as nat),
{
    proof {
        reveal_strlit(".");
        reveal_strlit(".V");
    }
    let mut r = String::from_str("com.system76.CosmicSettingsDaemon.");
    r.append(kind_str(kind));
    r.append(".");
    r.append(middle);
    r.append(".V");
    r.append(decimal(version).as_str());
    assert(r@ =~= name_base() + kind_word(kind) + seq!['.'] + middle@ + seq!['.', 'V'] + dec(
        version as nat,
    ));
    r
}

fn counted_middle(n: u64) -> (r: String)
    ensures
        r@ == seq!['C'] + dec(n as nat),
{
    proof {
        reveal_strlit("C");
    }
    let mut r = String::from_str("C");
    r.append(decimal(n).as_str());
    r
}

/// The object path of the endpoint of `kind` for namespace `id`, version `version`.
///
/// The path derived from the namespace where it is valid; else one built on the
/// next number of `counter`, which then advances by one.
pub fn object_path(kind: Kind, id: &str, version: u64, counter: &mut u64) -> (r: Result<String, NamingError>)
    ensures
        (text_result(r), *final(counter)) == derivation(
            is_object_path(preferred_path(kind, id@, version)),
            preferred_path(kind, id@, version),
            counted_path(kind, *old(counter), version),
            *old(counter),
        ),
        r matches Ok(p) ==> is_object_path(p@),
{
    let preferred = path_with(kind, replace_dots(id).as_str(), version);
    proof {
        reveal_strlit("/");
    }
    if object_path_accepted(preferred.as_str()) {
        return Ok(preferred);
    }
    if *counter == u64::MAX {
        return Err(NamingError::CounterExhausted);
    }
    let n = *counter;
    *counter = n + 1;
    let r = path_with(kind, counted_middle(n).as_str(), version);
    assert(r@ =~= counted_path(kind, n, version));
    proof {
        lemma_counted_path_valid(kind, n, version);
    }
    Ok(r)
}

/// The bus name of the endpoint of `kind` for namespace `id`, version `version`.
///
/// The name derived from the namespace where it is valid; else one built on the
/// next number of `counter`, which then advances by one.
pub fn service_name(kind: Kind, id: &str, version: u64, counter: &mut u64) -> (r: Result<String, NamingError>)
    ensures
        (text_result(r), *final(counter)) == derivation(
            is_well_known_name(preferred_name(kind, id@, version)),
            preferred_name(kind, id@, version),
            counted_name(kind, *old(counter), version),
            *old(counter),
        ),
        r matches Ok(p) ==> is_well_known_name(p@),
{
    let preferred = name_with(kind, id, version);
    if well_known_name_accepted(preferred.as_str()) {
        return Ok(preferred);
    }
    if *counter == u64::MAX {
        return Err(NamingError::CounterExhausted);
    }
    let n = *counter;
    *counter = n + 1;
    let r = name_with(kind, counted_middle(n).as_str(), version);
    assert(r@ =~= counted_name(kind, n, version));
    proof {
        lemma_counted_name_valid(kind, n, version);
    }
    Ok(r)
}

proof fn lemma_dec_digits(n: nat)
    ensures
        dec(n).len() >= 1,
        all_digits(dec(n)),
        digits_value(dec(n)) == n,
    decreases n,
{
    if n >= 10 {
        lemma_dec_digits(n / 10);
        let d = dec(n);
        assert(d.drop_last() =~= dec(n / 10));
        assert(all_digits(d)) by {
            assert forall|i: int| 0 <= i < d.len() implies is_digit(#[trigger] d[i]) by {
                if i < d.len() - 1 {
                    assert(d[i] == dec(n / 10)[i]);
                }
            };
        };
        let r = n % 10;
        assert(d.last() == digit_char(r));
        assert(digit_char(r) as nat - '0' as nat == r);
        assert((n / 10) * 10 + r == n);
        assert(digits_value(d) == digits_value(dec(n / 10)) * 10 + r);
    } else {
        assert(dec(n).drop_last() =~= Seq::<char>::empty());
        assert(digits_value(Seq::<char>::empty()) == 0);
        assert(digit_char(n) as nat - '0' as nat == n);
    }
}

/// Two decimal numbers each followed by text that starts with a non-digit are
/// the same number where the two writings are the same.
proof fn lemma_dec_delimited(n1: nat, t1: Seq<char>, n2: nat, t2: Seq<char>)
    requires
        dec(n1) + t1 == dec(n2) + t2,
        t1.len() > 0,
        t2.len() > 0,
        !is_digit(t1[0]),
        !is_digit(t2[0]),
    ensures
        n1 == n2,
{
    lemma_dec_digits(n1);
    lemma_dec_digits(n2);
    let s = dec(n1) + t1;
    let l1 = dec(n1).len() as int;
    let l2 = dec(n2).len() as int;
    if l1 < l2 {
        assert(s[l1] == t1[0]);
        assert(s[l1] == dec(n2)[l1]);
    } else if l2 < l1 {
        assert(s[l2] == t2[0]);
        assert(s[l2] == dec(n1)[l2]);
    } else {
        assert(dec(n1) =~= s.subrange(0, l1));
        assert(dec(n2) =~= s.subrange(0, l1));
    }
}

proof fn lemma_prefixed_numbers_differ(pre: Seq<char>, n1: nat, t1: Seq<char>, n2: nat, t2: Seq<char>)
    requires
        n1 != n2,
        t1.len() > 0,
        t2.len() > 0,
        !is_digit(t1[0]),
        !is_digit(t2[0]),
    ensures
        pre + (dec(n1) + t1) != pre + (dec(n2) + t2),
{
    if pre + (dec(n1) + t1) == pre + (dec(n2) + t2) {
        let whole = pre + (dec(n1) + t1);
        let l = pre.len() as int;
        assert(dec(n1) + t1 =~= whole.subrange(l, whole.len() as int));
        assert(dec(n2) + t2 =~= whole.subrange(l, whole.len() as int));
        lemma_dec_delimited(n1, t1, n2, t2);
    }
}

proof fn lemma_kinds_differ(base: Seq<char>, k1: Kind, r1: Seq<char>, k2: Kind, r2: Seq<char>)
    requires
        k1 != k2,
    ensures
        base + kind_word(k1) + r1 != base + kind_word(k2) + r2,
{
    reveal_strlit("Config");
    reveal_strlit("State");
    let i = base.len() as int;
    assert((base + kind_word(k1) + r1)[i] == kind_word(k1)[0]);
    assert((base + kind_word(k2) + r2)[i] == kind_word(k2)[0]);
}

proof fn lemma_counted_paths_distinct(k1: Kind, n1: u64, v1: u64, k2: Kind, n2: u64, v2: u64)
    requires
        n1 != n2,
    ensures
        counted_path(k1, n1, v1) != counted_path(k2, n2, v2),
{
    let tail1 = seq!['/', 'V'] + dec(v1 as nat);
    let tail2 = seq!['/', 'V'] + dec(v2 as nat);
    if k1 == k2 {
        let pre = path_base() + kind_word(k1) + seq!['/', 'C'];
        assert(counted_path(k1, n1, v1) =~= pre + (dec(n1 as nat) + tail1));
        assert(counted_path(k2, n2, v2) =~= pre + (dec(n2 as nat) + tail2));
        lemma_prefixed_numbers_differ(pre, n1 as nat, tail1, n2 as nat, tail2);
    } else {
        let rest1 = seq!['/', 'C'] + dec(n1 as nat) + tail1;
        let rest2 = seq!['/', 'C'] + dec(n2 as nat) + tail2;
        assert(counted_path(k1, n1, v1) =~= path_base() + kind_word(k1) + rest1);
        assert(counted_path(k2, n2, v2) =~= path_base() + kind_word(k2) + rest2);
        lemma_kinds_differ(path_base(), k1, rest1, k2, rest2);
    }
}

proof fn lemma_counted_names_distinct(k1: Kind, n1: u64, v1: u64, k2: Kind, n2: u64, v2: u64)
    requires
        n1 != n2,
    ensures
        counted_name(k1, n1, v1) != counted_name(k2, n2, v2),
{
    let tail1 = seq!['.', 'V'] + dec(v1 as nat);
    let tail2 = seq!['.', 'V'] + dec(v2 as nat);
    if k1 == k2 {
        let pre = name_base() + kind_word(k1) + seq!['.', 'C'];
        assert(counted_name(k1, n1, v1) =~= pre + (dec(n1 as nat) + tail1));
        assert(counted_name(k2, n2, v2) =~= pre + (dec(n2 as nat) + tail2));
        lemma_prefixed_numbers_differ(pre, n1 as nat, tail1, n2 as nat, tail2);
    } else {
        let rest1 = seq!['.', 'C'] + dec(n1 as nat) + tail1;
        let rest2 = seq!['.', 'C'] + dec(n2 as nat) + tail2;
        assert(counted_name(k1, n1, v1) =~= name_base() + kind_word(k1) + rest1);
        assert(counted_name(k2, n2, v2) =~= name_base() + kind_word(k2) + rest2);
        lemma_kinds_differ(name_base(), k1, rest1, k2, rest2);
    }
}

/// Stand-in addresses built on different numbers differ, whatever their kinds
/// and versions: neither two object paths nor two bus names built on two
/// numbers the counter handed out coincide.
pub proof fn lemma_counted_addresses_distinct(k1: Kind, n1: u64, v1: u64, k2: Kind, n2: u64, v2: u64)
    requires
        n1 != n2,
    ensures
        counted_path(k1, n1, v1) != counted_path(k2, n2, v2),
        counted_name(k1, n1, v1) != counted_name(k2, n2, v2),
{
    lemma_counted_paths_distinct(k1, n1, v1, k2, n2, v2);
    lemma_counted_names_distinct(k1, n1, v1, k2, n2, v2);
}

/// A non-empty run of ASCII letters, digits and `_`.
pub open spec fn is_path_word(w: Seq<char>) -> bool {
    w.len() > 0 && forall|i: int| 0 <= i < w.len() ==> is_path_char(#[trigger] w[i])
}

proof fn lemma_path_root_word(w: Seq<char>)
    requires
        is_path_word(w),
    ensures
        is_object_path(seq!['/'] + w),
{
    let s = seq!['/'] + w;
    assert forall|i: int| 0 <= i < s.len() implies s[i] == '/' || is_path_char(#[trigger] s[i]) by {
        if i > 0 {
            assert(s[i] == w[i - 1]);
        }
    };
    assert forall|i: int| 0 < i < s.len() && #[trigger] s[i] == '/' implies s[i - 1] != '/' by {
        assert(s[i] == w[i - 1]);
    };
    assert(s.last() == w[w.len() - 1]);
}

proof fn lemma_path_append_word(a: Seq<char>, w: Seq<char>)
    requires
        is_object_path(a),
        a.len() > 1,
        is_path_word(w),
    ensures
        is_object_path(a + seq!['/'] + w),
{
    let s = a + seq!['/'] + w;
    let n = a.len() as int;
    assert forall|i: int| 0 <= i < s.len() implies s[i] == '/' || is_path_char(#[trigger] s[i]) by {
        if i < n {
            assert(s[i] == a[i]);
        } else if i > n {
            assert(s[i] == w[i - n - 1]);
        }
    };
    assert forall|i: int| 0 < i < s.len() && #[trigger] s[i] == '/' implies s[i - 1] != '/' by {
        if i < n {
            assert(s[i] == a[i] && s[i - 1] == a[i - 1]);
        } else if i == n {
            assert(s[i - 1] == a.last());
        } else if i == n + 1 {
            assert(s[i] == w[0]);
        } else {
            assert(s[i] == w[i - n - 1]);
        }
    };
    assert(s[0] == a[0]);
    assert(s.last() == w[w.len() - 1]);
}

proof fn lemma_tagged_number_word(tag: char, n: nat)
    requires
        is_alpha(tag),
    ensures
        is_path_word(seq![tag] + dec(n)),
        is_name_start(tag),
{
    lemma_dec_digits(n);
    let w = seq![tag] + dec(n);
    assert forall|i: int| 0 <= i < w.len() implies is_path_char(#[trigger] w[i]) by {
        if i > 0 {
            assert(w[i] == dec(n)[i - 1]);
            assert(is_digit(dec(n)[i - 1]));
        }
    };
}

proof fn lemma_path_base_valid(kind: Kind)
    ensures
        is_object_path(path_base() + kind_word(kind)),
        path_base().len() + kind_word(kind).len() > 1,
{
    let com = seq!['c', 'o', 'm'];
    let sys = seq!['s', 'y', 's', 't', 'e', 'm', '7', '6'];
    let csd = seq![
        'C', 'o', 's', 'm', 'i', 'c', 'S', 'e', 't', 't', 'i', 'n', 'g', 's', 'D', 'a', 'e', 'm', 'o', 'n',
    ];
    reveal_strlit("/com/system76/CosmicSettingsDaemon/");
    reveal_strlit("Config");
    reveal_strlit("State");
    assert(is_path_word(com));
    assert(is_path_word(sys));
    assert(is_path_word(csd));
    assert(is_path_word(kind_word(kind)));
    lemma_path_root_word(com);
    let upto_sys = seq!['/'] + com;
    lemma_path_append_word(upto_sys, sys);
    let upto_csd = upto_sys + seq!['/'] + sys;
    lemma_path_append_word(upto_csd, csd);
    let upto_kind = upto_csd + seq!['/'] + csd;
    lemma_path_append_word(upto_kind, kind_word(kind));
    assert(path_base() =~= upto_kind + seq!['/']);
    assert(path_base() + kind_word(kind) =~= upto_kind + seq!['/'] + kind_word(kind));
}

/// Every object path built on a counter number is a valid object path.
pub proof fn lemma_counted_path_valid(kind: Kind, n: u64, version: u64)
    ensures
        is_object_path(counted_path(kind, n, version)),
{
    lemma_path_base_valid(kind);
    let a = path_base() + kind_word(kind);
    let c = seq!['C'] + dec(n as nat);
    let v = seq!['V'] + dec(version as nat);
    lemma_tagged_number_word('C', n as nat);
    lemma_tagged_number_word('V', version as nat);
    lemma_path_append_word(a, c);
    lemma_path_append_word(a + seq!['/'] + c, v);
    assert(counted_path(kind, n, version) =~= a + seq!['/'] + c + seq!['/'] + v);
}

/// A bus name element: a letter, `_` or `-`, then letters, digits, `_` and `-`.
pub open spec fn is_name_word(w: Seq<char>) -> bool {
    w.len() > 0 && is_name_start(w[0]) && forall|i: int| 0 <= i < w.len() ==> is_name_char(#[trigger] w[i])
}

/// Elements separated by single dots, without the bound on length or count.
#[verifier::opaque]
pub open spec fn is_dotted(s: Seq<char>) -> bool {
    &&& s.len() >= 1
    &&& s.last() != '.'
    &&& forall|i: int| 0 <= i < s.len() ==> s[i] == '.' || is_name_char(#[trigger] s[i])
    &&& forall|i: int| 0 <= i < s.len() && (i == 0 || s[i - 1] == '.') ==> is_name_start(#[trigger] s[i])
}

proof fn lemma_dotted_word(w: Seq<char>)
    requires
        is_name_word(w),
    ensures
        is_dotted(w),
{
    reveal(is_dotted);
    assert forall|i: int| 0 <= i < w.len() && (i == 0 || w[i - 1] == '.') implies is_name_start(#[trigger] w[i]) by {
        if i > 0 {
            assert(is_name_char(w[i - 1]));
        }
    };
}

proof fn lemma_dotted_append(a: Seq<char>, w: Seq<char>)
    requires
        is_dotted(a),
        is_name_word(w),
    ensures
        is_dotted(a + seq!['.'] + w),
        (a + seq!['.'] + w).contains('.'),
{
    reveal(is_dotted);
    let s = a + seq!['.'] + w;
    let n = a.len() as int;
    assert(s[n] == '.');
    assert forall|i: int| 0 <= i < s.len() implies s[i] == '.' || is_name_char(#[trigger] s[i]) by {
        if i < n {
            assert(s[i] == a[i]);
        } else if i > n {
            assert(s[i] == w[i - n - 1]);
        }
    };
    assert forall|i: int| 0 <= i < s.len() && (i == 0 || s[i - 1] == '.') implies is_name_start(#[trigger] s[i]) by {
        if i < n {
            assert(s[i] == a[i]);
            if i > 0 {
                assert(s[i - 1] == a[i - 1]);
            }
        } else if i == n {
            assert(s[i - 1] == a.last());
        } else if i == n + 1 {
            assert(s[i] == w[0]);
        } else {
            assert(s[i] == w[i - n - 1]);
            assert(s[i - 1] == w[i - n - 2]);
            assert(is_name_char(w[i - n - 2]));
        }
    };
    assert(s.last() == w[w.len() - 1]);
}

pub open spec fn pow10(k: nat) -> nat
    decreases k,
{
    if k == 0 {
        1
    } else {
        10 * pow10((k - 1) as nat)
    }
}

proof fn lemma_dec_len(n: nat, k: nat)
    requires
        k >= 1,
        n < pow10(k),
    ensures
        dec(n).len() <= k,
    decreases k,
{
    if n >= 10 {
        assert(k >= 2) by {
            if k == 1 {
                assert(pow10(1) == 10) by {
                    reveal_with_fuel(pow10, 2);
                }
            }
        };
        assert(n / 10 < pow10((k - 1) as nat));
        lemma_dec_len(n / 10, (k - 1) as nat);
    }
}

proof fn lemma_dec_len_u64(n: u64)
    ensures
        dec(n as nat).len() <= 20,
{
    reveal_with_fuel(pow10, 21);
    assert(pow10(20) == 100000000000000000000);
    lemma_dec_len(n as nat, 20);
}

proof fn lemma_tagged_name_word(tag: char, n: nat)
    requires
        is_alpha(tag),
    ensures
        is_name_word(seq![tag] + dec(n)),
{
    lemma_tagged_number_word(tag, n);
    let w = seq![tag] + dec(n);
    assert forall|i: int| 0 <= i < w.len() implies is_name_char(#[trigger] w[i]) by {
        assert(is_path_char(w[i]));
    };
}

proof fn lemma_name_base_dotted(kind: Kind)
    ensures
        is_dotted(name_base() + kind_word(kind)),
        name_base().len() + kind_word(kind).len() <= 40,
{
    let com = seq!['c', 'o', 'm'];
    let sys = seq!['s', 'y', 's', 't', 'e', 'm', '7', '6'];
    let csd = seq![
        'C', 'o', 's', 'm', 'i', 'c', 'S', 'e', 't', 't', 'i', 'n', 'g', 's', 'D', 'a', 'e', 'm', 'o', 'n',
    ];
    reveal_strlit("com.system76.CosmicSettingsDaemon.");
    reveal_strlit("Config");
    reveal_strlit("State");
    assert(is_name_word(com));
    assert(is_name_word(sys));
    assert(is_name_word(csd));
    assert(is_name_word(kind_word(kind)));
    lemma_dotted_word(com);
    let upto_sys = com + seq!['.'] + sys;
    lemma_dotted_append(com, sys);
    let upto_csd = upto_sys + seq!['.'] + csd;
    lemma_dotted_append(upto_sys, csd);
    lemma_dotted_append(upto_csd, kind_word(kind));
    assert(name_base() =~= upto_csd + seq!['.']);
    assert(name_base() + kind_word(kind) =~= upto_csd + seq!['.'] + kind_word(kind));
}

proof fn lemma_counted_name_len(kind: Kind, n: u64, version: u64)
    ensures
        counted_name(kind, n, version).len() <= 84,
{
    lemma_name_base_dotted(kind);
    lemma_dec_len_u64(n);
    lemma_dec_len_u64(version);
}

proof fn lemma_counted_name_dotted(kind: Kind, n: u64, version: u64)
    ensures
        is_dotted(counted_name(kind, n, version)),
        counted_name(kind, n, version).contains('.'),
{
    lemma_name_base_dotted(kind);
    let a = name_base() + kind_word(kind);
    let c = seq!['C'] + dec(n as nat);
    let v = seq!['V'] + dec(version as nat);
    lemma_tagged_name_word('C', n as nat);
    lemma_tagged_name_word('V', version as nat);
    lemma_dotted_append(a, c);
    lemma_dotted_append(a + seq!['.'] + c, v);
    assert(counted_name(kind, n, version) =~= a + seq!['.'] + c + seq!['.'] + v);
}

/// Every bus name built on a counter number is a valid well-known name.
pub proof fn lemma_counted_name_valid(kind: Kind, n: u64, version: u64)
    ensures
        is_well_known_name(counted_name(kind, n, version)),
{
    lemma_counted_name_dotted(kind, n, version);
    lemma_counted_name_len(kind, n, version);
    reveal(is_dotted);
}

} // verus!
