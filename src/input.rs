//! Keyboard layouts in use, and switching to the next one.
//!
//! The compositor keeps its layouts as two comma-separated lists, one of layout
//! names and one of variants, position by position. Switching moves the first
//! layout in use to the end.
use vstd::prelude::*;

use crate::classify::{join_segments, join_with};
use crate::text::{split_terminated, terminated_pieces, views};

verus! {

/// A variant of a known keyboard layout.
#[derive(Debug, Clone)]
pub struct LayoutVariant {
    pub name: String,
    pub description: String,
}

/// A keyboard layout that the system knows of.
#[derive(Debug, Clone)]
pub struct KnownLayout {
    pub name: String,
    pub description: String,
    pub variants: Vec<LayoutVariant>,
}

/// A layout in use, with the description of its layout or variant.
#[derive(Debug, Clone, Eq, PartialEq)]
pub struct ActiveLayout {
    pub layout: String,
    pub description: String,
    pub variant: String,
}

/// `(layout, description, variant)`.
pub type ActiveView = (Seq<char>, Seq<char>, Seq<char>);

impl View for ActiveLayout {
    type V = ActiveView;

    open spec fn view(&self) -> ActiveView {
        (self.layout@, self.description@, self.variant@)
    }
}

pub open spec fn active_views(v: Seq<ActiveLayout>) -> Seq<ActiveView> {
    v.map_values(|a: ActiveLayout| a@)
}

/// The description of the first variant named `v`.
pub open spec fn variant_description(vs: Seq<LayoutVariant>, v: Seq<char>) -> Option<Seq<char>>
    decreases vs.len(),
{
    if vs.len() == 0 {
        None
    } else if vs[0].name@ == v {
        Some(vs[0].description@)
    } else {
        variant_description(vs.drop_first(), v)
    }
}

/// The description of layout `l` with variant `v` (none where `v` is empty):
/// from the first known layout named `l` that has it.
pub open spec fn layout_description(known: Seq<KnownLayout>, l: Seq<char>, v: Seq<char>) -> Option<Seq<char>>
    decreases known.len(),
{
    if known.len() == 0 {
        None
    } else if known[0].name@ != l {
        layout_description(known.drop_first(), l, v)
    } else if v.len() == 0 {
        Some(known[0].description@)
    } else if variant_description(known[0].variants@, v) is Some {
        variant_description(known[0].variants@, v)
    } else {
        layout_description(known.drop_first(), l, v)
    }
}

/// The variant at position `i`; empty past the end of the list.
pub open spec fn variant_at(vs: Seq<Seq<char>>, i: int) -> Seq<char> {
    if i < vs.len() {
        vs[i]
    } else {
        seq![]
    }
}

/// The known layouts among the layout names `ls` with the variants `vs`, in order.
pub open spec fn active_from(ls: Seq<Seq<char>>, vs: Seq<Seq<char>>, known: Seq<KnownLayout>) -> Seq<ActiveView>
    decreases ls.len(),
{
    if ls.len() == 0 {
        seq![]
    } else {
        let i = ls.len() - 1;
        let prev = active_from(ls.drop_last(), vs, known);
        match layout_description(known, ls[i], variant_at(vs, i)) {
            Some(d) => prev.push((ls[i], d, variant_at(vs, i))),
            None => prev,
        }
    }
}

/// The layouts in use, read from the compositor's lists.
pub open spec fn layouts_in_use(layout: Seq<char>, variant: Seq<char>, known: Seq<KnownLayout>) -> Seq<ActiveView> {
    active_from(terminated_pieces(layout, ','), terminated_pieces(variant, ','), known)
}

/// The list with its first element moved to the end.
pub open spec fn rotated<T>(a: Seq<T>) -> Seq<T> {
    a.drop_first().push(a[0])
}

fn describe_variant(vs: &Vec<LayoutVariant>, v: &String) -> (r: Option<String>)
    ensures
        match r {
            Some(d) => variant_description(vs@, v@) == Some(d@),
            None => variant_description(vs@, v@) is None,
        },
{
    let mut i: usize = 0;
    assert(vs@.subrange(0, vs@.len() as int) =~= vs@);
    while i < vs.len()
        invariant
            i <= vs@.len(),
            variant_description(vs@, v@) == variant_description(vs@.subrange(i as int, vs@.len() as int), v@),
        decreases vs@.len() - i,
    {
        let ghost rest = vs@.subrange(i as int, vs@.len() as int);
        assert(rest.drop_first() =~= vs@.subrange(i + 1, vs@.len() as int));
        assert(rest[0] == vs@[i as int]);
        if vs[i].name == *v {
            return Some(vs[i].description.clone());
        }
        i = i + 1;
    }
    None
}

fn describe_layout(known: &Vec<KnownLayout>, l: &String, v: &String) -> (r: Option<String>)
    ensures
        match r {
            Some(d) => layout_description(known@, l@, v@) == Some(d@),
            None => layout_description(known@, l@, v@) is None,
        },
{
    let mut i: usize = 0;
    assert(known@.subrange(0, known@.len() as int) =~= known@);
    while i < known.len()
        invariant
            i <= known@.len(),
            layout_description(known@, l@, v@) == layout_description(known@.subrange(i as int, known@.len() as int), l@, v@),
        decreases known@.len() - i,
    {
        let ghost rest = known@.subrange(i as int, known@.len() as int);
        assert(rest.drop_first() =~= known@.subrange(i + 1, known@.len() as int));
        assert(rest[0] == known@[i as int]);
        if known[i].name == *l {
            if v.unicode_len() == 0 {
                return Some(known[i].description.clone());
            }
            match describe_variant(&known[i].variants, v) {
                Some(d) => {
                    return Some(d);
                },
                None => {},
            }
        }
        i = i + 1;
    }
    None
}

/// The layouts in use among the compositor's lists `layout` and `variant`,
/// each with its description; names that no known layout has are left out.
pub fn xkb_active_layouts(layout: &str, variant: &str, known: &Vec<KnownLayout>) -> (r: Vec<ActiveLayout>)
    ensures
        active_views(r@) == layouts_in_use(layout@, variant@, known@),
{
    let ls = split_terminated(layout, ',');
    let vs = split_terminated(variant, ',');
    let ghost lv = views(ls@);
    let ghost vv = views(vs@);
    let mut out: Vec<ActiveLayout> = Vec::new();
    let mut i: usize = 0;
    while i < ls.len()
        invariant
            i <= ls@.len(),
            lv == views(ls@),
            vv == views(vs@),
            active_views(out@) == active_from(lv.subrange(0, i as int), vv, known@),
        decreases ls@.len() - i,
    {
        let v = if i < vs.len() {
            vs[i].clone()
        } else {
            String::new()
        };
        assert(v@ == variant_at(vv, i as int));
        let ghost sub = lv.subrange(0, i + 1);
        assert(sub.drop_last() =~= lv.subrange(0, i as int));
        assert(sub[i as int] == ls@[i as int]@);
        match describe_layout(known, &ls[i], &v) {
            Some(description) => {
                let a = ActiveLayout { layout: ls[i].clone(), description, variant: v };
                let ghost before = out@;
                out.push(a);
                assert(active_views(out@) =~= active_views(before).push(a@));
            },
            None => {},
        }
        i = i + 1;
    }
    assert(lv.subrange(0, i as int) =~= lv);
    out
}

/// The compositor's lists after switching to the next layout: the layouts in
/// use with the first moved to the end, as comma-separated layout names and
/// variants. Nothing where no layout is in use.
pub fn switched_layouts(layout: &str, variant: &str, known: &Vec<KnownLayout>) -> (r: Option<(String, String)>)
    ensures
        layouts_in_use(layout@, variant@, known@).len() == 0 <==> r is None,
        r matches Some((l, v)) ==> ({
            let a = rotated(layouts_in_use(layout@, variant@, known@));
            &&& l@ == join_with(a.map_values(|x: ActiveView| x.0), ',')
            &&& v@ == join_with(a.map_values(|x: ActiveView| x.2), ',')
        }),
{
    let active = xkb_active_layouts(layout, variant, known);
    let n = active.len();
    if n == 0 {
        return None;
    }
    let ghost a = rotated(layouts_in_use(layout@, variant@, known@));
    let mut names: Vec<String> = Vec::new();
    let mut variants: Vec<String> = Vec::new();
    let mut k: usize = 0;
    while k < n
        invariant
            0 < n == active@.len(),
            a == rotated(active_views(active@)),
            k <= n,
            views(names@) =~= a.subrange(0, k as int).map_values(|x: ActiveView| x.0),
            views(variants@) =~= a.subrange(0, k as int).map_values(|x: ActiveView| x.2),
        decreases n - k,
    {
        let j = if k + 1 < n {
            k + 1
        } else {
            0
        };
        assert(a[k as int] == active@[j as int]@);
        let ghost nb = names@;
        let ghost vb = variants@;
        names.push(active[j].layout.clone());
        variants.push(active[j].variant.clone());
        assert(views(names@) =~= views(nb).push(active@[j as int]@.0));
        assert(views(variants@) =~= views(vb).push(active@[j as int]@.2));
        assert(a.subrange(0, k + 1) =~= a.subrange(0, k as int).push(a[k as int]));
        k = k + 1;
    }
    assert(a.subrange(0, n as int) =~= a);
    proof {
        reveal_strlit(",");
    }
    let l = join_segments(&names, 0, n, ",");
    let v = join_segments(&variants, 0, n, ",");
    assert(views(names@).subrange(0, n as int) =~= views(names@));
    assert(views(variants@).subrange(0, n as int) =~= views(variants@));
    Some((l, v))
}

} // verus!
