//! Tiling exceptions: windows that are never tiled.
//!
//! The system lists default exceptions per application, each with a list of
//! window titles; the user lists precise exceptions that add rules or switch
//! default ones off or on.
use vstd::prelude::*;

use crate::text::views;

verus! {

/// Default exceptions of one application, one per window title.
#[derive(Clone, Debug, PartialEq)]
pub struct DefaultApplicationException {
    pub appid: String,
    pub titles: Vec<String>,
}

/// An exception for one window title of one application, switched on or off.
#[derive(Clone, Debug, PartialEq)]
pub struct PreciseApplicationException {
    pub appid: String,
    pub title: String,
    pub enabled: bool,
}

/// An exception in force.
#[derive(Clone, Debug, PartialEq)]
pub struct ApplicationException {
    pub appid: String,
    pub title: String,
}

/// `(appid, title, enabled)`.
pub type RuleView = (Seq<char>, Seq<char>, bool);

impl View for PreciseApplicationException {
    type V = RuleView;

    open spec fn view(&self) -> RuleView {
        (self.appid@, self.title@, self.enabled)
    }
}

impl View for ApplicationException {
    type V = (Seq<char>, Seq<char>);

    open spec fn view(&self) -> (Seq<char>, Seq<char>) {
        (self.appid@, self.title@)
    }
}

pub open spec fn rule_views(v: Seq<PreciseApplicationException>) -> Seq<RuleView> {
    v.map_values(|p: PreciseApplicationException| p@)
}

pub open spec fn exception_views(v: Seq<ApplicationException>) -> Seq<(Seq<char>, Seq<char>)> {
    v.map_values(|p: ApplicationException| p@)
}

/// One enabled rule for each title, in order.
pub open spec fn expanded(appid: Seq<char>, titles: Seq<Seq<char>>) -> Seq<RuleView> {
    titles.map_values(|t: Seq<char>| (appid, t, true))
}

/// The rules of all the default exceptions, in order.
pub open spec fn expanded_all(defaults: Seq<DefaultApplicationException>) -> Seq<RuleView>
    decreases defaults.len(),
{
    if defaults.len() == 0 {
        seq![]
    } else {
        expanded_all(defaults.drop_last()) + expanded(defaults.last().appid@, views(defaults.last().titles@))
    }
}

pub open spec fn same_window(r: RuleView, appid: Seq<char>, title: Seq<char>) -> bool {
    r.0 == appid && r.1 == title
}

/// Whether `i` is the first rule of `l` for the window `(appid, title)`.
pub open spec fn is_first_match(l: Seq<RuleView>, appid: Seq<char>, title: Seq<char>, i: int) -> bool {
    &&& 0 <= i < l.len()
    &&& same_window(l[i], appid, title)
    &&& forall|j: int| 0 <= j < i ==> !same_window(#[trigger] l[j], appid, title)
}

/// A user rule applied to the list: it switches the first rule of the same
/// window on or off, or is added at the end where there is none.
pub open spec fn applied(l: Seq<RuleView>, c: RuleView) -> Seq<RuleView> {
    if exists|i: int| is_first_match(l, c.0, c.1, i) {
        let i = choose|i: int| is_first_match(l, c.0, c.1, i);
        l.update(i, (l[i].0, l[i].1, c.2))
    } else {
        l.push(c)
    }
}

/// The user rules applied in order.
pub open spec fn applied_all(l: Seq<RuleView>, custom: Seq<RuleView>) -> Seq<RuleView>
    decreases custom.len(),
{
    if custom.len() == 0 {
        l
    } else {
        applied(applied_all(l, custom.drop_last()), custom.last())
    }
}

/// The windows of the rules switched on, in order.
pub open spec fn enabled_windows(l: Seq<RuleView>) -> Seq<(Seq<char>, Seq<char>)>
    decreases l.len(),
{
    if l.len() == 0 {
        seq![]
    } else if l.last().2 {
        enabled_windows(l.drop_last()).push((l.last().0, l.last().1))
    } else {
        enabled_windows(l.drop_last())
    }
}

impl DefaultApplicationException {
    /// One enabled precise exception for each title, in order.
    pub fn expand(self) -> (r: Vec<PreciseApplicationException>)
        ensures
            rule_views(r@) == expanded(self.appid@, views(self.titles@)),
    {
        self.expanded_rules()
    }

    fn expanded_rules(&self) -> (r: Vec<PreciseApplicationException>)
        ensures
            rule_views(r@) == expanded(self.appid@, views(self.titles@)),
    {
        let mut out: Vec<PreciseApplicationException> = Vec::new();
        let mut i: usize = 0;
        while i < self.titles.len()
            invariant
                i <= self.titles@.len(),
                rule_views(out@) =~= expanded(self.appid@, views(self.titles@.subrange(0, i as int))),
            decreases self.titles@.len() - i,
        {
            let p = PreciseApplicationException {
                appid: self.appid.clone(),
                title: self.titles[i].clone(),
                enabled: true,
            };
            let ghost before = out@;
            out.push(p);
            assert(rule_views(out@) =~= rule_views(before).push(p@));
            assert(views(self.titles@.subrange(0, i + 1)) =~= views(self.titles@.subrange(0, i as int)).push(
                self.titles@[i as int]@,
            ));
            i = i + 1;
        }
        assert(self.titles@.subrange(0, i as int) =~= self.titles@);
        out
    }
}

fn first_match(l: &Vec<PreciseApplicationException>, appid: &String, title: &String) -> (r: Option<usize>)
    ensures
        match r {
            Some(i) => is_first_match(rule_views(l@), appid@, title@, i as int),
            None => !exists|i: int| is_first_match(rule_views(l@), appid@, title@, i),
        },
{
    let mut i: usize = 0;
    while i < l.len()
        invariant
            i <= l@.len(),
            forall|j: int| 0 <= j < i ==> !same_window(#[trigger] rule_views(l@)[j], appid@, title@),
        decreases l@.len() - i,
    {
        if l[i].appid == *appid && l[i].title == *title {
            return Some(i);
        }
        i = i + 1;
    }
    None
}

proof fn lemma_first_match_unique(l: Seq<RuleView>, appid: Seq<char>, title: Seq<char>, i: int, j: int)
    requires
        is_first_match(l, appid, title, i),
        is_first_match(l, appid, title, j),
    ensures
        i == j,
{
    if i < j {
        assert(!same_window(l[i], appid, title));
    } else if j < i {
        assert(!same_window(l[j], appid, title));
    }
}

/// The tiling exceptions in force: the default exceptions expanded, the user's
/// rules applied over them in order, and the windows whose rules are on.
pub fn merge_tiling_exceptions(
    defaults: Vec<DefaultApplicationException>,
    custom: Vec<PreciseApplicationException>,
) -> (r: Vec<ApplicationException>)
    ensures
        exception_views(r@) == enabled_windows(applied_all(expanded_all(defaults@), rule_views(custom@))),
{
    let mut rules: Vec<PreciseApplicationException> = Vec::new();
    let mut i: usize = 0;
    while i < defaults.len()
        invariant
            i <= defaults@.len(),
            rule_views(rules@) == expanded_all(defaults@.subrange(0, i as int)),
        decreases defaults@.len() - i,
    {
        let mut more = defaults[i].expanded_rules();
        let ghost before = rules@;
        let ghost added = more@;
        rules.append(&mut more);
        assert(rule_views(rules@) =~= rule_views(before) + rule_views(added));
        assert(defaults@.subrange(0, i + 1).drop_last() =~= defaults@.subrange(0, i as int));
        i = i + 1;
    }
    assert(defaults@.subrange(0, i as int) =~= defaults@);
    let ghost base = rule_views(rules@);
    let mut k: usize = 0;
    while k < custom.len()
        invariant
            k <= custom@.len(),
            rule_views(rules@) == applied_all(base, rule_views(custom@).subrange(0, k as int)),
        decreases custom@.len() - k,
    {
        let c = &custom[k];
        let ghost before = rule_views(rules@);
        assert(rule_views(custom@).subrange(0, k + 1).drop_last() =~= rule_views(custom@).subrange(0, k as int));
        assert(rule_views(custom@).subrange(0, k + 1).last() == c@);
        match first_match(&rules, &c.appid, &c.title) {
            Some(j) => {
                let p = PreciseApplicationException {
                    appid: rules[j].appid.clone(),
                    title: rules[j].title.clone(),
                    enabled: c.enabled,
                };
                rules.set(j, p);
                proof {
                    let w = choose|x: int| is_first_match(before, c.appid@, c.title@, x);
                    lemma_first_match_unique(before, c.appid@, c.title@, w, j as int);
                    assert(rule_views(rules@) =~= before.update(j as int, (before[j as int].0, before[j as int].1, c.enabled)));
                    assert(is_first_match(before, c@.0, c@.1, j as int));
                    assert(rule_views(rules@) == applied(before, c@));
                }
            },
            None => {
                let p = PreciseApplicationException {
                    appid: c.appid.clone(),
                    title: c.title.clone(),
                    enabled: c.enabled,
                };
                rules.push(p);
                assert(rule_views(rules@) =~= before.push(c@));
                assert(rule_views(rules@) == applied(before, c@));
            },
        }
        assert(applied_all(base, rule_views(custom@).subrange(0, k + 1)) == applied(before, c@));
        k = k + 1;
    }
    assert(rule_views(custom@).subrange(0, k as int) =~= rule_views(custom@));
    let mut out: Vec<ApplicationException> = Vec::new();
    let mut m: usize = 0;
    while m < rules.len()
        invariant
            m <= rules@.len(),
            exception_views(out@) == enabled_windows(rule_views(rules@).subrange(0, m as int)),
        decreases rules@.len() - m,
    {
        let ghost before = out@;
        assert(rule_views(rules@).subrange(0, m + 1).drop_last() =~= rule_views(rules@).subrange(0, m as int));
        assert(rule_views(rules@).subrange(0, m + 1).last() == rules@[m as int]@);
        if rules[m].enabled {
            let e = ApplicationException { appid: rules[m].appid.clone(), title: rules[m].title.clone() };
            out.push(e);
            assert(exception_views(out@) =~= exception_views(before).push(e@));
        }
        m = m + 1;
    }
    assert(rule_views(rules@).subrange(0, m as int) =~= rule_views(rules@));
    out
}

} // verus!
