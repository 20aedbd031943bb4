//! The virtual mono sink that folds stereo output down to one channel.
use vstd::prelude::*;

use crate::text::{fields, lines_of, split_fields, split_lines, views};

verus! {

/// Whether a virtual mono sink is loaded, and whether mono output is wanted.
#[derive(Debug, Clone)]
pub enum State {
    NoVirtMonoDisabledMono,
    DisabledMono(String),
    EnabledMono(String),
    NoVirtMonoEnabledMono,
}

/// A step on the sound server's modules.
#[derive(Debug, Clone)]
pub enum SinkAction {
    /// Unload the virtual sink, then make `restore` the default sink where given.
    Unload { virt_sink: String, restore: Option<String> },
    /// Load a virtual mono sink on top of `sink`.
    Load { sink: String },
}

pub enum SinkActionView {
    Unload(Seq<char>, Option<Seq<char>>),
    Load(Seq<char>),
}

impl View for SinkAction {
    type V = SinkActionView;

    open spec fn view(&self) -> SinkActionView {
        match self {
            SinkAction::Unload { virt_sink, restore } => SinkActionView::Unload(
                virt_sink@,
                match restore {
                    Some(r) => Some(r@),
                    None => None,
                },
            ),
            SinkAction::Load { sink } => SinkActionView::Load(sink@),
        }
    }
}

pub open spec fn action_views(v: Seq<SinkAction>) -> Seq<SinkActionView> {
    v.map_values(|a: SinkAction| a@)
}

/// The virtual sink loaded, if any.
pub open spec fn virt_sink_of(s: State) -> Option<Seq<char>> {
    match s {
        State::DisabledMono(v) | State::EnabledMono(v) => Some(v@),
        _ => None,
    }
}

pub open spec fn mono_of(s: State) -> bool {
    match s {
        State::EnabledMono(_) | State::NoVirtMonoEnabledMono => true,
        _ => false,
    }
}

impl State {
    /// The state with the virtual sink `virt_sink`, if loaded, and mono output
    /// wanted or not.
    pub fn new(virt_sink: Option<String>, mono_enabled: bool) -> (r: State)
        ensures
            virt_sink_of(r) == (match virt_sink {
                Some(v) => Some(v@),
                None => None::<Seq<char>>,
            }),
            mono_of(r) == mono_enabled,
    {
        if mono_enabled {
            if let Some(virt_sink) = virt_sink {
                State::EnabledMono(virt_sink)
            } else {
                State::NoVirtMonoEnabledMono
            }
        } else {
            if let Some(virt_sink) = virt_sink {
                State::DisabledMono(virt_sink)
            } else {
                State::NoVirtMonoDisabledMono
            }
        }
    }

    /// Steps that turn mono output on over `sink_name`: any virtual sink is
    /// unloaded first, then a new one is loaded.
    pub fn enable_mono(&self, sink_name: &str) -> (r: Vec<SinkAction>)
        ensures
            action_views(r@) == (match virt_sink_of(*self) {
                Some(v) => seq![SinkActionView::Unload(v, None), SinkActionView::Load(sink_name@)],
                None => seq![SinkActionView::Load(sink_name@)],
            }),
    {
        let mut r: Vec<SinkAction> = Vec::new();
        match self {
            State::DisabledMono(virt_sink) | State::EnabledMono(virt_sink) => {
                r.push(SinkAction::Unload { virt_sink: virt_sink.clone(), restore: None });
            },
            _ => {},
        }
        r.push(SinkAction::Load { sink: String::from_str(sink_name) });
        assert(action_views(r@) =~= match virt_sink_of(*self) {
            Some(v) => seq![SinkActionView::Unload(v, None), SinkActionView::Load(sink_name@)],
            None => seq![SinkActionView::Load(sink_name@)],
        });
        r
    }

    /// Steps that turn mono output off: any virtual sink is unloaded and
    /// `sink_name` made the default again.
    pub fn disable_mono(&self, sink_name: &str) -> (r: Vec<SinkAction>)
        ensures
            action_views(r@) == (match virt_sink_of(*self) {
                Some(v) => seq![SinkActionView::Unload(v, Some(sink_name@))],
                None => Seq::<SinkActionView>::empty(),
            }),
    {
        let mut r: Vec<SinkAction> = Vec::new();
        match self {
            State::DisabledMono(virt_sink) | State::EnabledMono(virt_sink) => {
                r.push(SinkAction::Unload { virt_sink: virt_sink.clone(), restore: Some(String::from_str(sink_name)) });
            },
            _ => {},
        }
        assert(action_views(r@) =~= match virt_sink_of(*self) {
            Some(v) => seq![SinkActionView::Unload(v, Some(sink_name@))],
            None => Seq::<SinkActionView>::empty(),
        });
        r
    }

    /// Steps after the default sink changed to `sink_name`: with mono output on,
    /// the virtual sink moves onto it; with mono output off, a leftover virtual
    /// sink is unloaded.
    pub fn sink_change(&self, sink_name: &str) -> (r: Vec<SinkAction>)
        ensures
            action_views(r@) == (if mono_of(*self) {
                match virt_sink_of(*self) {
                    Some(v) => seq![SinkActionView::Unload(v, None), SinkActionView::Load(sink_name@)],
                    None => seq![SinkActionView::Load(sink_name@)],
                }
            } else {
                match virt_sink_of(*self) {
                    Some(v) => seq![SinkActionView::Unload(v, Some(sink_name@))],
                    None => Seq::<SinkActionView>::empty(),
                }
            }),
    {
        match self {
            State::EnabledMono(_) | State::NoVirtMonoEnabledMono => self.enable_mono(sink_name),
            _ => self.disable_mono(sink_name),
        }
    }
}

/// The name under which the virtual mono sink is loaded.
pub const VIRT_MONO: &'static str = "COSMIC_mono_sink";

/// Whether `needle` occurs in `hay`.
pub open spec fn occurs_in(needle: Seq<char>, hay: Seq<char>) -> bool {
    exists|i: int| 0 <= i && i + needle.len() <= hay.len() && #[trigger] hay.subrange(i, i + needle.len()) == needle
}

/// Whether a row of the module list is the virtual mono sink's: its third
/// field names it.
pub open spec fn is_virt_row(row: Seq<Seq<char>>) -> bool {
    row.len() >= 3 && occurs_in("COSMIC_mono_sink"@, row[2])
}

/// The module id of the first row of the virtual mono sink.
pub open spec fn virt_row_id(rows: Seq<Seq<Seq<char>>>) -> Option<Seq<char>>
    decreases rows.len(),
{
    if rows.len() == 0 {
        None
    } else if is_virt_row(rows[0]) {
        Some(rows[0][0])
    } else {
        virt_row_id(rows.drop_first())
    }
}

fn occurs(needle: &str, hay: &str) -> (r: bool)
    ensures
        r == occurs_in(needle@, hay@),
{
    let n = needle.unicode_len();
    let h = hay.unicode_len();
    if n > h {
        return false;
    }
    let last = h - n;
    let mut i: usize = 0;
    loop
        invariant
            n == needle@.len(),
            h == hay@.len(),
            last == h - n,
            i <= last,
            forall|j: int| 0 <= j < i ==> #[trigger] hay@.subrange(j, j + n) != needle@,
        decreases last - i,
    {
        let part = hay.substring_char(i, i + n);
        if String::from_str(part) == String::from_str(needle) {
            return true;
        }
        if i == last {
            return false;
        }
        i = i + 1;
    }
}

pub open spec fn row_views(rows: Seq<Vec<String>>) -> Seq<Seq<Seq<char>>> {
    rows.map_values(|r: Vec<String>| views(r@))
}

/// The module id of the virtual mono sink among the rows of a module list
/// (each row its fields), if it is loaded.
pub fn virt_sink_id_in(rows: &Vec<Vec<String>>) -> (r: Option<String>)
    ensures
        match r {
            Some(id) => virt_row_id(row_views(rows@)) == Some(id@),
            None => virt_row_id(row_views(rows@)) is None,
        },
{
    let mut i: usize = 0;
    let ghost all = row_views(rows@);
    assert(all.subrange(0, all.len() as int) =~= all);
    while i < rows.len()
        invariant
            i <= rows@.len(),
            all == row_views(rows@),
            virt_row_id(all) == virt_row_id(all.subrange(i as int, all.len() as int)),
        decreases rows@.len() - i,
    {
        let ghost rest = all.subrange(i as int, all.len() as int);
        assert(rest.drop_first() =~= all.subrange(i + 1, all.len() as int));
        assert(rest[0] == views(rows@[i as int]@));
        let row = &rows[i];
        if row.len() >= 3 && occurs(VIRT_MONO, row[2].as_str()) {
            assert(views(row@)[0] == row@[0]@);
            return Some(row[0].clone());
        }
        proof {
            if row@.len() >= 3 {
                assert(views(row@)[2] == row@[2]@);
            }
        }
        i = i + 1;
    }
    None
}

/// The module id of the virtual mono sink in the listing of `pactl list modules
/// short`, if it is loaded.
pub fn virt_sink_id(listing: &str) -> (r: Option<String>)
    ensures
        match r {
            Some(id) => virt_row_id(lines_of(listing@).map_values(|l: Seq<char>| fields(l))) == Some(id@),
            None => virt_row_id(lines_of(listing@).map_values(|l: Seq<char>| fields(l))) is None,
        },
{
    let lines = split_lines(listing);
    let mut rows: Vec<Vec<String>> = Vec::new();
    let mut i: usize = 0;
    while i < lines.len()
        invariant
            i <= lines@.len(),
            views(lines@) == lines_of(listing@),
            row_views(rows@) =~= views(lines@).subrange(0, i as int).map_values(|l: Seq<char>| fields(l)),
        decreases lines@.len() - i,
    {
        let row = split_fields(lines[i].as_str());
        let ghost before = rows@;
        rows.push(row);
        assert(row_views(rows@) =~= row_views(before).push(views(row@)));
        assert(views(lines@).subrange(0, i + 1) =~= views(lines@).subrange(0, i as int).push(lines@[i as int]@));
        i = i + 1;
    }
    assert(views(lines@).subrange(0, i as int) =~= views(lines@));
    virt_sink_id_in(&rows)
}

} // verus!
