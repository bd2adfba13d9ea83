//! The plugin watcher's decisions: which plugin directories under the base
//! directory are followed, and which notices (appeared, disappeared, socket
//! up, socket down, rescan) each filesystem event or rescan gives.
use vstd::prelude::*;
use crate::plugins::{after, same_str, strip_d, strip_d_exec};
use crate::resolver::{join, join_path, starts_with_str, str_prefix};

verus! {

/// A change of a plugin as the plugin watcher reports it.
pub struct PluginEvent {
    pub name: String,
    pub event_type: String,
}

/// A directory the plugin watcher follows: `hecate-<...>d`, but not the main daemon's.
pub open spec fn watched_dir(name: Seq<char>) -> bool {
    &&& str_prefix(name, "hecate-"@)
    &&& name.len() > 0 && name.last() == 'd'
    &&& name != "hecate-daemon"@
    &&& name != "hecate-daemnd"@
}

pub fn is_plugin_dir(name: &str) -> (r: bool)
    ensures
        r == watched_dir(name@),
{
    let n = name.unicode_len();
    starts_with_str(name, "hecate-") && n > 0 && name.get_char(n - 1) == 'd' && !same_str(
        name,
        "hecate-daemon",
    ) && !same_str(name, "hecate-daemnd")
}

/// The `sockets` directory of a plugin directory under `base`.
pub fn sockets_dir(base: &str, dir_name: &str) -> (r: String)
    ensures
        r@ == join(join(base@, dir_name@), "sockets"@),
{
    let d = join_path(base, dir_name);
    join_path(d.as_str(), "sockets")
}

/// What happened to a plugin.
#[derive(Clone, Copy, PartialEq, Eq, Structural, Debug)]
pub enum PluginChange {
    Appeared,
    Disappeared,
    SocketUp,
    SocketDown,
    Rescan,
}

pub open spec fn change_label(c: PluginChange) -> Seq<char> {
    match c {
        PluginChange::Appeared => "appeared"@,
        PluginChange::Disappeared => "disappeared"@,
        PluginChange::SocketUp => "socket_up"@,
        PluginChange::SocketDown => "socket_down"@,
        PluginChange::Rescan => "rescan"@,
    }
}

/// The event that the UI receives for a change of plugin `name`.
pub fn plugin_event(name: String, change: PluginChange) -> (r: PluginEvent)
    ensures
        r.name@ == name@,
        r.event_type@ == change_label(change),
{
    let label = match change {
        PluginChange::Appeared => "appeared",
        PluginChange::Disappeared => "disappeared",
        PluginChange::SocketUp => "socket_up",
        PluginChange::SocketDown => "socket_down",
        PluginChange::Rescan => "rescan",
    };
    PluginEvent { name, event_type: String::from_str(label) }
}

/// The directory that holds the plugin daemons' directories.
pub fn hecate_base(home: Option<&str>) -> (r: String)
    ensures
        r@ == match home {
            Some(h) => join(h@, ".hecate"@),
            None => "/run/hecate"@,
        },
{
    match home {
        Some(h) => join_path(h, ".hecate"),
        None => String::from_str("/run/hecate"),
    }
}

/// The name the plugin watcher gives a directory `hecate-<name>d`.
pub open spec fn watched_name(dir: Seq<char>) -> Option<Seq<char>> {
    if str_prefix(dir, "hecate-"@) {
        strip_d(after(dir, "hecate-"@))
    } else {
        None
    }
}

pub fn extract_plugin_name(dir_name: &str) -> (r: Option<String>)
    ensures
        match r {
            Some(x) => watched_name(dir_name@) == Some(x@),
            None => watched_name(dir_name@) is None,
        },
{
    if starts_with_str(dir_name, "hecate-") {
        let n = dir_name.unicode_len();
        let m = "hecate-".unicode_len();
        strip_d_exec(dir_name.substring_char(m, n))
    } else {
        None
    }
}

/// A directory that the watcher follows, and the plugin name it carries.
pub open spec fn followed(dir: Seq<char>) -> bool {
    watched_dir(dir) && watched_name(dir) is Some
}

/// A notice, as values.
pub struct NoteModel {
    pub name: Seq<char>,
    pub change: PluginChange,
}

/// A notice about a plugin.
pub struct PluginNote {
    pub name: String,
    pub change: PluginChange,
}

impl View for PluginNote {
    type V = NoteModel;

    open spec fn view(&self) -> NoteModel {
        NoteModel { name: self.name@, change: self.change }
    }
}

pub open spec fn notes_view(v: Seq<PluginNote>) -> Seq<NoteModel> {
    v.map_values(|n: PluginNote| n@)
}

pub open spec fn note(name: Seq<char>, change: PluginChange) -> NoteModel {
    NoteModel { name, change }
}

/// The notices for a newly followed plugin: it appeared, and its socket is up where it exists.
pub open spec fn arrival(name: Seq<char>, socket_exists: bool) -> Seq<NoteModel> {
    if socket_exists {
        seq![note(name, PluginChange::Appeared), note(name, PluginChange::SocketUp)]
    } else {
        seq![note(name, PluginChange::Appeared)]
    }
}

/// `w` without `d`.
pub open spec fn without(w: Seq<Seq<char>>, d: Seq<char>) -> Seq<Seq<char>>
    decreases w.len(),
{
    if w.len() == 0 {
        Seq::empty()
    } else if w.last() == d {
        without(w.drop_last(), d)
    } else {
        without(w.drop_last(), d).push(w.last())
    }
}

/// The directories a rescan follows that were not followed before, in the
/// order found, with their notices.
pub open spec fn arrivals(w: Seq<Seq<char>>, found: Seq<Seq<char>>, sockets: Seq<bool>) -> (Seq<Seq<char>>, Seq<NoteModel>)
    decreases found.len(),
{
    if found.len() == 0 {
        (w, Seq::empty())
    } else {
        let (w1, n1) = arrivals(w, found.drop_last(), sockets);
        let d = found.last();
        if followed(d) && !w1.contains(d) {
            (
                w1.push(d),
                n1 + arrival(watched_name(d)->Some_0, if found.len() - 1 < sockets.len() {
                    sockets[found.len() - 1]
                } else {
                    false
                }),
            )
        } else {
            (w1, n1)
        }
    }
}

/// The followed directories that a rescan no longer finds, with their notices.
pub open spec fn departures(w: Seq<Seq<char>>, found: Seq<Seq<char>>) -> (Seq<Seq<char>>, Seq<NoteModel>)
    decreases w.len(),
{
    if w.len() == 0 {
        (Seq::empty(), Seq::empty())
    } else {
        let (kept, notes) = departures(w.drop_last(), found);
        let d = w.last();
        if found.contains(d) {
            (kept.push(d), notes)
        } else {
            (
                kept,
                notes + match watched_name(d) {
                    Some(n) => seq![note(n, PluginChange::Disappeared)],
                    None => Seq::empty(),
                },
            )
        }
    }
}

/// The plugin directories the watcher follows.
pub struct PluginTracker {
    watched: Vec<String>,
}

pub open spec fn names_view(v: Seq<String>) -> Seq<Seq<char>> {
    v.map_values(|s: String| s@)
}

impl View for PluginTracker {
    type V = Seq<Seq<char>>;

    closed spec fn view(&self) -> Seq<Seq<char>> {
        names_view(self.watched@)
    }
}

fn copy_str(s: &String) -> (r: String)
    ensures
        r@ == s@,
{
    String::from_str(s.as_str())
}

/// Whether `d` is among `v`.
fn holds(v: &Vec<String>, d: &str) -> (r: bool)
    ensures
        r == names_view(v@).contains(d@),
{
    let mut i: usize = 0;
    while i < v.len()
        invariant
            i <= v@.len(),
            forall|k: int| 0 <= k < i ==> names_view(v@)[k] != d@,
        decreases v@.len() - i,
    {
        if same_str(v[i].as_str(), d) {
            assert(names_view(v@)[i as int] == d@);
            return true;
        }
        i = i + 1;
    }
    false
}

impl PluginTracker {
    /// A tracker that follows nothing yet.
    pub fn new() -> (r: PluginTracker)
        ensures
            r@ == Seq::<Seq<char>>::empty(),
    {
        let r = PluginTracker { watched: Vec::new() };
        assert(r@ =~= Seq::<Seq<char>>::empty());
        r
    }

    /// Whether directory `d` is followed.
    pub fn follows(&self, d: &str) -> (r: bool)
        ensures
            r == self@.contains(d@),
    {
        holds(&self.watched, d)
    }

    /// A directory `dir` appeared directly under the base (`is_dir`: it is a
    /// directory; `socket_exists`: its socket exists). A plugin directory not
    /// yet followed becomes followed and gives its arrival notices, and its
    /// `sockets` directory is then to be watched (the `bool`).
    pub fn dir_created(&mut self, dir: &str, is_dir: bool, socket_exists: bool) -> (r: (Vec<PluginNote>, bool))
        ensures
            (followed(dir@) && is_dir && !old(self)@.contains(dir@)) ==> (final(self)@ == old(self)@.push(dir@)
                && notes_view(r.0@) == arrival(watched_name(dir@)->Some_0, socket_exists) && r.1),
            !(followed(dir@) && is_dir && !old(self)@.contains(dir@)) ==> (final(self)@ == old(self)@
                && r.0@.len() == 0 && !r.1),
    {
        let mut notes: Vec<PluginNote> = Vec::new();
        if !is_dir || !is_plugin_dir(dir) || self.follows(dir) {
            return (notes, false);
        }
        match extract_plugin_name(dir) {
            None => (notes, false),
            Some(name) => {
                let ghost old_w = self@;
                self.watched.push(String::from_str(dir));
                assert(self@ =~= old_w.push(dir@));
                let up = copy_str(&name);
                notes.push(PluginNote { name, change: PluginChange::Appeared });
                if socket_exists {
                    notes.push(PluginNote { name: up, change: PluginChange::SocketUp });
                }
                assert(notes_view(notes@) =~= arrival(watched_name(dir@)->Some_0, socket_exists));
                (notes, true)
            },
        }
    }

    /// A directory `dir` directly under the base was removed. A followed
    /// plugin directory is no longer followed, gives its disappearance, and
    /// its `sockets` directory is no longer to be watched (the `bool`).
    pub fn dir_removed(&mut self, dir: &str) -> (r: (Vec<PluginNote>, bool))
        ensures
            (followed(dir@) && old(self)@.contains(dir@)) ==> (final(self)@ == without(old(self)@, dir@)
                && notes_view(r.0@) == seq![note(watched_name(dir@)->Some_0, PluginChange::Disappeared)] && r.1),
            !(followed(dir@) && old(self)@.contains(dir@)) ==> (final(self)@ == old(self)@ && r.0@.len() == 0
                && !r.1),
    {
        let mut notes: Vec<PluginNote> = Vec::new();
        if !is_plugin_dir(dir) || !self.follows(dir) {
            return (notes, false);
        }
        match extract_plugin_name(dir) {
            None => (notes, false),
            Some(name) => {
                let ghost old_w = self@;
                let mut kept: Vec<String> = Vec::new();
                let mut i: usize = 0;
                while i < self.watched.len()
                    invariant
                        i <= self.watched@.len(),
                        names_view(self.watched@) == old_w,
                        names_view(kept@) == without(old_w.subrange(0, i as int), dir@),
                    decreases self.watched@.len() - i,
                {
                    let ghost pre = old_w.subrange(0, i as int);
                    assert(old_w.subrange(0, i + 1).drop_last() =~= pre);
                    assert(old_w.subrange(0, i + 1).last() == old_w[i as int]);
                    if !same_str(self.watched[i].as_str(), dir) {
                        kept.push(copy_str(&self.watched[i]));
                        assert(names_view(kept@) =~= without(old_w.subrange(0, i + 1), dir@));
                    } else {
                        assert(names_view(kept@) =~= without(old_w.subrange(0, i + 1), dir@));
                    }
                    i = i + 1;
                }
                assert(old_w.subrange(0, i as int) =~= old_w);
                self.watched = kept;
                notes.push(PluginNote { name, change: PluginChange::Disappeared });
                assert(notes_view(notes@) =~= seq![note(watched_name(dir@)->Some_0, PluginChange::Disappeared)]);
                (notes, true)
            },
        }
    }

    /// The socket of the plugin directory `dir` was created or modified (`up`)
    /// or removed.
    pub fn socket_changed(&self, dir: &str, up: bool) -> (r: Option<PluginNote>)
        ensures
            match watched_name(dir@) {
                Some(n) => r matches Some(x) && x@ == note(n, if up {
                    PluginChange::SocketUp
                } else {
                    PluginChange::SocketDown
                }),
                None => r is None,
            },
    {
        match extract_plugin_name(dir) {
            Some(name) => Some(
                PluginNote {
                    name,
                    change: if up {
                        PluginChange::SocketUp
                    } else {
                        PluginChange::SocketDown
                    },
                },
            ),
            None => None,
        }
    }

    /// A periodic rescan found the directories `found` under the base, whose
    /// sockets exist as `sockets` says. Plugin directories not followed
    /// become followed, in the order found, with their arrival notices;
    /// followed directories not found are dropped with their disappearance;
    /// a rescan notice ends the list.
    pub fn rescan(&mut self, found: &Vec<String>, sockets: &Vec<bool>) -> (r: Vec<PluginNote>)
        ensures
            ({
                let (w1, n1) = arrivals(old(self)@, names_view(found@), sockets@);
                let (w2, n2) = departures(w1, names_view(found@));
                &&& final(self)@ == w2
                &&& notes_view(r@) == n1 + n2 + seq![note(Seq::empty(), PluginChange::Rescan)]
            }),
    {
        let ghost fv = names_view(found@);
        let mut notes: Vec<PluginNote> = Vec::new();
        let mut i: usize = 0;
        assert(fv.subrange(0, 0) =~= Seq::<Seq<char>>::empty());
        while i < found.len()
            invariant
                i <= found@.len(),
                fv == names_view(found@),
                (self@, notes_view(notes@)) == arrivals(old(self)@, fv.subrange(0, i as int), sockets@),
            decreases found@.len() - i,
        {
            let ghost pre = fv.subrange(0, i as int);
            let ghost next = fv.subrange(0, i + 1);
            assert(next.drop_last() =~= pre);
            assert(next.last() == fv[i as int]);
            let d = found[i].as_str();
            let ghost old_w = self@;
            let ghost old_n = notes_view(notes@);
            if is_plugin_dir(d) && !self.follows(d) {
                match extract_plugin_name(d) {
                    Some(name) => {
                        self.watched.push(String::from_str(d));
                        assert(self@ =~= old_w.push(d@));
                        let up = copy_str(&name);
                        notes.push(PluginNote { name, change: PluginChange::Appeared });
                        let s = if i < sockets.len() {
                            sockets[i]
                        } else {
                            false
                        };
                        if s {
                            notes.push(PluginNote { name: up, change: PluginChange::SocketUp });
                        }
                        assert(notes_view(notes@) =~= old_n + arrival(watched_name(d@)->Some_0, s));
                    },
                    None => {},
                }
            }
            i = i + 1;
        }
        assert(fv.subrange(0, i as int) =~= fv);
        let ghost w1 = self@;
        let ghost n1 = notes_view(notes@);
        let mut kept: Vec<String> = Vec::new();
        let mut j: usize = 0;
        assert(w1.subrange(0, 0) =~= Seq::<Seq<char>>::empty());
        while j < self.watched.len()
            invariant
                j <= self.watched@.len(),
                names_view(self.watched@) == w1,
                fv == names_view(found@),
                (names_view(kept@), notes_view(notes@).subrange(n1.len() as int, notes@.len() as int))
                    == departures(w1.subrange(0, j as int), fv),
                notes_view(notes@).subrange(0, n1.len() as int) == n1,
                n1.len() <= notes@.len(),
            decreases self.watched@.len() - j,
        {
            let ghost pre = w1.subrange(0, j as int);
            let ghost next = w1.subrange(0, j + 1);
            assert(next.drop_last() =~= pre);
            assert(next.last() == w1[j as int]);
            let ghost before = notes_view(notes@);
            let d = self.watched[j].as_str();
            if holds(found, d) {
                kept.push(String::from_str(d));
                assert(names_view(kept@) =~= departures(next, fv).0);
            } else {
                match extract_plugin_name(d) {
                    Some(name) => {
                        notes.push(PluginNote { name, change: PluginChange::Disappeared });
                    },
                    None => {},
                }
            }
            assert(notes_view(notes@).subrange(0, n1.len() as int) =~= before.subrange(0, n1.len() as int));
            assert(notes_view(notes@).subrange(n1.len() as int, notes@.len() as int) =~= departures(next, fv).1);
            j = j + 1;
        }
        assert(w1.subrange(0, j as int) =~= w1);
        self.watched = kept;
        let ghost n2 = notes_view(notes@).subrange(n1.len() as int, notes@.len() as int);
        assert(notes_view(notes@) =~= n1 + n2);
        notes.push(PluginNote { name: String::new(), change: PluginChange::Rescan });
        assert(notes_view(notes@) =~= n1 + n2 + seq![note(Seq::empty(), PluginChange::Rescan)]);
        notes
    }
}

} // verus!
