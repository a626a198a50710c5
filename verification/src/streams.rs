//! Shared photo streams: which synced files are new to the packager, and
//! which albums need attention.

use vstd::prelude::*;
use crate::plist::str_eq;
use crate::text::{string_of, strs_view};

verus! {

/// No string occurs twice.
pub open spec fn no_dups(s: Seq<Seq<char>>) -> bool {
    forall|i: int, j: int| 0 <= i < j < s.len() ==> s[i] != s[j]
}

/// The entries of `s` whose flag in `keep` is set, in order.
pub open spec fn kept(s: Seq<Seq<char>>, keep: Seq<bool>) -> Seq<Seq<char>>
    decreases s.len(),
{
    if s.len() == 0 {
        Seq::empty()
    } else {
        let prev = kept(s.drop_last(), keep);
        if keep[s.len() - 1] {
            prev.push(s.last())
        } else {
            prev
        }
    }
}

/// The listed items not yet seen, each once, in the order first listed.
pub open spec fn fresh(seen: Seq<Seq<char>>, listed: Seq<Seq<char>>) -> Seq<Seq<char>>
    decreases listed.len(),
{
    if listed.len() == 0 {
        Seq::empty()
    } else {
        let prev = fresh(seen, listed.drop_last());
        let x = listed.last();
        if seen.contains(x) || prev.contains(x) {
            prev
        } else {
            prev.push(x)
        }
    }
}

fn contains_str(v: &Vec<String>, x: &String) -> (b: bool)
    ensures
        b == strs_view(v@).contains(x@),
{
    let mut i: usize = 0;
    while i < v.len()
        invariant
            i <= v@.len(),
            forall|j: int| 0 <= j < i ==> v@[j]@ != x@,
        decreases v@.len() - i,
    {
        if str_eq(v[i].as_str(), x.as_str()) {
            assert(strs_view(v@)[i as int] == x@);
            return true;
        }
        i = i + 1;
    }
    assert(!strs_view(v@).contains(x@)) by {
        if strs_view(v@).contains(x@) {
            let j = choose|j: int| 0 <= j < strs_view(v@).len() && strs_view(v@)[j] == x@;
            assert(v@[j]@ == x@);
        }
    }
    false
}

proof fn lemma_kept_sub(s: Seq<Seq<char>>, keep: Seq<bool>, x: Seq<char>)
    requires
        kept(s, keep).contains(x),
    ensures
        s.contains(x),
    decreases s.len(),
{
    if s.len() > 0 {
        let prev = kept(s.drop_last(), keep);
        if prev.contains(x) {
            lemma_kept_sub(s.drop_last(), keep, x);
            let j = choose|j: int| 0 <= j < s.drop_last().len() && s.drop_last()[j] == x;
            assert(s[j] == x);
        } else {
            assert(x == s.last());
            assert(s[s.len() - 1] == x);
        }
    }
}

proof fn lemma_kept_no_dups(s: Seq<Seq<char>>, keep: Seq<bool>)
    requires
        no_dups(s),
    ensures
        no_dups(kept(s, keep)),
    decreases s.len(),
{
    if s.len() > 0 {
        let d = s.drop_last();
        assert(no_dups(d));
        lemma_kept_no_dups(d, keep);
        let prev = kept(d, keep);
        if keep[s.len() - 1] {
            assert forall|i: int| 0 <= i < prev.len() implies prev[i] != s.last() by {
                if prev[i] == s.last() {
                    lemma_kept_sub(d, keep, prev[i]);
                    let j = choose|j: int| 0 <= j < d.len() && d[j] == prev[i];
                    assert(s[j] == s[s.len() - 1]);
                }
            }
        }
    }
}

/// Forgets the seen files that are gone, then finds the listed files not
/// seen before and marks them seen. `still_there` says, for each seen file
/// in order, whether it still exists. Returns the new files, each once, in
/// the order first listed.
pub fn diff_new_items(seen: &mut Vec<String>, still_there: &Vec<bool>, listed: &Vec<String>) -> (new:
    Vec<String>)
    requires
        still_there@.len() == old(seen)@.len(),
    ensures
        strs_view(new@) == fresh(kept(strs_view(old(seen)@), still_there@), strs_view(listed@)),
        strs_view(final(seen)@) == kept(strs_view(old(seen)@), still_there@) + strs_view(new@),
        no_dups(strs_view(old(seen)@)) ==> no_dups(strs_view(final(seen)@)),
{
    let ghost s0 = strs_view(seen@);
    let mut kept_v: Vec<String> = Vec::new();
    let mut i: usize = 0;
    while i < seen.len()
        invariant
            s0 == strs_view(seen@),
            still_there@.len() == seen@.len(),
            i <= seen@.len(),
            strs_view(kept_v@) == kept(s0.subrange(0, i as int), still_there@),
        decreases seen@.len() - i,
    {
        assert(s0.subrange(0, i + 1).drop_last() =~= s0.subrange(0, i as int));
        if still_there[i] {
            kept_v.push(seen[i].clone());
            assert(strs_view(kept_v@) =~= kept(s0.subrange(0, i as int), still_there@).push(s0[i as int]));
        } else {
            assert(strs_view(kept_v@) =~= kept(s0.subrange(0, i as int), still_there@));
        }
        i = i + 1;
    }
    assert(s0.subrange(0, s0.len() as int) =~= s0);
    let ghost k = strs_view(kept_v@);
    let ghost l = strs_view(listed@);
    let mut new: Vec<String> = Vec::new();
    let mut j: usize = 0;
    while j < listed.len()
        invariant
            k == strs_view(kept_v@),
            l == strs_view(listed@),
            j <= listed@.len(),
            strs_view(new@) == fresh(k, l.subrange(0, j as int)),
        decreases listed@.len() - j,
    {
        let x = &listed[j];
        assert(l.subrange(0, j + 1).drop_last() =~= l.subrange(0, j as int));
        assert(l.subrange(0, j + 1).last() == x@);
        let in_seen = contains_str(&kept_v, x);
        let in_new = contains_str(&new, x);
        if !in_seen && !in_new {
            new.push(x.clone());
            assert(strs_view(new@) =~= fresh(k, l.subrange(0, j as int)).push(x@));
        }
        j = j + 1;
    }
    assert(l.subrange(0, l.len() as int) =~= l);
    let mut m: usize = 0;
    while m < new.len()
        invariant
            m <= new@.len(),
            strs_view(kept_v@) == k + strs_view(new@).subrange(0, m as int),
        decreases new@.len() - m,
    {
        let x = new[m].clone();
        assert(x@ == strs_view(new@)[m as int]);
        let ghost before = strs_view(kept_v@);
        kept_v.push(x);
        assert(strs_view(kept_v@) =~= before.push(x@));
        assert(strs_view(new@).subrange(0, m + 1) =~= strs_view(new@).subrange(0, m as int).push(x@));
        assert(strs_view(kept_v@) =~= k + strs_view(new@).subrange(0, m + 1));
        m = m + 1;
    }
    assert(strs_view(new@).subrange(0, new@.len() as int) =~= strs_view(new@));
    proof {
        if no_dups(s0) {
            lemma_kept_no_dups(s0, still_there@);
            lemma_fresh_disjoint(k, l);
        }
    }
    *seen = kept_v;
    new
}

proof fn lemma_fresh_disjoint(seen: Seq<Seq<char>>, listed: Seq<Seq<char>>)
    requires
        no_dups(seen),
    ensures
        no_dups(seen + fresh(seen, listed)),
    decreases listed.len(),
{
    if listed.len() > 0 {
        lemma_fresh_disjoint(seen, listed.drop_last());
        let prev = fresh(seen, listed.drop_last());
        let x = listed.last();
        if !(seen.contains(x) || prev.contains(x)) {
            let all = seen + prev.push(x);
            assert(all =~= (seen + prev).push(x));
            assert forall|i: int| 0 <= i < (seen + prev).len() implies (seen + prev)[i] != x by {
                if i < seen.len() {
                    assert(seen[i] == (seen + prev)[i]);
                } else {
                    assert(prev[i - seen.len()] == (seen + prev)[i]);
                }
            }
        }
    }
}

/// Each new item was listed and had not been seen, and is reported once.
pub proof fn lemma_fresh_items(seen: Seq<Seq<char>>, listed: Seq<Seq<char>>)
    ensures
        no_dups(fresh(seen, listed)),
        forall|i: int|
            0 <= i < fresh(seen, listed).len() ==> listed.contains(#[trigger] fresh(seen, listed)[i])
                && !seen.contains(fresh(seen, listed)[i]),
    decreases listed.len(),
{
    if listed.len() > 0 {
        let d = listed.drop_last();
        lemma_fresh_items(seen, d);
        let prev = fresh(seen, d);
        let x = listed.last();
        assert forall|i: int| 0 <= i < prev.len() implies listed.contains(prev[i]) by {
            let j = choose|j: int| 0 <= j < d.len() && d[j] == prev[i];
            assert(listed[j] == prev[i]);
        }
        if !(seen.contains(x) || prev.contains(x)) {
            assert(listed[listed.len() - 1] == x);
            assert forall|i: int| 0 <= i < prev.len() implies prev[i] != x by {
                if prev[i] == x {
                    assert(prev.contains(x));
                }
            }
        }
    }
}

/// What a change signal of the synced streams brought.
pub enum SignalEvent {
    /// A change was signalled.
    Signal,
    /// Signals were missed.
    Lagged,
    /// The signalling side is gone.
    Closed,
}

/// What the stream watcher does next.
#[derive(PartialEq, Eq, Structural)]
pub enum StreamAction {
    /// Drain pending signals, diff the synced folders and hand the new
    /// files to the packager.
    Diff,
    /// Stop watching.
    Stop,
}

/// The stream watcher's next move: it diffs on a signal while the sync
/// manager is still there, and stops otherwise (missed signals included).
pub fn stream_step(event: SignalEvent, manager_alive: bool) -> (r: StreamAction)
    ensures
        r == if event is Signal && manager_alive {
            StreamAction::Diff
        } else {
            StreamAction::Stop
        },
{
    match event {
        SignalEvent::Signal => if manager_alive {
            StreamAction::Diff
        } else {
            StreamAction::Stop
        },
        _ => StreamAction::Stop,
    }
}

/// What the push-state saver does next.
#[derive(PartialEq, Eq, Structural)]
pub enum RefreshAction {
    /// Save the hardware state with the connection's new keys.
    Save,
    /// Wait for the next signal.
    Continue,
    /// Stop.
    Stop,
}

/// The push-state saver's next move: on a signal it saves while the
/// connection is still there and stops once it is gone; missed signals
/// are skipped; it stops when the signalling side is gone.
pub fn refresh_step(event: SignalEvent, connection_alive: bool) -> (r: RefreshAction)
    ensures
        event is Signal ==> r == if connection_alive {
            RefreshAction::Save
        } else {
            RefreshAction::Stop
        },
        event is Lagged ==> r == RefreshAction::Continue,
        event is Closed ==> r == RefreshAction::Stop,
{
    match event {
        SignalEvent::Signal => if connection_alive {
            RefreshAction::Save
        } else {
            RefreshAction::Stop
        },
        SignalEvent::Lagged => RefreshAction::Continue,
        SignalEvent::Closed => RefreshAction::Stop,
    }
}

/// What the bridge knows of a shared album.
pub struct AlbumInfo {
    pub guid: String,
    pub name: Option<String>,
    pub sharing_type: String,
}

/// The albums without a name, by identifier, in order: those whose
/// summary is fetched on a refresh.
pub open spec fn nameless(albums: Seq<AlbumInfo>) -> Seq<Seq<char>>
    decreases albums.len(),
{
    if albums.len() == 0 {
        Seq::empty()
    } else {
        let prev = nameless(albums.drop_last());
        if albums.last().name is None {
            prev.push(albums.last().guid@)
        } else {
            prev
        }
    }
}

/// The identifiers of the albums without a name.
pub fn nameless_albums(albums: &Vec<AlbumInfo>) -> (r: Vec<String>)
    ensures
        strs_view(r@) == nameless(albums@),
{
    let mut r: Vec<String> = Vec::new();
    let mut i: usize = 0;
    while i < albums.len()
        invariant
            i <= albums@.len(),
            strs_view(r@) == nameless(albums@.subrange(0, i as int)),
        decreases albums@.len() - i,
    {
        assert(albums@.subrange(0, i + 1).drop_last() =~= albums@.subrange(0, i as int));
        if albums[i].name.is_none() {
            r.push(albums[i].guid.clone());
            assert(strs_view(r@) =~= nameless(albums@.subrange(0, i as int)).push(albums@[i as int].guid@));
        }
        i = i + 1;
    }
    assert(albums@.subrange(0, albums@.len() as int) =~= albums@);
    r
}

/// Album `i` is the first with identifier `g`.
pub open spec fn first_album(albums: Seq<AlbumInfo>, g: Seq<char>, i: int) -> bool {
    &&& 0 <= i < albums.len()
    &&& albums[i].guid@ == g
    &&& forall|j: int| 0 <= j < i ==> albums[j].guid@ != g
}

/// The albums announced for changed identifiers `changes`: for each, in
/// order, the first album with that identifier, where its sharing is
/// still pending.
pub open spec fn pending_for(albums: Seq<AlbumInfo>, changes: Seq<Seq<char>>) -> Seq<int>
    decreases changes.len(),
{
    if changes.len() == 0 {
        Seq::empty()
    } else {
        let prev = pending_for(albums, changes.drop_last());
        let g = changes.last();
        if exists|i: int| first_album(albums, g, i) {
            let i = choose|i: int| first_album(albums, g, i);
            if albums[i].sharing_type@ == "pending"@ {
                prev.push(i)
            } else {
                prev
            }
        } else {
            prev
        }
    }
}

fn find_album(albums: &Vec<AlbumInfo>, g: &String) -> (r: Option<usize>)
    ensures
        match r {
            Some(i) => first_album(albums@, g@, i as int),
            None => !exists|i: int| first_album(albums@, g@, i),
        },
{
    let mut i: usize = 0;
    while i < albums.len()
        invariant
            i <= albums@.len(),
            forall|j: int| 0 <= j < i ==> albums@[j].guid@ != g@,
        decreases albums@.len() - i,
    {
        if str_eq(albums[i].guid.as_str(), g.as_str()) {
            return Some(i);
        }
        i = i + 1;
    }
    None
}

/// The albums to announce as new invitations after the streams changed:
/// positions in `albums`, one per changed identifier whose album's sharing
/// is pending.
pub fn pending_albums(albums: &Vec<AlbumInfo>, changes: &Vec<String>) -> (r: Vec<usize>)
    ensures
        r@.map_values(|i: usize| i as int) == pending_for(albums@, strs_view(changes@)),
{
    let ghost c = strs_view(changes@);
    let pending = string_of("pending");
    let mut r: Vec<usize> = Vec::new();
    let mut k: usize = 0;
    while k < changes.len()
        invariant
            c == strs_view(changes@),
            pending@ == "pending"@,
            k <= changes@.len(),
            r@.map_values(|i: usize| i as int) == pending_for(albums@, c.subrange(0, k as int)),
        decreases changes@.len() - k,
    {
        let ghost sub = c.subrange(0, k + 1);
        assert(sub.drop_last() =~= c.subrange(0, k as int));
        assert(sub.last() == changes@[k as int]@);
        match find_album(albums, &changes[k]) {
            Some(i) => {
                proof {
                    let ci = choose|x: int| first_album(albums@, sub.last(), x);
                    assert(ci == i) by {
                        if ci < i {
                        } else if ci > i {
                        }
                    }
                }
                if str_eq(albums[i].sharing_type.as_str(), pending.as_str()) {
                    r.push(i);
                    assert(r@.map_values(|i: usize| i as int) =~= pending_for(albums@, c.subrange(0, k as int)).push(i as int));
                } else {
                    assert(r@.map_values(|i: usize| i as int) =~= pending_for(albums@, c.subrange(0, k as int)));
                }
            },
            None => {
                assert(r@.map_values(|i: usize| i as int) =~= pending_for(albums@, c.subrange(0, k as int)));
            },
        }
        k = k + 1;
    }
    assert(c.subrange(0, c.len() as int) =~= c);
    r
}

} // verus!
