//! The Find My items the app lists: the account's own accessories, then
//! the beacons shared with it.

use vstd::prelude::*;
use crate::text::{strs_view, position, position_of};

verus! {

/// Where a listed item comes from.
#[derive(PartialEq, Eq, Structural, Clone, Copy)]
pub enum BeaconSource {
    /// The account's own accessory at this position.
    Owned(usize),
    /// A beacon shared with the account: the share circle at position
    /// `circle`, the shared beacon's record at `beacon`, and the local
    /// client state of that beacon at `client`, where there is one (the
    /// default state is used otherwise).
    Shared { circle: usize, beacon: usize, client: Option<usize> },
}

/// The first position of `k`, as a position.
pub open spec fn pos_usize(keys: Seq<Seq<char>>, k: Seq<char>) -> Option<usize> {
    match position(keys, k) {
        Some(i) => Some(i as usize),
        None => None,
    }
}

/// The shared items, one per share circle whose beacon has a record, in
/// the circles' order.
pub open spec fn shared_sources(
    circle_beacons: Seq<Seq<char>>,
    records: Seq<Seq<char>>,
    clients: Seq<Seq<char>>,
) -> Seq<BeaconSource>
    decreases circle_beacons.len(),
{
    if circle_beacons.len() == 0 {
        Seq::empty()
    } else {
        let n = circle_beacons.len() - 1;
        let prev = shared_sources(circle_beacons.drop_last(), records, clients);
        let b = circle_beacons.last();
        match pos_usize(records, b) {
            Some(r) => prev.push(
                BeaconSource::Shared { circle: n as usize, beacon: r, client: pos_usize(clients, b) },
            ),
            None => prev,
        }
    }
}

/// The items listed: every owned accessory in order, then the shared
/// beacons.
pub open spec fn beacon_sources(
    owned: nat,
    circle_beacons: Seq<Seq<char>>,
    records: Seq<Seq<char>>,
    clients: Seq<Seq<char>>,
) -> Seq<BeaconSource> {
    Seq::new(owned, |i: int| BeaconSource::Owned(i as usize)) + shared_sources(
        circle_beacons,
        records,
        clients,
    )
}

/// The items to list. `owned` is the number of the account's accessories;
/// `circle_beacons` holds, for each share circle the account is a member
/// of, the identifier of the beacon it shares; `records` and `clients` are
/// the identifiers of the shared beacons' records and of the local client
/// states kept for them.
pub fn get_beacon_items(
    owned: usize,
    circle_beacons: &Vec<String>,
    records: &Vec<String>,
    clients: &Vec<String>,
) -> (r: Vec<BeaconSource>)
    ensures
        r@ == beacon_sources(
            owned as nat,
            strs_view(circle_beacons@),
            strs_view(records@),
            strs_view(clients@),
        ),
{
    let ghost cb = strs_view(circle_beacons@);
    let ghost rv = strs_view(records@);
    let ghost cv = strs_view(clients@);
    let mut r: Vec<BeaconSource> = Vec::new();
    let mut i: usize = 0;
    while i < owned
        invariant
            i <= owned,
            r@ == Seq::new(i as nat, |j: int| BeaconSource::Owned(j as usize)),
        decreases owned - i,
    {
        r.push(BeaconSource::Owned(i));
        assert(r@ =~= Seq::new((i + 1) as nat, |j: int| BeaconSource::Owned(j as usize)));
        i = i + 1;
    }
    let ghost head = r@;
    let mut c: usize = 0;
    while c < circle_beacons.len()
        invariant
            cb == strs_view(circle_beacons@),
            rv == strs_view(records@),
            cv == strs_view(clients@),
            c <= circle_beacons@.len(),
            r@ == head + shared_sources(cb.subrange(0, c as int), rv, cv),
        decreases circle_beacons@.len() - c,
    {
        let ghost sub = cb.subrange(0, c + 1);
        assert(sub.drop_last() =~= cb.subrange(0, c as int));
        assert(sub.last() == circle_beacons@[c as int]@);
        let b = circle_beacons[c].as_str();
        match position_of(records, b) {
            Some(rec) => {
                let client = position_of(clients, b);
                r.push(BeaconSource::Shared { circle: c, beacon: rec, client });
                assert(r@ =~= head + shared_sources(sub, rv, cv));
            },
            None => {
                assert(r@ =~= head + shared_sources(sub, rv, cv));
            },
        }
        c = c + 1;
    }
    assert(cb.subrange(0, cb.len() as int) =~= cb);
    r
}

} // verus!
