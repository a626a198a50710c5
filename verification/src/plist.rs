//! A property-list value as the library reads and rewrites it, with the
//! dictionary operations the stored state is migrated with.
//!
//! A dictionary keeps its entries in order, as the property-list
//! dictionaries do: a new key goes last, replacing a value keeps its
//! place, and removing a key moves the last entry into its place.

use vstd::prelude::*;
use crate::text::{char_count, char_at};

verus! {

/// A property-list value.
pub enum PlistValue {
    Array(Vec<PlistValue>),
    Dictionary(Vec<(String, PlistValue)>),
    Boolean(bool),
    Data(Vec<u8>),
    /// A date, as nanoseconds from the Unix epoch.
    Date(i128),
    /// A real number, as the bits of its IEEE-754 double.
    Real(u64),
    Integer(i128),
    String(String),
    Uid(u64),
}

/// The mathematical form of a property-list value.
pub enum PlistView {
    Array(Seq<PlistView>),
    Dictionary(Seq<(Seq<char>, PlistView)>),
    Boolean(bool),
    Data(Seq<u8>),
    Date(i128),
    Real(u64),
    Integer(i128),
    String(Seq<char>),
    Uid(u64),
}

/// The entries of a dictionary.
pub type Entries = Seq<(Seq<char>, PlistView)>;

impl PlistValue {
    pub open spec fn view(&self) -> PlistView
        decreases self,
    {
        match self {
            PlistValue::Array(v) => PlistView::Array(
                Seq::new(
                    v@.len(),
                    |i: int|
                        if 0 <= i < v@.len() {
                            v@[i].view()
                        } else {
                            PlistView::Boolean(false)
                        },
                ),
            ),
            PlistValue::Dictionary(d) => PlistView::Dictionary(
                Seq::new(
                    d@.len(),
                    |i: int|
                        if 0 <= i < d@.len() {
                            (d@[i].0@, d@[i].1.view())
                        } else {
                            (Seq::empty(), PlistView::Boolean(false))
                        },
                ),
            ),
            PlistValue::Boolean(b) => PlistView::Boolean(*b),
            PlistValue::Data(d) => PlistView::Data(d@),
            PlistValue::Date(t) => PlistView::Date(*t),
            PlistValue::Real(r) => PlistView::Real(*r),
            PlistValue::Integer(n) => PlistView::Integer(*n),
            PlistValue::String(s) => PlistView::String(s@),
            PlistValue::Uid(u) => PlistView::Uid(*u),
        }
    }
}

/// The entries of a dictionary, as seen.
pub open spec fn entries_view(d: Seq<(String, PlistValue)>) -> Entries {
    Seq::new(d.len(), |i: int| (d[i].0@, d[i].1.view()))
}

/// A dictionary value seen is its entries seen.
pub proof fn lemma_dictionary_view(d: Vec<(String, PlistValue)>)
    ensures
        PlistValue::Dictionary(d).view() == PlistView::Dictionary(entries_view(d@)),
{
    assert(PlistValue::Dictionary(d).view()->Dictionary_0 =~= entries_view(d@));
}

/// Key `k` is at position `i` and nowhere before it.
pub open spec fn key_at(d: Entries, k: Seq<char>, i: int) -> bool {
    &&& 0 <= i < d.len()
    &&& d[i].0 == k
    &&& forall|j: int| 0 <= j < i ==> d[j].0 != k
}

/// The position of key `k`, or -1.
pub open spec fn key_pos(d: Entries, k: Seq<char>) -> int {
    if exists|i: int| key_at(d, k, i) {
        choose|i: int| key_at(d, k, i)
    } else {
        -1
    }
}

/// The value of key `k`.
pub open spec fn dget(d: Entries, k: Seq<char>) -> Option<PlistView> {
    if key_pos(d, k) >= 0 {
        Some(d[key_pos(d, k)].1)
    } else {
        None
    }
}

/// The dictionary with the value of key `k` replaced, where the key is
/// present.
pub open spec fn dreplace(d: Entries, k: Seq<char>, v: PlistView) -> Entries {
    if key_pos(d, k) >= 0 {
        d.update(key_pos(d, k), (k, v))
    } else {
        d
    }
}

/// The dictionary with `k` set to `v`: in place where the key is present,
/// last otherwise.
pub open spec fn dinsert(d: Entries, k: Seq<char>, v: PlistView) -> Entries {
    if key_pos(d, k) >= 0 {
        d.update(key_pos(d, k), (k, v))
    } else {
        d.push((k, v))
    }
}

/// The dictionary without key `k`: the last entry takes its place.
pub open spec fn dremove(d: Entries, k: Seq<char>) -> Entries {
    let i = key_pos(d, k);
    if i < 0 {
        d
    } else if i == d.len() - 1 {
        d.drop_last()
    } else {
        d.drop_last().update(i, d.last())
    }
}

/// A key is at one position at most.
pub proof fn lemma_key_at_unique(d: Entries, k: Seq<char>, i: int, j: int)
    requires
        key_at(d, k, i),
        key_at(d, k, j),
    ensures
        i == j,
{
}

/// The position of a key, characterized.
pub proof fn lemma_key_pos(d: Entries, k: Seq<char>, i: int)
    requires
        key_at(d, k, i),
    ensures
        key_pos(d, k) == i,
{
    let c = choose|x: int| key_at(d, k, x);
    lemma_key_at_unique(d, k, c, i);
}

/// A key not in the dictionary has no position.
pub proof fn lemma_key_absent(d: Entries, k: Seq<char>)
    requires
        forall|j: int| 0 <= j < d.len() ==> d[j].0 != k,
    ensures
        key_pos(d, k) == -1,
{
}

/// Replacing one key's value leaves every other key where it was, with
/// its value.
pub proof fn lemma_replace_other(d: Entries, k: Seq<char>, v: PlistView, k2: Seq<char>)
    requires
        k != k2,
    ensures
        key_pos(dreplace(d, k, v), k2) == key_pos(d, k2),
        dget(dreplace(d, k, v), k2) == dget(d, k2),
{
    if key_pos(d, k) >= 0 {
        let i = key_pos(d, k);
        let d2 = dreplace(d, k, v);
        assert(key_at(d, k, i));
        assert(d2.len() == d.len());
        assert(forall|x: int| #![trigger d2[x]] #![trigger d[x]] 0 <= x < d.len() ==> d2[x].0 == d[x].0);
        if exists|j: int| key_at(d, k2, j) {
            let j = choose|j: int| key_at(d, k2, j);
            assert(key_at(d2, k2, j));
            lemma_key_pos(d2, k2, j);
            lemma_key_pos(d, k2, j);
        } else {
            assert forall|j: int| !key_at(d2, k2, j) by {
                if key_at(d2, k2, j) {
                    assert(key_at(d, k2, j));
                }
            }
        }
    }
}

/// A replaced key holds its new value.
pub proof fn lemma_replace_same(d: Entries, k: Seq<char>, v: PlistView)
    requires
        dget(d, k) is Some,
    ensures
        key_pos(dreplace(d, k, v), k) == key_pos(d, k),
        dget(dreplace(d, k, v), k) == Some(v),
{
    let i = key_pos(d, k);
    let d2 = dreplace(d, k, v);
    assert(key_at(d, k, i));
    assert(forall|x: int| #![trigger d2[x]] #![trigger d[x]] 0 <= x < d.len() ==> d2[x].0 == d[x].0);
    assert(key_at(d2, k, i));
    lemma_key_pos(d2, k, i);
}

/// Replacing a key's value by the value it holds changes nothing.
pub proof fn lemma_replace_noop(d: Entries, k: Seq<char>, v: PlistView)
    requires
        dget(d, k) == Some(v),
    ensures
        dreplace(d, k, v) == d,
{
    let i = key_pos(d, k);
    assert(key_at(d, k, i));
    assert(d.update(i, (k, v)) =~= d);
}

/// No key occurs twice, as in a property-list dictionary.
pub open spec fn keys_unique(d: Entries) -> bool {
    forall|i: int, j: int| 0 <= i < j < d.len() ==> d[i].0 != d[j].0
}

/// After setting a key, reading it gives the value set.
pub proof fn lemma_insert_get(d: Entries, k: Seq<char>, v: PlistView)
    ensures
        dget(dinsert(d, k, v), k) == Some(v),
{
    if key_pos(d, k) >= 0 {
        lemma_replace_same(d, k, v);
    } else {
        let d2 = dinsert(d, k, v);
        assert forall|j: int| 0 <= j < d.len() implies d[j].0 != k by {
            if d[j].0 == k {
                lemma_first_key(d, k, j);
            }
        }
        assert(key_at(d2, k, d.len() as int));
        lemma_key_pos(d2, k, d.len() as int);
    }
}

/// Where `k` occurs at `j`, it has a first position.
proof fn lemma_first_key(d: Entries, k: Seq<char>, j: int)
    requires
        0 <= j < d.len(),
        d[j].0 == k,
    ensures
        key_pos(d, k) >= 0,
    decreases j,
{
    if forall|y: int| 0 <= y < j ==> d[y].0 != k {
        assert(key_at(d, k, j));
    } else {
        let y = choose|y: int| 0 <= y < j && d[y].0 == k;
        lemma_first_key(d, k, y);
    }
}

/// Setting a key leaves every other key's value as it was.
pub proof fn lemma_insert_other(d: Entries, k: Seq<char>, v: PlistView, k2: Seq<char>)
    requires
        k != k2,
    ensures
        dget(dinsert(d, k, v), k2) == dget(d, k2),
{
    if key_pos(d, k) >= 0 {
        lemma_replace_other(d, k, v, k2);
    } else {
        let d2 = dinsert(d, k, v);
        assert(d2 == d.push((k, v)));
        assert(forall|x: int| #![trigger d2[x]] #![trigger d[x]] 0 <= x < d.len() ==> d2[x] == d[x]);
        if exists|j: int| key_at(d, k2, j) {
            let j = choose|j: int| key_at(d, k2, j);
            assert(key_at(d2, k2, j));
            lemma_key_pos(d2, k2, j);
            lemma_key_pos(d, k2, j);
        } else {
            assert forall|j: int| !key_at(d2, k2, j) by {
                if key_at(d2, k2, j) {
                    assert(j < d.len());
                    assert(key_at(d, k2, j));
                }
            }
        }
    }
}

/// After removing a key from a dictionary without repeated keys, the key
/// is gone, and the dictionary still has no repeated keys.
pub proof fn lemma_remove_get(d: Entries, k: Seq<char>)
    requires
        keys_unique(d),
    ensures
        dget(dremove(d, k), k) is None,
        keys_unique(dremove(d, k)),
{
    let i = key_pos(d, k);
    let d2 = dremove(d, k);
    if i >= 0 {
        assert(key_at(d, k, i));
        assert forall|j: int| 0 <= j < d2.len() implies d2[j].0 != k by {
            if j == i {
                assert(d2[j] == d.last());
            } else {
                assert(d2[j] == d[j]);
            }
        }
        assert forall|a: int, b: int| 0 <= a < b < d2.len() implies d2[a].0 != d2[b].0 by {
            if a == i {
                assert(d2[a] == d[d.len() - 1]);
                assert(d2[b] == d[b]);
            } else if b == i {
                assert(d2[b] == d[d.len() - 1]);
                assert(d2[a] == d[a]);
            } else {
                assert(d2[a] == d[a]);
                assert(d2[b] == d[b]);
            }
        }
    } else {
        assert forall|j: int| 0 <= j < d2.len() implies d2[j].0 != k by {
            if d2[j].0 == k {
                lemma_first_key(d, k, j);
            }
        }
    }
    lemma_key_absent(d2, k);
}

/// Setting a key keeps a dictionary free of repeated keys.
pub proof fn lemma_insert_unique(d: Entries, k: Seq<char>, v: PlistView)
    requires
        keys_unique(d),
    ensures
        keys_unique(dinsert(d, k, v)),
{
    let d2 = dinsert(d, k, v);
    if key_pos(d, k) >= 0 {
        let i = key_pos(d, k);
        assert(key_at(d, k, i));
        assert(forall|x: int| #![trigger d2[x]] #![trigger d[x]] 0 <= x < d.len() ==> d2[x].0 == d[x].0);
    } else {
        assert forall|j: int| 0 <= j < d.len() implies d[j].0 != k by {
            if d[j].0 == k {
                lemma_first_key(d, k, j);
            }
        }
        assert(forall|x: int| #![trigger d2[x]] #![trigger d[x]] 0 <= x < d.len() ==> d2[x] == d[x]);
    }
}

/// Whether `s` is the string `t`.
pub fn str_eq(s: &str, t: &str) -> (b: bool)
    ensures
        b == (s@ == t@),
{
    let n = char_count(s);
    let m = char_count(t);
    if n != m {
        return false;
    }
    let mut i: usize = 0;
    while i < n
        invariant
            n == s@.len(),
            m == t@.len(),
            n == m,
            i <= n,
            forall|j: int| 0 <= j < i ==> s@[j] == t@[j],
        decreases n - i,
    {
        if char_at(s, i) != char_at(t, i) {
            return false;
        }
        i = i + 1;
    }
    assert(s@ =~= t@);
    true
}

/// The position of key `key` in a dictionary.
pub fn dict_find(d: &Vec<(String, PlistValue)>, key: &str) -> (r: Option<usize>)
    ensures
        match r {
            Some(i) => i as int == key_pos(entries_view(d@), key@),
            None => key_pos(entries_view(d@), key@) == -1,
        },
{
    let ghost e = entries_view(d@);
    let mut i: usize = 0;
    while i < d.len()
        invariant
            e == entries_view(d@),
            i <= d@.len(),
            forall|j: int| 0 <= j < i ==> e[j].0 != key@,
        decreases d@.len() - i,
    {
        if str_eq(d[i].0.as_str(), key) {
            proof {
                lemma_key_pos(e, key@, i as int);
            }
            return Some(i);
        }
        i = i + 1;
    }
    proof {
        lemma_key_absent(e, key@);
    }
    None
}

/// The unsigned integer a property-list value holds, where it is one that
/// fits in 64 bits.
pub open spec fn as_unsigned(v: PlistView) -> Option<u64> {
    match v {
        PlistView::Integer(i) => if 0 <= i <= u64::MAX {
            Some(i as u64)
        } else {
            None
        },
        _ => None,
    }
}

/// The value of key `key`.
pub fn lookup<'a>(d: &'a Vec<(String, PlistValue)>, key: &str) -> (r: Option<&'a PlistValue>)
    ensures
        match r {
            Some(v) => dget(entries_view(d@), key@) == Some(v.view()),
            None => dget(entries_view(d@), key@) is None,
        },
{
    match dict_find(d, key) {
        Some(i) => Some(&d[i].1),
        None => None,
    }
}

/// The unsigned integer a value holds, where it is one that fits in 64
/// bits.
pub fn value_as_unsigned(v: &PlistValue) -> (r: Option<u64>)
    ensures
        r == as_unsigned(v.view()),
{
    match v {
        PlistValue::Integer(i) => if 0 <= *i && *i <= u64::MAX as i128 {
            Some(*i as u64)
        } else {
            None
        },
        _ => None,
    }
}

/// The string a value holds, where it is one.
pub fn value_as_string(v: &PlistValue) -> (r: Option<&String>)
    ensures
        match r {
            Some(s) => v.view() == PlistView::String(s@),
            None => !(v.view() is String),
        },
{
    match v {
        PlistValue::String(s) => Some(s),
        _ => None,
    }
}

} // verus!
