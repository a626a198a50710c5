//! Cloud message attachments: matching what an upload returns to the
//! records the files were uploaded for.

use vstd::prelude::*;

verus! {

/// Byte strings, seen.
pub open spec fn bytes_view(v: Seq<Vec<u8>>) -> Seq<Seq<u8>> {
    Seq::new(v.len(), |i: int| v[i]@)
}

/// Byte string `k` is at position `i` of `keys` and nowhere before it.
pub open spec fn first_bytes_at(keys: Seq<Seq<u8>>, k: Seq<u8>, i: int) -> bool {
    &&& 0 <= i < keys.len()
    &&& keys[i] == k
    &&& forall|j: int| 0 <= j < i ==> keys[j] != k
}

/// The first position of `k` in `keys`.
pub open spec fn bytes_position(keys: Seq<Seq<u8>>, k: Seq<u8>) -> int {
    choose|i: int| first_bytes_at(keys, k, i)
}

/// `k` occurs in `keys`.
pub open spec fn bytes_present(keys: Seq<Seq<u8>>, k: Seq<u8>) -> bool {
    exists|i: int| 0 <= i < keys.len() && keys[i] == k
}

fn bytes_eq(a: &Vec<u8>, b: &Vec<u8>) -> (r: bool)
    ensures
        r == (a@ == b@),
{
    if a.len() != b.len() {
        return false;
    }
    let mut i: usize = 0;
    while i < a.len()
        invariant
            a@.len() == b@.len(),
            i <= a@.len(),
            forall|j: int| 0 <= j < i ==> a@[j] == b@[j],
        decreases a@.len() - i,
    {
        if a[i] != b[i] {
            return false;
        }
        i = i + 1;
    }
    assert(a@ =~= b@);
    true
}

fn find_bytes(keys: &Vec<Vec<u8>>, k: &Vec<u8>) -> (r: usize)
    requires
        bytes_present(bytes_view(keys@), k@),
    ensures
        r as int == bytes_position(bytes_view(keys@), k@),
        first_bytes_at(bytes_view(keys@), k@, r as int),
{
    let ghost v = bytes_view(keys@);
    let mut i: usize = 0;
    while i < keys.len()
        invariant
            v == bytes_view(keys@),
            i <= keys@.len(),
            bytes_present(v, k@),
            forall|j: int| 0 <= j < i ==> v[j] != k@,
        decreases keys@.len() - i,
    {
        if bytes_eq(&keys[i], k) {
            proof {
                assert(first_bytes_at(v, k@, i as int));
                let c = choose|x: int| first_bytes_at(v, k@, x);
                assert(c == i) by {
                    if c < i {
                        assert(v[c] == k@);
                    } else if c > i {
                        assert(v[i as int] == k@);
                    }
                }
            }
            return i;
        }
        i = i + 1;
    }
    proof {
        let j = choose|j: int| 0 <= j < v.len() && v[j] == k@;
        assert(v[j] != k@);
    }
    0
}

/// For each upload result, in order, the record it belongs to: that of
/// the first file whose signature is the result's.
pub open spec fn matched(signatures: Seq<Seq<u8>>, results: Seq<Seq<u8>>, records: Seq<String>) -> Seq<Seq<char>> {
    Seq::new(results.len(), |k: int| records[bytes_position(signatures, results[k])]@)
}

/// Matches the upload results to the records the files were uploaded
/// for. `signatures` holds the prepared files' signatures, `records` the
/// record of each file, and `results` the signature each result reports;
/// every reported signature is one of the files'. The result at position
/// `k` belongs to the `k`-th record returned.
pub fn match_uploads(signatures: &Vec<Vec<u8>>, records: &Vec<String>, results: &Vec<Vec<u8>>) -> (r: Vec<
    String,
>)
    requires
        records@.len() == signatures@.len(),
        forall|k: int|
            0 <= k < results@.len() ==> bytes_present(bytes_view(signatures@), #[trigger] results@[k]@),
    ensures
        r@.len() == results@.len(),
        forall|k: int|
            0 <= k < results@.len() ==> (#[trigger] r@[k])@ == matched(
                bytes_view(signatures@),
                bytes_view(results@),
                records@,
            )[k],
{
    let mut r: Vec<String> = Vec::new();
    let mut k: usize = 0;
    while k < results.len()
        invariant
            records@.len() == signatures@.len(),
            forall|x: int|
                0 <= x < results@.len() ==> bytes_present(bytes_view(signatures@), #[trigger] results@[x]@),
            k <= results@.len(),
            r@.len() == k,
            forall|x: int|
                0 <= x < k ==> (#[trigger] r@[x])@ == records@[bytes_position(
                    bytes_view(signatures@),
                    results@[x]@,
                )]@,
        decreases results@.len() - k,
    {
        let idx = find_bytes(signatures, &results[k]);
        r.push(records[idx].clone());
        k = k + 1;
    }
    r
}

} // verus!
