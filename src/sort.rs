//! A small in-place insertion sort for byte vectors.
use vstd::prelude::*;

verus! {

broadcast use vstd::seq_lib::group_to_multiset_ensures;

/// `s` is in non-decreasing order.
pub open spec fn sorted(s: Seq<u8>) -> bool {
    forall|p: int, q: int| 0 <= p < q < s.len() ==> s[p] <= s[q]
}

/// Moving the value at `j` one place up, into the hole at `j + 1`, keeps the
/// multiset of the sequence with `key` written into its hole.
proof fn lemma_shift_keeps_multiset(a: Seq<u8>, j: int, key: u8)
    requires
        0 <= j,
        j + 1 < a.len(),
    ensures
        a.update(j + 1, a[j]).update(j, key).to_multiset()
            == a.update(j + 1, key).to_multiset(),
{
    let b = a.update(j + 1, key);
    assert(a.update(j + 1, a[j]).update(j, key) =~= b.update(j, key).update(j + 1, a[j]));
    assert(b.update(j, key).update(j + 1, a[j]).to_multiset()
        =~= b.to_multiset().insert(key).remove(a[j]).insert(a[j]).remove(key));
}

/// Sorts `arr` in place into non-decreasing order and returns its contents.
///
/// A zero is put in front as a sentinel while sorting and taken out again, so
/// the inner loop never looks below the first real element.
pub fn insertion_sort(arr: &mut Vec<u8>) -> (r: &[u8])
    requires
        old(arr)@.len() > 0,
    ensures
        sorted(final(arr)@),
        final(arr)@.to_multiset() == old(arr)@.to_multiset(),
        r@ == final(arr)@,
{
    let ghost orig = arr@;
    arr.insert(0, 0);
    let ghost padded = arr@;
    let len: usize = arr.len();
    let mut i: usize = 1;
    while i < len
        invariant
            1 <= i <= len,
            len == arr@.len(),
            len == orig.len() + 1,
            arr@[0] == 0,
            forall|p: int, q: int| 1 <= p < q < i ==> arr@[p] <= arr@[q],
            arr@.to_multiset() == padded.to_multiset(),
        decreases len - i,
    {
        let key: u8 = arr[i];
        let ghost start = arr@;
        let mut j: usize = i - 1;
        while j > 0 && arr[j] > key
            invariant
                0 <= j < i < len,
                len == arr@.len(),
                arr@[0] == 0,
                forall|p: int, q: int|
                    1 <= p < q <= i && p != j + 1 && q != j + 1 ==> arr@[p] <= arr@[q],
                forall|q: int| j + 1 < q <= i ==> arr@[q] > key,
                arr@.update(j + 1, key).to_multiset() == start.to_multiset(),
                start.to_multiset() == padded.to_multiset(),
            decreases j,
        {
            proof {
                lemma_shift_keeps_multiset(arr@, j as int, key);
            }
            let v: u8 = arr[j];
            arr.set(j + 1, v);
            j = j - 1;
        }
        arr.set(j + 1, key);
        i = i + 1;
    }
    arr.remove(0);
    proof {
        assert(padded =~= orig.insert(0, 0));
        assert(arr@.to_multiset() =~= orig.to_multiset());
    }
    arr.as_slice()
}

} // verus!
