//! Small shared helpers.

use vstd::prelude::*;

verus! {

broadcast use vstd::std_specs::vec::group_vec_axioms;

/// `sub` occurs in `list` as a contiguous subsequence.
pub open spec fn spec_contains_sublist(list: Seq<u8>, sub: Seq<u8>) -> bool {
    exists|k: int|
        0 <= k && k + sub.len() <= list.len() && #[trigger] list.subrange(
            k,
            k + sub.len() as int,
        ) == sub
}

/// Whether `sublist` occurs in `list` as a contiguous run of equal bytes.
/// The empty list is a sublist of every list.
pub fn is_sublist(list: &Vec<u8>, sublist: &Vec<u8>) -> (r: bool)
    ensures
        r == spec_contains_sublist(list@, sublist@),
{
    if sublist.len() == 0 {
        proof {
            assert(list@.subrange(0, 0 + sublist@.len() as int) =~= sublist@);
        }
        return true;
    }

    if sublist.len() > list.len() {
        return false;
    }

    let mut k: usize = 0;
    while k <= list.len() - sublist.len()
        invariant
            sublist@.len() >= 1,
            sublist@.len() <= list@.len(),
            k <= list@.len() - sublist@.len() + 1,
            forall|k2: int|
                0 <= k2 < k ==> #[trigger] list@.subrange(k2, k2 + sublist@.len() as int)
                    != sublist@,
        decreases list.len() - sublist.len() - k + 1,
    {
        let mut m: usize = 0;
        let mut all_eq: bool = true;
        while all_eq && m < sublist.len()
            invariant
                m <= sublist@.len(),
                k + sublist@.len() <= list@.len(),
                all_eq ==> forall|j: int| 0 <= j < m ==> list@[k + j] == sublist@[j],
                !all_eq ==> exists|j: int|
                    0 <= j < sublist@.len() && list@[k + j] != sublist@[j],
            decreases sublist.len() - m, (if all_eq { 1int } else { 0int }),
        {
            proof {
                assert(list.len() == list@.len());
                assert(k + m < list@.len());
            }
            if list[k + m] != sublist[m] {
                all_eq = false;
            } else {
                m = m + 1;
            }
        }
        if all_eq {
            proof {
                assert(list@.subrange(k as int, k + sublist@.len() as int) =~= sublist@);
            }
            return true;
        }
        proof {
            let bad = choose|j: int| 0 <= j < sublist@.len()
                && list@[k + j] != sublist@[j];
            assert(list@.subrange(k as int, k + sublist@.len() as int)[bad] != sublist@[bad]);
        }
        k = k + 1;
    }
    false
}

} // verus!
