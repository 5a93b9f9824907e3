//! Point updates to the stored peer hashes: a verified notification says
//! "hash `old` became hash `new`", and the first stored occurrence of `old`
//! is replaced by `new` in place, keeping the stored order.  A pair whose old
//! hash is not stored is a silent no-op.

use crate::vote::first_index;
use crate::vote::lemma_first_index;
use vstd::prelude::*;
use vstd::pervasive::VecAdditionalExecFns;

verus! {

/// One change pair applied to a hash sequence: the first occurrence of
/// `old_h`, if any, is replaced in place by `new_h`.
pub open spec fn apply_change(
    others: Seq<Seq<char>>,
    old_h: Seq<char>,
    new_h: Seq<char>,
) -> Seq<Seq<char>> {
    if others.contains(old_h) {
        others.update(first_index(others, old_h), new_h)
    } else {
        others
    }
}

/// A batch of change pairs applied in the given order.
pub open spec fn apply_changes(
    others: Seq<Seq<char>>,
    changes: Seq<(Seq<char>, Seq<char>)>,
) -> Seq<Seq<char>>
    decreases changes.len(),
{
    if changes.len() == 0 {
        others
    } else {
        apply_changes(apply_change(others, changes[0].0, changes[0].1), changes.drop_first())
    }
}

/// The view of a batch of change pairs.
pub open spec fn change_pairs(changes: Seq<(String, String)>) -> Seq<(Seq<char>, Seq<char>)> {
    changes.map_values(|p: (String, String)| (p.0@, p.1@))
}

/// Replaces the first occurrence of `old_h` in `v`, if any, by `new_h`.
pub(crate) fn replace_first(v: &mut Vec<String>, old_h: &String, new_h: String)
    ensures
        final (v).deep_view() == apply_change(old(v).deep_view(), old_h@, new_h@),
{
    let m = v.len();
    let mut j: usize = 0;
    while j < m
        invariant
            j <= m,
            m == v@.len(),
            v@ == old(v)@,
            forall|t: int| 0 <= t < j ==> v.deep_view()[t] != old_h@,
        decreases m - j,
    {
        proof {
            assert(v.deep_view()[j as int] == v@[j as int]@);
        }
        if v[j].eq(old_h) {
            proof {
                lemma_first_index(v.deep_view(), old_h@, j as int);
                assert(v.deep_view().contains(old_h@));
            }
            let ghost before = v.deep_view();
            v.set(j, new_h);
            proof {
                assert(v.deep_view() =~= before.update(j as int, new_h@));
            }
            return ;
        }
        j = j + 1;
    }
    proof {
        assert(!v.deep_view().contains(old_h@)) by {
            if v.deep_view().contains(old_h@) {
                let t = choose|t: int|
                    0 <= t < v.deep_view().len() && v.deep_view()[t] == old_h@;
                assert(v.deep_view()[t] != old_h@);
            }
        }
    }
}

} // verus!
