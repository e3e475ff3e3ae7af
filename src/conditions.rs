//! The list of selectable conditions.

use vstd::prelude::*;
use itertools::Itertools;
use crate::axis::{contains_label, labels};
use crate::visibility::{all_label, is_all};

verus! {

/// The distinct labels of `s`, each at its first occurrence, in order.
pub open spec fn dedup(s: Seq<Seq<char>>) -> Seq<Seq<char>>
    decreases s.len(),
{
    if s.len() == 0 {
        s
    } else {
        let d = dedup(s.drop_last());
        if d.contains(s.last()) {
            d
        } else {
            d.push(s.last())
        }
    }
}

/// The labels of the tagged entries, in order.
pub open spec fn tagged(s: Seq<Option<String>>) -> Seq<Seq<char>>
    decreases s.len(),
{
    if s.len() == 0 {
        Seq::empty()
    } else {
        let p = tagged(s.drop_last());
        match s.last() {
            Some(c) => p.push(c@),
            None => p,
        }
    }
}

/// Relies on itertools::Itertools::unique, which yields each distinct item
/// once, at its first occurrence, in the order of the input.
#[verifier::external_body]
fn unique_labels(v: Vec<String>) -> (r: Vec<String>)
    ensures
        labels(r@) == dedup(labels(v@)),
{
    v.into_iter().unique().collect()
}

/// The condition list offered for selection: the known labels, then the
/// sentinel unless one of them already is it.
pub open spec fn offered(u: Seq<Seq<char>>) -> Seq<Seq<char>> {
    if u.contains(all_label()) {
        u
    } else {
        u.push(all_label())
    }
}

/// Whether some label of `u` is not yet offered in `known`.
pub open spec fn has_new_label(u: Seq<Seq<char>>, known: Seq<Seq<char>>) -> bool {
    exists|i: int| 0 <= i < u.len() && !known.contains(#[trigger] u[i])
}

/// Refreshes the selectable conditions from the condition labels of the
/// present bindings (`found`, one entry per binding). When some label is not
/// yet offered, the list becomes the distinct labels in order of first
/// appearance, followed by the sentinel; an empty selection then falls to
/// the first of them. Otherwise nothing changes.
pub fn fill_conditions(condition: &mut String, conditions: &mut Vec<String>, found: &Vec<Option<String>>)
    ensures
        ({
            let u = dedup(tagged(found@));
            if has_new_label(u, labels(old(conditions)@)) {
                &&& labels(final(conditions)@) == offered(u)
                &&& final(condition)@ == if old(condition)@.len() == 0 {
                    offered(u)[0]
                } else {
                    old(condition)@
                }
            } else {
                &&& final(conditions)@ == old(conditions)@
                &&& final(condition)@ == old(condition)@
            }
        }),
{
    let mut present: Vec<String> = Vec::new();
    let mut i: usize = 0;
    while i < found.len()
        invariant
            0 <= i <= found@.len(),
            labels(present@) == tagged(found@.take(i as int)),
        decreases found@.len() - i,
    {
        proof {
            assert(found@.take(i as int + 1).drop_last() =~= found@.take(i as int));
        }
        match &found[i] {
            Some(c) => {
                let ghost before = present@;
                present.push(c.clone());
                proof {
                    assert(labels(present@) =~= labels(before).push(c@));
                }
            },
            None => {},
        }
        i += 1;
    }
    proof {
        assert(found@.take(found@.len() as int) =~= found@);
    }
    let mut u = unique_labels(present);
    let ghost uv = labels(u@);
    let mut fresh = false;
    let mut has_all = false;
    let mut j: usize = 0;
    while j < u.len()
        invariant
            0 <= j <= u@.len(),
            uv == labels(u@),
            labels(conditions@) == labels(old(conditions)@),
            fresh == exists|k: int| 0 <= k < j && !labels(conditions@).contains(#[trigger] uv[k]),
            has_all == exists|k: int| 0 <= k < j && #[trigger] uv[k] == all_label(),
        decreases u@.len() - j,
    {
        let ghost lc = labels(conditions@);
        if !contains_label(conditions, &u[j]) {
            fresh = true;
        }
        if is_all(&u[j]) {
            has_all = true;
        }
        proof {
            assert(fresh == exists|k: int| 0 <= k < j + 1 && !lc.contains(#[trigger] uv[k])) by {
                if !lc.contains(uv[j as int]) {
                    assert(0 <= j < j + 1);
                }
            }
            assert(has_all == exists|k: int| 0 <= k < j + 1 && #[trigger] uv[k] == all_label()) by {
                if uv[j as int] == all_label() {
                    assert(0 <= j < j + 1);
                }
            }
        }
        j += 1;
    }
    if fresh {
        proof {
            assert(has_all == uv.contains(all_label()));
        }
        if !has_all {
            let all = "ALL".to_owned();
            proof {
                reveal_strlit("ALL");
                assert(all@ =~= all_label());
            }
            u.push(all);
            proof {
                assert(labels(u@) =~= uv.push(all_label()));
            }
        }
        assert(labels(u@) == offered(uv));
        assert(u@.len() > 0);
        let first = u[0].clone();
        *conditions = u;
        if condition.as_str().is_empty() {
            *condition = first;
        }
    }
}

} // verus!
