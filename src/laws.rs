use vstd::prelude::*;

use crate::class::ClassModel;
use crate::rule::{in_required, without_required, ParsedRule};

verus! {

/// Whether the elements of `sub` occur in `full` in the same relative order.
pub open spec fn is_subsequence(sub: Seq<ClassModel>, full: Seq<ClassModel>) -> bool {
    exists|idx: Seq<int>|
        #![trigger idx.len()]
        idx.len() == sub.len() && (forall|k: int|
            0 <= k < idx.len() ==> 0 <= #[trigger] idx[k] < full.len() && full[idx[k]] == sub[k])
            && (forall|k: int, l: int| 0 <= k < l < idx.len() ==> #[trigger] idx[k] < #[trigger] idx[l])
}

proof fn lemma_without_required_twice(allowed: Seq<ClassModel>, required: Seq<Seq<ClassModel>>)
    ensures
        without_required(without_required(allowed, required), required) == without_required(
            allowed,
            required,
        ),
    decreases allowed.len(),
{
    if allowed.len() > 0 {
        let rest = without_required(allowed.drop_last(), required);
        lemma_without_required_twice(allowed.drop_last(), required);
        if !in_required(required, allowed.last()) {
            let once = rest.push(allowed.last());
            assert(once.drop_last() =~= rest);
            assert(once.last() == allowed.last());
        }
    }
}

/// The positions in `allowed` of the classes that normalization keeps.
proof fn lemma_without_required_positions(
    allowed: Seq<ClassModel>,
    required: Seq<Seq<ClassModel>>,
) -> (idx: Seq<int>)
    ensures
        idx.len() == without_required(allowed, required).len(),
        forall|k: int|
            0 <= k < idx.len() ==> 0 <= #[trigger] idx[k] < allowed.len() && allowed[idx[k]]
                == without_required(allowed, required)[k],
        forall|k: int, l: int| 0 <= k < l < idx.len() ==> #[trigger] idx[k] < #[trigger] idx[l],
        forall|k: int|
            0 <= k < without_required(allowed, required).len() ==> !in_required(
                required,
                #[trigger] without_required(allowed, required)[k],
            ),
    decreases allowed.len(),
{
    if allowed.len() == 0 {
        Seq::empty()
    } else {
        let init = allowed.drop_last();
        let prev = lemma_without_required_positions(init, required);
        if in_required(required, allowed.last()) {
            prev
        } else {
            let idx = prev.push(allowed.len() - 1);
            let out = without_required(allowed, required);
            assert(out == without_required(init, required).push(allowed.last()));
            assert forall|k: int| 0 <= k < idx.len() implies 0 <= #[trigger] idx[k] < allowed.len()
                && allowed[idx[k]] == out[k] by {
                if k < prev.len() {
                    assert(idx[k] == prev[k]);
                    assert(init[prev[k]] == allowed[prev[k]]);
                }
            }
            assert forall|k: int, l: int| 0 <= k < l < idx.len() implies #[trigger] idx[k]
                < #[trigger] idx[l] by {
                if l < prev.len() {
                    assert(idx[k] == prev[k] && idx[l] == prev[l]);
                } else {
                    assert(idx[k] == prev[k]);
                }
            }
            assert forall|k: int| 0 <= k < out.len() implies !in_required(
                required,
                #[trigger] out[k],
            ) by {
                if k < prev.len() {
                    assert(out[k] == without_required(init, required)[k]);
                }
            }
            idx
        }
    }
}

/// Normalizing twice gives the same rule as normalizing once.
pub proof fn lemma_normalize_idempotent(r: ParsedRule)
    ensures
        r@.normalized().normalized() == r@.normalized(),
        r@.normalized().is_normalized(),
{
    lemma_without_required_twice(r@.allowed, r@.required);
}

/// The normalized `allowed` list is a subsequence of `allowed`, and none of
/// its classes occurs in a required group.
pub proof fn lemma_normalized_allowed_subsequence(r: ParsedRule)
    ensures
        is_subsequence(r@.normalized_allowed(), r@.allowed),
        forall|k: int|
            0 <= k < r@.normalized_allowed().len() ==> !in_required(
                r@.required,
                #[trigger] r@.normalized_allowed()[k],
            ),
{
    let idx = lemma_without_required_positions(r@.allowed, r@.required);
    assert(idx.len() == r@.normalized_allowed().len());
}

/// Every normalized rule is equivalent to itself.
pub proof fn lemma_equivalent_reflexive(r: ParsedRule)
    requires
        r@.is_normalized(),
    ensures
        r@.equivalent(r@),
{
}

/// Equivalence does not depend on which rule comes first.
pub proof fn lemma_equivalent_symmetric(a: ParsedRule, b: ParsedRule)
    ensures
        a@.equivalent(b@) == b@.equivalent(a@),
{
}

/// Reordering the required groups of a rule does not change whether it is
/// equivalent to another.
pub proof fn lemma_group_order_irrelevant(a: ParsedRule, reordered: ParsedRule, b: ParsedRule)
    requires
        reordered@.min_length == a@.min_length,
        reordered@.max_length == a@.max_length,
        reordered@.max_consecutive == a@.max_consecutive,
        reordered@.allowed == a@.allowed,
        reordered@.required.to_multiset() == a@.required.to_multiset(),
    ensures
        reordered@.equivalent(b@) == a@.equivalent(b@),
        b@.equivalent(reordered@) == b@.equivalent(a@),
{
    broadcast use vstd::seq_lib::group_to_multiset_ensures;

    let s1 = a@.required;
    let s2 = reordered@.required;
    assert forall|g: Seq<ClassModel>| s1.contains(g) <==> s2.contains(g) by {
        assert(s1.to_multiset().count(g) == s2.to_multiset().count(g));
    }
    let f = |g: Seq<ClassModel>| g.to_set();
    let m1 = s1.map_values(f);
    let m2 = s2.map_values(f);
    assert forall|x: Set<ClassModel>| m1.to_set().contains(x) implies m2.to_set().contains(x) by {
        let i = choose|i: int| 0 <= i < m1.len() && m1[i] == x;
        assert(s2.contains(s1[i]));
        let j = choose|j: int| 0 <= j < s2.len() && s2[j] == s1[i];
        assert(m2[j] == x);
    }
    assert forall|x: Set<ClassModel>| m2.to_set().contains(x) implies m1.to_set().contains(x) by {
        let i = choose|i: int| 0 <= i < m2.len() && m2[i] == x;
        assert(s1.contains(s2[i]));
        let j = choose|j: int| 0 <= j < s1.len() && s1[j] == s2[i];
        assert(m1[j] == x);
    }
    assert(m1.to_set() =~= m2.to_set());
}

/// Reordering the classes within one required group of a rule does not
/// change whether it is equivalent to another.
pub proof fn lemma_class_order_irrelevant(
    a: ParsedRule,
    reordered: ParsedRule,
    b: ParsedRule,
    g: int,
)
    requires
        0 <= g < a@.required.len(),
        reordered@.min_length == a@.min_length,
        reordered@.max_length == a@.max_length,
        reordered@.max_consecutive == a@.max_consecutive,
        reordered@.allowed == a@.allowed,
        reordered@.required.len() == a@.required.len(),
        forall|k: int| 0 <= k < a@.required.len() && k != g ==> #[trigger] reordered@.required[k] == a@.required[k],
        reordered@.required[g].to_multiset() == a@.required[g].to_multiset(),
    ensures
        reordered@.equivalent(b@) == a@.equivalent(b@),
        b@.equivalent(reordered@) == b@.equivalent(a@),
{
    broadcast use vstd::seq_lib::group_to_multiset_ensures;

    let p = reordered@.required[g];
    let q = a@.required[g];
    assert forall|c: ClassModel| p.to_set().contains(c) <==> q.to_set().contains(c) by {
        assert(p.to_multiset().count(c) == q.to_multiset().count(c));
    }
    assert(p.to_set() =~= q.to_set());
    let f = |x: Seq<ClassModel>| x.to_set();
    assert(reordered@.required.map_values(f) =~= a@.required.map_values(f));
}

/// Equivalence compares `allowed` as a sequence: a rule whose `allowed` list
/// is a different ordering of another's is never equivalent to the same rule
/// as that other one, nor to it.
pub proof fn lemma_allowed_order_matters(a: ParsedRule, reordered: ParsedRule, b: ParsedRule)
    requires
        reordered@.min_length == a@.min_length,
        reordered@.max_length == a@.max_length,
        reordered@.max_consecutive == a@.max_consecutive,
        reordered@.required == a@.required,
        reordered@.allowed.to_multiset() == a@.allowed.to_multiset(),
        reordered@.allowed != a@.allowed,
    ensures
        a@.equivalent(b@) ==> !reordered@.equivalent(b@),
        !a@.equivalent(reordered@),
{
}

} // verus!
