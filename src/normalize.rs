use vstd::prelude::*;

use crate::class::{classes_view, CharClass};
use crate::rule::{groups_view, in_required, without_required, ParsedRule};

verus! {

/// Whether class `c` occurs in some group of `groups`.
pub fn required_contains(groups: &Vec<Vec<CharClass>>, c: &CharClass) -> (r: bool)
    ensures
        r == in_required(groups_view(groups@), c@),
{
    let ghost req = groups_view(groups@);
    let mut i: usize = 0;
    while i < groups.len()
        invariant
            i <= groups.len(),
            req == groups_view(groups@),
            forall|k: int, l: int|
                0 <= k < i && 0 <= l < req[k].len() ==> #[trigger] req[k][l] != c@,
        decreases groups.len() - i,
    {
        let group = &groups[i];
        assert(req[i as int] == classes_view(group@));
        let mut j: usize = 0;
        while j < group.len()
            invariant
                i < groups.len(),
                j <= group.len(),
                group == &groups[i as int],
                req == groups_view(groups@),
                req[i as int] == classes_view(group@),
                forall|l: int| 0 <= l < j ==> #[trigger] req[i as int][l] != c@,
            decreases group.len() - j,
        {
            if group[j].same_class(c) {
                assert(req[i as int][j as int] == c@);
                return true;
            }
            j += 1;
        }
        i += 1;
    }
    false
}

/// The classes of `rule.allowed` that occur in no required group, in their
/// original order. Listing a required class as allowed too is redundant.
pub fn normalize_allowed(rule: &ParsedRule) -> (r: Vec<CharClass>)
    ensures
        classes_view(r@) == rule@.normalized_allowed(),
{
    let ghost allowed = classes_view(rule.allowed@);
    let ghost req = groups_view(rule.required@);
    let mut out: Vec<CharClass> = Vec::new();
    let mut i: usize = 0;
    while i < rule.allowed.len()
        invariant
            i <= rule.allowed.len(),
            allowed == classes_view(rule.allowed@),
            req == groups_view(rule.required@),
            classes_view(out@) == without_required(allowed.subrange(0, i as int), req),
        decreases rule.allowed.len() - i,
    {
        let c = &rule.allowed[i];
        let ghost before = out@;
        let keep = !required_contains(&rule.required, c);
        assert(allowed.subrange(0, i + 1).drop_last() =~= allowed.subrange(0, i as int));
        assert(allowed.subrange(0, i + 1).last() == c@);
        if keep {
            out.push(c.duplicate());
            assert(classes_view(out@) =~= classes_view(before).push(c@));
        }
        i += 1;
    }
    assert(allowed.subrange(0, rule.allowed.len() as int) =~= allowed);
    out
}

/// The rule with its `allowed` list normalized; the other fields are kept.
pub fn normalize(rule: ParsedRule) -> (r: ParsedRule)
    ensures
        r@ == rule@.normalized(),
{
    let allowed = normalize_allowed(&rule);
    ParsedRule { allowed, ..rule }
}

} // verus!
