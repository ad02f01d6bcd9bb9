use vstd::prelude::*;

use crate::class::{classes_view, CharClass, ClassModel};
use crate::rule::{groups_view, ParsedRule, RuleModel};

verus! {

/// The first check on which two rules differ. Group positions index the
/// `required` list of the rule named.
#[derive(Debug, Clone, Copy, PartialEq, Eq, Structural)]
pub enum Mismatch {
    MinLength(Option<u32>, Option<u32>),
    MaxLength(Option<u32>, Option<u32>),
    MaxConsecutive(Option<u32>, Option<u32>),
    /// The normalized `allowed` sequences differ.
    Allowed,
    /// This group of the first rule matches no group of the second.
    RequiredOnlyInFirst(usize),
    /// This group of the second rule matches no group of the first.
    RequiredOnlyInSecond(usize),
}

/// Whether some group of `groups` holds exactly the classes of `g`.
pub open spec fn group_listed(groups: Seq<Seq<ClassModel>>, g: Set<ClassModel>) -> bool {
    exists|k: int| 0 <= k < groups.len() && #[trigger] groups[k].to_set() == g
}

/// Whether every group of `from` is listed in `into`.
pub open spec fn all_listed(from: Seq<Seq<ClassModel>>, into: Seq<Seq<ClassModel>>) -> bool {
    forall|i: int| 0 <= i < from.len() ==> group_listed(into, #[trigger] from[i].to_set())
}

/// Whether group `i` of `from` is the first that is not listed in `into`.
pub open spec fn first_unlisted(
    from: Seq<Seq<ClassModel>>,
    into: Seq<Seq<ClassModel>>,
    i: int,
) -> bool {
    &&& 0 <= i < from.len()
    &&& !group_listed(into, from[i].to_set())
    &&& forall|k: int| 0 <= k < i ==> group_listed(into, #[trigger] from[k].to_set())
}

/// Which of the five checks fails first on `a` and `b`, if any.
pub open spec fn mismatch_spec(a: RuleModel, b: RuleModel, m: Mismatch) -> bool {
    match m {
        Mismatch::MinLength(x, y) => x == a.min_length && y == b.min_length && x != y,
        Mismatch::MaxLength(x, y) => {
            &&& a.min_length == b.min_length
            &&& x == a.max_length && y == b.max_length && x != y
        },
        Mismatch::MaxConsecutive(x, y) => {
            &&& a.min_length == b.min_length
            &&& a.max_length == b.max_length
            &&& x == a.max_consecutive && y == b.max_consecutive && x != y
        },
        Mismatch::Allowed => {
            &&& a.min_length == b.min_length
            &&& a.max_length == b.max_length
            &&& a.max_consecutive == b.max_consecutive
            &&& a.allowed != b.allowed
        },
        Mismatch::RequiredOnlyInFirst(i) => {
            &&& a.min_length == b.min_length
            &&& a.max_length == b.max_length
            &&& a.max_consecutive == b.max_consecutive
            &&& a.allowed == b.allowed
            &&& first_unlisted(a.required, b.required, i as int)
        },
        Mismatch::RequiredOnlyInSecond(j) => {
            &&& a.min_length == b.min_length
            &&& a.max_length == b.max_length
            &&& a.max_consecutive == b.max_consecutive
            &&& a.allowed == b.allowed
            &&& all_listed(a.required, b.required)
            &&& first_unlisted(b.required, a.required, j as int)
        },
    }
}

/// Two lists of required groups are equal as sets of sets exactly when each
/// lists every group of the other.
pub proof fn lemma_groups_equal_iff_listed(a: RuleModel, b: RuleModel)
    ensures
        (a.required_groups() == b.required_groups()) == (all_listed(a.required, b.required)
            && all_listed(b.required, a.required)),
{
    let ga = a.required.map_values(|g: Seq<ClassModel>| g.to_set());
    let gb = b.required.map_values(|g: Seq<ClassModel>| g.to_set());
    if all_listed(a.required, b.required) && all_listed(b.required, a.required) {
        assert forall|s: Set<ClassModel>| ga.to_set().contains(s) implies gb.to_set().contains(s) by {
            let i = choose|i: int| 0 <= i < ga.len() && ga[i] == s;
            assert(group_listed(b.required, a.required[i].to_set()));
            let k = choose|k: int| 0 <= k < b.required.len() && #[trigger] b.required[k].to_set() == s;
            assert(gb[k] == s);
        }
        assert forall|s: Set<ClassModel>| gb.to_set().contains(s) implies ga.to_set().contains(s) by {
            let i = choose|i: int| 0 <= i < gb.len() && gb[i] == s;
            assert(group_listed(a.required, b.required[i].to_set()));
            let k = choose|k: int| 0 <= k < a.required.len() && #[trigger] a.required[k].to_set() == s;
            assert(ga[k] == s);
        }
        assert(ga.to_set() =~= gb.to_set());
    }
    if a.required_groups() == b.required_groups() {
        assert forall|i: int| 0 <= i < a.required.len() implies group_listed(
            b.required,
            #[trigger] a.required[i].to_set(),
        ) by {
            assert(ga[i] == a.required[i].to_set());
            assert(ga.to_set().contains(ga[i]));
            let k = choose|k: int| 0 <= k < gb.len() && gb[k] == ga[i];
            assert(b.required[k].to_set() == gb[k]);
        }
        assert forall|i: int| 0 <= i < b.required.len() implies group_listed(
            a.required,
            #[trigger] b.required[i].to_set(),
        ) by {
            assert(gb[i] == b.required[i].to_set());
            assert(gb.to_set().contains(gb[i]));
            let k = choose|k: int| 0 <= k < ga.len() && ga[k] == gb[i];
            assert(a.required[k].to_set() == ga[k]);
        }
    }
}

fn same_bound(a: Option<u32>, b: Option<u32>) -> (r: bool)
    ensures
        r == (a == b),
{
    match (a, b) {
        (None, None) => true,
        (Some(x), Some(y)) => x == y,
        _ => false,
    }
}

/// Whether `list` holds a class equal to `c`.
fn list_contains(list: &Vec<CharClass>, c: &CharClass) -> (r: bool)
    ensures
        r == classes_view(list@).contains(c@),
{
    let ghost m = classes_view(list@);
    let mut i: usize = 0;
    while i < list.len()
        invariant
            i <= list.len(),
            m == classes_view(list@),
            forall|k: int| 0 <= k < i ==> #[trigger] m[k] != c@,
        decreases list.len() - i,
    {
        if list[i].same_class(c) {
            assert(m[i as int] == c@);
            return true;
        }
        i += 1;
    }
    false
}

/// Whether every class of `a` occurs in `b`.
fn classes_within(a: &Vec<CharClass>, b: &Vec<CharClass>) -> (r: bool)
    ensures
        r == classes_view(a@).to_set().subset_of(classes_view(b@).to_set()),
{
    let ghost ma = classes_view(a@);
    let ghost mb = classes_view(b@);
    let mut i: usize = 0;
    while i < a.len()
        invariant
            i <= a.len(),
            ma == classes_view(a@),
            mb == classes_view(b@),
            forall|k: int| 0 <= k < i ==> mb.contains(#[trigger] ma[k]),
        decreases a.len() - i,
    {
        if !list_contains(b, &a[i]) {
            assert(ma.to_set().contains(ma[i as int]));
            return false;
        }
        i += 1;
    }
    assert forall|x: ClassModel| ma.to_set().contains(x) implies mb.to_set().contains(x) by {
        let k = choose|k: int| 0 <= k < ma.len() && ma[k] == x;
        assert(mb.contains(ma[k]));
    }
    true
}

/// Whether two groups hold the same classes, in any order.
pub fn same_group(a: &Vec<CharClass>, b: &Vec<CharClass>) -> (r: bool)
    ensures
        r == (classes_view(a@).to_set() == classes_view(b@).to_set()),
{
    let r = classes_within(a, b) && classes_within(b, a);
    if r {
        assert(classes_view(a@).to_set() =~= classes_view(b@).to_set());
    }
    r
}

/// Whether two class lists are equal element by element.
pub(crate) fn same_sequence(a: &Vec<CharClass>, b: &Vec<CharClass>) -> (r: bool)
    ensures
        r == (classes_view(a@) == classes_view(b@)),
{
    if a.len() != b.len() {
        assert(classes_view(a@).len() != classes_view(b@).len());
        return false;
    }
    let mut i: usize = 0;
    while i < a.len()
        invariant
            i <= a.len(),
            a.len() == b.len(),
            forall|k: int| 0 <= k < i ==> #[trigger] classes_view(a@)[k] == classes_view(b@)[k],
        decreases a.len() - i,
    {
        if !a[i].same_class(&b[i]) {
            assert(classes_view(a@)[i as int] != classes_view(b@)[i as int]);
            return false;
        }
        i += 1;
    }
    assert(classes_view(a@) =~= classes_view(b@));
    true
}

/// Whether some group of `groups` holds the same classes as `g`.
fn group_listed_in(groups: &Vec<Vec<CharClass>>, g: &Vec<CharClass>) -> (r: bool)
    ensures
        r == group_listed(groups_view(groups@), classes_view(g@).to_set()),
{
    let ghost req = groups_view(groups@);
    let mut i: usize = 0;
    while i < groups.len()
        invariant
            i <= groups.len(),
            req == groups_view(groups@),
            forall|k: int| 0 <= k < i ==> #[trigger] req[k].to_set() != classes_view(g@).to_set(),
        decreases groups.len() - i,
    {
        if same_group(&groups[i], g) {
            assert(req[i as int].to_set() == classes_view(g@).to_set());
            return true;
        }
        i += 1;
    }
    false
}

/// The position of the first group of `from` that `into` does not list.
fn find_unlisted(from: &Vec<Vec<CharClass>>, into: &Vec<Vec<CharClass>>) -> (r: Option<usize>)
    ensures
        r is None <==> all_listed(groups_view(from@), groups_view(into@)),
        r matches Some(i) ==> first_unlisted(groups_view(from@), groups_view(into@), i as int),
{
    let ghost f = groups_view(from@);
    let ghost t = groups_view(into@);
    let mut i: usize = 0;
    while i < from.len()
        invariant
            i <= from.len(),
            f == groups_view(from@),
            t == groups_view(into@),
            forall|k: int| 0 <= k < i ==> group_listed(t, #[trigger] f[k].to_set()),
        decreases from.len() - i,
    {
        assert(f[i as int] == classes_view(from@[i as int]@));
        if !group_listed_in(into, &from[i]) {
            return Some(i);
        }
        i += 1;
    }
    None
}

/// Compares two normalized rules check by check and reports the first
/// difference: bounds, then `allowed` as a sequence, then `required` as a set
/// of sets of classes.
pub fn check_equivalent(a: &ParsedRule, b: &ParsedRule) -> (r: Result<(), Mismatch>)
    ensures
        r is Ok <==> a@.equivalent(b@),
        r matches Err(m) ==> mismatch_spec(a@, b@, m),
{
    proof {
        lemma_groups_equal_iff_listed(a@, b@);
    }
    if !same_bound(a.min_length, b.min_length) {
        return Err(Mismatch::MinLength(a.min_length, b.min_length));
    }
    if !same_bound(a.max_length, b.max_length) {
        return Err(Mismatch::MaxLength(a.max_length, b.max_length));
    }
    if !same_bound(a.max_consecutive, b.max_consecutive) {
        return Err(Mismatch::MaxConsecutive(a.max_consecutive, b.max_consecutive));
    }
    if !same_sequence(&a.allowed, &b.allowed) {
        return Err(Mismatch::Allowed);
    }
    match find_unlisted(&a.required, &b.required) {
        Some(i) => {
            return Err(Mismatch::RequiredOnlyInFirst(i));
        },
        None => {},
    }
    match find_unlisted(&b.required, &a.required) {
        Some(j) => Err(Mismatch::RequiredOnlyInSecond(j)),
        None => Ok(()),
    }
}

/// Whether two normalized rules denote the same policy.
pub fn are_equivalent(a: &ParsedRule, b: &ParsedRule) -> (r: bool)
    ensures
        r == a@.equivalent(b@),
{
    check_equivalent(a, b).is_ok()
}

} // verus!
