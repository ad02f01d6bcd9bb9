use vstd::prelude::*;

use crate::class::{classes_view, CharClass, ClassModel};

verus! {

/// A parsed password rule.
#[derive(Debug, Clone)]
pub struct ParsedRule {
    pub min_length: Option<u32>,
    pub max_length: Option<u32>,
    pub max_consecutive: Option<u32>,
    /// The characters permitted anywhere in the password, in display order.
    pub allowed: Vec<CharClass>,
    /// Alternative groups: the password holds at least one class of each group.
    pub required: Vec<Vec<CharClass>>,
}

/// The meaning of a parsed rule, with each class replaced by its meaning.
pub struct RuleModel {
    pub min_length: Option<u32>,
    pub max_length: Option<u32>,
    pub max_consecutive: Option<u32>,
    pub allowed: Seq<ClassModel>,
    pub required: Seq<Seq<ClassModel>>,
}

/// The meaning of a list of required groups, group by group.
pub open spec fn groups_view(v: Seq<Vec<CharClass>>) -> Seq<Seq<ClassModel>> {
    v.map_values(|g: Vec<CharClass>| classes_view(g@))
}

impl View for ParsedRule {
    type V = RuleModel;

    open spec fn view(&self) -> RuleModel {
        RuleModel {
            min_length: self.min_length,
            max_length: self.max_length,
            max_consecutive: self.max_consecutive,
            allowed: classes_view(self.allowed@),
            required: groups_view(self.required@),
        }
    }
}

/// Whether class `c` occurs in some group of `required`.
pub open spec fn in_required(required: Seq<Seq<ClassModel>>, c: ClassModel) -> bool {
    exists|i: int, j: int|
        0 <= i < required.len() && 0 <= j < required[i].len() && #[trigger] required[i][j] == c
}

/// The classes of `allowed` that occur in no group of `required`, in their
/// original order.
pub open spec fn without_required(
    allowed: Seq<ClassModel>,
    required: Seq<Seq<ClassModel>>,
) -> Seq<ClassModel>
    decreases allowed.len(),
{
    if allowed.len() == 0 {
        Seq::empty()
    } else {
        let rest = without_required(allowed.drop_last(), required);
        if in_required(required, allowed.last()) {
            rest
        } else {
            rest.push(allowed.last())
        }
    }
}

impl RuleModel {
    /// The `allowed` list with the classes that `required` already forces
    /// taken out.
    pub open spec fn normalized_allowed(self) -> Seq<ClassModel> {
        without_required(self.allowed, self.required)
    }

    /// The same rule with `allowed` normalized.
    pub open spec fn normalized(self) -> RuleModel {
        RuleModel { allowed: self.normalized_allowed(), ..self }
    }

    pub open spec fn is_normalized(self) -> bool {
        self.allowed == self.normalized_allowed()
    }

    /// The required groups as a set of sets of classes.
    pub open spec fn required_groups(self) -> Set<Set<ClassModel>> {
        self.required.map_values(|g: Seq<ClassModel>| g.to_set()).to_set()
    }

    /// Semantic equivalence of two (normalized) rules: equal bounds, equal
    /// `allowed` sequences, and equal required groups as sets of sets.
    pub open spec fn equivalent(self, other: RuleModel) -> bool {
        &&& self.min_length == other.min_length
        &&& self.max_length == other.max_length
        &&& self.max_consecutive == other.max_consecutive
        &&& self.allowed == other.allowed
        &&& self.required_groups() == other.required_groups()
    }
}

} // verus!
