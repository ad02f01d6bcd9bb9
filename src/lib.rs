//! Normalization and semantic comparison of password composition rules.

mod class;
mod equivalence;
mod flows;
mod laws;
mod normalize;
mod parse;
mod rule;

pub use class::{classes_view, CharClass, ClassModel};
pub use equivalence::{
    all_listed, are_equivalent, check_equivalent, first_unlisted, group_listed,
    lemma_groups_equal_iff_listed, mismatch_spec, same_group, Mismatch,
};
pub use flows::{
    diff_rule_sets, find_site, first_for_site, lookup, site_error_spec, site_passes,
    site_report_spec, unparsable_count, validate_rules, DiffError, RuleEntry, SiteReport,
    ValidationReport,
};
pub use laws::{
    is_subsequence, lemma_allowed_order_matters, lemma_class_order_irrelevant,
    lemma_equivalent_reflexive, lemma_equivalent_symmetric, lemma_group_order_irrelevant,
    lemma_normalize_idempotent, lemma_normalized_allowed_subsequence,
};
pub use normalize::{normalize, normalize_allowed, required_contains};
pub use parse::parse_outcome;
pub use rule::{groups_view, in_required, without_required, ParsedRule, RuleModel};
