use vstd::prelude::*;

use password_rules_parser::error::PasswordRulesError;

use crate::class::{classes_view, CharClass};
use crate::equivalence::{check_equivalent, mismatch_spec, same_sequence, Mismatch};
use crate::normalize::{normalize, normalize_allowed};
use crate::parse::{parse_outcome, parse_rule};

verus! {

/// One site of a rule file and its raw rule string.
#[derive(Debug, Clone)]
pub struct RuleEntry {
    pub site: String,
    pub raw_rule: String,
}

/// What bulk validation found for one site.
#[derive(Debug)]
pub enum SiteReport {
    /// The rule parsed and its `allowed` list is already minimal.
    Minimal,
    /// The rule parsed and its `allowed` list can be shortened to this one.
    Shortenable(Vec<CharClass>),
    /// The rule did not parse; the error can render a diagnostic.
    Unparsable(PasswordRulesError),
}

/// The outcome of bulk validation: one report per site, in input order, and
/// the number of rules that failed to parse.
#[derive(Debug)]
pub struct ValidationReport {
    pub sites: Vec<SiteReport>,
    pub failed: usize,
}

/// Why a diff of two rule files stopped.
#[derive(Debug)]
pub enum DiffError {
    /// The two files hold different numbers of sites (primary, secondary).
    CountMismatch(usize, usize),
    /// The primary site at this position is missing from the secondary file.
    MissingSite(usize),
    /// The rule of the primary site at this position does not parse.
    PrimaryUnparsable(usize, PasswordRulesError),
    /// The secondary rule for the primary site at this position does not parse.
    SecondaryUnparsable(usize, PasswordRulesError),
    /// The two rules for the primary site at this position differ.
    NotEquivalent(usize, Mismatch),
}

/// What validation reports for a rule string.
pub open spec fn site_report_spec(raw: Seq<char>, rep: SiteReport) -> bool {
    match parse_outcome(raw) {
        Some(m) => if m.is_normalized() {
            rep is Minimal
        } else {
            rep matches SiteReport::Shortenable(v) && classes_view(v@) == m.normalized_allowed()
        },
        None => rep is Unparsable,
    }
}

/// The number of entries whose rule does not parse.
pub open spec fn unparsable_count(entries: Seq<RuleEntry>) -> nat
    decreases entries.len(),
{
    if entries.len() == 0 {
        0
    } else {
        unparsable_count(entries.drop_last()) + if parse_outcome(entries.last().raw_rule@) is None {
            1nat
        } else {
            0nat
        }
    }
}

/// Whether `j` is the first entry of `entries` for `site`.
pub open spec fn first_for_site(entries: Seq<RuleEntry>, site: Seq<char>, j: int) -> bool {
    &&& 0 <= j < entries.len()
    &&& entries[j].site@ == site
    &&& forall|k: int| 0 <= k < j ==> #[trigger] entries[k].site@ != site
}

/// The position of the first entry for `site`, if there is one.
pub open spec fn lookup(entries: Seq<RuleEntry>, site: Seq<char>) -> Option<int> {
    if exists|j: int| first_for_site(entries, site, j) {
        Some(choose|j: int| first_for_site(entries, site, j))
    } else {
        None
    }
}

/// Whether primary site `i` is found in `secondary`, both rules parse, and
/// they are equivalent once normalized.
pub open spec fn site_passes(primary: Seq<RuleEntry>, secondary: Seq<RuleEntry>, i: int) -> bool {
    match lookup(secondary, primary[i].site@) {
        Some(j) => match (parse_outcome(primary[i].raw_rule@), parse_outcome(secondary[j].raw_rule@)) {
            (Some(a), Some(b)) => a.normalized().equivalent(b.normalized()),
            _ => false,
        },
        None => false,
    }
}

/// Whether `e` is the error that the diff reports for primary site `i`.
pub open spec fn site_error_spec(primary: Seq<RuleEntry>, secondary: Seq<RuleEntry>, i: int, e: DiffError) -> bool {
    match lookup(secondary, primary[i].site@) {
        None => e == DiffError::MissingSite(i as usize),
        Some(j) => match (parse_outcome(primary[i].raw_rule@), parse_outcome(secondary[j].raw_rule@)) {
            (None, _) => e matches DiffError::PrimaryUnparsable(k, _) && k == i,
            (Some(_), None) => e matches DiffError::SecondaryUnparsable(k, _) && k == i,
            (Some(a), Some(b)) => e matches DiffError::NotEquivalent(k, m) && k == i
                && mismatch_spec(a.normalized(), b.normalized(), m),
        },
    }
}

/// The position of the first entry for `site`.
pub fn find_site(entries: &Vec<RuleEntry>, site: &String) -> (r: Option<usize>)
    ensures
        r matches Some(j) ==> lookup(entries@, site@) == Some(j as int),
        r is None ==> lookup(entries@, site@) is None,
{
    let mut j: usize = 0;
    while j < entries.len()
        invariant
            j <= entries.len(),
            forall|k: int| 0 <= k < j ==> #[trigger] entries@[k].site@ != site@,
        decreases entries.len() - j,
    {
        if entries[j].site == *site {
            assert(first_for_site(entries@, site@, j as int));
            assert forall|l: int| first_for_site(entries@, site@, l) implies l == j by {
                if l < j {
                    assert(entries@[l].site@ != site@);
                } else if l > j {
                    assert(entries@[j as int].site@ != site@);
                }
            }
            return Some(j);
        }
        j += 1;
    }
    None
}

/// Parses every rule, reports for each site whether its `allowed` list can
/// be shortened, and counts the rules that fail to parse. A failure does not
/// stop the sites after it.
pub fn validate_rules(entries: &Vec<RuleEntry>) -> (r: ValidationReport)
    ensures
        r.sites.len() == entries.len(),
        forall|i: int| 0 <= i < entries.len() ==> site_report_spec(entries@[i].raw_rule@, #[trigger] r.sites@[i]),
        r.failed == unparsable_count(entries@),
{
    let mut sites: Vec<SiteReport> = Vec::new();
    let mut failed: usize = 0;
    let mut i: usize = 0;
    while i < entries.len()
        invariant
            i <= entries.len(),
            sites.len() == i,
            failed <= i,
            forall|k: int| 0 <= k < i ==> site_report_spec(entries@[k].raw_rule@, #[trigger] sites@[k]),
            failed == unparsable_count(entries@.subrange(0, i as int)),
        decreases entries.len() - i,
    {
        assert(entries@.subrange(0, i + 1).drop_last() =~= entries@.subrange(0, i as int));
        let report = match parse_rule(entries[i].raw_rule.as_str()) {
            Ok(rule) => {
                let shortened = normalize_allowed(&rule);
                if same_sequence(&rule.allowed, &shortened) {
                    SiteReport::Minimal
                } else {
                    SiteReport::Shortenable(shortened)
                }
            },
            Err(e) => {
                failed += 1;
                SiteReport::Unparsable(e)
            },
        };
        sites.push(report);
        i += 1;
    }
    assert(entries@.subrange(0, entries.len() as int) =~= entries@);
    ValidationReport { sites, failed }
}

/// Checks that `secondary` holds an equivalent rule for every site of
/// `primary`. Fails at once when the site counts differ; otherwise stops at
/// the first site that is missing, does not parse, or differs.
pub fn diff_rule_sets(primary: &Vec<RuleEntry>, secondary: &Vec<RuleEntry>) -> (r: Result<(), DiffError>)
    ensures
        r is Ok <==> primary.len() == secondary.len()
            && forall|i: int| 0 <= i < primary.len() ==> #[trigger] site_passes(primary@, secondary@, i),
        primary.len() != secondary.len() ==> (r matches Err(DiffError::CountMismatch(x, y))
            && x == primary.len() && y == secondary.len()),
        r matches Err(e) ==> e is CountMismatch || exists|i: int|
            0 <= i < primary.len()
            && (forall|k: int| 0 <= k < i ==> #[trigger] site_passes(primary@, secondary@, k))
            && site_error_spec(primary@, secondary@, i, e),
{
    if primary.len() != secondary.len() {
        return Err(DiffError::CountMismatch(primary.len(), secondary.len()));
    }
    let mut i: usize = 0;
    while i < primary.len()
        invariant
            i <= primary.len(),
            primary.len() == secondary.len(),
            forall|k: int| 0 <= k < i ==> #[trigger] site_passes(primary@, secondary@, k),
        decreases primary.len() - i,
    {
        let entry = &primary[i];
        assert(entry.raw_rule@ == primary@[i as int].raw_rule@);
        let j = match find_site(secondary, &entry.site) {
            Some(j) => j,
            None => {
                let e = DiffError::MissingSite(i);
                assert(site_error_spec(primary@, secondary@, i as int, e));
                assert(!site_passes(primary@, secondary@, i as int));
                return Err(e);
            },
        };
        let first = match parse_rule(entry.raw_rule.as_str()) {
            Ok(rule) => rule,
            Err(err) => {
                let e = DiffError::PrimaryUnparsable(i, err);
                assert(site_error_spec(primary@, secondary@, i as int, e));
                assert(!site_passes(primary@, secondary@, i as int));
                return Err(e);
            },
        };
        let second = match parse_rule(secondary[j].raw_rule.as_str()) {
            Ok(rule) => rule,
            Err(err) => {
                let e = DiffError::SecondaryUnparsable(i, err);
                assert(site_error_spec(primary@, secondary@, i as int, e));
                assert(!site_passes(primary@, secondary@, i as int));
                return Err(e);
            },
        };
        let first = normalize(first);
        let second = normalize(second);
        match check_equivalent(&first, &second) {
            Ok(()) => {},
            Err(m) => {
                let e = DiffError::NotEquivalent(i, m);
                assert(site_error_spec(primary@, secondary@, i as int, e));
                assert(!site_passes(primary@, secondary@, i as int));
                return Err(e);
            },
        }
        assert(site_passes(primary@, secondary@, i as int));
        i += 1;
    }
    Ok(())
}

} // verus!
