//! Applicability rules and their evaluation against one identifier.
use vstd::prelude::*;

verus! {

/// The views of a list of identifiers, as sequences of characters.
pub open spec fn id_views(ids: Seq<String>) -> Seq<Seq<char>> {
    ids.map_values(|s: String| s@)
}

/// Whether `id` is among `ids`.
pub open spec fn has_id(ids: Seq<String>, id: Seq<char>) -> bool {
    exists|i: int| 0 <= i < ids.len() && #[trigger] ids[i]@ == id
}

/// Returns whether `id` is one of `ids`.
pub fn contains_id(ids: &Vec<String>, id: &String) -> (r: bool)
    ensures
        r == has_id(ids@, id@),
{
    let mut i: usize = 0;
    while i < ids.len()
        invariant
            i <= ids.len(),
            forall|k: int| 0 <= k < i ==> ids@[k]@ != id@,
        decreases ids.len() - i,
    {
        if ids[i] == *id {
            return true;
        }
        i = i + 1;
    }
    false
}

/// An applicability rule: which identifiers of one dimension (years, forms
/// or genders) something is offered to.
pub enum ApplicabilityRules {
    /// Every identifier.
    All,
    /// No identifier (written `none` in the configuration document).
    Disabled,
    /// Only the listed identifiers.
    Include { ids: Vec<String> },
    /// Every identifier but the listed ones.
    Exclude { ids: Vec<String> },
}

impl ApplicabilityRules {
    /// Whether the rule accepts the candidate identifier `id`.
    pub open spec fn accepts(&self, id: Seq<char>) -> bool {
        match self {
            ApplicabilityRules::All => true,
            ApplicabilityRules::Disabled => false,
            ApplicabilityRules::Include { ids } => has_id(ids@, id),
            ApplicabilityRules::Exclude { ids } => !has_id(ids@, id),
        }
    }

    /// Evaluates the rule against one candidate identifier.
    pub fn evaluate(&self, candidate_id: &str) -> (r: bool)
        ensures
            r == self.accepts(candidate_id@),
    {
        match self {
            ApplicabilityRules::All => true,
            ApplicabilityRules::Disabled => false,
            ApplicabilityRules::Include { ids } => contains_id(ids, &candidate_id.to_owned()),
            ApplicabilityRules::Exclude { ids } => !contains_id(ids, &candidate_id.to_owned()),
        }
    }
}

} // verus!
