//! Bounded approximate-search requests and outcomes.

use vstd::prelude::*;

use super::error::{plain_error, Error, ErrorKind, Result};
use super::number::{all_finite, vector_is_finite, Float32, Float64};
use super::record::{valid_id, validate_id};
use super::redaction::{append_optional, optional_number};
use super::schema::{canonicalized, schema_view, valid_predicate, FieldSchema, Predicate};

verus! {

/// The most hits one Search requests.
pub const MAX_K: usize = 65_536;

/// The scanned Tree Key hard cap.
pub const MAX_SCANNED_TREE_KEYS: u32 = 65_536;

/// The visited partition hard cap.
pub const MAX_VISITED_PARTITIONS: u32 = 16_384;

/// The visited Leaf Entry hard cap.
pub const MAX_VISITED_LEAF_ENTRIES: u32 = 1_048_576;

/// The exact-rerank candidate hard cap.
pub const MAX_EXACT_RERANK_CANDIDATES: u32 = 65_536;

/// The leaf-level base beam hard cap. The beam counts partitions, so a wider
/// one is bound to exhaust the visited partition budget instead.
pub const MAX_LEAF_BEAM_SIZE: u32 = 16_384;

/// Concrete limits applied to one Search.
#[derive(Clone, Copy, Debug, PartialEq, Eq, Structural)]
#[non_exhaustive]
pub struct SearchBudgets {
    /// The scanned Tree Key limit.
    scanned_tree_keys: u32,
    /// The visited partition limit.
    visited_partitions: u32,
    /// The visited Leaf Entry limit.
    visited_leaf_entries: u32,
    /// The exact-rerank candidate limit.
    exact_rerank_candidates: u32,
}

/// The mathematical content of Search Budgets.
pub ghost struct SearchBudgetsView {
    /// The scanned Tree Key limit.
    pub scanned_tree_keys: u32,
    /// The visited partition limit.
    pub visited_partitions: u32,
    /// The visited Leaf Entry limit.
    pub visited_leaf_entries: u32,
    /// The exact-rerank candidate limit.
    pub exact_rerank_candidates: u32,
}

impl SearchBudgetsView {
    /// Whether every budget is positive and within its hard cap.
    pub open spec fn within_hard_caps(self) -> bool {
        &&& 1 <= self.scanned_tree_keys <= MAX_SCANNED_TREE_KEYS
        &&& 1 <= self.visited_partitions <= MAX_VISITED_PARTITIONS
        &&& 1 <= self.visited_leaf_entries <= MAX_VISITED_LEAF_ENTRIES
        &&& 1 <= self.exact_rerank_candidates <= MAX_EXACT_RERANK_CANDIDATES
    }
}

impl View for SearchBudgets {
    type V = SearchBudgetsView;

    closed spec fn view(&self) -> SearchBudgetsView {
        SearchBudgetsView {
            scanned_tree_keys: self.scanned_tree_keys,
            visited_partitions: self.visited_partitions,
            visited_leaf_entries: self.visited_leaf_entries,
            exact_rerank_candidates: self.exact_rerank_candidates,
        }
    }
}

impl Default for SearchBudgets {
    fn default() -> (res: Self)
        ensures
            res@ == default_budgets(),
            res.within_hard_caps(),
    {
        SearchBudgets {
            scanned_tree_keys: 4_096,
            visited_partitions: 1_024,
            visited_leaf_entries: 65_536,
            exact_rerank_candidates: 65_536,
        }
    }
}

/// The budgets of a Search without configuration.
pub open spec fn default_budgets() -> SearchBudgetsView {
    SearchBudgetsView {
        scanned_tree_keys: 4_096,
        visited_partitions: 1_024,
        visited_leaf_entries: 65_536,
        exact_rerank_candidates: 65_536,
    }
}

impl SearchBudgets {
    /// Whether every budget is positive and within its hard cap.
    pub open spec fn within_hard_caps(self) -> bool {
        self@.within_hard_caps()
    }

    /// Constructs positive concrete Search Budgets.
    pub fn new(
        scanned_tree_keys: u32,
        visited_partitions: u32,
        visited_leaf_entries: u32,
        exact_rerank_candidates: u32,
    ) -> (res: Result<Self>)
        ensures
            ({
                let budgets = SearchBudgetsView {
                    scanned_tree_keys,
                    visited_partitions,
                    visited_leaf_entries,
                    exact_rerank_candidates,
                };
                match res {
                    Ok(accepted) => budgets.within_hard_caps() && accepted@ == budgets,
                    Err(error) => !budgets.within_hard_caps() && error == plain_error(
                        ErrorKind::InvalidArgument,
                    ),
                }
            }),
    {
        let budgets = SearchBudgets {
            scanned_tree_keys,
            visited_partitions,
            visited_leaf_entries,
            exact_rerank_candidates,
        };
        budgets.validate_hard_caps()?;
        Ok(budgets)
    }

    /// Accepts positive budgets within the hard caps.
    pub fn validate_hard_caps(&self) -> (res: Result<()>)
        ensures
            res is Ok <==> self.within_hard_caps(),
            res matches Err(error) ==> error == plain_error(ErrorKind::InvalidArgument),
    {
        if self.scanned_tree_keys == 0 || self.scanned_tree_keys > MAX_SCANNED_TREE_KEYS
            || self.visited_partitions == 0 || self.visited_partitions > MAX_VISITED_PARTITIONS
            || self.visited_leaf_entries == 0 || self.visited_leaf_entries
            > MAX_VISITED_LEAF_ENTRIES || self.exact_rerank_candidates == 0
            || self.exact_rerank_candidates > MAX_EXACT_RERANK_CANDIDATES {
            return Err(Error::invalid_argument());
        }
        Ok(())
    }

    /// Returns the scanned Tree Key limit.
    pub fn scanned_tree_keys(self) -> (res: u32)
        ensures
            res == self@.scanned_tree_keys,
    {
        self.scanned_tree_keys
    }

    /// Returns the visited partition limit.
    pub fn visited_partitions(self) -> (res: u32)
        ensures
            res == self@.visited_partitions,
    {
        self.visited_partitions
    }

    /// Returns the visited Leaf Entry limit.
    pub fn visited_leaf_entries(self) -> (res: u32)
        ensures
            res == self@.visited_leaf_entries,
    {
        self.visited_leaf_entries
    }

    /// Returns the exact-rerank candidate limit.
    pub fn exact_rerank_candidates(self) -> (res: u32)
        ensures
            res == self@.exact_rerank_candidates,
    {
        self.exact_rerank_candidates
    }
}

/// Optional per-request overrides of Runtime Search Budgets and traversal
/// width.
#[derive(Clone, Copy, Debug, PartialEq, Eq, Structural)]
#[non_exhaustive]
pub struct SearchOptions {
    /// The scanned Tree Key override.
    scanned_tree_keys: Option<u32>,
    /// The visited partition override.
    visited_partitions: Option<u32>,
    /// The visited Leaf Entry override.
    visited_leaf_entries: Option<u32>,
    /// The exact-rerank candidate override.
    exact_rerank_candidates: Option<u32>,
    /// The leaf-level base beam override.
    leaf_beam_size: Option<u32>,
}

/// The mathematical content of search options.
pub ghost struct SearchOptionsView {
    /// The scanned Tree Key override.
    pub scanned_tree_keys: Option<u32>,
    /// The visited partition override.
    pub visited_partitions: Option<u32>,
    /// The visited Leaf Entry override.
    pub visited_leaf_entries: Option<u32>,
    /// The exact-rerank candidate override.
    pub exact_rerank_candidates: Option<u32>,
    /// The leaf-level base beam override.
    pub leaf_beam_size: Option<u32>,
}

impl View for SearchOptions {
    type V = SearchOptionsView;

    closed spec fn view(&self) -> SearchOptionsView {
        SearchOptionsView {
            scanned_tree_keys: self.scanned_tree_keys,
            visited_partitions: self.visited_partitions,
            visited_leaf_entries: self.visited_leaf_entries,
            exact_rerank_candidates: self.exact_rerank_candidates,
            leaf_beam_size: self.leaf_beam_size,
        }
    }
}

/// Search options that override nothing.
pub open spec fn no_overrides() -> SearchOptionsView {
    SearchOptionsView {
        scanned_tree_keys: None,
        visited_partitions: None,
        visited_leaf_entries: None,
        exact_rerank_candidates: None,
        leaf_beam_size: None,
    }
}

impl Default for SearchOptions {
    fn default() -> (res: Self)
        ensures
            res@ == no_overrides(),
    {
        SearchOptions {
            scanned_tree_keys: None,
            visited_partitions: None,
            visited_leaf_entries: None,
            exact_rerank_candidates: None,
            leaf_beam_size: None,
        }
    }
}

/// The exact-rerank candidates `k` hits ask for without configuration: four
/// per hit, at least 100 and at most 65,536.
pub open spec fn rerank_for(k: int) -> int {
    if 4 * k < 100 {
        100
    } else if 4 * k > MAX_K {
        MAX_K as int
    } else {
        4 * k
    }
}

/// The lesser of two integers.
pub open spec fn lesser(a: int, b: int) -> int {
    if a <= b {
        a
    } else {
        b
    }
}

impl SearchOptionsView {
    /// The budgets these options select over `defaults` for `k` hits.
    pub open spec fn selected(self, defaults: SearchBudgetsView, k: int) -> SearchBudgetsView {
        SearchBudgetsView {
            scanned_tree_keys: match self.scanned_tree_keys {
                Some(value) => value,
                None => defaults.scanned_tree_keys,
            },
            visited_partitions: match self.visited_partitions {
                Some(value) => value,
                None => defaults.visited_partitions,
            },
            visited_leaf_entries: match self.visited_leaf_entries {
                Some(value) => value,
                None => defaults.visited_leaf_entries,
            },
            exact_rerank_candidates: match self.exact_rerank_candidates {
                Some(value) => value,
                None => lesser(defaults.exact_rerank_candidates as int, rerank_for(k)) as u32,
            },
        }
    }

    /// Whether these options resolve over `defaults` for `k` hits.
    pub open spec fn resolvable(self, defaults: SearchBudgetsView, k: int) -> bool {
        &&& defaults.within_hard_caps()
        &&& 1 <= k <= MAX_K
        &&& self.selected(defaults, k).within_hard_caps()
        &&& k <= self.selected(defaults, k).exact_rerank_candidates
    }
}

impl SearchOptions {
    /// The budgets these options select over `defaults` for `k` hits.
    pub open spec fn selected(self, defaults: SearchBudgetsView, k: int) -> SearchBudgetsView {
        self@.selected(defaults, k)
    }

    /// Whether these options resolve over `defaults` for `k` hits.
    pub open spec fn resolvable(self, defaults: SearchBudgetsView, k: int) -> bool {
        self@.resolvable(defaults, k)
    }

    /// Overrides the positive scanned Tree Key budget.
    pub fn with_scanned_tree_keys(self, value: u32) -> (res: Result<Self>)
        ensures
            match res {
                Ok(options) => 1 <= value <= MAX_SCANNED_TREE_KEYS && options@ == (SearchOptionsView {
                    scanned_tree_keys: Some(value),
                    ..self@
                }),
                Err(error) => !(1 <= value <= MAX_SCANNED_TREE_KEYS) && error == plain_error(
                    ErrorKind::InvalidArgument,
                ),
            },
    {
        validate_override(value, MAX_SCANNED_TREE_KEYS)?;
        let mut options = self;
        options.scanned_tree_keys = Some(value);
        Ok(options)
    }

    /// Overrides the positive visited partition budget.
    pub fn with_visited_partitions(self, value: u32) -> (res: Result<Self>)
        ensures
            match res {
                Ok(options) => 1 <= value <= MAX_VISITED_PARTITIONS && options@ == (SearchOptionsView {
                    visited_partitions: Some(value),
                    ..self@
                }),
                Err(error) => !(1 <= value <= MAX_VISITED_PARTITIONS) && error == plain_error(
                    ErrorKind::InvalidArgument,
                ),
            },
    {
        validate_override(value, MAX_VISITED_PARTITIONS)?;
        let mut options = self;
        options.visited_partitions = Some(value);
        Ok(options)
    }

    /// Overrides the positive visited Leaf Entry budget.
    pub fn with_visited_leaf_entries(self, value: u32) -> (res: Result<Self>)
        ensures
            match res {
                Ok(options) => 1 <= value <= MAX_VISITED_LEAF_ENTRIES && options@ == (
                SearchOptionsView { visited_leaf_entries: Some(value), ..self@ }),
                Err(error) => !(1 <= value <= MAX_VISITED_LEAF_ENTRIES) && error == plain_error(
                    ErrorKind::InvalidArgument,
                ),
            },
    {
        validate_override(value, MAX_VISITED_LEAF_ENTRIES)?;
        let mut options = self;
        options.visited_leaf_entries = Some(value);
        Ok(options)
    }

    /// Overrides the positive exact-rerank candidate budget.
    pub fn with_exact_rerank_candidates(self, value: u32) -> (res: Result<Self>)
        ensures
            match res {
                Ok(options) => 1 <= value <= MAX_EXACT_RERANK_CANDIDATES && options@ == (
                SearchOptionsView { exact_rerank_candidates: Some(value), ..self@ }),
                Err(error) => !(1 <= value <= MAX_EXACT_RERANK_CANDIDATES) && error == plain_error(
                    ErrorKind::InvalidArgument,
                ),
            },
    {
        validate_override(value, MAX_EXACT_RERANK_CANDIDATES)?;
        let mut options = self;
        options.exact_rerank_candidates = Some(value);
        Ok(options)
    }

    /// Overrides the positive leaf-level base beam width.
    pub fn with_leaf_beam_size(self, value: u32) -> (res: Result<Self>)
        ensures
            match res {
                Ok(options) => 1 <= value <= MAX_LEAF_BEAM_SIZE && options@ == (SearchOptionsView {
                    leaf_beam_size: Some(value),
                    ..self@
                }),
                Err(error) => !(1 <= value <= MAX_LEAF_BEAM_SIZE) && error == plain_error(
                    ErrorKind::InvalidArgument,
                ),
            },
    {
        validate_override(value, MAX_LEAF_BEAM_SIZE)?;
        let mut options = self;
        options.leaf_beam_size = Some(value);
        Ok(options)
    }

    /// Returns the leaf-level base beam width override.
    pub fn leaf_beam_size(self) -> (res: Option<u32>)
        ensures
            res == self@.leaf_beam_size,
    {
        self.leaf_beam_size
    }

    /// Resolves overrides against Runtime defaults and validates them for `k`.
    pub fn resolve(self, defaults: SearchBudgets, k: usize) -> (res: Result<SearchBudgets>)
        ensures
            match res {
                Ok(budgets) => self.resolvable(defaults@, k as int) && budgets@ == self.selected(
                    defaults@,
                    k as int,
                ),
                Err(error) => !self.resolvable(defaults@, k as int) && error == plain_error(
                    ErrorKind::InvalidArgument,
                ),
            },
    {
        defaults.validate_hard_caps()?;
        let exact_default: u32 = default_exact_rerank(k)?;
        let budgets = SearchBudgets {
            scanned_tree_keys: match self.scanned_tree_keys {
                Some(value) => value,
                None => defaults.scanned_tree_keys,
            },
            visited_partitions: match self.visited_partitions {
                Some(value) => value,
                None => defaults.visited_partitions,
            },
            visited_leaf_entries: match self.visited_leaf_entries {
                Some(value) => value,
                None => defaults.visited_leaf_entries,
            },
            exact_rerank_candidates: match self.exact_rerank_candidates {
                Some(value) => value,
                None => if defaults.exact_rerank_candidates <= exact_default {
                    defaults.exact_rerank_candidates
                } else {
                    exact_default
                },
            },
        };
        budgets.validate_hard_caps()?;
        if (budgets.exact_rerank_candidates as usize) < k {
            return Err(Error::invalid_argument());
        }
        Ok(budgets)
    }
}

fn validate_override(value: u32, maximum: u32) -> (res: Result<()>)
    ensures
        res is Ok <==> 1 <= value <= maximum,
        res matches Err(error) ==> error == plain_error(ErrorKind::InvalidArgument),
{
    if value == 0 || value > maximum {
        Err(Error::invalid_argument())
    } else {
        Ok(())
    }
}

fn default_exact_rerank(k: usize) -> (res: Result<u32>)
    ensures
        match res {
            Ok(value) => {
                &&& 1 <= k <= MAX_K && value == rerank_for(k as int)
                &&& 100 <= value <= 65_536
                &&& 25 <= k <= 16_384 ==> value == 4 * k
                &&& k < 25 ==> value == 100
                &&& k > 16_384 ==> value == 65_536
            },
            Err(error) => !(1 <= k <= MAX_K) && error == plain_error(ErrorKind::InvalidArgument),
        },
{
    if k == 0 || k > MAX_K {
        return Err(Error::invalid_argument());
    }
    let value: usize = k * 4;
    if value < 100 {
        Ok(100)
    } else if value > MAX_K {
        Ok(MAX_K as u32)
    } else {
        Ok(value as u32)
    }
}

/// Under the default budgets a Search without overrides resolves for every
/// legal hit count, and reranks four candidates per hit, but at least 100 and
/// at most 65,536.
pub proof fn ordinary_searches_resolve(k: int)
    requires
        1 <= k <= 65_536,
    ensures
        no_overrides().resolvable(default_budgets(), k),
        ({
            let budgets = no_overrides().selected(default_budgets(), k);
            &&& budgets.scanned_tree_keys == 4_096
            &&& budgets.visited_partitions == 1_024
            &&& budgets.visited_leaf_entries == 65_536
            &&& 4 * k <= 100 ==> budgets.exact_rerank_candidates == 100
            &&& 100 <= 4 * k <= 65_536 ==> budgets.exact_rerank_candidates == 4 * k
            &&& 4 * k >= 65_536 ==> budgets.exact_rerank_candidates == 65_536
        }),
{
}

/// Every override is applied as given, every other budget is the Runtime's, and
/// the reranked candidates of a Search without their override are four per hit,
/// at least 100, and never more than the Runtime's or 65,536.
pub proof fn overrides_are_applied_as_given(
    options: SearchOptionsView,
    defaults: SearchBudgetsView,
    k: int,
)
    requires
        1 <= k <= 65_536,
    ensures
        ({
            let budgets = options.selected(defaults, k);
            &&& options.scanned_tree_keys matches Some(value) ==> budgets.scanned_tree_keys
                == value
            &&& options.scanned_tree_keys is None ==> budgets.scanned_tree_keys
                == defaults.scanned_tree_keys
            &&& options.visited_partitions matches Some(value) ==> budgets.visited_partitions
                == value
            &&& options.visited_partitions is None ==> budgets.visited_partitions
                == defaults.visited_partitions
            &&& options.visited_leaf_entries matches Some(value) ==> budgets.visited_leaf_entries
                == value
            &&& options.visited_leaf_entries is None ==> budgets.visited_leaf_entries
                == defaults.visited_leaf_entries
            &&& options.exact_rerank_candidates matches Some(value)
                ==> budgets.exact_rerank_candidates == value
            &&& options.exact_rerank_candidates is None ==> {
                &&& budgets.exact_rerank_candidates <= defaults.exact_rerank_candidates
                &&& budgets.exact_rerank_candidates <= 65_536
                &&& budgets.exact_rerank_candidates < defaults.exact_rerank_candidates && 25 <= k
                    <= 16_384 ==> budgets.exact_rerank_candidates == 4 * k
                &&& budgets.exact_rerank_candidates < defaults.exact_rerank_candidates && k <= 25
                    ==> budgets.exact_rerank_candidates == 100
                &&& budgets.exact_rerank_candidates < defaults.exact_rerank_candidates && k
                    >= 16_384 ==> budgets.exact_rerank_candidates == 65_536
                &&& defaults.exact_rerank_candidates <= 100 ==> budgets.exact_rerank_candidates
                    == defaults.exact_rerank_candidates
                &&& defaults.exact_rerank_candidates <= 4 * k && defaults.exact_rerank_candidates
                    <= 65_536 ==> budgets.exact_rerank_candidates
                    == defaults.exact_rerank_candidates
            }
        }),
{
}

/// A Search is refused exactly when a Runtime default or an applied budget is
/// zero or above its cap, the hit count is zero or above 65,536, or fewer
/// candidates than hits would be reranked.
pub proof fn searches_are_refused_for_their_bounds_alone(
    options: SearchOptionsView,
    defaults: SearchBudgetsView,
    k: int,
)
    ensures
        ({
            let budgets = options.selected(defaults, k);
            options.resolvable(defaults, k) <==> {
                &&& 1 <= k <= 65_536
                &&& 1 <= defaults.scanned_tree_keys <= 65_536
                &&& 1 <= defaults.visited_partitions <= 16_384
                &&& 1 <= defaults.visited_leaf_entries <= 1_048_576
                &&& 1 <= defaults.exact_rerank_candidates <= 65_536
                &&& 1 <= budgets.scanned_tree_keys <= 65_536
                &&& 1 <= budgets.visited_partitions <= 16_384
                &&& 1 <= budgets.visited_leaf_entries <= 1_048_576
                &&& k <= budgets.exact_rerank_candidates <= 65_536
            }
        }),
{
}

/// A resolved Search always has room to rerank every requested hit, and
/// resolving with no override never exceeds the Runtime defaults.
pub proof fn resolution_keeps_the_defaults(defaults: SearchBudgetsView, k: int)
    requires
        no_overrides().resolvable(defaults, k),
    ensures
        ({
            let budgets = no_overrides().selected(defaults, k);
            &&& budgets.scanned_tree_keys == defaults.scanned_tree_keys
            &&& budgets.visited_partitions == defaults.visited_partitions
            &&& budgets.visited_leaf_entries == defaults.visited_leaf_entries
            &&& k <= budgets.exact_rerank_candidates <= defaults.exact_rerank_candidates
        }),
{
}

impl SearchOptions {
    /// The text of [`SearchOptions::describe`]: every override.
    pub open spec fn description(&self) -> Seq<char> {
        "SearchOptions { scanned_tree_keys: "@ + optional_number(self@.scanned_tree_keys)
            + ", visited_partitions: "@ + optional_number(self@.visited_partitions)
            + ", visited_leaf_entries: "@ + optional_number(self@.visited_leaf_entries)
            + ", exact_rerank_candidates: "@ + optional_number(self@.exact_rerank_candidates)
            + ", leaf_beam_size: "@ + optional_number(self@.leaf_beam_size) + " }"@
    }

    pub(crate) fn append_to(&self, text: &mut String)
        ensures
            final(text)@ == old(text)@ + self.description(),
    {
        let ghost before = text@;
        text.append("SearchOptions { scanned_tree_keys: ");
        append_optional(text, self.scanned_tree_keys);
        text.append(", visited_partitions: ");
        append_optional(text, self.visited_partitions);
        text.append(", visited_leaf_entries: ");
        append_optional(text, self.visited_leaf_entries);
        text.append(", exact_rerank_candidates: ");
        append_optional(text, self.exact_rerank_candidates);
        text.append(", leaf_beam_size: ");
        append_optional(text, self.leaf_beam_size);
        text.append(" }");
        assert(text@ =~= before + self.description());
    }

    /// Describes the overrides.
    pub fn describe(&self) -> (res: String)
        ensures
            res@ == self.description(),
    {
        let mut text = String::new();
        self.append_to(&mut text);
        assert(text@ =~= self.description());
        text
    }
}

/// One owned approximate-search request.
#[non_exhaustive]
pub struct SearchRequest {
    vector: Vec<Float32>,
    k: usize,
    predicate: Option<Predicate>,
    options: SearchOptions,
}

impl SearchRequest {
    #[verifier::type_invariant]
    spec fn well_formed(self) -> bool {
        &&& all_finite(self.vector@)
        &&& 1 <= self.k <= MAX_K
    }

    /// The finite query vector.
    pub closed spec fn spec_vector(self) -> Seq<Float32> {
        self.vector@
    }

    /// The maximum requested hit count.
    pub closed spec fn spec_k(self) -> usize {
        self.k
    }

    /// The exact Filter Predicate.
    pub closed spec fn spec_predicate(self) -> Option<Predicate> {
        self.predicate
    }

    /// The Search Budget overrides.
    pub closed spec fn spec_options(self) -> SearchOptions {
        self.options
    }

    /// Creates a request with no Filter Predicate and Runtime Search Budgets.
    pub fn new(vector: Vec<Float32>, k: usize) -> (res: Result<Self>)
        ensures
            match res {
                Ok(request) => {
                    &&& 1 <= k <= MAX_K && all_finite(vector@)
                    &&& request.spec_vector() == vector@
                    &&& request.spec_k() == k
                    &&& request.spec_predicate() is None
                    &&& request.spec_options()@ == no_overrides()
                },
                Err(error) => !(1 <= k <= MAX_K && all_finite(vector@)) && error == plain_error(
                    ErrorKind::InvalidArgument,
                ),
            },
    {
        if k == 0 || k > MAX_K || !vector_is_finite(&vector) {
            return Err(Error::invalid_argument());
        }
        Ok(SearchRequest { vector, k, predicate: None, options: SearchOptions::default() })
    }

    /// Adds an exact typed Filter Predicate.
    pub fn with_predicate(self, predicate: Predicate) -> (res: Self)
        ensures
            res.spec_vector() == self.spec_vector(),
            res.spec_k() == self.spec_k(),
            res.spec_predicate() == Some(predicate),
            res.spec_options() == self.spec_options(),
    {
        proof {
            use_type_invariant(&self);
        }
        SearchRequest {
            vector: self.vector,
            k: self.k,
            predicate: Some(predicate),
            options: self.options,
        }
    }

    /// Sets request Search Budget overrides.
    pub fn with_options(self, options: SearchOptions) -> (res: Self)
        ensures
            res.spec_vector() == self.spec_vector(),
            res.spec_k() == self.spec_k(),
            res.spec_predicate() == self.spec_predicate(),
            res.spec_options() == options,
    {
        proof {
            use_type_invariant(&self);
        }
        SearchRequest { vector: self.vector, k: self.k, predicate: self.predicate, options }
    }

    /// Validates dimension, Filter Predicate, and effective Search Budgets,
    /// canonicalizing the predicate's values on the way.
    pub fn validate(
        &mut self,
        dimension: usize,
        fields: &Vec<FieldSchema>,
        defaults: SearchBudgets,
    ) -> (res: Result<SearchBudgets>)
        ensures
            res is Ok <==> {
                &&& old(self).spec_vector().len() == dimension
                &&& old(self).spec_predicate() matches Some(predicate) ==> valid_predicate(
                    predicate,
                    schema_view(fields@),
                )
                &&& old(self).spec_options().resolvable(defaults@, old(self).spec_k() as int)
            },
            res matches Ok(budgets) ==> budgets@ == old(self).spec_options().selected(
                defaults@,
                old(self).spec_k() as int,
            ),
            res matches Err(error) ==> error == plain_error(ErrorKind::InvalidArgument),
            final(self).spec_vector() == old(self).spec_vector(),
            final(self).spec_k() == old(self).spec_k(),
            final(self).spec_options() == old(self).spec_options(),
            match (old(self).spec_predicate(), final(self).spec_predicate()) {
                (Some(before), Some(after)) => canonicalized(before, after, res is Ok),
                (None, None) => true,
                _ => false,
            },
    {
        proof {
            use_type_invariant(&*self);
        }
        let ghost before = self.predicate;
        proof {
            if before is Some {
                super::schema::canonicalized_reflexive(before->0);
            }
        }
        if self.vector.len() != dimension {
            return Err(Error::invalid_argument());
        }
        let mut taken: Option<Predicate> = None;
        core::mem::swap(&mut taken, &mut self.predicate);
        let checked = match &mut taken {
            Some(predicate) => predicate.validate(fields),
            None => Ok(()),
        };
        self.predicate = taken;
        proof {
            if before is Some && checked is Ok {
                super::schema::canonicalized_weaken(before->0, self.predicate->0);
            }
        }
        match checked {
            Err(error) => Err(error),
            Ok(()) => self.options.resolve(defaults, self.k),
        }
    }

    /// Returns the finite query vector.
    pub fn vector(&self) -> (res: &Vec<Float32>)
        ensures
            res@ == self.spec_vector(),
            all_finite(res@),
    {
        proof {
            use_type_invariant(self);
        }
        &self.vector
    }

    /// Returns the maximum requested hit count.
    pub fn k(&self) -> (res: usize)
        ensures
            res == self.spec_k(),
            1 <= res <= MAX_K,
    {
        proof {
            use_type_invariant(self);
        }
        self.k
    }

    /// Returns the optional exact Filter Predicate.
    pub fn predicate(&self) -> (res: Option<&Predicate>)
        ensures
            match (res, self.spec_predicate()) {
                (Some(shown), Some(held)) => *shown == held,
                (None, None) => true,
                _ => false,
            },
    {
        self.predicate.as_ref()
    }

    /// Returns the Search Budget overrides.
    pub fn options(&self) -> (res: SearchOptions)
        ensures
            res == self.spec_options(),
    {
        self.options
    }
}

/// One exactly reranked Search Hit.
#[non_exhaustive]
pub struct SearchHit {
    id: Vec<u8>,
    distance: Float64,
}

impl SearchHit {
    #[verifier::type_invariant]
    spec fn well_formed(self) -> bool {
        valid_id(self.id@) && self.distance.finite()
    }

    /// The opaque Record ID.
    pub closed spec fn spec_id(self) -> Seq<u8> {
        self.id@
    }

    /// The exact distance.
    pub closed spec fn spec_distance(self) -> Float64 {
        self.distance
    }

    /// Creates a hit from a valid Record ID and finite exact distance.
    pub fn new(id: Vec<u8>, distance: Float64) -> (res: Result<Self>)
        ensures
            match res {
                Ok(hit) => {
                    &&& valid_id(id@) && distance.finite()
                    &&& hit.spec_id() == id@
                    &&& hit.spec_distance() == distance
                },
                Err(error) => !(valid_id(id@) && distance.finite()) && error == plain_error(
                    ErrorKind::InvalidArgument,
                ),
            },
    {
        validate_id(&id)?;
        if !distance.is_finite() {
            return Err(Error::invalid_argument());
        }
        Ok(SearchHit { id, distance })
    }

    /// Returns the opaque Record ID.
    pub fn id(&self) -> (res: &Vec<u8>)
        ensures
            res@ == self.spec_id(),
            valid_id(res@),
    {
        proof {
            use_type_invariant(self);
        }
        &self.id
    }

    /// Returns the exact distance computed from the original vector.
    pub fn distance(&self) -> (res: Float64)
        ensures
            res == self.spec_distance(),
            res.finite(),
    {
        proof {
            use_type_invariant(self);
        }
        self.distance
    }
}

/// Logical work charged to each Search Budget dimension.
#[derive(Clone, Copy, Debug, PartialEq, Eq, Structural)]
pub struct SearchBudgetUsage {
    /// Tree Keys decoded and checked from the directory.
    pub scanned_tree_keys: u32,
    /// Distinct partition bodies logically visited, including cache hits.
    pub visited_partitions: u32,
    /// Leaf Entries read and considered under the exact Filter Predicate.
    pub visited_leaf_entries: u32,
    /// Vector Records read and exactly reranked.
    pub exact_rerank_candidates: u32,
}

/// Whether eligible work was prevented by each depleted Search Budget.
#[derive(Clone, Copy, Debug, PartialEq, Eq, Structural)]
pub struct SearchBudgetExhaustion {
    /// Scanned Tree Key budget prevented eligible work.
    pub scanned_tree_keys: bool,
    /// Visited partition budget prevented eligible work.
    pub visited_partitions: bool,
    /// Visited Leaf Entry budget prevented eligible work.
    pub visited_leaf_entries: bool,
    /// Exact-rerank candidate budget prevented eligible work.
    pub exact_rerank_candidates: bool,
}

/// The bounded, deterministic result of approximate Search.
pub struct SearchOutcome {
    /// Exactly reranked hits ordered by distance and Record ID.
    pub hits: Vec<SearchHit>,
    /// Logical work charged to Search Budgets.
    pub usage: SearchBudgetUsage,
    /// Every Search Budget dimension that prevented eligible work.
    pub exhausted: SearchBudgetExhaustion,
    /// Whether a per-leaf overlap cap discarded a qualifying overlap.
    pub rabitq_overlap_truncated: bool,
}

} // verus!
