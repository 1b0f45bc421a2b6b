//! Analysis of network errors: a root cause from the error's category and
//! description, the solutions that fit it, and how often the same error has
//! been seen.
//!
//! Times are seconds since the Unix epoch, read by the caller.

use std::collections::HashMap;
use vstd::prelude::*;
use vstd::std_specs::iter::IteratorSpec;

use crate::ids::new_uuid;
use crate::text::{contains_text, has_substring, str_eq};

verus! {

broadcast use vstd::std_specs::hash::group_hash_axioms;

/// How far back (in seconds) an error counts as related.
pub const RELATED_WINDOW_SECS: u64 = 3600;

/// Error severity.
#[derive(Debug, Clone, Copy, PartialEq, Eq, Structural)]
pub enum ErrorSeverity {
    Low,
    Medium,
    High,
    Critical,
}

/// Error category.
#[derive(Debug, Clone, Copy, PartialEq, Eq, Structural)]
pub enum ErrorCategory {
    Connection,
    Authentication,
    Protocol,
    Resource,
    Configuration,
    Unknown,
}

/// The context of an error.
#[derive(Debug)]
pub struct ErrorContext {
    /// When it happened (s)
    pub timestamp: u64,
    /// Node concerned
    pub node_id: Option<u128>,
    /// Peer concerned
    pub peer_id: Option<u128>,
    /// Category
    pub category: ErrorCategory,
    /// Severity
    pub severity: ErrorSeverity,
    /// Description
    pub description: String,
    /// Stack trace
    pub stack_trace: Option<String>,
    /// Named readings of the system state
    pub system_state: Vec<(String, String)>,
}

/// The analysis of one error.
#[derive(Debug)]
pub struct ErrorAnalysis {
    /// Error id
    pub error_id: u128,
    /// Context
    pub context: ErrorContext,
    /// Root cause
    pub root_cause: String,
    /// Possible solutions
    pub possible_solutions: Vec<String>,
    /// Solution applied
    pub applied_solution: Option<String>,
    /// Time from the error to its solution (s)
    pub resolution_time_secs: Option<u64>,
    /// Earlier errors of the same category and description
    pub recurrence_count: u32,
    /// Earlier errors of the same category within the last hour
    pub related_errors: Vec<u128>,
}

/// The root cause of an error of this category and description.
pub open spec fn root_cause_text(category: ErrorCategory, description: Seq<char>) -> Seq<char> {
    match category {
        ErrorCategory::Connection => if has_substring(description, "Address already in use"@) {
            "Port is already used by another process"@
        } else if has_substring(description, "Connection refused"@) {
            "Remote node is unavailable or refuses connection"@
        } else {
            "Unknown connection problem"@
        },
        ErrorCategory::Authentication => "Node authentication problem"@,
        ErrorCategory::Protocol => "Protocol or version mismatch"@,
        ErrorCategory::Resource => "Insufficient system resources"@,
        ErrorCategory::Configuration => "Incorrect network configuration"@,
        ErrorCategory::Unknown => "Unknown error cause"@,
    }
}

/// The solutions offered for an error of this category with this root cause.
pub open spec fn solutions_text(category: ErrorCategory, root_cause: Seq<char>) -> Seq<Seq<char>> {
    match category {
        ErrorCategory::Connection => if has_substring(root_cause, "port is already used"@) {
            seq![
                "Free the port by terminating the process using it"@,
                "Change the port in the node configuration"@,
                "Add automatic port search"@,
            ]
        } else {
            Seq::empty()
        },
        ErrorCategory::Authentication => seq!["Check and update authentication keys"@, "Reconnect with new credentials"@],
        ErrorCategory::Protocol => seq!["Update protocol version"@, "Add backward compatibility support"@],
        ErrorCategory::Resource => seq!["Increase system resource limits"@, "Optimize resource usage"@],
        ErrorCategory::Configuration => seq!["Check and fix configuration files"@, "Reset settings to default values"@],
        ErrorCategory::Unknown => seq!["Collect additional diagnostic information"@, "Check system logs"@],
    }
}

/// The texts of a list of strings.
pub open spec fn texts(v: Seq<String>) -> Seq<Seq<char>> {
    v.map_values(|s: String| s@)
}

/// The ids of the recorded errors with this category and description.
pub open spec fn recurrences(errors: Map<u128, ErrorAnalysis>, category: ErrorCategory, description: Seq<char>) -> Set<u128> {
    errors.dom().filter(|k: u128| errors[k].context.category == category && errors[k].context.description@ == description)
}

/// The ids of the recorded errors with this category from after `now` less an hour.
pub open spec fn related(errors: Map<u128, ErrorAnalysis>, category: ErrorCategory, now: u64) -> Set<u128> {
    errors.dom().filter(
        |k: u128| errors[k].context.category == category && errors[k].context.timestamp + RELATED_WINDOW_SECS > now,
    )
}

/// The errors related to one of `category` at `now` are exactly the
/// recorded errors of that category less than an hour (3600 s) old: an
/// error of another category, or an hour old or older, is never related.
pub proof fn lemma_related_window(errors: Map<u128, ErrorAnalysis>, category: ErrorCategory, now: u64)
    ensures
        forall|id: u128|
            #[trigger] related(errors, category, now).contains(id) <==> (errors.contains_key(id)
                && errors[id].context.category == category && errors[id].context.timestamp + 3600 > now),
{
}

/// The earlier occurrences of an error are exactly the recorded errors of
/// the same category with the same description.
pub proof fn lemma_recurrences_match(errors: Map<u128, ErrorAnalysis>, category: ErrorCategory, description: Seq<char>)
    ensures
        forall|id: u128|
            #[trigger] recurrences(errors, category, description).contains(id) <==> (errors.contains_key(id)
                && errors[id].context.category == category && errors[id].context.description@ == description),
{
}

/// The ids of the recorded errors of a category.
pub open spec fn in_category(errors: Map<u128, ErrorAnalysis>, category: ErrorCategory) -> Set<u128> {
    errors.dom().filter(|k: u128| errors[k].context.category == category)
}

/// The categories in their order of declaration.
pub open spec fn all_categories() -> Seq<ErrorCategory> {
    seq![
        ErrorCategory::Connection,
        ErrorCategory::Authentication,
        ErrorCategory::Protocol,
        ErrorCategory::Resource,
        ErrorCategory::Configuration,
        ErrorCategory::Unknown,
    ]
}

/// The name of a category.
pub open spec fn category_text(c: ErrorCategory) -> Seq<char> {
    match c {
        ErrorCategory::Connection => "Connection"@,
        ErrorCategory::Authentication => "Authentication"@,
        ErrorCategory::Protocol => "Protocol"@,
        ErrorCategory::Resource => "Resource"@,
        ErrorCategory::Configuration => "Configuration"@,
        ErrorCategory::Unknown => "Unknown"@,
    }
}

/// The name of a category.
pub fn category_name(c: ErrorCategory) -> (r: &'static str)
    ensures
        r@ == category_text(c),
{
    match c {
        ErrorCategory::Connection => "Connection",
        ErrorCategory::Authentication => "Authentication",
        ErrorCategory::Protocol => "Protocol",
        ErrorCategory::Resource => "Resource",
        ErrorCategory::Configuration => "Configuration",
        ErrorCategory::Unknown => "Unknown",
    }
}

/// For each of `cats` with at least one recorded error: its name and count.
pub open spec fn counts_over(errors: Map<u128, ErrorAnalysis>, cats: Seq<ErrorCategory>) -> Seq<(Seq<char>, u32)>
    decreases cats.len(),
{
    if cats.len() == 0 {
        Seq::empty()
    } else {
        let rest = counts_over(errors, cats.drop_last());
        let c = cats.last();
        if in_category(errors, c).len() > 0 {
            rest.push((category_text(c), in_category(errors, c).len() as u32))
        } else {
            rest
        }
    }
}

/// The count of each category with at least one recorded error, in order.
pub open spec fn category_counts(errors: Map<u128, ErrorAnalysis>) -> Seq<(Seq<char>, u32)> {
    counts_over(errors, all_categories())
}

/// Two error contexts agree field by field (lists by their elements).
pub open spec fn same_context(a: ErrorContext, b: ErrorContext) -> bool {
    &&& a.timestamp == b.timestamp
    &&& a.node_id == b.node_id
    &&& a.peer_id == b.peer_id
    &&& a.category == b.category
    &&& a.severity == b.severity
    &&& a.description == b.description
    &&& a.stack_trace == b.stack_trace
    &&& a.system_state@ == b.system_state@
}

/// Two analyses agree field by field (lists by their elements).
pub open spec fn same_analysis(a: ErrorAnalysis, b: ErrorAnalysis) -> bool {
    &&& a.error_id == b.error_id
    &&& same_context(a.context, b.context)
    &&& a.root_cause == b.root_cause
    &&& a.possible_solutions@ == b.possible_solutions@
    &&& a.applied_solution == b.applied_solution
    &&& a.resolution_time_secs == b.resolution_time_secs
    &&& a.recurrence_count == b.recurrence_count
    &&& a.related_errors@ == b.related_errors@
}

/// The position of the first history entry of a category, or -1.
pub open spec fn first_of_category(h: Seq<(ErrorCategory, Vec<String>)>, c: ErrorCategory) -> int {
    if exists|k: int| 0 <= k < h.len() && h[k].0 == c {
        choose|k: int| 0 <= k < h.len() && h[k].0 == c && forall|j: int| 0 <= j < k ==> h[j].0 != c
    } else {
        -1
    }
}

/// `new` is the history `old` with `solution` added to the entry of its
/// category (the first), or a new entry for it at the end.
pub open spec fn history_after(
    old: Seq<(ErrorCategory, Vec<String>)>,
    c: ErrorCategory,
    solution: Seq<char>,
    new: Seq<(ErrorCategory, Vec<String>)>,
) -> bool {
    let k = first_of_category(old, c);
    if k >= 0 {
        &&& new.len() == old.len()
        &&& forall|j: int| 0 <= j < old.len() && j != k ==> #[trigger] new[j] == old[j]
        &&& new[k].0 == c
        &&& texts(new[k].1@) == texts(old[k].1@).push(solution)
    } else {
        &&& new.len() == old.len() + 1
        &&& forall|j: int| 0 <= j < old.len() ==> #[trigger] new[j] == old[j]
        &&& new[old.len() as int].0 == c
        &&& texts(new[old.len() as int].1@) == seq![solution]
    }
}

/// Whether any error of a category is recorded.
fn in_category_nonempty(a: &ErrorAnalyzer, c: ErrorCategory) -> (r: bool)
    ensures
        r == (in_category(a.errors@, c).len() > 0),
{
    let ids = error_ids(&a.errors);
    let mut n: usize = 0;
    while n < ids.len()
        invariant
            n <= ids@.len(),
            ids@.to_set() == a.errors@.dom(),
            forall|j: int| 0 <= j < n ==> a.errors@[ids@[j]].context.category != c,
        decreases ids@.len() - n,
    {
        let k = ids[n];
        assert(ids@.to_set().contains(k));
        match a.errors.get(&k) {
            Some(e) => {
                if e.context.category == c {
                    assert(in_category(a.errors@, c).contains(k));
                    return true;
                }
            },
            None => {},
        }
        n = n + 1;
    }
    assert(in_category(a.errors@, c) =~= Set::<u128>::empty()) by {
        assert forall|k: u128| !#[trigger] in_category(a.errors@, c).contains(k) by {
            if a.errors@.contains_key(k) {
                assert(ids@.to_set().contains(k));
                let j = choose|j: int| 0 <= j < ids@.len() && ids@[j] == k;
            }
        }
    }
    false
}

/// A copy of an error context.
fn copy_context(c: &ErrorContext) -> (r: ErrorContext)
    ensures
        same_context(r, *c),
{
    let mut state: Vec<(String, String)> = Vec::new();
    let mut i: usize = 0;
    while i < c.system_state.len()
        invariant
            i <= c.system_state@.len(),
            state@ == c.system_state@.take(i as int),
        decreases c.system_state@.len() - i,
    {
        state.push((c.system_state[i].0.clone(), c.system_state[i].1.clone()));
        i = i + 1;
        assert(state@ =~= c.system_state@.take(i as int));
    }
    assert(c.system_state@.take(c.system_state@.len() as int) =~= c.system_state@);
    let trace = match &c.stack_trace {
        Some(t) => Some(t.clone()),
        None => None,
    };
    ErrorContext {
        timestamp: c.timestamp,
        node_id: c.node_id,
        peer_id: c.peer_id,
        category: c.category,
        severity: c.severity,
        description: c.description.clone(),
        stack_trace: trace,
        system_state: state,
    }
}

/// A copy of an analysis.
fn copy_analysis(a: &ErrorAnalysis) -> (r: ErrorAnalysis)
    ensures
        same_analysis(r, *a),
{
    let mut related: Vec<u128> = Vec::new();
    let mut i: usize = 0;
    while i < a.related_errors.len()
        invariant
            i <= a.related_errors@.len(),
            related@ == a.related_errors@.take(i as int),
        decreases a.related_errors@.len() - i,
    {
        related.push(a.related_errors[i]);
        i = i + 1;
        assert(related@ =~= a.related_errors@.take(i as int));
    }
    assert(a.related_errors@.take(a.related_errors@.len() as int) =~= a.related_errors@);
    let applied = match &a.applied_solution {
        Some(t) => Some(t.clone()),
        None => None,
    };
    ErrorAnalysis {
        error_id: a.error_id,
        context: copy_context(&a.context),
        root_cause: a.root_cause.clone(),
        possible_solutions: copy_strings(&a.possible_solutions),
        applied_solution: applied,
        resolution_time_secs: a.resolution_time_secs,
        recurrence_count: a.recurrence_count,
        related_errors: related,
    }
}

/// The error analyser.
#[derive(Debug)]
pub struct ErrorAnalyzer {
    /// Analyses, by error id
    pub errors: HashMap<u128, ErrorAnalysis>,
    /// Solutions applied, by category, in the order applied
    pub solutions_history: Vec<(ErrorCategory, Vec<String>)>,
}

/// Appends the string `s` to `out`.
fn push_text(out: &mut Vec<String>, s: &str)
    ensures
        texts(final(out)@) == texts(old(out)@).push(s@),
{
    let ghost before = out@;
    out.push(s.to_string());
    assert(texts(out@) =~= texts(before).push(s@));
}

/// A copy of a list of strings.
fn copy_strings(v: &Vec<String>) -> (r: Vec<String>)
    ensures
        r@ == v@,
{
    let mut out: Vec<String> = Vec::new();
    let mut i: usize = 0;
    while i < v.len()
        invariant
            i <= v@.len(),
            out@ == v@.take(i as int),
        decreases v@.len() - i,
    {
        out.push(v[i].clone());
        i = i + 1;
        assert(out@ =~= v@.take(i as int));
    }
    assert(v@.take(v@.len() as int) =~= v@);
    out
}

/// The ids of the analyses, each once.
fn error_ids(m: &HashMap<u128, ErrorAnalysis>) -> (r: Vec<u128>)
    ensures
        r@.to_set() == m@.dom(),
        r@.no_duplicates(),
{
    let mut out: Vec<u128> = Vec::new();
    let ghost ks = vstd::std_specs::hash::spec_keys_iter(m).remaining();
    for k in it: m.keys()
        invariant
            it.seq() == ks,
            out@ == ks.take(it.index() as int).map_values(|k: &u128| *k),
    {
        out.push(*k);
    }
    proof {
        assert(out@ =~= ks.unref());
    }
    out
}

impl ErrorAnalyzer {
    /// An analyser with no errors recorded.
    pub fn new() -> (r: Self)
        ensures
            r.errors@ == Map::<u128, ErrorAnalysis>::empty(),
            r.solutions_history@.len() == 0,
    {
        ErrorAnalyzer { errors: HashMap::new(), solutions_history: Vec::new() }
    }

    /// The root cause of an error (see [`root_cause_text`]).
    pub fn determine_root_cause(&self, context: &ErrorContext) -> (r: String)
        ensures
            r@ == root_cause_text(context.category, context.description@),
    {
        let text = match context.category {
            ErrorCategory::Connection => {
                if contains_text(context.description.as_str(), "Address already in use") {
                    "Port is already used by another process"
                } else if contains_text(context.description.as_str(), "Connection refused") {
                    "Remote node is unavailable or refuses connection"
                } else {
                    "Unknown connection problem"
                }
            },
            ErrorCategory::Authentication => "Node authentication problem",
            ErrorCategory::Protocol => "Protocol or version mismatch",
            ErrorCategory::Resource => "Insufficient system resources",
            ErrorCategory::Configuration => "Incorrect network configuration",
            ErrorCategory::Unknown => "Unknown error cause",
        };
        text.to_string()
    }

    /// The solutions for an error with this root cause (see [`solutions_text`]).
    pub fn find_possible_solutions(&self, context: &ErrorContext, root_cause: &str) -> (r: Vec<String>)
        ensures
            texts(r@) == solutions_text(context.category, root_cause@),
    {
        let mut solutions: Vec<String> = Vec::new();
        assert(texts(solutions@) =~= Seq::<Seq<char>>::empty());
        match context.category {
            ErrorCategory::Connection => {
                if contains_text(root_cause, "port is already used") {
                    push_text(&mut solutions, "Free the port by terminating the process using it");
                    push_text(&mut solutions, "Change the port in the node configuration");
                    push_text(&mut solutions, "Add automatic port search");
                }
            },
            ErrorCategory::Authentication => {
                push_text(&mut solutions, "Check and update authentication keys");
                push_text(&mut solutions, "Reconnect with new credentials");
            },
            ErrorCategory::Protocol => {
                push_text(&mut solutions, "Update protocol version");
                push_text(&mut solutions, "Add backward compatibility support");
            },
            ErrorCategory::Resource => {
                push_text(&mut solutions, "Increase system resource limits");
                push_text(&mut solutions, "Optimize resource usage");
            },
            ErrorCategory::Configuration => {
                push_text(&mut solutions, "Check and fix configuration files");
                push_text(&mut solutions, "Reset settings to default values");
            },
            ErrorCategory::Unknown => {
                push_text(&mut solutions, "Collect additional diagnostic information");
                push_text(&mut solutions, "Check system logs");
            },
        }
        solutions
    }

    /// The number of recorded errors with the same category and description
    /// (truncated to 32 bits).
    pub fn check_error_recurrence(&self, context: &ErrorContext) -> (r: u32)
        ensures
            r == recurrences(self.errors@, context.category, context.description@).len() as u32,
    {
        let ids = error_ids(&self.errors);
        let ghost m = self.errors@;
        let ghost target = recurrences(m, context.category, context.description@);
        let mut count: usize = 0;
        let mut n: usize = 0;
        assert(target.intersect(ids@.take(0).to_set()) =~= Set::<u128>::empty());
        while n < ids.len()
            invariant
                n <= ids@.len(),
                ids@.to_set() == m.dom(),
                ids@.no_duplicates(),
                m == self.errors@,
                target == recurrences(m, context.category, context.description@),
                count == target.intersect(ids@.take(n as int).to_set()).len(),
                count <= n,
            decreases ids@.len() - n,
        {
            let k = ids[n];
            assert(ids@.to_set().contains(k));
            let hit = match self.errors.get(&k) {
                Some(e) => e.context.category == context.category && str_eq(
                    e.context.description.as_str(),
                    context.description.as_str(),
                ),
                None => false,
            };
            proof {
                let before = ids@.take(n as int).to_set();
                assert(ids@.take(n as int + 1) =~= ids@.take(n as int).push(k));
                ids@.take(n as int).lemma_push_to_set_commute(k);
                assert(!before.contains(k)) by {
                    if before.contains(k) {
                        let j = choose|j: int| 0 <= j < n && ids@.take(n as int)[j] == k;
                        assert(ids@[j] == ids@[n as int]);
                    }
                }
                if hit {
                    assert(target.intersect(before.insert(k)) =~= target.intersect(before).insert(k));
                } else {
                    assert(target.intersect(before.insert(k)) =~= target.intersect(before));
                }
                vstd::set_lib::lemma_len_subset(target.intersect(before), before);
                ids@.take(n as int).unique_seq_to_set();
            }
            if hit {
                count = count + 1;
            }
            n = n + 1;
        }
        proof {
            assert(ids@.take(n as int) =~= ids@);
            assert(target.intersect(ids@.to_set()) =~= target);
        }
        #[verifier::truncate]
        (count as u32)
    }

    /// The ids of the recorded errors of the same category from the last
    /// hour before `now`, each once, in no particular order.
    pub fn find_related_errors(&self, context: &ErrorContext, now: u64) -> (r: Vec<u128>)
        ensures
            r@.to_set() == related(self.errors@, context.category, now),
            r@.no_duplicates(),
    {
        let ids = error_ids(&self.errors);
        let ghost m = self.errors@;
        let ghost target = related(m, context.category, now);
        let mut out: Vec<u128> = Vec::new();
        let mut n: usize = 0;
        assert(target.intersect(ids@.take(0).to_set()) =~= out@.to_set());
        while n < ids.len()
            invariant
                n <= ids@.len(),
                ids@.to_set() == m.dom(),
                ids@.no_duplicates(),
                m == self.errors@,
                target == related(m, context.category, now),
                out@.to_set() == target.intersect(ids@.take(n as int).to_set()),
                out@.no_duplicates(),
            decreases ids@.len() - n,
        {
            let k = ids[n];
            assert(ids@.to_set().contains(k));
            let hit = match self.errors.get(&k) {
                Some(e) => e.context.category == context.category && (e.context.timestamp as u128)
                    + (RELATED_WINDOW_SECS as u128) > now as u128,
                None => false,
            };
            proof {
                let before = ids@.take(n as int).to_set();
                assert(ids@.take(n as int + 1) =~= ids@.take(n as int).push(k));
                ids@.take(n as int).lemma_push_to_set_commute(k);
                assert(!before.contains(k)) by {
                    if before.contains(k) {
                        let j = choose|j: int| 0 <= j < n && ids@.take(n as int)[j] == k;
                        assert(ids@[j] == ids@[n as int]);
                    }
                }
            }
            if hit {
                let ghost prev = out@;
                out.push(k);
                proof {
                    prev.lemma_push_to_set_commute(k);
                    assert(out@.to_set() =~= target.intersect(ids@.take(n as int + 1).to_set()));
                    assert(!prev.contains(k)) by {
                        if prev.contains(k) {
                            assert(prev.to_set().contains(k));
                        }
                    }
                }
            } else {
                assert(out@.to_set() =~= target.intersect(ids@.take(n as int + 1).to_set()));
            }
            n = n + 1;
        }
        proof {
            assert(ids@.take(n as int) =~= ids@);
            assert(out@.to_set() =~= target);
        }
        out
    }

    /// The number of recorded errors of a category (truncated to 32 bits).
    fn count_category(&self, category: ErrorCategory) -> (r: u32)
        ensures
            r == in_category(self.errors@, category).len() as u32,
    {
        let ids = error_ids(&self.errors);
        let ghost m = self.errors@;
        let ghost target = in_category(m, category);
        let mut count: usize = 0;
        let mut n: usize = 0;
        assert(target.intersect(ids@.take(0).to_set()) =~= Set::<u128>::empty());
        while n < ids.len()
            invariant
                n <= ids@.len(),
                ids@.to_set() == m.dom(),
                ids@.no_duplicates(),
                m == self.errors@,
                target == in_category(m, category),
                count == target.intersect(ids@.take(n as int).to_set()).len(),
                count <= n,
            decreases ids@.len() - n,
        {
            let k = ids[n];
            assert(ids@.to_set().contains(k));
            let hit = match self.errors.get(&k) {
                Some(e) => e.context.category == category,
                None => false,
            };
            proof {
                let before = ids@.take(n as int).to_set();
                assert(ids@.take(n as int + 1) =~= ids@.take(n as int).push(k));
                ids@.take(n as int).lemma_push_to_set_commute(k);
                assert(!before.contains(k)) by {
                    if before.contains(k) {
                        let j = choose|j: int| 0 <= j < n && ids@.take(n as int)[j] == k;
                        assert(ids@[j] == ids@[n as int]);
                    }
                }
                if hit {
                    assert(target.intersect(before.insert(k)) =~= target.intersect(before).insert(k));
                } else {
                    assert(target.intersect(before.insert(k)) =~= target.intersect(before));
                }
                vstd::set_lib::lemma_len_subset(target.intersect(before), before);
                ids@.take(n as int).unique_seq_to_set();
            }
            if hit {
                count = count + 1;
            }
            n = n + 1;
        }
        proof {
            assert(ids@.take(n as int) =~= ids@);
            assert(target.intersect(ids@.to_set()) =~= target);
        }
        #[verifier::truncate]
        (count as u32)
    }

    /// Analyses an error at `now`: a fresh id, its root cause and solutions,
    /// how often it recurred and the related errors; the analysis is recorded
    /// and a copy returned.
    pub fn analyze_error(&mut self, context: ErrorContext, now: u64) -> (r: ErrorAnalysis)
        ensures
            r.root_cause@ == root_cause_text(context.category, context.description@),
            texts(r.possible_solutions@) == solutions_text(context.category, r.root_cause@),
            r.recurrence_count == recurrences(old(self).errors@, context.category, context.description@).len() as u32,
            r.related_errors@.to_set() == related(old(self).errors@, context.category, now),
            same_context(r.context, context),
            r.applied_solution is None,
            r.resolution_time_secs is None,
            final(self).errors@.contains_key(r.error_id),
            final(self).errors@ == old(self).errors@.insert(r.error_id, final(self).errors@[r.error_id]),
            same_analysis(final(self).errors@[r.error_id], r),
            final(self).solutions_history == old(self).solutions_history,
    {
        let error_id = new_uuid();
        let root_cause = self.determine_root_cause(&context);
        let possible_solutions = self.find_possible_solutions(&context, root_cause.as_str());
        let recurrence_count = self.check_error_recurrence(&context);
        let related_errors = self.find_related_errors(&context, now);
        let analysis = ErrorAnalysis {
            error_id,
            context,
            root_cause,
            possible_solutions,
            applied_solution: None,
            resolution_time_secs: None,
            recurrence_count,
            related_errors,
        };
        let copy = copy_analysis(&analysis);
        self.errors.insert(error_id, analysis);
        copy
    }

    /// Records that `solution` was applied to an error at `now`: fails for an
    /// unknown id; otherwise the solution and the time since the error
    /// (0 when the error is later) are kept, and the solution joins the
    /// history of its category.
    pub fn apply_solution(&mut self, error_id: u128, solution: String, now: u64) -> (r: Result<(), String>)
        ensures
            !old(self).errors@.contains_key(error_id) ==> (r matches Err(t) && t@ == "Error not found"@) && *final(self)
                == *old(self),
            old(self).errors@.contains_key(error_id) ==> {
                let before = old(self).errors@[error_id];
                let after = final(self).errors@[error_id];
                &&& r is Ok
                &&& final(self).errors@ == old(self).errors@.insert(error_id, after)
                &&& after.applied_solution == Some(solution)
                &&& after.resolution_time_secs == Some(
                    (if now >= before.context.timestamp { now - before.context.timestamp } else { 0 }) as u64,
                )
                &&& same_context(after.context, before.context)
                &&& after.root_cause == before.root_cause
                &&& after.possible_solutions@ == before.possible_solutions@
                &&& after.recurrence_count == before.recurrence_count
                &&& after.related_errors@ == before.related_errors@
                &&& history_after(old(self).solutions_history@, before.context.category, solution@, final(self).solutions_history@)
            },
    {
        let current = match self.errors.get(&error_id) {
            Some(e) => Some(copy_analysis(e)),
            None => None,
        };
        match current {
            Some(mut e) => {
                let category = e.context.category;
                let elapsed = now.saturating_sub(e.context.timestamp);
                let noted = solution.clone();
                e.applied_solution = Some(solution);
                e.resolution_time_secs = Some(elapsed);
                self.errors.insert(error_id, e);
                self.record_solution(category, noted);
                Ok(())
            },
            None => {
                let text = "Error not found";
                Err(text.to_string())
            },
        }
    }

    /// Adds a solution to the history of its category.
    fn record_solution(&mut self, category: ErrorCategory, solution: String)
        ensures
            history_after(old(self).solutions_history@, category, solution@, final(self).solutions_history@),
            final(self).errors == old(self).errors,
    {
        let mut i: usize = 0;
        while i < self.solutions_history.len()
            invariant
                i <= self.solutions_history@.len(),
                *self == *old(self),
                forall|k: int| 0 <= k < i ==> self.solutions_history@[k].0 != category,
            decreases self.solutions_history@.len() - i,
        {
            if self.solutions_history[i].0 == category {
                let mut list = copy_strings(&self.solutions_history[i].1);
                let ghost before = list@;
                list.push(solution);
                self.solutions_history.set(i, (category, list));
                proof {
                    assert(first_of_category(old(self).solutions_history@, category) == i as int) by {
                        assert(old(self).solutions_history@[i as int].0 == category);
                    }
                    assert(texts(before.push(solution)) =~= texts(before).push(solution@));
                }
                return;
            }
            i = i + 1;
        }
        let mut list: Vec<String> = Vec::new();
        list.push(solution);
        self.solutions_history.push((category, list));
        proof {
            assert(first_of_category(old(self).solutions_history@, category) == -1) by {
                assert(!(exists|k: int| 0 <= k < old(self).solutions_history@.len() && old(self).solutions_history@[k].0 == category));
            }
            assert(texts(seq![solution]) =~= seq![solution@]);
        }
    }

    /// The applied solutions, by category, in the order first applied.
    pub fn get_successful_solutions(&self) -> (r: Vec<(ErrorCategory, Vec<String>)>)
        ensures
            r@.len() == self.solutions_history@.len(),
            forall|i: int| 0 <= i < r@.len() ==> (#[trigger] r@[i]).0 == self.solutions_history@[i].0 && r@[i].1@
                == self.solutions_history@[i].1@,
    {
        let mut out: Vec<(ErrorCategory, Vec<String>)> = Vec::new();
        let mut i: usize = 0;
        while i < self.solutions_history.len()
            invariant
                i <= self.solutions_history@.len(),
                out@.len() == i,
                forall|k: int| 0 <= k < i ==> (#[trigger] out@[k]).0 == self.solutions_history@[k].0 && out@[k].1@
                    == self.solutions_history@[k].1@,
            decreases self.solutions_history@.len() - i,
        {
            out.push((self.solutions_history[i].0, copy_strings(&self.solutions_history[i].1)));
            i = i + 1;
        }
        out
    }

    /// The number of recorded errors of each category that has any, in the
    /// order of the categories' declaration, each with the category's name.
    pub fn get_error_statistics(&self) -> (r: Vec<(String, u32)>)
        ensures
            r@.map_values(|p: (String, u32)| (p.0@, p.1)) == category_counts(self.errors@),
    {
        let mut out: Vec<(String, u32)> = Vec::new();
        let cats = [
            ErrorCategory::Connection,
            ErrorCategory::Authentication,
            ErrorCategory::Protocol,
            ErrorCategory::Resource,
            ErrorCategory::Configuration,
            ErrorCategory::Unknown,
        ];
        let mut i: usize = 0;
        while i < 6
            invariant
                i <= 6,
                cats@ == all_categories(),
                out@.map_values(|p: (String, u32)| (p.0@, p.1)) == counts_over(self.errors@, all_categories().take(i as int)),
            decreases 6 - i,
        {
            let c = cats[i];
            let n = self.count_category(c);
            let ghost before = out@;
            if in_category_nonempty(self, c) {
                let name = category_name(c).to_string();
                assert(name@ == category_text(c));
                out.push((name, n));
                assert(out@.map_values(|p: (String, u32)| (p.0@, p.1)) =~= before.map_values(|p: (String, u32)| (p.0@, p.1)).push((category_text(c), n)));
            } else {
                assert(out@ == before);
            }
            proof {
                assert(all_categories().take(i as int + 1) =~= all_categories().take(i as int).push(c));
                assert(all_categories().take(i as int + 1).drop_last() =~= all_categories().take(i as int));
                assert(all_categories().take(i as int + 1).last() == c);
                assert(out@.map_values(|p: (String, u32)| (p.0@, p.1)) =~= counts_over(self.errors@, all_categories().take(i as int + 1)));
            }
            i = i + 1;
        }
        assert(all_categories().take(6) =~= all_categories());
        out
    }
}

} // verus!
