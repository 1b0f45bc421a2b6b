//! System-wide error classification and the resolution steps of semantic
//! errors.

use vstd::prelude::*;

use crate::text::{contains_text, has_substring, push_str, string_of};

verus! {

/// Error severity.
#[derive(Debug, Clone, Copy, PartialEq, Eq, Structural)]
pub enum ErrorSeverity {
    Low,
    Medium,
    High,
    Critical,
}

/// Error category, by subsystem.
#[derive(Debug, Clone, Copy, PartialEq, Eq, Structural)]
pub enum ErrorCategory {
    NetworkConnection,
    NetworkAuthentication,
    NetworkProtocol,
    NetworkResource,
    NetworkConfiguration,
    QuantumState,
    QuantumMeasurement,
    QuantumInterference,
    QuantumEntanglement,
    QuantumDecoherence,
    ShardAssignment,
    ShardSynchronization,
    ShardConsensus,
    ShardResource,
    ConsensusProtocol,
    ConsensusValidation,
    ConsensusTimeout,
    ConsensusConflict,
    SystemResource,
    SystemConfiguration,
    SystemSecurity,
    SystemPerformance,
    Unknown,
}

/// One step towards resolving a semantic error.
#[derive(Debug)]
pub struct ResolutionStep {
    /// What to do
    pub action: String,
    /// What it should achieve
    pub expected_effect: String,
    /// How to check it
    pub verification_method: String,
}

/// The kind of context a semantic error arose in.
#[derive(Debug, Clone, Copy, PartialEq, Eq, Structural)]
pub enum SemanticContextKind {
    QuantumSuperposition,
    QuantumEntanglement,
    QuantumDecoherence,
    ShardDistribution,
    ShardSynchronization,
    ConsensusState,
    SystemState,
}

/// The texts of a resolution step.
pub open spec fn step_text(s: ResolutionStep) -> (Seq<char>, Seq<char>, Seq<char>) {
    (s.action@, s.expected_effect@, s.verification_method@)
}

/// The resolution of a semantic error of this kind, as step texts and the
/// expected outcome; none for kinds without a known resolution.
pub open spec fn resolution_text(kind: SemanticContextKind) -> Option<(Seq<(Seq<char>, Seq<char>, Seq<char>)>, Seq<char>)> {
    match kind {
        SemanticContextKind::QuantumSuperposition => Some(
            (
                seq![
                    ("Quantum state reinitialization"@, "Restoration of correct superposition"@, "Quantum state check"@),
                    ("Quantum operation calibration"@, "Improved measurement accuracy"@, "Quantum tomography"@),
                ],
                "Restoration of expected quantum behavior"@,
            ),
        ),
        SemanticContextKind::ShardDistribution => Some(
            (
                seq![
                    ("Load redistribution between shards"@, "Load balancing"@, "Load monitoring"@),
                    ("Optimization of node distribution"@, "Improved balancing"@, "Performance metric analysis"@),
                ],
                "Achievement of expected load distribution"@,
            ),
        ),
        _ => None,
    }
}

/// A resolution step from its three texts.
fn step(action: &str, effect: &str, method: &str) -> (r: ResolutionStep)
    ensures
        step_text(r) == (action@, effect@, method@),
{
    ResolutionStep {
        action: action.to_string(),
        expected_effect: effect.to_string(),
        verification_method: method.to_string(),
    }
}

/// The resolution steps and expected outcome for a semantic error of this
/// kind (see [`resolution_text`]).
pub fn resolution_for(kind: SemanticContextKind) -> (r: Option<(Vec<ResolutionStep>, String)>)
    ensures
        match (r, resolution_text(kind)) {
            (Some((steps, outcome)), Some((texts, expected))) => steps@.map_values(|s: ResolutionStep| step_text(s))
                == texts && outcome@ == expected,
            (None, None) => true,
            _ => false,
        },
{
    match kind {
        SemanticContextKind::QuantumSuperposition => {
            let mut steps: Vec<ResolutionStep> = Vec::new();
            steps.push(step("Quantum state reinitialization", "Restoration of correct superposition", "Quantum state check"));
            steps.push(step("Quantum operation calibration", "Improved measurement accuracy", "Quantum tomography"));
            let outcome = "Restoration of expected quantum behavior".to_string();
            proof {
                let pair = resolution_text(kind)->0;
                let expected = pair.0;
                assert(steps@.map_values(|s: ResolutionStep| step_text(s)) =~= expected);
            }
            Some((steps, outcome))
        },
        SemanticContextKind::ShardDistribution => {
            let mut steps: Vec<ResolutionStep> = Vec::new();
            steps.push(step("Load redistribution between shards", "Load balancing", "Load monitoring"));
            steps.push(step("Optimization of node distribution", "Improved balancing", "Performance metric analysis"));
            let outcome = "Achievement of expected load distribution".to_string();
            proof {
                let pair = resolution_text(kind)->0;
                let expected = pair.0;
                assert(steps@.map_values(|s: ResolutionStep| step_text(s)) =~= expected);
            }
            Some((steps, outcome))
        },
        _ => None,
    }
}

/// The views of a list of texts.
pub open spec fn texts_view(v: Seq<String>) -> Seq<Seq<char>> {
    v.map_values(|s: String| s@)
}

/// What a semantic error of this kind affects: the affected semantics, the
/// path along which it propagates, and its implications for the system.
pub open spec fn impact_text(kind: SemanticContextKind) -> (Seq<Seq<char>>, Seq<Seq<char>>, Seq<Seq<char>>) {
    match kind {
        SemanticContextKind::QuantumSuperposition => (
            seq!["Quantum superposition"@, "Probabilistic distribution"@],
            seq!["Quantum state"@, "Probabilistic distribution"@, "Quantum operations"@],
            seq!["Influence on quantum computing"@, "Influence on consensus"@],
        ),
        SemanticContextKind::ShardDistribution => (
            seq!["Load distribution"@, "Shard balancing"@],
            seq!["Load distribution"@, "Shard synchronization"@, "Consensus"@],
            seq!["Influence on performance"@, "Influence on scalability"@],
        ),
        _ => (seq!["General influence"@], Seq::empty(), seq!["Unknown influence"@]),
    }
}

/// The cause and effect of the causal link recorded for a semantic error of
/// this kind; none for kinds without a known link.
pub open spec fn causal_text(kind: SemanticContextKind) -> Option<(Seq<char>, Seq<char>)> {
    match kind {
        SemanticContextKind::QuantumSuperposition => Some(
            ("Incorrect quantum state initialization"@, "Deviation from expected behavior"@),
        ),
        SemanticContextKind::ShardDistribution => Some(("Uneven load distribution"@, "Deviation from expected load"@)),
        _ => None,
    }
}

fn owned(s: &str) -> (r: String)
    ensures
        r@ == s@,
{
    s.to_string()
}

/// The affected semantics, propagation path and system implications of a
/// semantic error of this kind (see [`impact_text`]).
pub fn semantic_impact_for(kind: SemanticContextKind) -> (r: (Vec<String>, Vec<String>, Vec<String>))
    ensures
        (texts_view(r.0@), texts_view(r.1@), texts_view(r.2@)) == impact_text(kind),
{
    let mut affected: Vec<String> = Vec::new();
    let mut path: Vec<String> = Vec::new();
    let mut implications: Vec<String> = Vec::new();
    match kind {
        SemanticContextKind::QuantumSuperposition => {
            affected.push(owned("Quantum superposition"));
            affected.push(owned("Probabilistic distribution"));
            path.push(owned("Quantum state"));
            path.push(owned("Probabilistic distribution"));
            path.push(owned("Quantum operations"));
            implications.push(owned("Influence on quantum computing"));
            implications.push(owned("Influence on consensus"));
        },
        SemanticContextKind::ShardDistribution => {
            affected.push(owned("Load distribution"));
            affected.push(owned("Shard balancing"));
            path.push(owned("Load distribution"));
            path.push(owned("Shard synchronization"));
            path.push(owned("Consensus"));
            implications.push(owned("Influence on performance"));
            implications.push(owned("Influence on scalability"));
        },
        _ => {
            affected.push(owned("General influence"));
            implications.push(owned("Unknown influence"));
        },
    }
    let ghost expected = impact_text(kind);
    assert(texts_view(affected@) =~= expected.0);
    assert(texts_view(path@) =~= expected.1);
    assert(texts_view(implications@) =~= expected.2);
    (affected, path, implications)
}

/// The cause and effect of the causal link of a semantic error of this kind
/// (see [`causal_text`]).
pub fn causal_link_for(kind: SemanticContextKind) -> (r: Option<(String, String)>)
    ensures
        match (r, causal_text(kind)) {
            (Some((c, e)), Some((ec, ee))) => c@ == ec && e@ == ee,
            (None, None) => true,
            _ => false,
        },
{
    match kind {
        SemanticContextKind::QuantumSuperposition => Some(
            (owned("Incorrect quantum state initialization"), owned("Deviation from expected behavior")),
        ),
        SemanticContextKind::ShardDistribution => Some(
            (owned("Uneven load distribution"), owned("Deviation from expected load")),
        ),
        _ => None,
    }
}

/// The evidence of a superposition error: the expected and the actual
/// behaviour, each with its label.
pub fn behavior_evidence(expected: &str, actual: &str) -> (r: Vec<String>)
    ensures
        texts_view(r@) == seq!["Expected behavior: "@ + expected@, "Actual behavior: "@ + actual@],
{
    let mut first: Vec<char> = Vec::new();
    push_str(&mut first, "Expected behavior: ");
    push_str(&mut first, expected);
    let mut second: Vec<char> = Vec::new();
    push_str(&mut second, "Actual behavior: ");
    push_str(&mut second, actual);
    let mut out: Vec<String> = Vec::new();
    out.push(string_of(&first));
    out.push(string_of(&second));
    assert(texts_view(out@) =~= seq!["Expected behavior: "@ + expected@, "Actual behavior: "@ + actual@]);
    out
}

/// The root cause found for a system error of this category: a connection
/// error by its description; a quantum-state error by whether the recorded
/// state holds invalid values (`None` when no state was recorded); a shard
/// consensus error by whether the shard information records a conflict
/// (`None` when there is none).
pub open spec fn system_root_cause_text(
    category: ErrorCategory,
    description: Seq<char>,
    state_invalid: Option<bool>,
    has_conflict: Option<bool>,
) -> Seq<char> {
    match category {
        ErrorCategory::NetworkConnection => if has_substring(description, "Address already in use"@) {
            "Порт уже используется другим процессом"@
        } else if has_substring(description, "Connection refused"@) {
            "Удаленный узел недоступен или отклоняет соединение"@
        } else {
            "Неизвестная проблема с соединением"@
        },
        ErrorCategory::QuantumState => match state_invalid {
            Some(true) => "Некорректное квантовое состояние: обнаружены недопустимые значения"@,
            Some(false) => "Нарушение квантового состояния"@,
            None => "Отсутствует информация о квантовом состоянии"@,
        },
        ErrorCategory::ShardConsensus => match has_conflict {
            Some(true) => "Конфликт консенсуса между шардами"@,
            Some(false) => "Нарушение консенсуса в шарде"@,
            None => "Проблема с консенсусом шарда"@,
        },
        _ => "Неизвестная причина ошибки"@,
    }
}

/// The solutions offered for a system error of this category with this
/// root cause. A connection error gets solutions only when the root cause
/// mentions (in lower case) that the port is already used.
pub open spec fn system_solutions_text(category: ErrorCategory, root_cause: Seq<char>) -> Seq<Seq<char>> {
    match category {
        ErrorCategory::NetworkConnection => if has_substring(root_cause, "порт уже используется"@) {
            seq![
                "Освободить порт, завершив процесс, который его использует"@,
                "Изменить порт в конфигурации узла"@,
                "Добавить автоматический поиск свободного порта"@,
            ]
        } else {
            Seq::empty()
        },
        ErrorCategory::QuantumState => seq![
            "Переинициализировать квантовое состояние"@,
            "Применить квантовую коррекцию ошибок"@,
            "Проверить и исправить параметры квантовых операций"@,
        ],
        ErrorCategory::ShardConsensus => seq![
            "Перезапустить процесс консенсуса"@,
            "Проверить и синхронизировать состояние шардов"@,
            "Применить механизм разрешения конфликтов"@,
        ],
        _ => seq!["Собрать дополнительную диагностическую информацию"@, "Проверить логи системы"@],
    }
}

/// The components that a system error of this category affects.
pub open spec fn system_components_text(category: ErrorCategory) -> Seq<Seq<char>> {
    match category {
        ErrorCategory::NetworkConnection => seq!["Network"@],
        ErrorCategory::QuantumState => seq!["Quantum"@, "Consensus"@],
        ErrorCategory::ShardConsensus => seq!["Sharding"@, "Consensus"@],
        _ => seq!["System"@],
    }
}

/// The root cause of a system error (see [`system_root_cause_text`]).
pub fn system_root_cause(
    category: ErrorCategory,
    description: &str,
    state_invalid: Option<bool>,
    has_conflict: Option<bool>,
) -> (r: String)
    ensures
        r@ == system_root_cause_text(category, description@, state_invalid, has_conflict),
{
    let text = match category {
        ErrorCategory::NetworkConnection => {
            if contains_text(description, "Address already in use") {
                "Порт уже используется другим процессом"
            } else if contains_text(description, "Connection refused") {
                "Удаленный узел недоступен или отклоняет соединение"
            } else {
                "Неизвестная проблема с соединением"
            }
        },
        ErrorCategory::QuantumState => match state_invalid {
            Some(true) => "Некорректное квантовое состояние: обнаружены недопустимые значения",
            Some(false) => "Нарушение квантового состояния",
            None => "Отсутствует информация о квантовом состоянии",
        },
        ErrorCategory::ShardConsensus => match has_conflict {
            Some(true) => "Конфликт консенсуса между шардами",
            Some(false) => "Нарушение консенсуса в шарде",
            None => "Проблема с консенсусом шарда",
        },
        _ => "Неизвестная причина ошибки",
    };
    owned(text)
}

fn push_owned(v: &mut Vec<String>, s: &str)
    ensures
        texts_view(final(v)@) == texts_view(old(v)@).push(s@),
{
    let ghost before = v@;
    v.push(owned(s));
    assert(texts_view(v@) =~= texts_view(before).push(s@));
}

/// The solutions for a system error with this root cause (see
/// [`system_solutions_text`]).
pub fn system_solutions(category: ErrorCategory, root_cause: &str) -> (r: Vec<String>)
    ensures
        texts_view(r@) == system_solutions_text(category, root_cause@),
{
    let mut out: Vec<String> = Vec::new();
    assert(texts_view(out@) =~= Seq::<Seq<char>>::empty());
    match category {
        ErrorCategory::NetworkConnection => {
            if contains_text(root_cause, "порт уже используется") {
                push_owned(&mut out, "Освободить порт, завершив процесс, который его использует");
                push_owned(&mut out, "Изменить порт в конфигурации узла");
                push_owned(&mut out, "Добавить автоматический поиск свободного порта");
            }
        },
        ErrorCategory::QuantumState => {
            push_owned(&mut out, "Переинициализировать квантовое состояние");
            push_owned(&mut out, "Применить квантовую коррекцию ошибок");
            push_owned(&mut out, "Проверить и исправить параметры квантовых операций");
        },
        ErrorCategory::ShardConsensus => {
            push_owned(&mut out, "Перезапустить процесс консенсуса");
            push_owned(&mut out, "Проверить и синхронизировать состояние шардов");
            push_owned(&mut out, "Применить механизм разрешения конфликтов");
        },
        _ => {
            push_owned(&mut out, "Собрать дополнительную диагностическую информацию");
            push_owned(&mut out, "Проверить логи системы");
        },
    }
    proof {
        assert(texts_view(out@) =~= system_solutions_text(category, root_cause@));
    }
    out
}

/// The components a system error of this category affects (see
/// [`system_components_text`]).
pub fn system_affected_components(category: ErrorCategory) -> (r: Vec<String>)
    ensures
        texts_view(r@) == system_components_text(category),
{
    let mut out: Vec<String> = Vec::new();
    assert(texts_view(out@) =~= Seq::<Seq<char>>::empty());
    match category {
        ErrorCategory::NetworkConnection => push_owned(&mut out, "Network"),
        ErrorCategory::QuantumState => {
            push_owned(&mut out, "Quantum");
            push_owned(&mut out, "Consensus");
        },
        ErrorCategory::ShardConsensus => {
            push_owned(&mut out, "Sharding");
            push_owned(&mut out, "Consensus");
        },
        _ => push_owned(&mut out, "System"),
    }
    proof {
        assert(texts_view(out@) =~= system_components_text(category));
    }
    out
}

} // verus!
