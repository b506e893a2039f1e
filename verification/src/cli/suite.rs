//! Options of candidate suites: weights, baseline, and workers.

use crate::cli::rules::{
    baseline_models, law_sorting_keeps_every_rule, parse_suite_rules, rule_models, sorted_rules,
    RuleNumber, SortedRules,
};
use crate::cli::CliResult;
use crate::error::ErrorView;
use crate::gate::{BaselineThresholdRule, MetricThresholdRule};
use crate::metrics::{MetricDetails, Score};
use crate::strings::{
    law_split_first_cuts_once, law_split_first_finds_the_token, split_first, split_once, trim, trimmed,
};
use crate::text::{concat3, same_text};
use vstd::prelude::*;

verus! {

/// Metric name of a weight text, or why it is none.
pub open spec fn weight_name(spec_text: Seq<char>, value: Option<Score>) -> core::result::Result<
    (Seq<char>, Score),
    Seq<char>,
> {
    match split_first(spec_text, "="@) {
        None => Err("invalid metric weight `"@ + spec_text + "`; expected metric=value"@),
        Some((metric, _)) => if trimmed(metric).len() == 0 {
            Err("metric weight name cannot be empty"@)
        } else {
            match value {
                None => Err("invalid metric weight `"@ + spec_text + "`"@),
                Some(weight) => Ok((trimmed(metric), weight)),
            }
        },
    }
}

/// Message for the first of the first `count` texts that is no weight.
pub open spec fn weights_fault(specs: Seq<String>, values: Seq<Option<Score>>, count: int) -> Option<
    Seq<char>,
>
    decreases count,
{
    if count <= 0 {
        None
    } else if weights_fault(specs, values, count - 1) is Some {
        weights_fault(specs, values, count - 1)
    } else {
        match weight_name(specs[count - 1]@, values[count - 1]) {
            Ok(_) => None,
            Err(message) => Some(message),
        }
    }
}

/// Weight of a metric after the first `count` texts; a later text replaces an
/// earlier one.
pub open spec fn weight_after(
    specs: Seq<String>,
    values: Seq<Option<Score>>,
    metric: Seq<char>,
    count: int,
) -> Option<Score>
    decreases count,
{
    if count <= 0 {
        None
    } else {
        match weight_name(specs[count - 1]@, values[count - 1]) {
            Ok((name, weight)) => if name == metric {
                Some(weight)
            } else {
                weight_after(specs, values, metric, count - 1)
            },
            Err(_) => None,
        }
    }
}

proof fn lemma_weights_fault(
    specs: Seq<String>,
    values: Seq<Option<Score>>,
    count: int,
    more: int,
)
    requires
        0 <= count <= more,
        weights_fault(specs, values, count) is Some,
    ensures
        weights_fault(specs, values, more) == weights_fault(specs, values, count),
    decreases more - count,
{
    if count < more {
        lemma_weights_fault(specs, values, count, more - 1);
    }
}

/// Text behind the `=` of a weight, which has to be read as its number.
pub fn weight_number<'a>(spec_text: &'a str) -> (number: Option<&'a str>)
    ensures
        match number {
            Some(text) => split_first(spec_text@, "="@) matches Some((_, value)) && text@
                == trimmed(value),
            None => split_first(spec_text@, "="@) is None,
        },
{
    match split_once(spec_text, "=") {
        Some((_, value)) => Some(trim(value)),
        None => None,
    }
}

/// Collects metric weights. `values` holds what the texts found by
/// [`weight_number`] read as.
pub fn parse_weights(specs: &Vec<String>, values: &Vec<Option<Score>>) -> (result: CliResult<
    MetricDetails,
>)
    requires
        specs@.len() == values@.len(),
    ensures
        match result {
            Ok(weights) => {
                &&& weights_fault(specs@, values@, specs@.len() as int) is None
                &&& forall|metric: Seq<char>|
                    #[trigger] weights.spec_get(metric) == weight_after(
                        specs@,
                        values@,
                        metric,
                        specs@.len() as int,
                    )
            },
            Err(message) => weights_fault(specs@, values@, specs@.len() as int) == Some(message@),
        },
{
    let mut weights = MetricDetails::new();
    let mut i: usize = 0;
    while i < specs.len()
        invariant
            i <= specs.len(),
            specs@.len() == values@.len(),
            weights_fault(specs@, values@, i as int) is None,
            forall|metric: Seq<char>|
                #[trigger] weights.spec_get(metric) == weight_after(
                    specs@,
                    values@,
                    metric,
                    i as int,
                ),
        decreases specs.len() - i,
    {
        let text = specs[i].as_str();
        let (metric, _) = match split_once(text, "=") {
            Some(sides) => sides,
            None => {
                proof {
                    lemma_weights_fault(specs@, values@, i + 1, specs@.len() as int);
                }
                return Err(
                    concat3("invalid metric weight `", text, "`; expected metric=value"),
                );
            },
        };
        let name = trim(metric);
        if name.is_empty() {
            proof {
                lemma_weights_fault(specs@, values@, i + 1, specs@.len() as int);
            }
            return Err(String::from_str("metric weight name cannot be empty"));
        }
        match values[i] {
            None => {
                proof {
                    lemma_weights_fault(specs@, values@, i + 1, specs@.len() as int);
                }
                return Err(concat3("invalid metric weight `", text, "`"));
            },
            Some(weight) => {
                weights = weights.with(String::from_str(name), weight);
            },
        }
        i += 1;
    }
    Ok(weights)
}

/// One component of a path.
#[derive(Debug)]
pub enum PathPart {
    /// The current directory, `.`.
    CurDir,
    /// The parent directory, `..`.
    ParentDir,
    /// A root, a prefix, or a named entry, as written.
    Named(String),
}

/// A component as a mathematical value.
pub enum PartModel {
    CurDir,
    ParentDir,
    Named(Seq<char>),
}

impl View for PathPart {
    type V = PartModel;

    open spec fn view(&self) -> PartModel {
        match self {
            PathPart::CurDir => PartModel::CurDir,
            PathPart::ParentDir => PartModel::ParentDir,
            PathPart::Named(name) => PartModel::Named(name@),
        }
    }
}

/// Components as mathematical values.
pub open spec fn part_models(parts: Seq<PathPart>) -> Seq<PartModel> {
    parts.map_values(|part: PathPart| part@)
}

/// A path given on the command line.
#[derive(Debug)]
pub struct PathChoice {
    /// The path as text.
    pub label: String,
    /// Its components as written.
    pub parts: Vec<PathPart>,
    /// Components of the path that the file system resolved it to, if it could.
    pub resolved: Option<Vec<PathPart>>,
}

/// Names left of the first `count` components when `.` is dropped and `..` takes
/// the component before it away.
pub open spec fn key_first(parts: Seq<PathPart>, count: int) -> Seq<Seq<char>>
    decreases count,
{
    if count <= 0 {
        Seq::empty()
    } else {
        let before = key_first(parts, count - 1);
        match parts[count - 1]@ {
            PartModel::CurDir => before,
            PartModel::ParentDir => if before.len() > 0 {
                before.drop_last()
            } else {
                before
            },
            PartModel::Named(name) => before.push(name),
        }
    }
}

/// Key under which a resolved path is found.
pub open spec fn path_key(parts: Seq<PathPart>) -> Seq<Seq<char>> {
    key_first(parts, parts.len() as int)
}

/// Key of a path, if it could be resolved.
pub open spec fn choice_key(path: PathChoice) -> Option<Seq<Seq<char>>> {
    match path.resolved {
        Some(parts) => Some(path_key(parts@)),
        None => None,
    }
}

/// Computes the key of a resolved path.
pub fn resolved_path_key(parts: &Vec<PathPart>) -> (key: Vec<String>)
    ensures
        key@.map_values(|name: String| name@) == path_key(parts@),
{
    let mut key: Vec<String> = Vec::new();
    let mut i: usize = 0;
    assert(key@.map_values(|name: String| name@) =~= Seq::<Seq<char>>::empty());
    while i < parts.len()
        invariant
            i <= parts.len(),
            key@.map_values(|name: String| name@) == key_first(parts@, i as int),
        decreases parts.len() - i,
    {
        let ghost before = key@;
        match &parts[i] {
            PathPart::CurDir => {},
            PathPart::ParentDir => {
                let _ = key.pop();
                assert(before.len() > 0 ==> key@.map_values(|name: String| name@)
                    =~= before.map_values(|name: String| name@).drop_last());
            },
            PathPart::Named(name) => {
                key.push(name.clone());
                assert(key@.map_values(|name: String| name@) =~= before.map_values(
                    |name: String| name@,
                ).push(name@));
            },
        }
        i += 1;
    }
    key
}

fn same_part(a: &PathPart, b: &PathPart) -> (same: bool)
    ensures
        same == (a@ == b@),
{
    match (a, b) {
        (PathPart::CurDir, PathPart::CurDir) => true,
        (PathPart::ParentDir, PathPart::ParentDir) => true,
        (PathPart::Named(x), PathPart::Named(y)) => same_text(x.as_str(), y.as_str()),
        _ => false,
    }
}

fn same_parts(a: &Vec<PathPart>, b: &Vec<PathPart>) -> (same: bool)
    ensures
        same == (part_models(a@) == part_models(b@)),
{
    if a.len() != b.len() {
        assert(part_models(a@).len() != part_models(b@).len());
        return false;
    }
    let mut i: usize = 0;
    while i < a.len()
        invariant
            i <= a.len(),
            a.len() == b.len(),
            forall|j: int| 0 <= j < i ==> (#[trigger] a@[j])@ == b@[j]@,
        decreases a.len() - i,
    {
        if !same_part(&a[i], &b[i]) {
            assert(part_models(a@)[i as int] != part_models(b@)[i as int]);
            return false;
        }
        i += 1;
    }
    assert(part_models(a@) =~= part_models(b@));
    true
}

fn same_names(a: &Vec<String>, b: &Vec<String>) -> (same: bool)
    ensures
        same == (a@.map_values(|name: String| name@) == b@.map_values(|name: String| name@)),
{
    let ghost x = a@.map_values(|name: String| name@);
    let ghost y = b@.map_values(|name: String| name@);
    if a.len() != b.len() {
        assert(x.len() != y.len());
        return false;
    }
    let mut i: usize = 0;
    while i < a.len()
        invariant
            i <= a.len(),
            a.len() == b.len(),
            x == a@.map_values(|name: String| name@),
            y == b@.map_values(|name: String| name@),
            forall|j: int| 0 <= j < i ==> #[trigger] x[j] == y[j],
        decreases a.len() - i,
    {
        if !same_text(a[i].as_str(), b[i].as_str()) {
            assert(x[i as int] != y[i as int]);
            return false;
        }
        i += 1;
    }
    assert(x =~= y);
    true
}

/// First candidate at or behind `from` with the components of the baseline as
/// written.
pub open spec fn literal_from(baseline: PathChoice, candidates: Seq<PathChoice>, from: int) -> Option<
    int,
>
    decreases candidates.len() - from,
{
    if from < 0 || from >= candidates.len() {
        None
    } else if part_models(candidates[from].parts@) == part_models(baseline.parts@) {
        Some(from)
    } else {
        literal_from(baseline, candidates, from + 1)
    }
}

/// First candidate at or behind `from` that resolves to the key of the baseline.
pub open spec fn resolved_from(key: Seq<Seq<char>>, candidates: Seq<PathChoice>, from: int) -> Option<
    int,
>
    decreases candidates.len() - from,
{
    if from < 0 || from >= candidates.len() {
        None
    } else if choice_key(candidates[from]) == Some(key) {
        Some(from)
    } else {
        resolved_from(key, candidates, from + 1)
    }
}

/// Candidate that a baseline path selects: a literal match wins, then the first
/// that resolves to the same path.
pub open spec fn baseline_index(baseline: PathChoice, candidates: Seq<PathChoice>) -> Option<int> {
    if literal_from(baseline, candidates, 0) is Some {
        literal_from(baseline, candidates, 0)
    } else {
        match choice_key(baseline) {
            Some(key) => resolved_from(key, candidates, 0),
            None => None,
        }
    }
}

/// Resolves a baseline path to the label of a candidate.
///
/// A literal match wins; otherwise both sides are compared as the file system
/// resolved them, so `a.png`, `./a.png`, and `sub/../a.png` select the same
/// candidate.
pub fn resolve_baseline_label(baseline: &PathChoice, candidates: &Vec<PathChoice>) -> (label: Option<
    String,
>)
    ensures
        match label {
            Some(label) => {
                &&& baseline_index(*baseline, candidates@) matches Some(index)
                &&& 0 <= index < candidates@.len()
                &&& label@ == candidates@[index].label@
            },
            None => baseline_index(*baseline, candidates@) is None,
        },
{
    let mut i: usize = 0;
    while i < candidates.len()
        invariant
            i <= candidates.len(),
            literal_from(*baseline, candidates@, 0) == literal_from(
                *baseline,
                candidates@,
                i as int,
            ),
        decreases candidates.len() - i,
    {
        if same_parts(&candidates[i].parts, &baseline.parts) {
            return Some(candidates[i].label.clone());
        }
        i += 1;
    }
    let key = match &baseline.resolved {
        Some(parts) => resolved_path_key(parts),
        None => return None,
    };
    let ghost wanted = key@.map_values(|name: String| name@);
    let mut j: usize = 0;
    while j < candidates.len()
        invariant
            j <= candidates.len(),
            wanted == key@.map_values(|name: String| name@),
            resolved_from(wanted, candidates@, 0) == resolved_from(wanted, candidates@, j as int),
            choice_key(*baseline) == Some(wanted),
            literal_from(*baseline, candidates@, 0) is None,
        decreases candidates.len() - j,
    {
        if let Some(parts) = &candidates[j].resolved {
            let other = resolved_path_key(parts);
            if same_names(&other, &key) {
                return Some(candidates[j].label.clone());
            }
        }
        j += 1;
    }
    None
}

/// What happens to the other candidates when one cannot be compared.
#[derive(Debug, Clone, Copy, PartialEq, Eq, Structural)]
pub enum CandidateFailurePolicy {
    /// Stop at the first error.
    FailFast,
    /// Record the error and go on.
    Continue,
}

/// What the user asked of a suite.
#[derive(Debug)]
pub struct SuiteRequest {
    /// Metric used for the top-level rank.
    pub primary_metric: Option<String>,
    /// Weight texts.
    pub weights: Vec<String>,
    /// What the numbers of the weight texts read as.
    pub weight_values: Vec<Option<Score>>,
    /// Baseline path.
    pub baseline: Option<PathChoice>,
    /// Candidate paths.
    pub candidates: Vec<PathChoice>,
    /// Rule texts.
    pub rules: Vec<String>,
    /// What the numbers of the rules read as.
    pub rule_numbers: Vec<RuleNumber>,
    /// Requested workers; zero asks for as many as the machine offers.
    pub jobs: usize,
    /// Workers that the machine offers.
    pub available: usize,
    /// Stop at the first error.
    pub fail_fast: bool,
    /// Absolute tolerance for tied ranks.
    pub rank_abs_tolerance: Score,
    /// Relative tolerance for tied ranks.
    pub rank_rel_tolerance: Score,
}

/// Checked options of a suite.
#[derive(Debug)]
pub struct SuitePlan {
    /// Metric used for the top-level rank.
    pub primary_metric: Option<String>,
    /// Label of the baseline candidate.
    pub baseline_candidate: Option<String>,
    /// Weights by metric name.
    pub metric_weights: MetricDetails,
    /// Absolute rules.
    pub rules: Vec<MetricThresholdRule>,
    /// Baseline-relative rules.
    pub baseline_rules: Vec<BaselineThresholdRule>,
    /// Failure policy.
    pub failure_policy: CandidateFailurePolicy,
    /// Number of workers.
    pub max_threads: usize,
    /// Absolute tolerance for tied ranks.
    pub rank_abs_tolerance: Score,
    /// Relative tolerance for tied ranks.
    pub rank_rel_tolerance: Score,
}

/// Why a suite request cannot be planned: rules are checked before weights, and
/// weights before the baseline.
pub open spec fn suite_fault(request: SuiteRequest) -> Option<Seq<char>> {
    let specs = request.weights@;
    match sorted_rules(
        request.rules@,
        request.rule_numbers@,
        true,
        request.rules@.len() as int,
    ) {
        Err(error) => Some(error.message()),
        Ok(_) => match weights_fault(specs, request.weight_values@, specs.len() as int) {
            Some(message) => Some(message),
            None => match request.baseline {
                None => None,
                Some(baseline) => if baseline_index(baseline, request.candidates@) is None {
                    Some("baseline candidate `"@ + baseline.label@ + "` does not exist"@)
                } else {
                    None
                },
            },
        },
    }
}

/// Whether a plan carries out a request.
pub open spec fn suite_planned(request: SuiteRequest, plan: SuitePlan) -> bool {
    &&& plan.primary_metric == request.primary_metric
    &&& match request.baseline {
        None => plan.baseline_candidate is None,
        Some(baseline) => {
            &&& plan.baseline_candidate matches Some(label)
            &&& baseline_index(baseline, request.candidates@) matches Some(index)
            &&& label@ == request.candidates@[index].label@
        },
    }
    &&& forall|metric: Seq<char>|
        #[trigger] plan.metric_weights.spec_get(metric) == weight_after(
            request.weights@,
            request.weight_values@,
            metric,
            request.weights@.len() as int,
        )
    &&& sorted_rules(request.rules@, request.rule_numbers@, true, request.rules@.len() as int)
        == Ok::<SortedRules, ErrorView>(
        SortedRules {
            absolute: rule_models(plan.rules@),
            baseline: baseline_models(plan.baseline_rules@),
        },
    )
    &&& plan.failure_policy == if request.fail_fast {
        CandidateFailurePolicy::FailFast
    } else {
        CandidateFailurePolicy::Continue
    }
    &&& plan.max_threads == if request.jobs == 0 {
        request.available
    } else {
        request.jobs
    }
    &&& plan.rank_abs_tolerance == request.rank_abs_tolerance
    &&& plan.rank_rel_tolerance == request.rank_rel_tolerance
}

/// Plans the comparison of a candidate suite.
pub fn plan_suite(request: SuiteRequest) -> (result: CliResult<SuitePlan>)
    requires
        request.rules@.len() == request.rule_numbers@.len(),
        request.weights@.len() == request.weight_values@.len(),
    ensures
        match result {
            Ok(plan) => suite_fault(request) is None && suite_planned(request, plan),
            Err(message) => suite_fault(request) == Some(message@),
        },
{
    let (rules, baseline_rules) = match parse_suite_rules(&request.rules, &request.rule_numbers) {
        Ok(sorted) => sorted,
        Err(error) => return Err(error.message()),
    };
    let metric_weights = match parse_weights(&request.weights, &request.weight_values) {
        Ok(weights) => weights,
        Err(message) => return Err(message),
    };
    let max_threads: usize = if request.jobs == 0 {
        request.available
    } else {
        request.jobs
    };
    let baseline_candidate = match &request.baseline {
        None => None,
        Some(baseline) => match resolve_baseline_label(baseline, &request.candidates) {
            Some(label) => Some(label),
            None => return Err(
                concat3("baseline candidate `", baseline.label.as_str(), "` does not exist"),
            ),
        },
    };
    let failure_policy = if request.fail_fast {
        CandidateFailurePolicy::FailFast
    } else {
        CandidateFailurePolicy::Continue
    };
    Ok(
        SuitePlan {
            primary_metric: request.primary_metric,
            baseline_candidate,
            metric_weights,
            rules,
            baseline_rules,
            failure_policy,
            max_threads,
            rank_abs_tolerance: request.rank_abs_tolerance,
            rank_rel_tolerance: request.rank_rel_tolerance,
        },
    )
}

/// A weight is read from its text: the name before the first `=`, without the blanks
/// around it, gets the number behind it. A blank name is no name, and without a number
/// there is no weight.
pub proof fn law_weights_are_read(name: Seq<char>, number: Seq<char>, value: Option<Score>)
    requires
        !name.contains('='),
    ensures
        ({
            let read = weight_name(name.push('=') + number, value);
            match value {
                Some(weight) => if trimmed(name).len() > 0 {
                    read == Ok::<(Seq<char>, Score), Seq<char>>((trimmed(name), weight))
                } else {
                    read is Err
                },
                None => read is Err,
            }
        }),
{
    reveal_strlit("=");
    let text = name.push('=') + number;
    assert("="@ =~= seq!['=']);
    assert(text =~= name + seq!['='] + number);
    assert forall|j: int| 0 <= j < name.len() implies #[trigger] text.subrange(
        j,
        j + seq!['='].len(),
    ) != seq!['='] by {
        assert(text.subrange(j, j + 1)[0] == name[j]);
        assert(seq!['='][0] == '=');
        assert(name.contains(name[j]));
    }
    law_split_first_finds_the_token(name, seq!['='], number);
}

/// A text without `=` is no weight.
pub proof fn law_weights_need_a_number(text: Seq<char>, value: Option<Score>)
    requires
        !text.contains('='),
    ensures
        weight_name(text, value) is Err,
{
    reveal_strlit("=");
    law_split_first_cuts_once(text, "="@);
    if let Some((before, behind)) = split_first(text, "="@) {
        assert(text[before.len() as int] == '=');
    }
}

/// Among weights of one metric the last counts; a metric without a weight has none.
pub proof fn law_last_weight_counts(
    specs: Seq<String>,
    values: Seq<Option<Score>>,
    metric: Seq<char>,
    i: int,
)
    requires
        specs.len() == values.len(),
        weights_fault(specs, values, specs.len() as int) is None,
        -1 <= i < specs.len(),
        i >= 0 ==> weight_name(specs[i]@, values[i])->Ok_0.0 == metric,
        forall|j: int|
            i < j < specs.len() ==> (#[trigger] weight_name(specs[j]@, values[j]))->Ok_0.0 != metric,
    ensures
        i >= 0 ==> weight_after(specs, values, metric, specs.len() as int) == Some(
            weight_name(specs[i]@, values[i])->Ok_0.1,
        ),
        i < 0 ==> weight_after(specs, values, metric, specs.len() as int) is None,
{
    lemma_last_weight(specs, values, metric, i, specs.len() as int);
}

proof fn lemma_last_weight(
    specs: Seq<String>,
    values: Seq<Option<Score>>,
    metric: Seq<char>,
    i: int,
    count: int,
)
    requires
        specs.len() == values.len(),
        0 <= count <= specs.len(),
        weights_fault(specs, values, count) is None,
        -1 <= i < count,
        i >= 0 ==> weight_name(specs[i]@, values[i])->Ok_0.0 == metric,
        forall|j: int|
            i < j < count ==> (#[trigger] weight_name(specs[j]@, values[j]))->Ok_0.0 != metric,
    ensures
        i >= 0 ==> weight_after(specs, values, metric, count) == Some(
            weight_name(specs[i]@, values[i])->Ok_0.1,
        ),
        i < 0 ==> weight_after(specs, values, metric, count) is None,
    decreases count,
{
    if count > 0 {
        let last = weight_name(specs[count - 1]@, values[count - 1]);
        if i < count - 1 {
            lemma_last_weight(specs, values, metric, i, count - 1);
        }
    }
}

/// Weights are refused exactly when one of them cannot be read, with the message of the
/// first such.
pub proof fn law_first_bad_weight_is_reported(
    specs: Seq<String>,
    values: Seq<Option<Score>>,
    i: int,
)
    requires
        specs.len() == values.len(),
        0 <= i <= specs.len(),
        forall|j: int| 0 <= j < i ==> (#[trigger] weight_name(specs[j]@, values[j])) is Ok,
        i < specs.len() ==> weight_name(specs[i]@, values[i]) is Err,
    ensures
        weights_fault(specs, values, specs.len() as int) == if i < specs.len() {
            Some(weight_name(specs[i]@, values[i])->Err_0)
        } else {
            None
        },
{
    lemma_good_weights(specs, values, i);
    lemma_bad_weight(specs, values, i, specs.len() as int);
}

proof fn lemma_good_weights(specs: Seq<String>, values: Seq<Option<Score>>, count: int)
    requires
        forall|j: int| 0 <= j < count ==> (#[trigger] weight_name(specs[j]@, values[j])) is Ok,
    ensures
        weights_fault(specs, values, count) is None,
    decreases count,
{
    if count > 0 {
        lemma_good_weights(specs, values, count - 1);
        let last = weight_name(specs[count - 1]@, values[count - 1]);
    }
}

proof fn lemma_bad_weight(specs: Seq<String>, values: Seq<Option<Score>>, i: int, count: int)
    requires
        0 <= i <= count,
        weights_fault(specs, values, i) is None,
        i < count ==> weight_name(specs[i]@, values[i]) is Err,
    ensures
        weights_fault(specs, values, count) == if i < count {
            Some(weight_name(specs[i]@, values[i])->Err_0)
        } else {
            None
        },
    decreases count,
{
    if i < count - 1 {
        lemma_bad_weight(specs, values, i, count - 1);
    }
}

/// A path is followed part by part: a name goes one level down, the parent directory
/// takes the last name back and stays at the top, and the current directory changes
/// nothing.
pub proof fn law_paths_are_followed(parts: Seq<PathPart>, part: PathPart)
    ensures
        path_key(Seq::empty()).len() == 0,
        match part {
            PathPart::CurDir => path_key(parts.push(part)) == path_key(parts),
            PathPart::Named(name) => path_key(parts.push(part)) == path_key(parts).push(name@),
            PathPart::ParentDir => if path_key(parts).len() == 0 {
                path_key(parts.push(part)).len() == 0
            } else {
                path_key(parts.push(part)) == path_key(parts).drop_last()
            },
        },
{
    lemma_same_key(parts.push(part), parts, parts.len() as int);
}

proof fn lemma_same_key(a: Seq<PathPart>, b: Seq<PathPart>, count: int)
    requires
        count <= a.len(),
        count <= b.len(),
        forall|i: int| 0 <= i < count ==> #[trigger] a[i] == b[i],
    ensures
        key_first(a, count) == key_first(b, count),
    decreases count,
{
    if count > 0 {
        lemma_same_key(a, b, count - 1);
        assert(a[count - 1] == b[count - 1]);
    }
}

/// Going down and up again leads back.
pub proof fn law_up_undoes_down(parts: Seq<PathPart>, down: PathPart, up: PathPart)
    requires
        down is Named,
        up is ParentDir,
    ensures
        path_key(parts.push(down).push(up)) == path_key(parts),
{
    law_paths_are_followed(parts, down);
    law_paths_are_followed(parts.push(down), up);
    assert(path_key(parts.push(down)).drop_last() =~= path_key(parts));
}

/// The baseline is the first candidate whose path is written the same way; only without
/// one is it the first that leads to the same place.
pub proof fn law_baseline_is_found(baseline: PathChoice, candidates: Seq<PathChoice>, i: int)
    requires
        0 <= i < candidates.len(),
    ensures
        part_models(candidates[i].parts@) == part_models(baseline.parts@) && (forall|j: int|
            0 <= j < i ==> part_models((#[trigger] candidates[j]).parts@) != part_models(
                baseline.parts@,
            )) ==> baseline_index(baseline, candidates) == Some(i),
        (forall|j: int|
            0 <= j < candidates.len() ==> part_models((#[trigger] candidates[j]).parts@)
                != part_models(baseline.parts@)) && (baseline.resolved matches Some(own)
            && candidates[i].resolved matches Some(other) && path_key(own@) == path_key(other@))
            && (forall|j: int|
            0 <= j < i ==> ((#[trigger] candidates[j]).resolved matches Some(other) ==> path_key(
                other@,
            ) != path_key(baseline.resolved->Some_0@))) ==> baseline_index(baseline, candidates)
            == Some(i),
{
    if part_models(candidates[i].parts@) == part_models(baseline.parts@) && (forall|j: int|
        0 <= j < i ==> part_models((#[trigger] candidates[j]).parts@) != part_models(
            baseline.parts@,
        )) {
        lemma_literal(baseline, candidates, i, 0);
    }
    if forall|j: int|
        0 <= j < candidates.len() ==> part_models((#[trigger] candidates[j]).parts@)
            != part_models(baseline.parts@) {
        lemma_no_literal(baseline, candidates, 0);
        if let Some(own) = baseline.resolved {
            let key = path_key(own@);
            if choice_key(candidates[i]) == Some(key) && (forall|j: int|
                0 <= j < i ==> ((#[trigger] candidates[j]).resolved matches Some(other)
                    ==> path_key(other@) != key)) {
                lemma_resolved(key, candidates, i, 0);
            }
        }
    }
}

proof fn lemma_literal(baseline: PathChoice, candidates: Seq<PathChoice>, i: int, from: int)
    requires
        0 <= from <= i < candidates.len(),
        part_models(candidates[i].parts@) == part_models(baseline.parts@),
        forall|j: int|
            from <= j < i ==> part_models((#[trigger] candidates[j]).parts@) != part_models(
                baseline.parts@,
            ),
    ensures
        literal_from(baseline, candidates, from) == Some(i),
    decreases i - from,
{
    if from < i {
        lemma_literal(baseline, candidates, i, from + 1);
        let candidate = candidates[from];
    }
}

proof fn lemma_no_literal(baseline: PathChoice, candidates: Seq<PathChoice>, from: int)
    requires
        0 <= from,
        forall|j: int|
            from <= j < candidates.len() ==> part_models((#[trigger] candidates[j]).parts@)
                != part_models(baseline.parts@),
    ensures
        literal_from(baseline, candidates, from) is None,
    decreases candidates.len() - from,
{
    if from < candidates.len() {
        lemma_no_literal(baseline, candidates, from + 1);
        let candidate = candidates[from];
    }
}

proof fn lemma_resolved(key: Seq<Seq<char>>, candidates: Seq<PathChoice>, i: int, from: int)
    requires
        0 <= from <= i < candidates.len(),
        choice_key(candidates[i]) == Some(key),
        forall|j: int|
            from <= j < i ==> ((#[trigger] candidates[j]).resolved matches Some(other) ==> path_key(
                other@,
            ) != key),
    ensures
        resolved_from(key, candidates, from) == Some(i),
    decreases i - from,
{
    if from < i {
        lemma_resolved(key, candidates, i, from + 1);
        let candidate = candidates[from];
    }
}

/// A plan takes over what was asked for: metric, tolerances, failure policy, and threads,
/// where zero threads mean all that are available.
pub proof fn law_suite_plan_follows_the_request(request: SuiteRequest, plan: SuitePlan)
    requires
        suite_fault(request) is None,
        suite_planned(request, plan),
    ensures
        plan.primary_metric == request.primary_metric,
        plan.rank_abs_tolerance == request.rank_abs_tolerance,
        plan.rank_rel_tolerance == request.rank_rel_tolerance,
        plan.failure_policy is FailFast <==> request.fail_fast,
        request.jobs > 0 ==> plan.max_threads == request.jobs,
        request.jobs == 0 ==> plan.max_threads == request.available,
        plan.baseline_candidate is Some <==> request.baseline is Some,
        plan.rules@.len() + plan.baseline_rules@.len() == request.rules@.len(),
{
    law_sorting_keeps_every_rule(
        request.rules@,
        request.rule_numbers@,
        true,
        request.rules@.len() as int,
    );
}

/// A suite is refused exactly for a rule or a weight that cannot be read, or a baseline
/// that is no candidate.
pub proof fn law_suites_that_are_planned(request: SuiteRequest)
    requires
        request.weights@.len() == request.weight_values@.len(),
    ensures
        suite_fault(request) is None <==> {
            &&& sorted_rules(
                request.rules@,
                request.rule_numbers@,
                true,
                request.rules@.len() as int,
            ) is Ok
            &&& forall|i: int|
                0 <= i < request.weights@.len() ==> (#[trigger] weight_name(
                    request.weights@[i]@,
                    request.weight_values@[i],
                )) is Ok
            &&& request.baseline matches Some(baseline) ==> baseline_index(
                baseline,
                request.candidates@,
            ) is Some
        },
{
    let specs = request.weights@;
    let values = request.weight_values@;
    if forall|i: int| 0 <= i < specs.len() ==> (#[trigger] weight_name(specs[i]@, values[i])) is Ok {
        lemma_good_weights(specs, values, specs.len() as int);
    } else {
        lemma_some_bad_weight(specs, values, specs.len() as int);
    }
}

proof fn lemma_some_bad_weight(specs: Seq<String>, values: Seq<Option<Score>>, count: int)
    requires
        0 <= count <= specs.len(),
        exists|i: int|
            0 <= i < count && (#[trigger] weight_name(specs[i]@, values[i])) is Err,
    ensures
        weights_fault(specs, values, count) is Some,
    decreases count,
{
    if count > 0 && weight_name(specs[count - 1]@, values[count - 1]) is Ok {
        lemma_some_bad_weight(specs, values, count - 1);
    }
}

/// Paths are written the same way when they have the same parts in the same order.
pub proof fn law_written_paths(a: Seq<PathPart>, b: Seq<PathPart>, i: int)
    requires
        part_models(a) == part_models(b),
        0 <= i < a.len(),
    ensures
        a.len() == b.len(),
        a[i] is CurDir <==> b[i] is CurDir,
        a[i] is ParentDir <==> b[i] is ParentDir,
        a[i] matches PathPart::Named(name) ==> (b[i] matches PathPart::Named(other) && name@
            == other@),
{
    assert(part_models(a).len() == a.len());
    assert(part_models(b).len() == b.len());
    assert(part_models(a)[i] == a[i]@);
    assert(part_models(b)[i] == b[i]@);
}

} // verus!
