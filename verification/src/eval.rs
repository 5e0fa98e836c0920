//! Running evaluation cases: what a case may do, which of its assertions
//! decide, and what is reported. Scores and costs are fractions; the library
//! carries them along without reading them.

use vstd::prelude::*;
use crate::assertions::{self, check_assertion, probe, AssertionOutcome, Probe, Seen};
use crate::case::{Assertion, Case, CasePermissionMode, LoadedCase};
use crate::cli::{AgentTier, PermissionMode};
use crate::headless::BootstrapError;
use crate::result_schema::UsageObject;
use crate::text;

verus! {

/// What came of a case. `S` is a judge's score and `C` a cost.
#[derive(Debug)]
pub struct CaseOutcome<S, C> {
    pub name: String,
    pub fixture_dir: String,
    pub passed: bool,
    pub assertion_outcomes: Vec<AssertionOutcome>,
    /// Scores that are tracked and decide nothing.
    pub judge_scores: Vec<S>,
    /// Why the case could not be run.
    pub run_error: Option<String>,
    pub cost_usd: C,
    pub num_turns: u32,
    pub usage: UsageObject,
}

/// How a case is run.
#[derive(Debug, PartialEq, Eq)]
pub struct CaseRun {
    pub agent: AgentTier,
    pub permission_mode: PermissionMode,
    pub dangerously_skip_permissions: bool,
    /// The model that the case is pinned to, whatever the environment names.
    pub model: String,
    /// The model's provider; none stands for whichever one is configured.
    pub provider: Option<String>,
}

/// Whether a case may be run.
pub open spec fn may_run(mode: CasePermissionMode, dangerously_skip_permissions: bool) -> bool {
    mode != CasePermissionMode::Bypass || dangerously_skip_permissions
}

/// How a case is run. A case that asks to skip all permissions is run only
/// where the operator has allowed that; for no other case is the allowance
/// handed on.
pub fn case_run(case: &Case, dangerously_skip_permissions: bool) -> (r: Result<CaseRun, String>)
    ensures
        r is Ok == may_run(case.permission_mode, dangerously_skip_permissions),
        match r {
            Ok(run) => {
                &&& case.permission_mode != CasePermissionMode::Bypass
                    || dangerously_skip_permissions
                &&& run.agent == (match case.agent {
                    crate::case::CaseAgentTier::Plan => AgentTier::Plan,
                    crate::case::CaseAgentTier::Build => AgentTier::Build,
                })
                &&& run.permission_mode == case.permission_mode.mode_spec()
                &&& run.dangerously_skip_permissions == (case.permission_mode
                    == CasePermissionMode::Bypass)
                &&& run.model@ == case.model@
                &&& text::opt_text(run.provider) == text::opt_text(case.provider)
            },
            Err(m) => {
                &&& case.permission_mode == CasePermissionMode::Bypass
                &&& !dangerously_skip_permissions
                &&& m@
                    == "case requests bypass but --dangerously-skip-permissions was not passed"@
            },
        },
{
    let agent = case.agent.to_agent_tier();
    let permission_mode = case.permission_mode.to_permission_mode();
    let bypass = match permission_mode {
        PermissionMode::Bypass => true,
        _ => false,
    };
    if bypass && !dangerously_skip_permissions {
        return Err(
            "case requests bypass but --dangerously-skip-permissions was not passed".to_owned(),
        );
    }
    let provider: Option<String> = match &case.provider {
        Some(name) => Some(name.clone()),
        None => None,
    };
    Ok(
        CaseRun {
            agent,
            permission_mode,
            dangerously_skip_permissions: bypass,
            model: case.model.clone(),
            provider,
        },
    )
}

/// What a finished headless run hands on.
#[derive(Debug)]
pub struct RunSummary<C> {
    pub result: String,
    pub cost_usd: C,
    pub num_turns: u32,
    pub usage: UsageObject,
}

/// What a run that did not get as far as a result says.
pub fn bootstrap_message(error: BootstrapError) -> (r: String)
    ensures
        r == (match error {
            BootstrapError::CliMisuse(m) => m,
            BootstrapError::Other(m) => m,
        }),
{
    match error {
        BootstrapError::CliMisuse(m) => m,
        BootstrapError::Other(m) => m,
    }
}

/// The text that a judge scores: the run's result, or nothing.
pub fn judged_text<C>(run: &Result<RunSummary<C>, String>) -> (r: String)
    ensures
        r@ == (match *run {
            Ok(summary) => summary.result@,
            Err(_) => Seq::<char>::empty(),
        }),
{
    match run {
        Ok(summary) => summary.result.clone(),
        Err(_) => String::new(),
    }
}

/// Whether every assertion passed.
pub open spec fn all_passed(outcomes: Seq<AssertionOutcome>) -> bool {
    forall|i: int| 0 <= i < outcomes.len() ==> (#[trigger] outcomes[i]).passed
}

/// Whether an outcome is that of a case whose run ended so and whose checks and
/// judge said this: it passed if it could be run and all its checks did.
pub open spec fn is_outcome_of<S, C>(
    o: CaseOutcome<S, C>,
    run: Result<RunSummary<C>, String>,
    no_cost: C,
    assertion_outcomes: Seq<AssertionOutcome>,
    judge_scores: Seq<S>,
) -> bool {
    &&& o.passed == (run is Ok && all_passed(assertion_outcomes))
    &&& o.assertion_outcomes@ == assertion_outcomes
    &&& o.judge_scores@ == judge_scores
    &&& match run {
        Ok(summary) => {
            &&& o.run_error is None
            &&& o.cost_usd == summary.cost_usd
            &&& o.num_turns == summary.num_turns
            &&& o.usage == summary.usage
        },
        Err(m) => {
            &&& o.run_error == Some(m)
            &&& o.cost_usd == no_cost
            &&& o.num_turns == 0
            &&& o.usage == (UsageObject {
                input_tokens: 0,
                output_tokens: 0,
                cache_read_tokens: 0,
                cache_write_tokens: 0,
            })
        },
    }
}

/// What came of a case: it passed if it could be run and all its checks did.
/// The judge's scores are kept beside that.
pub fn case_outcome<S, C>(
    name: String,
    fixture_dir: String,
    run: Result<RunSummary<C>, String>,
    no_cost: C,
    assertion_outcomes: Vec<AssertionOutcome>,
    judge_scores: Vec<S>,
) -> (r: CaseOutcome<S, C>)
    ensures
        r.name == name,
        r.fixture_dir == fixture_dir,
        r.assertion_outcomes == assertion_outcomes,
        r.judge_scores == judge_scores,
        is_outcome_of(r, run, no_cost, assertion_outcomes@, judge_scores@),
{
    let mut all = true;
    let mut i: usize = 0;
    while i < assertion_outcomes.len()
        invariant
            i <= assertion_outcomes.len(),
            all == all_passed(assertion_outcomes@.take(i as int)),
        decreases assertion_outcomes.len() - i,
    {
        let ghost before = assertion_outcomes@.take(i as int);
        let ghost after = assertion_outcomes@.take(i + 1);
        let one = assertion_outcomes[i].passed;
        proof {
            assert(after =~= before.push(assertion_outcomes@[i as int]));
            if all && one {
                assert forall|k: int| 0 <= k < after.len() implies (#[trigger] after[k]).passed by {
                    if k < before.len() {
                        assert(before[k].passed);
                    }
                }
            }
            if all_passed(after) {
                assert(after[i as int].passed);
                assert forall|k: int| 0 <= k < before.len() implies (#[trigger] before[k]).passed by {
                    assert(after[k].passed);
                }
            }
        }
        all = all && one;
        i += 1;
    }
    assert(assertion_outcomes@.take(assertion_outcomes@.len() as int) =~= assertion_outcomes@);
    match run {
        Ok(summary) => CaseOutcome {
            name,
            fixture_dir,
            passed: all,
            assertion_outcomes,
            judge_scores,
            run_error: None,
            cost_usd: summary.cost_usd,
            num_turns: summary.num_turns,
            usage: summary.usage,
        },
        Err(error) => CaseOutcome {
            name,
            fixture_dir,
            passed: false,
            assertion_outcomes,
            judge_scores,
            run_error: Some(error),
            cost_usd: no_cost,
            num_turns: 0,
            usage: UsageObject::default(),
        },
    }
}

// ---------------------------------------------------------------------------
// Checking a case
// ---------------------------------------------------------------------------

/// The next thing to do for a case.
#[derive(Debug)]
pub enum CheckAction {
    /// Look at this and hand what was seen to `on_seen`.
    Look(Probe),
    /// Have this rubric scored and hand the score to `on_score`.
    Score(String),
    /// All assertions are dealt with.
    Done,
}

/// The assertions of a case, dealt with one by one. `S` is a judge's score.
pub struct CaseChecks<S> {
    pub fixture_dir: String,
    pub assertions: Vec<Assertion>,
    pub next: usize,
    pub outcomes: Vec<AssertionOutcome>,
    pub scores: Vec<S>,
}

/// The labels of the assertions that a check decides.
pub open spec fn checked_labels(assertions: Seq<Assertion>) -> Seq<Seq<char>>
    decreases assertions.len(),
{
    if assertions.len() == 0 {
        Seq::empty()
    } else if assertions.last() is JudgeRubric {
        checked_labels(assertions.drop_last())
    } else {
        checked_labels(assertions.drop_last()).push(assertions::label(assertions.last()))
    }
}

/// How many assertions a judge scores.
pub open spec fn rubric_count(assertions: Seq<Assertion>) -> nat
    decreases assertions.len(),
{
    if assertions.len() == 0 {
        0
    } else {
        rubric_count(assertions.drop_last()) + if assertions.last() is JudgeRubric {
            1nat
        } else {
            0nat
        }
    }
}

/// The labels of some outcomes.
pub open spec fn outcome_labels(outcomes: Seq<AssertionOutcome>) -> Seq<Seq<char>> {
    outcomes.map_values(|o: AssertionOutcome| o.description@)
}

impl<S> CaseChecks<S> {
    /// What every method keeps: each assertion dealt with that a check decides
    /// has its outcome, in order, and there is at most one score for each that
    /// a judge scores.
    pub open spec fn wf(self) -> bool {
        let dealt_with = self.assertions@.take(self.next as int);
        &&& self.next <= self.assertions@.len()
        &&& outcome_labels(self.outcomes@) == checked_labels(dealt_with)
        &&& self.scores@.len() <= rubric_count(dealt_with)
    }

    /// Begins with a case's assertions.
    pub fn new(fixture_dir: String, assertions: Vec<Assertion>) -> (r: CaseChecks<S>)
        ensures
            r.wf(),
            r.fixture_dir == fixture_dir,
            r.assertions == assertions,
            r.next == 0,
            r.outcomes@.len() == 0,
            r.scores@.len() == 0,
    {
        let r = CaseChecks {
            fixture_dir,
            assertions,
            next: 0,
            outcomes: Vec::new(),
            scores: Vec::new(),
        };
        assert(outcome_labels(r.outcomes@) =~= Seq::<Seq<char>>::empty());
        r
    }

    /// The next thing to do: rubrics go to the judge, everything else is
    /// looked at.
    pub fn action(&self) -> (r: CheckAction)
        requires
            self.wf(),
        ensures
            if self.next == self.assertions@.len() {
                r is Done
            } else {
                match self.assertions@[self.next as int] {
                    Assertion::JudgeRubric { rubric } => r matches CheckAction::Score(t) && t@
                        == rubric@,
                    other => r matches CheckAction::Look(p) && assertions::probes(
                        p,
                        self.fixture_dir@,
                        other,
                    ),
                }
            },
    {
        if self.next == self.assertions.len() {
            return CheckAction::Done;
        }
        match &self.assertions[self.next] {
            Assertion::JudgeRubric { rubric } => CheckAction::Score(rubric.clone()),
            other => CheckAction::Look(probe(self.fixture_dir.as_str(), other)),
        }
    }

    /// Takes what was seen: the current assertion is checked.
    pub fn on_seen(&mut self, seen: &Seen)
        requires
            old(self).wf(),
            old(self).next < old(self).assertions@.len(),
            !(old(self).assertions@[old(self).next as int] is JudgeRubric),
            assertions::answers(old(self).assertions@[old(self).next as int], *seen),
        ensures
            final(self).wf(),
            final(self).fixture_dir == old(self).fixture_dir,
            final(self).assertions == old(self).assertions,
            final(self).next == old(self).next + 1,
            final(self).scores == old(self).scores,
            final(self).outcomes@.len() == old(self).outcomes@.len() + 1,
            final(self).outcomes@.drop_last() == old(self).outcomes@,
            ({
                let a = old(self).assertions@[old(self).next as int];
                let o = final(self).outcomes@.last();
                &&& o.passed == assertions::holds(a, *seen)
                &&& o.description@ == assertions::label(a)
                &&& o.detail@ == assertions::reason(old(self).fixture_dir@, a, *seen)
            }),
    {
        let outcome = check_assertion(
            self.fixture_dir.as_str(),
            &self.assertions[self.next],
            seen,
        );
        let ghost before = self.outcomes@;
        self.outcomes.push(outcome);
        assert(self.next < self.assertions.len());
        self.next = self.next + 1;
        proof {
            let taken = self.assertions@.take(self.next as int);
            assert(taken.drop_last() =~= self.assertions@.take(self.next - 1));
            assert(outcome_labels(self.outcomes@) =~= outcome_labels(before).push(
                outcome.description@,
            ));
            assert(self.outcomes@.drop_last() =~= before);
        }
    }

    /// Takes the judge's score of the current rubric. A judge that failed
    /// leaves no score, and the case goes on.
    pub fn on_score(&mut self, score: Option<S>)
        requires
            old(self).wf(),
            old(self).next < old(self).assertions@.len(),
            old(self).assertions@[old(self).next as int] is JudgeRubric,
        ensures
            final(self).wf(),
            final(self).fixture_dir == old(self).fixture_dir,
            final(self).assertions == old(self).assertions,
            final(self).next == old(self).next + 1,
            final(self).outcomes == old(self).outcomes,
            final(self).scores@ == (match score {
                Some(s) => old(self).scores@.push(s),
                None => old(self).scores@,
            }),
    {
        match score {
            Some(s) => {
                self.scores.push(s);
            },
            None => {},
        }
        assert(self.next < self.assertions.len());
        self.next = self.next + 1;
        proof {
            let taken = self.assertions@.take(self.next as int);
            assert(taken.drop_last() =~= self.assertions@.take(self.next - 1));
        }
    }
}

// ---------------------------------------------------------------------------
// All cases
// ---------------------------------------------------------------------------

/// The names of some cases.
pub open spec fn case_names(cases: Seq<LoadedCase>) -> Seq<Seq<char>> {
    cases.map_values(|c: LoadedCase| c.name@)
}

/// The names that some outcomes are reported under.
pub open spec fn outcome_names<S, C>(outcomes: Seq<CaseOutcome<S, C>>) -> Seq<Seq<char>> {
    outcomes.map_values(|o: CaseOutcome<S, C>| o.name@)
}

/// An evaluation under way: its cases are run one after the other. `S` is a
/// judge's score and `C` a cost.
pub struct EvalRun<S, C> {
    /// The names of all cases.
    pub names: Vec<String>,
    /// The cases that have not begun.
    pub waiting: Vec<LoadedCase>,
    /// Whether a case is under way.
    pub under_way: bool,
    /// What came of the cases that are over.
    pub outcomes: Vec<CaseOutcome<S, C>>,
}

impl<S, C> EvalRun<S, C> {
    /// How many cases have begun.
    pub open spec fn begun(self) -> nat {
        self.outcomes@.len() + if self.under_way {
            1nat
        } else {
            0nat
        }
    }

    /// What every method keeps: the cases that are over have one outcome each,
    /// in the order of the cases and under their names, and those that have not
    /// begun follow in their order.
    pub open spec fn wf(self) -> bool {
        let names = text::texts(self.names@);
        &&& names.len() == self.begun() + self.waiting@.len()
        &&& outcome_names(self.outcomes@) == names.take(self.outcomes@.len() as int)
        &&& case_names(self.waiting@) == names.skip(self.begun() as int)
    }

    /// Begins with all cases.
    pub fn new(cases: Vec<LoadedCase>) -> (r: EvalRun<S, C>)
        ensures
            r.wf(),
            text::texts(r.names@) == case_names(cases@),
            r.waiting == cases,
            !r.under_way,
            r.outcomes@.len() == 0,
    {
        let mut names: Vec<String> = Vec::new();
        let mut i: usize = 0;
        while i < cases.len()
            invariant
                i <= cases.len(),
                text::texts(names@) == case_names(cases@).take(i as int),
            decreases cases.len() - i,
        {
            let ghost before = names@;
            names.push(cases[i].name.clone());
            i += 1;
            assert(text::texts(names@) =~= text::texts(before).push(cases@[i - 1].name@));
            assert(text::texts(names@) =~= case_names(cases@).take(i as int));
        }
        assert(case_names(cases@).take(cases@.len() as int) =~= case_names(cases@));
        let r = EvalRun { names, waiting: cases, under_way: false, outcomes: Vec::new() };
        proof {
            let names = text::texts(r.names@);
            assert(outcome_names(r.outcomes@) =~= names.take(0));
            assert(case_names(r.waiting@) =~= names.skip(0));
        }
        r
    }

    /// The next case, which is then under way; none where all are over.
    pub fn next(&mut self) -> (r: Option<LoadedCase>)
        requires
            old(self).wf(),
            !old(self).under_way,
        ensures
            final(self).wf(),
            final(self).names == old(self).names,
            final(self).outcomes == old(self).outcomes,
            final(self).under_way == (r is Some),
            match r {
                Some(case) => {
                    &&& old(self).waiting@.len() > 0
                    &&& case == old(self).waiting@[0]
                    &&& case.name@ == old(self).names@[old(self).outcomes@.len() as int]@
                    &&& final(self).waiting@ == old(self).waiting@.skip(1)
                },
                None => old(self).waiting@.len() == 0 && final(self).waiting == old(self).waiting,
            },
    {
        if self.waiting.len() == 0 {
            return None;
        }
        let ghost names = text::texts(self.names@);
        let ghost before = self.waiting@;
        let ghost k = self.outcomes@.len() as int;
        proof {
            assert(case_names(before)[0] == names.skip(k)[0]);
            assert(names[k] == self.names@[k]@);
        }
        let case = self.waiting.remove(0);
        self.under_way = true;
        proof {
            assert(self.waiting@ =~= before.skip(1));
            assert(case_names(self.waiting@) =~= names.skip(k + 1)) by {
                assert(case_names(self.waiting@) =~= case_names(before).skip(1));
                assert(names.skip(k).skip(1) =~= names.skip(k + 1));
            }
        }
        Some(case)
    }

    /// Takes what came of the case under way: how its run ended, and what its
    /// checks and its judge said.
    pub fn on_case(
        &mut self,
        fixture_dir: String,
        run: Result<RunSummary<C>, String>,
        no_cost: C,
        assertion_outcomes: Vec<AssertionOutcome>,
        judge_scores: Vec<S>,
    )
        requires
            old(self).wf(),
            old(self).under_way,
        ensures
            final(self).wf(),
            final(self).names == old(self).names,
            final(self).waiting == old(self).waiting,
            !final(self).under_way,
            final(self).outcomes@.len() == old(self).outcomes@.len() + 1,
            final(self).outcomes@.drop_last() == old(self).outcomes@,
            ({
                let o = final(self).outcomes@.last();
                &&& o.name@ == old(self).names@[old(self).outcomes@.len() as int]@
                &&& o.fixture_dir == fixture_dir
                &&& is_outcome_of(o, run, no_cost, assertion_outcomes@, judge_scores@)
            }),
    {
        let ghost names = text::texts(self.names@);
        let ghost before = self.outcomes@;
        let k = self.outcomes.len();
        assert(names.len() == self.names@.len());
        let name = self.names[k].clone();
        let outcome = case_outcome(
            name,
            fixture_dir,
            run,
            no_cost,
            assertion_outcomes,
            judge_scores,
        );
        self.outcomes.push(outcome);
        self.under_way = false;
        proof {
            assert(names[k as int] == self.names@[k as int]@);
            assert(outcome_names(self.outcomes@) =~= outcome_names(before).push(outcome.name@));
            assert(outcome_names(self.outcomes@) =~= names.take(k + 1));
            assert(self.outcomes@.drop_last() =~= before);
        }
    }

    /// The outcomes of all cases, once all are over: one for each case, in the
    /// order of the cases and under its name.
    pub fn finish(self) -> (r: Vec<CaseOutcome<S, C>>)
        requires
            self.wf(),
            !self.under_way,
            self.waiting@.len() == 0,
        ensures
            r == self.outcomes,
            r@.len() == self.names@.len(),
            outcome_names(r@) == text::texts(self.names@),
    {
        proof {
            let names = text::texts(self.names@);
            assert(names.len() == self.names@.len());
            assert(names.take(names.len() as int) =~= names);
        }
        self.outcomes
    }
}

// ---------------------------------------------------------------------------
// The report
// ---------------------------------------------------------------------------

/// The whole numbers of a report.
#[derive(Debug, Clone, Copy, PartialEq, Eq, Structural)]
pub struct ReportCounts {
    pub total_cases: usize,
    pub passed_cases: usize,
    pub total_tokens: u64,
    pub total_turns: u32,
}

/// How many cases passed.
pub open spec fn passed_count<S, C>(outcomes: Seq<CaseOutcome<S, C>>) -> nat
    decreases outcomes.len(),
{
    if outcomes.len() == 0 {
        0
    } else {
        passed_count(outcomes.drop_last()) + if outcomes.last().passed {
            1nat
        } else {
            0nat
        }
    }
}

/// All four kinds of tokens of a run.
pub open spec fn tokens_of(usage: UsageObject) -> nat {
    (usage.input_tokens + usage.output_tokens + usage.cache_read_tokens
        + usage.cache_write_tokens) as nat
}

/// The tokens of all cases.
pub open spec fn token_sum<S, C>(outcomes: Seq<CaseOutcome<S, C>>) -> nat
    decreases outcomes.len(),
{
    if outcomes.len() == 0 {
        0
    } else {
        token_sum(outcomes.drop_last()) + tokens_of(outcomes.last().usage)
    }
}

/// The turns of all cases.
pub open spec fn turn_sum<S, C>(outcomes: Seq<CaseOutcome<S, C>>) -> nat
    decreases outcomes.len(),
{
    if outcomes.len() == 0 {
        0
    } else {
        turn_sum(outcomes.drop_last()) + outcomes.last().num_turns as nat
    }
}

/// The whole numbers of a report. The sums must fit.
pub fn report_counts<S, C>(outcomes: &Vec<CaseOutcome<S, C>>) -> (r: ReportCounts)
    requires
        token_sum(outcomes@) <= u64::MAX,
        turn_sum(outcomes@) <= u32::MAX,
    ensures
        r.total_cases == outcomes@.len(),
        r.passed_cases == passed_count(outcomes@),
        r.total_tokens == token_sum(outcomes@),
        r.total_turns == turn_sum(outcomes@),
{
    let mut passed: usize = 0;
    let mut tokens: u64 = 0;
    let mut turns: u32 = 0;
    let mut i: usize = 0;
    while i < outcomes.len()
        invariant
            i <= outcomes.len(),
            token_sum(outcomes@) <= u64::MAX,
            turn_sum(outcomes@) <= u32::MAX,
            passed <= i,
            passed == passed_count(outcomes@.take(i as int)),
            tokens == token_sum(outcomes@.take(i as int)),
            turns == turn_sum(outcomes@.take(i as int)),
        decreases outcomes.len() - i,
    {
        proof {
            assert(outcomes@.take(i + 1).drop_last() =~= outcomes@.take(i as int));
            lemma_sums_grow(outcomes@, i + 1);
        }
        let one = &outcomes[i];
        if one.passed {
            passed += 1;
        }
        tokens = tokens + one.usage.input_tokens + one.usage.output_tokens
            + one.usage.cache_read_tokens + one.usage.cache_write_tokens;
        turns = turns + one.num_turns;
        i += 1;
    }
    assert(outcomes@.take(outcomes@.len() as int) =~= outcomes@);
    ReportCounts {
        total_cases: outcomes.len(),
        passed_cases: passed,
        total_tokens: tokens,
        total_turns: turns,
    }
}

/// The sums over the first cases are no greater than those over all.
proof fn lemma_sums_grow<S, C>(outcomes: Seq<CaseOutcome<S, C>>, k: int)
    requires
        0 <= k <= outcomes.len(),
    ensures
        token_sum(outcomes.take(k)) <= token_sum(outcomes),
        turn_sum(outcomes.take(k)) <= turn_sum(outcomes),
    decreases outcomes.len(),
{
    if k < outcomes.len() {
        lemma_sums_grow(outcomes.drop_last(), k);
        assert(outcomes.drop_last().take(k) =~= outcomes.take(k));
    } else {
        assert(outcomes.take(k) =~= outcomes);
    }
}

// ---------------------------------------------------------------------------
// Laws
// ---------------------------------------------------------------------------

/// How many cases passed depends on their outcomes alone, whatever scores a
/// judge gave and whatever they cost.
pub proof fn law_scores_do_not_count<S, C, T, D>(
    outcomes: Seq<CaseOutcome<S, C>>,
    others: Seq<CaseOutcome<T, D>>,
)
    requires
        outcomes.len() == others.len(),
        forall|i: int|
            0 <= i < outcomes.len() ==> (#[trigger] outcomes[i]).passed == others[i].passed,
    ensures
        passed_count(outcomes) == passed_count(others),
    decreases outcomes.len(),
{
    if outcomes.len() > 0 {
        let o = outcomes.drop_last();
        assert forall|i: int| 0 <= i < o.len() implies (#[trigger] o[i]).passed
            == others.drop_last()[i].passed by {
            assert(outcomes[i].passed == others[i].passed);
        }
        law_scores_do_not_count(o, others.drop_last());
        assert(outcomes[outcomes.len() - 1].passed == others[others.len() - 1].passed);
    }
}

/// No more cases pass than there are.
pub proof fn law_no_more_pass_than_there_are<S, C>(outcomes: Seq<CaseOutcome<S, C>>)
    ensures
        passed_count(outcomes) <= outcomes.len(),
    decreases outcomes.len(),
{
    if outcomes.len() > 0 {
        law_no_more_pass_than_there_are(outcomes.drop_last());
    }
}

/// Every case that passed is counted, once, and no other is.
pub proof fn law_every_passed_case_counts<S, C>(outcomes: Seq<CaseOutcome<S, C>>)
    ensures
        passed_count(outcomes) == outcomes.filter(|o: CaseOutcome<S, C>| o.passed).len(),
    decreases outcomes.len(),
{
    reveal(Seq::filter);
    if outcomes.len() > 0 {
        law_every_passed_case_counts(outcomes.drop_last());
    }
}

/// The tokens and the turns of a report are the sums over all its cases: those of
/// two lists are those of the one and those of the other, and a single case adds
/// all four kinds of its tokens and all its turns.
pub proof fn law_sums_add_up<S, C>(
    a: Seq<CaseOutcome<S, C>>,
    b: Seq<CaseOutcome<S, C>>,
    one: CaseOutcome<S, C>,
)
    ensures
        token_sum(a + b) == token_sum(a) + token_sum(b),
        turn_sum(a + b) == turn_sum(a) + turn_sum(b),
        token_sum(seq![one]) == one.usage.input_tokens + one.usage.output_tokens
            + one.usage.cache_read_tokens + one.usage.cache_write_tokens,
        turn_sum(seq![one]) == one.num_turns,
    decreases b.len(),
{
    reveal_with_fuel(token_sum, 2);
    reveal_with_fuel(turn_sum, 2);
    assert(seq![one].drop_last() =~= Seq::<CaseOutcome<S, C>>::empty());
    if b.len() == 0 {
        assert(a + b =~= a);
    } else {
        assert((a + b).drop_last() =~= a + b.drop_last());
        assert((a + b).last() == b.last());
        law_sums_add_up(a, b.drop_last(), one);
    }
}

/// A case fails if any one of its checks does, wherever it stands, or if it could
/// not be run; it passes otherwise, whatever the judge says.
pub proof fn law_one_failed_check_fails_the_case<S, C>(
    o: CaseOutcome<S, C>,
    run: Result<RunSummary<C>, String>,
    no_cost: C,
    checks: Seq<AssertionOutcome>,
    scores: Seq<S>,
    i: int,
)
    requires
        is_outcome_of(o, run, no_cost, checks, scores),
        0 <= i < checks.len(),
    ensures
        !checks[i].passed ==> !o.passed,
        run is Err ==> !o.passed,
        run is Ok && (forall|k: int| 0 <= k < checks.len() ==> (#[trigger] checks[k]).passed)
            ==> o.passed,
        o.assertion_outcomes@.len() == checks.len(),
        o.assertion_outcomes@[i] == checks[i],
        o.judge_scores@ == scores,
        run matches Ok(s) ==> o.cost_usd == s.cost_usd && o.num_turns == s.num_turns && o.usage
            == s.usage && o.run_error is None,
        run matches Err(m) ==> o.run_error == Some(m) && o.cost_usd == no_cost && o.num_turns == 0,
{
}

/// Every assertion but a rubric is checked, in its order and under its own label,
/// and every rubric goes to the judge.
pub proof fn law_every_assertion_is_dealt_with(a: Seq<Assertion>, one: Assertion, b: Seq<Assertion>)
    ensures
        checked_labels(a + seq![one] + b) == checked_labels(a) + (if one is JudgeRubric {
            Seq::empty()
        } else {
            seq![assertions::label(one)]
        }) + checked_labels(b),
        rubric_count(a + seq![one] + b) == rubric_count(a) + (if one is JudgeRubric {
            1nat
        } else {
            0nat
        }) + rubric_count(b),
        checked_labels(Seq::empty()) == Seq::<Seq<char>>::empty(),
        rubric_count(Seq::empty()) == 0,
        checked_labels(a).len() + rubric_count(a) == a.len(),
    decreases a.len() + b.len(),
{
    let s = a + seq![one] + b;
    if a.len() > 0 {
        law_every_assertion_is_dealt_with(a.drop_last(), one, Seq::empty());
    }
    if b.len() == 0 {
        assert(s.drop_last() =~= a);
        assert(s.last() == one);
        assert(checked_labels(s) =~= checked_labels(a) + (if one is JudgeRubric {
            Seq::empty()
        } else {
            seq![assertions::label(one)]
        }) + checked_labels(b));
    } else {
        assert(s.drop_last() =~= a + seq![one] + b.drop_last());
        assert(s.last() == b.last());
        law_every_assertion_is_dealt_with(a, one, b.drop_last());
        assert(checked_labels(s) =~= checked_labels(a) + (if one is JudgeRubric {
            Seq::empty()
        } else {
            seq![assertions::label(one)]
        }) + checked_labels(b));
    }
}

/// Cases, outcomes and checks are listed by their own names, one for one.
pub proof fn law_lists_go_by_their_members<S, C>(
    cases: Seq<LoadedCase>,
    outcomes: Seq<CaseOutcome<S, C>>,
    checks: Seq<AssertionOutcome>,
    i: int,
)
    ensures
        case_names(cases).len() == cases.len(),
        outcome_names(outcomes).len() == outcomes.len(),
        outcome_labels(checks).len() == checks.len(),
        0 <= i < cases.len() ==> case_names(cases)[i] == cases[i].name@,
        0 <= i < outcomes.len() ==> outcome_names(outcomes)[i] == outcomes[i].name@,
        0 <= i < checks.len() ==> outcome_labels(checks)[i] == checks[i].description@,
{
}

/// A case that asks to skip all permissions runs only where the operator allows
/// it; every other case runs.
pub proof fn law_only_bypassing_takes_an_allowance(mode: CasePermissionMode, allowed: bool)
    ensures
        !may_run(mode, allowed) <==> mode is Bypass && !allowed,
{
}

} // verus!
