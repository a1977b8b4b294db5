//! The update pass: which packages are skipped, which command updates the
//! others, and what the two counters say at the end.
//!
//! The pass is a state machine. Its caller runs the commands: it asks the
//! machine for the next step, performs it, and where the step was an update,
//! hands the result back.

use vstd::prelude::*;
use crate::command::{update_arguments, update_command, Invocation};
use crate::package::{PackageRecord, WingetPackage};
use crate::search::{lemma_occurs_in_concat, occurs_in, str_contains};

verus! {

/// What became of one package in the update pass.
#[derive(Debug, Clone, Copy, PartialEq, Eq)]
pub enum UpdateOutcome {
    /// The update command ran and reported success.
    Updated,
    /// The package is excluded; no command was run for it.
    Skipped,
    /// The update command could not be started, or reported a failure.
    Failed,
}

/// The two counters that the pass reports at its end.
#[derive(Debug, Clone, Copy, PartialEq, Eq)]
pub struct Summary {
    /// The number of packages that were updated.
    pub updated_count: usize,
    /// The number of packages that were skipped.
    pub skipped_count: usize,
}

/// A package is excluded where one of the exclusions is a contiguous part of
/// its name. Upper and lower case differ.
pub open spec fn is_excluded(name: Seq<char>, exclusions: Seq<Seq<char>>) -> bool {
    exists|i: int| 0 <= i < exclusions.len() && occurs_in(#[trigger] exclusions[i], name)
}

/// How the outcome of a package that is not excluded follows from the result
/// of its update command.
pub open spec fn outcome_of_result(result: Invocation) -> UpdateOutcome {
    if result.is_success() {
        UpdateOutcome::Updated
    } else {
        UpdateOutcome::Failed
    }
}

/// The outcome of a package in a pass: skipped where it is excluded, and
/// otherwise as the result of its update command says.
pub open spec fn outcome_for(
    package: PackageRecord,
    exclusions: Seq<Seq<char>>,
    result: Invocation,
) -> UpdateOutcome {
    if is_excluded(package.name, exclusions) {
        UpdateOutcome::Skipped
    } else {
        outcome_of_result(result)
    }
}

/// An update pass, as far as it has come.
pub struct RunState {
    /// The packages of the pass, in the order in which they are dealt with.
    pub packages: Seq<PackageRecord>,
    /// The exclusions that the pass was started with.
    pub exclusions: Seq<Seq<char>>,
    /// The outcomes so far: `outcomes[i]` is what became of `packages[i]`.
    pub outcomes: Seq<UpdateOutcome>,
    /// The counter of updated packages.
    pub updated_count: nat,
    /// The counter of skipped packages.
    pub skipped_count: nat,
}

impl RunState {
    /// The state in which a pass begins.
    pub open spec fn initial(packages: Seq<PackageRecord>, exclusions: Seq<Seq<char>>) -> RunState {
        RunState {
            packages,
            exclusions,
            outcomes: Seq::empty(),
            updated_count: 0,
            skipped_count: 0,
        }
    }

    /// Every package has its outcome.
    pub open spec fn finished(self) -> bool {
        self.outcomes.len() >= self.packages.len()
    }

    /// The package that is dealt with next.
    pub open spec fn current(self) -> PackageRecord
        recommends
            !self.finished(),
    {
        self.packages[self.outcomes.len() as int]
    }

    /// The state after the current package has met with `outcome`. A failure
    /// moves on to the next package and changes no counter.
    pub open spec fn record(self, outcome: UpdateOutcome) -> RunState {
        RunState {
            packages: self.packages,
            exclusions: self.exclusions,
            outcomes: self.outcomes.push(outcome),
            updated_count: if outcome == UpdateOutcome::Updated {
                self.updated_count + 1
            } else {
                self.updated_count
            },
            skipped_count: if outcome == UpdateOutcome::Skipped {
                self.skipped_count + 1
            } else {
                self.skipped_count
            },
        }
    }

    /// What holds of every state that a pass reaches: no package beyond the
    /// last has an outcome, a package was skipped if and only if it is
    /// excluded, and each counter is the number of outcomes of its kind.
    pub open spec fn wf(self) -> bool {
        &&& self.outcomes.len() <= self.packages.len()
        &&& forall|i: int|
            0 <= i < self.outcomes.len() ==> (#[trigger] self.outcomes[i] == UpdateOutcome::Skipped
                <==> is_excluded(self.packages[i].name, self.exclusions))
        &&& self.updated_count == count_of(self.outcomes, UpdateOutcome::Updated)
        &&& self.skipped_count == count_of(self.outcomes, UpdateOutcome::Skipped)
    }
}

/// The number of outcomes of one kind.
pub open spec fn count_of(outcomes: Seq<UpdateOutcome>, kind: UpdateOutcome) -> nat
    decreases outcomes.len(),
{
    if outcomes.len() == 0 {
        0
    } else {
        count_of(outcomes.drop_last(), kind) + if outcomes.last() == kind {
            1nat
        } else {
            0nat
        }
    }
}

/// The number of excluded packages among `packages`.
pub open spec fn excluded_among(packages: Seq<PackageRecord>, exclusions: Seq<Seq<char>>) -> nat
    decreases packages.len(),
{
    if packages.len() == 0 {
        0
    } else {
        excluded_among(packages.drop_last(), exclusions) + if is_excluded(
            packages.last().name,
            exclusions,
        ) {
            1nat
        } else {
            0nat
        }
    }
}

/// The state of a pass after its first `n` packages, where `results[i]`
/// tells how the update command for `packages[i]` ended. For an excluded
/// package no command is run, and its entry is not read.
pub open spec fn state_after(
    packages: Seq<PackageRecord>,
    exclusions: Seq<Seq<char>>,
    results: Seq<Invocation>,
    n: nat,
) -> RunState
    decreases n,
{
    if n == 0 {
        RunState::initial(packages, exclusions)
    } else {
        state_after(packages, exclusions, results, (n - 1) as nat).record(
            outcome_for(packages[n - 1], exclusions, results[n - 1]),
        )
    }
}

/// Among the first `n` packages, the number of those for which an update
/// command was run and ended as `succeeded` says.
pub open spec fn commands_ended(
    packages: Seq<PackageRecord>,
    exclusions: Seq<Seq<char>>,
    results: Seq<Invocation>,
    succeeded: bool,
    n: nat,
) -> nat
    decreases n,
{
    if n == 0 {
        0
    } else {
        commands_ended(packages, exclusions, results, succeeded, (n - 1) as nat) + if !is_excluded(
            packages[n - 1].name,
            exclusions,
        ) && results[n - 1].is_success() == succeeded {
            1nat
        } else {
            0nat
        }
    }
}

/// Tells whether a package of this name is excluded.
pub fn is_excluded_name(name: &str, exclusions: &Vec<String>) -> (excluded: bool)
    ensures
        excluded == is_excluded(name@, exclusions.deep_view()),
{
    let mut i: usize = 0;
    while i < exclusions.len()
        invariant
            i <= exclusions.len(),
            forall|k: int| 0 <= k < i ==> !occurs_in(#[trigger] exclusions.deep_view()[k], name@),
        decreases exclusions.len() - i,
    {
        assert(exclusions.deep_view()[i as int] == exclusions[i as int]@);
        if str_contains(name, exclusions[i].as_str()) {
            return true;
        }
        i += 1;
    }
    false
}

/// The exclusions of a pass that is given no others: the packages that the
/// package manager cannot update, or that are to stay as they are.
pub fn default_exclusions() -> (exclusions: Vec<String>)
    ensures
        exclusions.deep_view() == seq!["AutoIt"@, "Discord"@],
{
    let mut exclusions: Vec<String> = Vec::new();
    exclusions.push("AutoIt".to_owned());
    exclusions.push("Discord".to_owned());
    assert(exclusions.deep_view() =~= seq!["AutoIt"@, "Discord"@]);
    exclusions
}

/// An update pass between two packages.
pub struct UpdateRun {
    packages: Vec<WingetPackage>,
    exclusions: Vec<String>,
    position: usize,
    updated_count: usize,
    skipped_count: usize,
    outcomes: Ghost<Seq<UpdateOutcome>>,
}

/// An update pass that has handed out an update command and waits for its
/// result.
pub struct PendingUpdate {
    run: UpdateRun,
}

/// What the caller of an update pass does next.
pub enum Step {
    /// Every package has been dealt with: report the counters.
    Finished { summary: Summary },
    /// The package of this name is excluded and was skipped; go on with
    /// `run`.
    Skipped { name: String, run: UpdateRun },
    /// Run the package manager with these arguments, for the package of
    /// this name, and hand the result to `pending`.
    Update { name: String, arguments: Vec<String>, pending: PendingUpdate },
}

impl View for UpdateRun {
    type V = RunState;

    closed spec fn view(&self) -> RunState {
        RunState {
            packages: self.packages.deep_view(),
            exclusions: self.exclusions.deep_view(),
            outcomes: self.outcomes@,
            updated_count: self.updated_count as nat,
            skipped_count: self.skipped_count as nat,
        }
    }
}

impl View for PendingUpdate {
    type V = RunState;

    closed spec fn view(&self) -> RunState {
        self.run@
    }
}

impl UpdateRun {
    #[verifier::type_invariant]
    spec fn inv(&self) -> bool {
        &&& self@.wf()
        &&& self.position == self.outcomes@.len()
    }

    /// Begins a pass over `packages`, in their order, with these exclusions.
    pub fn new(packages: Vec<WingetPackage>, exclusions: Vec<String>) -> (run: UpdateRun)
        ensures
            run@ == RunState::initial(packages.deep_view(), exclusions.deep_view()),
            run@.wf(),
    {
        UpdateRun {
            packages,
            exclusions,
            position: 0,
            updated_count: 0,
            skipped_count: 0,
            outcomes: Ghost(Seq::empty()),
        }
    }

    /// The counters as they stand.
    pub fn summary(&self) -> (summary: Summary)
        ensures
            summary.updated_count == self@.updated_count,
            summary.skipped_count == self@.skipped_count,
            self@.wf(),
    {
        proof {
            use_type_invariant(self);
        }
        Summary { updated_count: self.updated_count, skipped_count: self.skipped_count }
    }

    /// Deals with the next package. An excluded package is skipped and
    /// counted; for any other the update command is handed out, with the
    /// identifier of the package as its target; after the last package the
    /// counters are reported.
    pub fn advance(self) -> (step: Step)
        ensures
            self@.wf(),
            match step {
                Step::Finished { summary } => {
                    &&& self@.finished()
                    &&& summary.updated_count == self@.updated_count
                    &&& summary.skipped_count == self@.skipped_count
                },
                Step::Skipped { name, run } => {
                    &&& !self@.finished()
                    &&& is_excluded(self@.current().name, self@.exclusions)
                    &&& name@ == self@.current().name
                    &&& run@ == self@.record(UpdateOutcome::Skipped)
                    &&& run@.wf()
                },
                Step::Update { name, arguments, pending } => {
                    &&& !self@.finished()
                    &&& !is_excluded(self@.current().name, self@.exclusions)
                    &&& name@ == self@.current().name
                    &&& arguments.deep_view() == update_command(self@.current().id)
                    &&& pending@ == self@
                },
            },
    {
        proof {
            use_type_invariant(&self);
        }
        if self.position >= self.packages.len() {
            return Step::Finished {
                summary: Summary {
                    updated_count: self.updated_count,
                    skipped_count: self.skipped_count,
                },
            };
        }
        let ghost state = self@;
        assert(state.current() == self.packages[self.position as int]@);
        let name = self.packages[self.position].name.clone();
        if is_excluded_name(name.as_str(), &self.exclusions) {
            proof {
                lemma_counts_add_up(state.outcomes);
                lemma_record_keeps_wf(state, UpdateOutcome::Skipped);
            }
            let run = UpdateRun {
                packages: self.packages,
                exclusions: self.exclusions,
                position: self.position + 1,
                updated_count: self.updated_count,
                skipped_count: self.skipped_count + 1,
                outcomes: Ghost(state.outcomes.push(UpdateOutcome::Skipped)),
            };
            Step::Skipped { name, run }
        } else {
            let arguments = update_arguments(self.packages[self.position].id.as_str());
            Step::Update { name, arguments, pending: PendingUpdate { run: self } }
        }
    }
}

impl PendingUpdate {
    #[verifier::type_invariant]
    spec fn inv(&self) -> bool {
        &&& self.run.inv()
        &&& !self.run@.finished()
        &&& !is_excluded(self.run@.current().name, self.run@.exclusions)
    }

    /// Takes the result of the update command. A command that ran and
    /// reported success counts the package as updated; a command that
    /// reported a failure, or that could not be started, leaves both
    /// counters as they were. Either way the pass goes on with the next
    /// package.
    pub fn complete(self, ended: Invocation) -> (result: (UpdateOutcome, UpdateRun))
        ensures
            self@.wf(),
            !self@.finished(),
            !is_excluded(self@.current().name, self@.exclusions),
            result.0 == outcome_of_result(ended),
            result.0 == outcome_for(self@.current(), self@.exclusions, ended),
            result.1@ == self@.record(result.0),
            result.1@.wf(),
    {
        proof {
            use_type_invariant(&self);
        }
        let ghost state = self@;
        let run = self.run;
        assert(state.packages.len() == run.packages.len());
        let succeeded = ended.succeeded();
        let outcome = if succeeded {
            UpdateOutcome::Updated
        } else {
            UpdateOutcome::Failed
        };
        proof {
            lemma_counts_add_up(state.outcomes);
            lemma_record_keeps_wf(state, outcome);
        }
        let updated_count = if succeeded {
            run.updated_count + 1
        } else {
            run.updated_count
        };
        let next = UpdateRun {
            packages: run.packages,
            exclusions: run.exclusions,
            position: run.position + 1,
            updated_count,
            skipped_count: run.skipped_count,
            outcomes: Ghost(state.outcomes.push(outcome)),
        };
        (outcome, next)
    }
}

/// An exclusion need not be the whole name: a package whose name holds one
/// of the exclusions, with anything before and after it, is excluded.
pub proof fn lemma_exclusion_matches_part_of_name(
    before: Seq<char>,
    entry: Seq<char>,
    after: Seq<char>,
    exclusions: Seq<Seq<char>>,
)
    requires
        exclusions.contains(entry),
    ensures
        is_excluded(before + entry + after, exclusions),
{
    let i = choose|i: int| 0 <= i < exclusions.len() && exclusions[i] == entry;
    lemma_occurs_in_concat(before, entry, after);
    assert(occurs_in(exclusions[i], before + entry + after));
}

/// The three kinds of outcome share the outcomes among them.
pub proof fn lemma_counts_add_up(outcomes: Seq<UpdateOutcome>)
    ensures
        count_of(outcomes, UpdateOutcome::Updated) + count_of(outcomes, UpdateOutcome::Skipped)
            + count_of(outcomes, UpdateOutcome::Failed) == outcomes.len(),
    decreases outcomes.len(),
{
    if outcomes.len() > 0 {
        lemma_counts_add_up(outcomes.drop_last());
    }
}

/// One more outcome adds one to the count of its kind, and nothing to the
/// counts of the others.
pub proof fn lemma_count_of_push(
    outcomes: Seq<UpdateOutcome>,
    outcome: UpdateOutcome,
    kind: UpdateOutcome,
)
    ensures
        count_of(outcomes.push(outcome), kind) == count_of(outcomes, kind) + if outcome == kind {
            1nat
        } else {
            0nat
        },
{
    assert(outcomes.push(outcome).drop_last() =~= outcomes);
}

/// A step keeps what holds of every state, where the outcome is `Skipped`
/// for an excluded package and another one otherwise.
pub proof fn lemma_record_keeps_wf(state: RunState, outcome: UpdateOutcome)
    requires
        state.wf(),
        !state.finished(),
        outcome == UpdateOutcome::Skipped <==> is_excluded(state.current().name, state.exclusions),
    ensures
        state.record(outcome).wf(),
{
    lemma_count_of_push(state.outcomes, outcome, UpdateOutcome::Updated);
    lemma_count_of_push(state.outcomes, outcome, UpdateOutcome::Skipped);
}

/// A pass begins in a state of which [`RunState::wf`] holds.
pub proof fn lemma_initial_is_wf(packages: Seq<PackageRecord>, exclusions: Seq<Seq<char>>)
    ensures
        RunState::initial(packages, exclusions).wf(),
{
}

/// The counters are accurate in every state that a pass reaches. The
/// counter of updated packages is the number of packages whose outcome is
/// `Updated`, the counter of skipped packages is the number of excluded
/// packages among those dealt with, and the packages that are neither
/// updated nor skipped are those whose update failed: a failure is counted
/// by neither counter.
pub proof fn lemma_counters_are_accurate(state: RunState)
    requires
        state.wf(),
    ensures
        state.updated_count == count_of(state.outcomes, UpdateOutcome::Updated),
        state.skipped_count == count_of(state.outcomes, UpdateOutcome::Skipped),
        state.skipped_count == excluded_among(
            state.packages.take(state.outcomes.len() as int),
            state.exclusions,
        ),
        state.updated_count + state.skipped_count + count_of(state.outcomes, UpdateOutcome::Failed)
            == state.outcomes.len(),
{
    lemma_counts_add_up(state.outcomes);
    lemma_skipped_are_excluded(state, state.outcomes.len());
    assert(state.outcomes.take(state.outcomes.len() as int) =~= state.outcomes);
}

/// Among the first `n` outcomes, as many are `Skipped` as there are
/// excluded packages among the first `n` packages.
proof fn lemma_skipped_are_excluded(state: RunState, n: nat)
    requires
        state.wf(),
        n <= state.outcomes.len(),
    ensures
        count_of(state.outcomes.take(n as int), UpdateOutcome::Skipped) == excluded_among(
            state.packages.take(n as int),
            state.exclusions,
        ),
    decreases n,
{
    if n > 0 {
        lemma_skipped_are_excluded(state, (n - 1) as nat);
        assert(state.outcomes.take(n as int).drop_last() =~= state.outcomes.take(n - 1));
        assert(state.packages.take(n as int).drop_last() =~= state.packages.take(n - 1));
        assert(state.outcomes.take(n as int).last() == state.outcomes[n - 1]);
        assert(state.packages.take(n as int).last() == state.packages[n - 1]);
    }
}

/// The pass goes from package to package as the machine does: the state
/// after one more package is the state before it with the outcome of the
/// package that was current.
pub proof fn lemma_pass_goes_by_steps(
    packages: Seq<PackageRecord>,
    exclusions: Seq<Seq<char>>,
    results: Seq<Invocation>,
    n: nat,
)
    requires
        n < packages.len(),
    ensures
        ({
            let state = state_after(packages, exclusions, results, n);
            &&& !state.finished()
            &&& state.current() == packages[n as int]
            &&& state_after(packages, exclusions, results, n + 1) == state.record(
                outcome_for(state.current(), exclusions, results[n as int]),
            )
        }),
{
    lemma_pass_counts_successes(packages, exclusions, results, n);
}

/// A whole pass, whatever the results of its update commands: after `n`
/// packages the counter of updated packages is the number of commands that
/// succeeded, the counter of skipped packages is the number of excluded
/// packages, and the commands that failed are counted by neither.
pub proof fn lemma_pass_counts_successes(
    packages: Seq<PackageRecord>,
    exclusions: Seq<Seq<char>>,
    results: Seq<Invocation>,
    n: nat,
)
    requires
        n <= packages.len(),
    ensures
        ({
            let state = state_after(packages, exclusions, results, n);
            &&& state.wf()
            &&& state.packages == packages
            &&& state.exclusions == exclusions
            &&& state.outcomes.len() == n
            &&& state.updated_count == commands_ended(packages, exclusions, results, true, n)
            &&& state.skipped_count == excluded_among(packages.take(n as int), exclusions)
            &&& count_of(state.outcomes, UpdateOutcome::Failed) == commands_ended(
                packages,
                exclusions,
                results,
                false,
                n,
            )
            &&& state.updated_count + state.skipped_count + commands_ended(
                packages,
                exclusions,
                results,
                false,
                n,
            ) == n
        }),
    decreases n,
{
    if n > 0 {
        let before = state_after(packages, exclusions, results, (n - 1) as nat);
        let outcome = outcome_for(packages[n - 1], exclusions, results[n - 1]);
        lemma_pass_counts_successes(packages, exclusions, results, (n - 1) as nat);
        lemma_record_keeps_wf(before, outcome);
        lemma_count_of_push(before.outcomes, outcome, UpdateOutcome::Failed);
        lemma_counts_add_up(state_after(packages, exclusions, results, n).outcomes);
        assert(packages.take(n as int).drop_last() =~= packages.take(n - 1));
        assert(packages.take(n as int).last() == packages[n - 1]);
    } else {
        assert(packages.take(0) =~= Seq::<PackageRecord>::empty());
    }
}

} // verus!
