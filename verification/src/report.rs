//! The orchestrator's arithmetic: in which order the tests of a suite run,
//! and what the statuses of the runs add up to.
//!
//! A suite is walked in order. A test that holds a nested suite has that suite
//! walked in full before the next test; any other test runs once. A test is
//! named by its path: the positions from the root suite down to it. Each suite
//! that does not delegate gets a summary of the tests that it ran itself.

use crate::atest::Arbitest;
use crate::exec::TestStatus;
use crate::test::{test_model, ArbitestConfig, SuiteModel, Test, TestModel};
use vstd::prelude::*;

verus! {

/// How many tests passed and how many failed.
#[derive(Debug, Clone, Copy, PartialEq, Eq, Structural)]
pub struct Tally {
    pub passed: usize,
    pub failed: usize,
}

impl Tally {
    /// Whether no test failed.
    pub fn ok(&self) -> (ok: bool)
        ensures
            ok == (self.failed == 0),
    {
        self.failed == 0
    }
}

/// Why a run has no tally.
#[derive(Debug, Clone, Copy, PartialEq, Eq, Structural)]
pub enum RunError {
    /// The status at this position says that a command could not be run: the first such.
    Fatal(usize),
    /// There are more statuses than tests that run, or fewer.
    Mismatch,
}

/// The summary of one suite: where the suite stands, and the tally of its own tests.
#[derive(Debug, Clone, PartialEq, Eq)]
pub struct Summary {
    pub path: Vec<usize>,
    pub passed: usize,
    pub failed: usize,
}

/// A summary as a value of mathematics.
pub struct SummaryModel {
    pub path: Seq<usize>,
    pub passed: nat,
    pub failed: nat,
}

impl View for Summary {
    type V = SummaryModel;

    open spec fn view(&self) -> SummaryModel {
        SummaryModel { path: self.path@, passed: self.passed as nat, failed: self.failed as nat }
    }
}

/// What a whole run came to: the summaries in the order in which their suites ended, and
/// the tally of all tests that ran.
#[derive(Debug, Clone, PartialEq, Eq)]
pub struct Report {
    pub summaries: Vec<Summary>,
    pub passed: usize,
    pub failed: usize,
}

/// The summaries of a list, each by its view.
pub open spec fn view_summaries(summaries: Seq<Summary>) -> Seq<SummaryModel> {
    summaries.map_values(|s: Summary| s@)
}

/// The paths of a list, each as a sequence of positions.
pub open spec fn view_paths(paths: Seq<Vec<usize>>) -> Seq<Seq<usize>> {
    paths.map_values(|p: Vec<usize>| p@)
}

/// How many of the statuses from `from` up to `to` are `Success`.
pub open spec fn passes(statuses: Seq<TestStatus>, from: int, to: int) -> nat
    decreases to - from,
{
    if to <= from {
        0
    } else {
        passes(statuses, from, to - 1) + if statuses[to - 1] is Success {
            1nat
        } else {
            0nat
        }
    }
}

/// How many of the statuses from `from` up to `to` are `Failure`.
pub open spec fn fails(statuses: Seq<TestStatus>, from: int, to: int) -> nat
    decreases to - from,
{
    if to <= from {
        0
    } else {
        fails(statuses, from, to - 1) + if statuses[to - 1] is Failure {
            1nat
        } else {
            0nat
        }
    }
}

/// Whether `at` is the first status that says that a command could not be run.
pub open spec fn is_first_fatal(statuses: Seq<TestStatus>, at: int) -> bool {
    &&& 0 <= at < statuses.len()
    &&& statuses[at] is ExecError
    &&& forall|k: int| 0 <= k < at ==> !(#[trigger] statuses[k] is ExecError)
}

/// Whether no status says that a command could not be run.
pub open spec fn none_fatal(statuses: Seq<TestStatus>) -> bool {
    forall|k: int| 0 <= k < statuses.len() ==> !(#[trigger] statuses[k] is ExecError)
}

/// The suite nested in a test, where one is attached.
pub open spec fn nested_suite(test: TestModel) -> Option<SuiteModel> {
    match test.subtest {
        Some(sub) => match sub.sub_config {
            Some(suite) => Some(*suite),
            None => None,
        },
        None => None,
    }
}

/// How many tests run when the suite is walked.
pub open spec fn run_count(suite: SuiteModel) -> nat
    decreases suite, 0nat,
{
    runs_in(suite.tests, suite.tests.len())
}

/// How many tests run when the first `n` tests of a list are walked.
pub open spec fn runs_in(tests: Seq<TestModel>, n: nat) -> nat
    decreases tests, n,
{
    if n == 0 || n > tests.len() {
        0
    } else {
        runs_in(tests, (n - 1) as nat) + match tests[n - 1].subtest {
            Some(sub) => match sub.sub_config {
                Some(suite) => run_count(*suite),
                None => 1,
            },
            None => 1,
        }
    }
}

/// The tests that run when the suite at `path` is walked, in the order of their runs.
pub open spec fn run_paths(suite: SuiteModel, path: Seq<usize>) -> Seq<Seq<usize>>
    decreases suite, 0nat,
{
    paths_in(suite.tests, suite.tests.len(), path)
}

/// The tests that run when the first `n` tests of a list are walked.
pub open spec fn paths_in(tests: Seq<TestModel>, n: nat, path: Seq<usize>) -> Seq<Seq<usize>>
    decreases tests, n,
{
    if n == 0 || n > tests.len() {
        Seq::empty()
    } else {
        let here = path.push((n - 1) as usize);
        paths_in(tests, (n - 1) as nat, path) + match tests[n - 1].subtest {
            Some(sub) => match sub.sub_config {
                Some(suite) => run_paths(*suite, here),
                None => seq![here],
            },
            None => seq![here],
        }
    }
}

/// How many of the first `n` tests of a list ran themselves and passed, where the runs of
/// the list start at `offset` in the statuses.
pub open spec fn direct_passed(
    tests: Seq<TestModel>,
    n: nat,
    statuses: Seq<TestStatus>,
    offset: nat,
) -> nat
    decreases n,
{
    if n == 0 || n > tests.len() {
        0
    } else {
        direct_passed(tests, (n - 1) as nat, statuses, offset) + if nested_suite(tests[n - 1])
            is None && statuses[(offset + runs_in(tests, (n - 1) as nat)) as int] is Success {
            1nat
        } else {
            0nat
        }
    }
}

/// How many of the first `n` tests of a list ran themselves and failed.
pub open spec fn direct_failed(
    tests: Seq<TestModel>,
    n: nat,
    statuses: Seq<TestStatus>,
    offset: nat,
) -> nat
    decreases n,
{
    if n == 0 || n > tests.len() {
        0
    } else {
        direct_failed(tests, (n - 1) as nat, statuses, offset) + if nested_suite(tests[n - 1])
            is None && statuses[(offset + runs_in(tests, (n - 1) as nat)) as int] is Failure {
            1nat
        } else {
            0nat
        }
    }
}

/// How many of the first `n` tests of a list run themselves: those that hold no nested
/// suite.
pub open spec fn direct_count(tests: Seq<TestModel>, n: nat) -> nat
    decreases n,
{
    if n == 0 || n > tests.len() {
        0
    } else {
        direct_count(tests, (n - 1) as nat) + if nested_suite(tests[n - 1]) is None {
            1nat
        } else {
            0nat
        }
    }
}

/// The summaries that walking the suite at `path` gives, where its runs start at `offset`
/// in the statuses: those of its nested suites as they end, and then, unless the suite
/// delegates, its own, which counts the tests that the suite ran itself.
pub open spec fn summaries(
    suite: SuiteModel,
    path: Seq<usize>,
    statuses: Seq<TestStatus>,
    offset: nat,
) -> Seq<SummaryModel>
    decreases suite, 0nat,
{
    let inner = summaries_in(suite.tests, suite.tests.len(), path, statuses, offset);
    if suite.delegate {
        inner
    } else {
        inner.push(
            SummaryModel {
                path,
                passed: direct_passed(suite.tests, suite.tests.len(), statuses, offset),
                failed: direct_failed(suite.tests, suite.tests.len(), statuses, offset),
            },
        )
    }
}

/// The summaries that walking the first `n` tests of a list gives.
pub open spec fn summaries_in(
    tests: Seq<TestModel>,
    n: nat,
    path: Seq<usize>,
    statuses: Seq<TestStatus>,
    offset: nat,
) -> Seq<SummaryModel>
    decreases tests, n,
{
    if n == 0 || n > tests.len() {
        Seq::empty()
    } else {
        summaries_in(tests, (n - 1) as nat, path, statuses, offset) + match tests[n - 1].subtest {
            Some(sub) => match sub.sub_config {
                Some(suite) => summaries(
                    *suite,
                    path.push((n - 1) as usize),
                    statuses,
                    offset + runs_in(tests, (n - 1) as nat),
                ),
                None => Seq::empty(),
            },
            None => Seq::empty(),
        }
    }
}

/// Walking more tests of a list runs no fewer tests.
pub proof fn lemma_runs_in_grows(tests: Seq<TestModel>, n: nat, m: nat)
    requires
        n <= m <= tests.len(),
    ensures
        runs_in(tests, n) <= runs_in(tests, m),
    decreases m - n,
{
    if n < m {
        lemma_runs_in_grows(tests, n, (m - 1) as nat);
    }
}

/// The tally of the statuses, unless one of them says that a command could not be run:
/// then the position of the first such.
pub fn tally(statuses: &Vec<TestStatus>) -> (r: Result<Tally, usize>)
    ensures
        match r {
            Ok(t) => none_fatal(statuses@) && t.passed == passes(
                statuses@,
                0,
                statuses@.len() as int,
            ) && t.failed == fails(statuses@, 0, statuses@.len() as int),
            Err(at) => is_first_fatal(statuses@, at as int),
        },
{
    let mut passed: usize = 0;
    let mut failed: usize = 0;
    let mut i: usize = 0;
    while i < statuses.len()
        invariant
            i <= statuses@.len(),
            passed == passes(statuses@, 0, i as int),
            failed == fails(statuses@, 0, i as int),
            passed + failed == i,
            forall|k: int| 0 <= k < i ==> !(#[trigger] statuses@[k] is ExecError),
        decreases statuses@.len() - i,
    {
        match &statuses[i] {
            TestStatus::Success => {
                passed = passed + 1;
            },
            TestStatus::Failure => {
                failed = failed + 1;
            },
            TestStatus::ExecError(_, _) => {
                return Err(i);
            },
        }
        i = i + 1;
    }
    Ok(Tally { passed, failed })
}

/// The tally of a suite of the line-oriented notation, given the statuses of its tests
/// in their order. A command that could not be run is fatal to the run.
pub fn execute_config(config: &Arbitest, statuses: &Vec<TestStatus>) -> (r: Result<Tally, RunError>)
    ensures
        match r {
            Ok(t) => none_fatal(statuses@) && statuses@.len() == config.tests@.len() && t.passed
                == passes(statuses@, 0, statuses@.len() as int) && t.failed == fails(
                statuses@,
                0,
                statuses@.len() as int,
            ) && t.passed + t.failed == config.tests@.len(),
            Err(RunError::Fatal(at)) => is_first_fatal(statuses@, at as int),
            Err(RunError::Mismatch) => none_fatal(statuses@) && statuses@.len()
                != config.tests@.len(),
        },
{
    match tally(statuses) {
        Err(at) => Err(RunError::Fatal(at)),
        Ok(t) => {
            if statuses.len() != config.tests.len() {
                Err(RunError::Mismatch)
            } else {
                proof {
                    law_every_run_counts(statuses@, 0, statuses@.len() as int);
                }
                Ok(t)
            }
        },
    }
}

/// Every run that could be made is counted once: as passed or as failed.
pub proof fn law_every_run_counts(statuses: Seq<TestStatus>, from: int, to: int)
    requires
        0 <= from <= to <= statuses.len(),
        none_fatal(statuses),
    ensures
        passes(statuses, from, to) + fails(statuses, from, to) == to - from,
    decreases to - from,
{
    if from < to {
        law_every_run_counts(statuses, from, to - 1);
        assert(!(statuses[to - 1] is ExecError));
    }
}

/// The suite nested in a test, where one is attached.
fn nested_of(test: &Test) -> (found: Option<&ArbitestConfig>)
    ensures
        match found {
            Some(suite) => nested_suite(test@) == Some(suite@) && decreases_to!(test => suite),
            None => nested_suite(test@) is None,
        },
{
    match &test.subtest {
        Some(sub) => match &sub.sub_config {
            Some(suite) => Some(&**suite),
            None => None,
        },
        None => None,
    }
}

/// A copy of a path.
fn copy_path(path: &Vec<usize>) -> (copy: Vec<usize>)
    ensures
        copy@ == path@,
{
    let mut copy: Vec<usize> = Vec::new();
    let mut i: usize = 0;
    while i < path.len()
        invariant
            i <= path@.len(),
            copy@ == path@.take(i as int),
        decreases path@.len() - i,
    {
        copy.push(path[i]);
        proof {
            assert(path@.take(i as int).push(path@[i as int]) =~= path@.take(i + 1));
        }
        i = i + 1;
    }
    proof {
        assert(path@.take(path@.len() as int) =~= path@);
    }
    copy
}

/// Appends to `order` the tests that run when the suite at `path` is walked.
fn collect_order(suite: &ArbitestConfig, path: &mut Vec<usize>, order: &mut Vec<Vec<usize>>)
    ensures
        final(path)@ == old(path)@,
        view_paths(final(order)@) == view_paths(old(order)@) + run_paths(suite@, old(path)@),
    decreases suite,
{
    let ghost tests = suite@.tests;
    let ghost base = view_paths(order@);
    let ghost here = path@;
    let mut i: usize = 0;
    proof {
        assert(base + paths_in(tests, 0, here) =~= base);
    }
    while i < suite.tests.len()
        invariant
            i <= suite.tests@.len(),
            tests == suite@.tests,
            tests.len() == suite.tests@.len(),
            path@ == here,
            view_paths(order@) == base + paths_in(tests, i as nat, here),
        decreases suite.tests@.len() - i,
    {
        proof {
            assert(tests[i as int] == test_model(suite.tests@[i as int]));
        }
        let ghost before = view_paths(order@);
        path.push(i);
        match nested_of(&suite.tests[i]) {
            Some(child) => {
                collect_order(child, path, order);
            },
            None => {
                let entry = copy_path(path);
                proof {
                    assert(view_paths(order@.push(entry)) =~= view_paths(order@) + seq![entry@]);
                }
                order.push(entry);
            },
        }
        path.pop();
        proof {
            assert(path@ =~= here);
            let step = paths_in(tests, (i + 1) as nat, here);
            assert(view_paths(order@) =~= base + step) by {
                assert(view_paths(order@) == before + match tests[i as int].subtest {
                    Some(sub) => match sub.sub_config {
                        Some(nested) => run_paths(*nested, here.push(i)),
                        None => seq![here.push(i)],
                    },
                    None => seq![here.push(i)],
                });
            }
        }
        i = i + 1;
    }
}

/// The tests that run when the suite is walked, each by its path, in the order of
/// their runs.
pub fn execution_order(suite: &ArbitestConfig) -> (order: Vec<Vec<usize>>)
    ensures
        view_paths(order@) == run_paths(suite@, Seq::empty()),
{
    let mut path: Vec<usize> = Vec::new();
    let mut order: Vec<Vec<usize>> = Vec::new();
    proof {
        assert(view_paths(order@) =~= Seq::<Seq<usize>>::empty());
    }
    collect_order(suite, &mut path, &mut order);
    proof {
        assert(Seq::<Seq<usize>>::empty() + run_paths(suite@, Seq::empty()) =~= run_paths(
            suite@,
            Seq::empty(),
        ));
    }
    order
}

/// Walks the suite at `path`, whose runs start at `offset` in the statuses, and appends
/// its summaries to `lines`. Returns where the runs of the suite end, or nothing where
/// the statuses end before them.
fn walk(
    suite: &ArbitestConfig,
    path: &mut Vec<usize>,
    statuses: &Vec<TestStatus>,
    offset: usize,
    lines: &mut Vec<Summary>,
) -> (next: Option<usize>)
    requires
        offset <= statuses@.len(),
    ensures
        final(path)@ == old(path)@,
        match next {
            Some(end) => end == offset + run_count(suite@) && end <= statuses@.len()
                && view_summaries(final(lines)@) == view_summaries(old(lines)@) + summaries(
                suite@,
                old(path)@,
                statuses@,
                offset as nat,
            ),
            None => offset + run_count(suite@) > statuses@.len(),
        },
    decreases suite,
{
    let ghost tests = suite@.tests;
    let ghost base = view_summaries(lines@);
    let ghost here = path@;
    let mut at: usize = offset;
    let mut passed: usize = 0;
    let mut failed: usize = 0;
    let mut i: usize = 0;
    proof {
        assert(base + summaries_in(tests, 0, here, statuses@, offset as nat) =~= base);
    }
    while i < suite.tests.len()
        invariant
            i <= suite.tests@.len(),
            tests == suite@.tests,
            tests.len() == suite.tests@.len(),
            path@ == here,
            here == old(path)@,
            offset <= at <= statuses@.len(),
            at == offset + runs_in(tests, i as nat),
            passed == direct_passed(tests, i as nat, statuses@, offset as nat),
            failed == direct_failed(tests, i as nat, statuses@, offset as nat),
            passed + failed <= at - offset,
            view_summaries(lines@) == base + summaries_in(
                tests,
                i as nat,
                here,
                statuses@,
                offset as nat,
            ),
        decreases suite.tests@.len() - i,
    {
        proof {
            assert(tests[i as int] == test_model(suite.tests@[i as int]));
            lemma_runs_in_grows(tests, (i + 1) as nat, tests.len());
        }
        let ghost before = view_summaries(lines@);
        match nested_of(&suite.tests[i]) {
            Some(child) => {
                path.push(i);
                let end = walk(child, path, statuses, at, lines);
                path.pop();
                proof {
                    assert(path@ =~= here);
                }
                match end {
                    Some(end) => {
                        at = end;
                    },
                    None => {
                        return None;
                    },
                }
            },
            None => {
                if at >= statuses.len() {
                    return None;
                }
                match &statuses[at] {
                    TestStatus::Success => {
                        passed = passed + 1;
                    },
                    TestStatus::Failure => {
                        failed = failed + 1;
                    },
                    TestStatus::ExecError(_, _) => {},
                }
                at = at + 1;
            },
        }
        proof {
            let step = summaries_in(tests, (i + 1) as nat, here, statuses@, offset as nat);
            assert(view_summaries(lines@) =~= base + step) by {
                assert(view_summaries(lines@) == before + match tests[i as int].subtest {
                    Some(sub) => match sub.sub_config {
                        Some(nested) => summaries(
                            *nested,
                            here.push(i),
                            statuses@,
                            offset as nat + runs_in(tests, i as nat),
                        ),
                        None => Seq::empty(),
                    },
                    None => Seq::empty(),
                }) by {
                    assert(before + Seq::<SummaryModel>::empty() =~= before);
                }
            }
        }
        i = i + 1;
    }
    if !suite.config.delegate {
        let line = Summary { path: copy_path(path), passed, failed };
        proof {
            assert(view_summaries(lines@.push(line)) =~= view_summaries(lines@).push(line@));
            assert((base + summaries_in(tests, tests.len(), here, statuses@, offset as nat)).push(
                line@,
            ) =~= base + summaries_in(tests, tests.len(), here, statuses@, offset as nat).push(
                line@,
            ));
        }
        lines.push(line);
    }
    Some(at)
}

/// What a run of the suite came to, given the statuses of the tests that ran, in the
/// order of their runs. A command that could not be run is fatal to the run.
pub fn report(suite: &ArbitestConfig, statuses: &Vec<TestStatus>) -> (r: Result<Report, RunError>)
    ensures
        match r {
            Ok(whole) => {
                &&& none_fatal(statuses@)
                &&& statuses@.len() == run_count(suite@)
                &&& view_summaries(whole.summaries@) == summaries(
                    suite@,
                    Seq::empty(),
                    statuses@,
                    0,
                )
                &&& whole.passed == passes(statuses@, 0, statuses@.len() as int)
                &&& whole.failed == fails(statuses@, 0, statuses@.len() as int)
            },
            Err(RunError::Fatal(at)) => is_first_fatal(statuses@, at as int),
            Err(RunError::Mismatch) => none_fatal(statuses@) && statuses@.len() != run_count(
                suite@,
            ),
        },
{
    let total = match tally(statuses) {
        Err(at) => {
            return Err(RunError::Fatal(at));
        },
        Ok(total) => total,
    };
    let mut path: Vec<usize> = Vec::new();
    let mut lines: Vec<Summary> = Vec::new();
    proof {
        assert(view_summaries(lines@) =~= Seq::<SummaryModel>::empty());
    }
    match walk(suite, &mut path, statuses, 0, &mut lines) {
        Some(end) => {
            if end != statuses.len() {
                return Err(RunError::Mismatch);
            }
            proof {
                assert(Seq::<SummaryModel>::empty() + summaries(
                    suite@,
                    Seq::empty(),
                    statuses@,
                    0,
                ) =~= summaries(suite@, Seq::empty(), statuses@, 0));
            }
            Ok(Report { summaries: lines, passed: total.passed, failed: total.failed })
        },
        None => Err(RunError::Mismatch),
    }
}

/// A suite that delegates gives no summary of its own: every summary of its walk
/// belongs to a suite nested in it.
pub proof fn law_delegate_is_silent(
    suite: SuiteModel,
    path: Seq<usize>,
    statuses: Seq<TestStatus>,
    offset: nat,
)
    requires
        suite.delegate,
    ensures
        summaries(suite, path, statuses, offset) == summaries_in(
            suite.tests,
            suite.tests.len(),
            path,
            statuses,
            offset,
        ),
        forall|k: int|
            0 <= k < summaries(suite, path, statuses, offset).len() ==> (#[trigger] summaries(
                suite,
                path,
                statuses,
                offset,
            )[k]).path.len() > path.len(),
{
    lemma_inner_paths(suite.tests, suite.tests.len(), path, statuses, offset);
    assert(summaries(suite, path, statuses, offset) == summaries_in(
        suite.tests,
        suite.tests.len(),
        path,
        statuses,
        offset,
    ));
}

/// The summaries of a walk belong to the suite walked or to suites nested in it: their
/// paths are no shorter than its path.
pub proof fn lemma_summary_paths(
    suite: SuiteModel,
    path: Seq<usize>,
    statuses: Seq<TestStatus>,
    offset: nat,
)
    ensures
        forall|k: int|
            0 <= k < summaries(suite, path, statuses, offset).len() ==> (#[trigger] summaries(
                suite,
                path,
                statuses,
                offset,
            )[k]).path.len() >= path.len(),
    decreases suite, 0nat,
{
    let inner = summaries_in(suite.tests, suite.tests.len(), path, statuses, offset);
    let all = summaries(suite, path, statuses, offset);
    lemma_inner_paths(suite.tests, suite.tests.len(), path, statuses, offset);
    assert forall|k: int| 0 <= k < all.len() implies (#[trigger] all[k]).path.len()
        >= path.len() by {
        if k < inner.len() {
            assert(all[k] == inner[k]);
        }
    }
}

/// The summaries of the tests of a list belong to suites nested in them: their paths
/// are longer than the path of the list.
pub proof fn lemma_inner_paths(
    tests: Seq<TestModel>,
    n: nat,
    path: Seq<usize>,
    statuses: Seq<TestStatus>,
    offset: nat,
)
    ensures
        forall|k: int|
            0 <= k < summaries_in(tests, n, path, statuses, offset).len() ==> (
            #[trigger] summaries_in(tests, n, path, statuses, offset)[k]).path.len() > path.len(),
    decreases tests, n,
{
    if n == 0 || n > tests.len() {
    } else {
        let all = summaries_in(tests, n, path, statuses, offset);
        let front = summaries_in(tests, (n - 1) as nat, path, statuses, offset);
        lemma_inner_paths(tests, (n - 1) as nat, path, statuses, offset);
        match tests[n - 1].subtest {
            Some(sub) => match sub.sub_config {
                Some(suite) => {
                    let here = path.push((n - 1) as usize);
                    let back = summaries(
                        *suite,
                        here,
                        statuses,
                        offset + runs_in(tests, (n - 1) as nat),
                    );
                    lemma_summary_paths(
                        *suite,
                        here,
                        statuses,
                        offset + runs_in(tests, (n - 1) as nat),
                    );
                    assert(all == front + back);
                    assert forall|k: int| 0 <= k < all.len() implies (#[trigger] all[k]).path.len()
                        > path.len() by {
                        if k < front.len() {
                            assert(all[k] == front[k]);
                        } else {
                            assert(all[k] == back[k - front.len()]);
                        }
                    }
                },
                None => {
                    assert(all =~= front);
                },
            },
            None => {
                assert(all =~= front);
            },
        }
    }
}

/// A suite that does not delegate ends its walk with its own summary, and where every
/// run could be made that summary counts each test that the suite ran itself once, as
/// passed or as failed, and no test of a nested suite.
pub proof fn law_summary_counts_own_tests(
    suite: SuiteModel,
    path: Seq<usize>,
    statuses: Seq<TestStatus>,
    offset: nat,
)
    requires
        !suite.delegate,
        none_fatal(statuses),
        offset + run_count(suite) <= statuses.len(),
    ensures
        summaries(suite, path, statuses, offset).len() > 0,
        summaries(suite, path, statuses, offset).last().path == path,
        summaries(suite, path, statuses, offset).last().passed + summaries(
            suite,
            path,
            statuses,
            offset,
        ).last().failed == direct_count(suite.tests, suite.tests.len()),
{
    lemma_direct_counts(suite.tests, suite.tests.len(), statuses, offset);
}

/// Of the first `n` tests of a list, those that ran themselves were each counted once.
pub proof fn lemma_direct_counts(
    tests: Seq<TestModel>,
    n: nat,
    statuses: Seq<TestStatus>,
    offset: nat,
)
    requires
        n <= tests.len(),
        none_fatal(statuses),
        offset + runs_in(tests, n) <= statuses.len(),
    ensures
        direct_passed(tests, n, statuses, offset) + direct_failed(tests, n, statuses, offset)
            == direct_count(tests, n),
    decreases n,
{
    if n > 0 {
        lemma_runs_in_grows(tests, (n - 1) as nat, n);
        lemma_direct_counts(tests, (n - 1) as nat, statuses, offset);
        if nested_suite(tests[n - 1]) is None {
            let at = (offset + runs_in(tests, (n - 1) as nat)) as int;
            assert(!(statuses[at] is ExecError));
        }
    }
}

/// The order of the runs names as many tests as run.
pub proof fn law_order_length(suite: SuiteModel, path: Seq<usize>)
    ensures
        run_paths(suite, path).len() == run_count(suite),
    decreases suite, 0nat,
{
    lemma_paths_length(suite.tests, suite.tests.len(), path);
}

/// The first `n` tests of a list name as many runs as they run.
pub proof fn lemma_paths_length(tests: Seq<TestModel>, n: nat, path: Seq<usize>)
    ensures
        paths_in(tests, n, path).len() == runs_in(tests, n),
    decreases tests, n,
{
    if n == 0 || n > tests.len() {
    } else {
        lemma_paths_length(tests, (n - 1) as nat, path);
        match tests[n - 1].subtest {
            Some(sub) => match sub.sub_config {
                Some(suite) => {
                    law_order_length(*suite, path.push((n - 1) as usize));
                },
                None => {},
            },
            None => {},
        }
    }
}

/// The test that a path names, and the suite that holds it: the path goes down from the
/// suite, through the suites nested in the tests at its positions, to the test at its
/// last position.
pub open spec fn test_at(suite: SuiteModel, path: Seq<usize>) -> Option<(SuiteModel, TestModel)>
    decreases path.len(),
{
    if path.len() == 0 || path[0] >= suite.tests.len() {
        None
    } else if path.len() == 1 {
        Some((suite, suite.tests[path[0] as int]))
    } else {
        match nested_suite(suite.tests[path[0] as int]) {
            Some(child) => test_at(child, path.skip(1)),
            None => None,
        }
    }
}

/// Finds the test that a path names, and the suite that holds it.
pub fn find_test_at<'a>(suite: &'a ArbitestConfig, path: &Vec<usize>) -> (found: Option<
    (&'a ArbitestConfig, &'a Test),
>)
    ensures
        match found {
            Some((holder, test)) => test_at(suite@, path@) == Some((holder@, test@)),
            None => test_at(suite@, path@) is None,
        },
{
    let mut holder: &ArbitestConfig = suite;
    let mut i: usize = 0;
    proof {
        assert(path@.skip(0) =~= path@);
    }
    while i < path.len()
        invariant
            i <= path@.len(),
            test_at(holder@, path@.skip(i as int)) == test_at(suite@, path@),
        decreases path@.len() - i,
    {
        let at = path[i];
        let ghost rest = path@.skip(i as int);
        proof {
            assert(rest[0] == at);
            assert(holder@.tests.len() == holder.tests@.len());
        }
        if at >= holder.tests.len() {
            return None;
        }
        proof {
            assert(holder@.tests[at as int] == test_model(holder.tests@[at as int]));
        }
        if i + 1 == path.len() {
            return Some((holder, &holder.tests[at]));
        }
        match nested_of(&holder.tests[at]) {
            Some(child) => {
                proof {
                    assert(rest.skip(1) =~= path@.skip(i + 1));
                }
                holder = child;
            },
            None => {
                return None;
            },
        }
        i = i + 1;
    }
    None
}

/// Every path in the order of the runs names a test that runs itself: one that holds no
/// nested suite.
pub proof fn law_order_names_tests(suite: ArbitestConfig, k: int)
    requires
        0 <= k < run_paths(suite@, Seq::empty()).len(),
    ensures
        test_at(suite@, run_paths(suite@, Seq::empty())[k]) matches Some((_, test))
            && nested_suite(test) is None,
{
    lemma_run_paths(suite, Seq::empty(), k);
    let path = run_paths(suite@, Seq::empty())[k];
    assert(path.skip(0) =~= path);
}

/// Each path of a walk starts with the path of the suite walked, and what follows names,
/// from that suite, a test that runs itself.
proof fn lemma_run_paths(suite: ArbitestConfig, prefix: Seq<usize>, k: int)
    requires
        0 <= k < run_paths(suite@, prefix).len(),
    ensures
        ({
            let path = run_paths(suite@, prefix)[k];
            &&& path.len() > prefix.len()
            &&& path.take(prefix.len() as int) == prefix
            &&& test_at(suite@, path.skip(prefix.len() as int)) matches Some((_, test))
                && nested_suite(test) is None
        }),
    decreases suite, 1nat, 0nat,
{
    assert(suite@.tests.len() == suite.tests@.len());
    lemma_paths_in(suite, suite.tests@.len() as nat, prefix, k);
}

/// The same, of the paths of the first `n` tests of the suite.
proof fn lemma_paths_in(suite: ArbitestConfig, n: nat, prefix: Seq<usize>, k: int)
    requires
        n <= suite.tests@.len(),
        0 <= k < paths_in(suite@.tests, n, prefix).len(),
    ensures
        ({
            let path = paths_in(suite@.tests, n, prefix)[k];
            &&& path.len() > prefix.len()
            &&& path.take(prefix.len() as int) == prefix
            &&& test_at(suite@, path.skip(prefix.len() as int)) matches Some((_, test))
                && nested_suite(test) is None
        }),
    decreases suite, 0nat, n,
{
    let tests = suite@.tests;
    assert(tests.len() == suite.tests@.len());
    assert(suite.tests@.len() == suite.tests.len());
    let front = paths_in(tests, (n - 1) as nat, prefix);
    let at = (n - 1) as usize;
    let here = prefix.push(at);
    assert(tests[n - 1] == test_model(suite.tests@[n - 1]));
    if k < front.len() {
        lemma_paths_in(suite, (n - 1) as nat, prefix, k);
    } else {
        let path = paths_in(tests, n, prefix)[k];
        match suite.tests@[n - 1].subtest {
            Some(sub) => match sub.sub_config {
                Some(child) => {
                    assert(nested_suite(tests[n - 1]) == Some(child@));
                    assert(path == run_paths(child@, here)[k - front.len()]);
                    lemma_run_paths(*child, here, k - front.len());
                    let tail = path.skip(prefix.len() as int);
                    assert(path.take(here.len() as int).take(prefix.len() as int) =~= path.take(
                        prefix.len() as int,
                    ));
                    assert(here.take(prefix.len() as int) =~= prefix);
                    assert(path.take(here.len() as int)[prefix.len() as int] == at);
                    assert(tail[0] == at);
                    assert(tail.skip(1) =~= path.skip(here.len() as int));
                    assert(tail.len() > 1);
                },
                None => {
                    assert(path == here);
                    assert(path.take(prefix.len() as int) =~= prefix);
                    assert(path.skip(prefix.len() as int) =~= seq![at]);
                },
            },
            None => {
                assert(path == here);
                assert(path.take(prefix.len() as int) =~= prefix);
                assert(path.skip(prefix.len() as int) =~= seq![at]);
            },
        }
    }
}

/// The runs of the first `n` tests of a list come first among the runs of the first `m`,
/// in the same order.
pub proof fn lemma_paths_in_grow(tests: Seq<TestModel>, n: nat, m: nat, path: Seq<usize>)
    requires
        n <= m <= tests.len(),
    ensures
        runs_in(tests, n) <= runs_in(tests, m),
        paths_in(tests, n, path).len() == runs_in(tests, n),
        paths_in(tests, m, path).take(runs_in(tests, n) as int) == paths_in(tests, n, path),
    decreases m - n,
{
    lemma_paths_length(tests, n, path);
    lemma_paths_length(tests, m, path);
    lemma_runs_in_grows(tests, n, m);
    if n < m {
        lemma_paths_in_grow(tests, n, (m - 1) as nat, path);
        lemma_paths_length(tests, (m - 1) as nat, path);
        lemma_runs_in_grows(tests, n, (m - 1) as nat);
        let front = paths_in(tests, (m - 1) as nat, path);
        assert(paths_in(tests, m, path).take(front.len() as int) =~= front);
        assert(paths_in(tests, m, path).take(runs_in(tests, n) as int) =~= front.take(
            runs_in(tests, n) as int,
        ));
    } else {
        assert(paths_in(tests, m, path).take(runs_in(tests, n) as int) =~= paths_in(
            tests,
            n,
            path,
        ));
    }
}

/// The statuses are counted for the tests that ran them. The test at position `i` of the
/// suite at `path`, where it runs itself, stands in the order of the runs at exactly the
/// place whose status the summary of the suite counts for it: behind the runs of the
/// tests before it. Where it holds a nested suite, the runs of that suite stand there,
/// in their order.
pub proof fn law_status_belongs_to_test(suite: SuiteModel, path: Seq<usize>, i: nat)
    requires
        i < suite.tests.len(),
    ensures
        runs_in(suite.tests, i) <= runs_in(suite.tests, i + 1) <= run_count(suite),
        run_paths(suite, path).len() == run_count(suite),
        match nested_suite(suite.tests[i as int]) {
            None => runs_in(suite.tests, i + 1) == runs_in(suite.tests, i) + 1 && run_paths(
                suite,
                path,
            )[runs_in(suite.tests, i) as int] == path.push(i as usize),
            Some(child) => run_paths(suite, path).subrange(
                runs_in(suite.tests, i) as int,
                runs_in(suite.tests, i + 1) as int,
            ) == run_paths(child, path.push(i as usize)),
        },
{
    let tests = suite.tests;
    let all = run_paths(suite, path);
    let upto = paths_in(tests, i + 1, path);
    let before = paths_in(tests, i, path);
    lemma_paths_in_grow(tests, i + 1, tests.len(), path);
    lemma_paths_in_grow(tests, i, i + 1, path);
    lemma_paths_length(tests, tests.len(), path);
    let from = runs_in(tests, i) as int;
    let to = runs_in(tests, i + 1) as int;
    assert(upto == all.take(to));
    assert(before == upto.take(from));
    match nested_suite(tests[i as int]) {
        None => {
            let here = path.push(i as usize);
            assert(upto == before + seq![here]);
            assert(upto[from] == here);
            assert(all.take(to)[from] == all[from]);
        },
        Some(child) => {
            let inner = run_paths(child, path.push(i as usize));
            assert(upto == before + inner);
            law_order_length(child, path.push(i as usize));
            assert(all.subrange(from, to) =~= upto.subrange(from, to));
            assert(upto.subrange(from, to) =~= inner);
        },
    }
}

} // verus!
