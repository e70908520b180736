//! The resolver of suite documents: it takes the root document and then,
//! one by one, the documents of the nested suites that it asks for, and
//! builds the suite with every nested suite in its place.
//!
//! The resolver reads nothing itself. Each step either names the document that
//! it needs next, or ends the resolution. The root stands at depth 0, a suite
//! nested in it at depth 1, and so on; no document is asked for at a depth
//! beyond the limit.
//!
//! `fed` says what one step does. `resolved_suite` says what a whole resolution
//! is, and `law_feeding_resolves` that the steps come to it.

use crate::exec::DeError;
use crate::test::{
    test_model, test_models, view_commands, ArbitestConfig, Command, CommandModel,
    Config, SubTestConfig, SubTestModel, SuiteModel, Test, TestModel,
};
use crate::Options;
use vstd::prelude::*;

verus! {

/// What the resolver does next.
#[derive(Debug)]
pub enum Step {
    /// It needs the document at this path: the suite nested in the test that it stands at.
    Load(String),
    /// It is done: the root suite, with every nested suite attached.
    Finished(ArbitestConfig),
    /// It gave up.
    Failed(DeError),
}

/// A step as a value of mathematics.
pub enum StepModel {
    Load(Seq<char>),
    Finished(SuiteModel),
    Failed(DeError),
}

impl View for Step {
    type V = StepModel;

    open spec fn view(&self) -> StepModel {
        match self {
            Step::Load(path) => StepModel::Load(path@),
            Step::Finished(suite) => StepModel::Finished(suite@),
            Step::Failed(error) => StepModel::Failed(*error),
        }
    }
}

/// A suite in the making: the tests that are done, in order, and those still to do, the
/// next one last.
pub struct FrameModel {
    pub delegate: bool,
    pub commands: Seq<CommandModel>,
    pub done: Seq<TestModel>,
    pub pending: Seq<TestModel>,
}

/// The state of a resolver: the limit, and the suites in the making, the root first. Each
/// but the last waits for the suite nested in its next test.
pub struct ResolverModel {
    pub max_depth: u32,
    pub stack: Seq<FrameModel>,
}

/// The cause, wrapped once for each level between it and the root.
pub open spec fn nested(cause: DeError, depth: nat) -> DeError
    decreases depth,
{
    if depth == 0 {
        cause
    } else {
        DeError::RecursiveError(Box::new(nested(cause, (depth - 1) as nat)))
    }
}

/// How a failure at `depth` is reported: the limit as it is, anything else wrapped once
/// for each level.
pub open spec fn reported(cause: DeError, depth: nat) -> DeError {
    if cause is RecursiveLimit {
        cause
    } else {
        nested(cause, depth)
    }
}

/// The test with the resolved suite attached. A test that says nothing of its nested
/// suite gets the default description.
pub open spec fn attach(test: TestModel, suite: SuiteModel) -> TestModel {
    TestModel {
        subtest: Some(
            SubTestModel {
                sub_config: Some(Box::new(suite)),
                breakdown: match test.subtest {
                    Some(sub) => sub.breakdown,
                    None => true,
                },
            },
        ),
        ..test
    }
}

/// The suite in the making that a document starts as.
pub open spec fn opened(document: SuiteModel) -> FrameModel {
    FrameModel {
        delegate: document.delegate,
        commands: document.commands,
        done: Seq::empty(),
        pending: document.tests.reverse(),
    }
}

/// The suite that a suite in the making is once nothing is left to do.
pub open spec fn closed_suite(frame: FrameModel) -> SuiteModel {
    SuiteModel { delegate: frame.delegate, tests: frame.done, commands: frame.commands }
}

/// The suite in the making with its next test done, as `test`.
pub open spec fn advanced(frame: FrameModel, test: TestModel) -> FrameModel {
    FrameModel { done: frame.done.push(test), pending: frame.pending.drop_last(), ..frame }
}

/// What is left to do in all the suites in the making.
pub open spec fn work(frames: Seq<FrameModel>) -> nat
    decreases frames.len(),
{
    if frames.len() == 0 {
        0
    } else {
        work(frames.drop_last()) + frames.last().pending.len() + 1
    }
}

/// Goes on from the suite in the making `top`, nested in those of `below`, until a
/// document is needed or the resolution ends. Tests that run a command are passed over. A
/// test that stands for a nested suite needs its document, unless that would lie beyond
/// the limit. A finished suite is attached to the test that waits for it.
pub open spec fn settle(below: Seq<FrameModel>, top: FrameModel, max: u32) -> (
    Seq<FrameModel>,
    StepModel,
)
    decreases work(below) + top.pending.len(),
{
    if top.pending.len() == 0 {
        if below.len() == 0 || below.last().pending.len() == 0 {
            (Seq::empty(), StepModel::Finished(closed_suite(top)))
        } else {
            let parent = below.last();
            settle(
                below.drop_last(),
                advanced(parent, attach(parent.pending.last(), closed_suite(top))),
                max,
            )
        }
    } else {
        let test = top.pending.last();
        if test.action.is_subtest() {
            if below.len() >= max {
                (Seq::empty(), StepModel::Failed(DeError::RecursiveLimit))
            } else {
                (below.push(top), StepModel::Load(test.file))
            }
        } else if test.subtest is Some {
            (
                Seq::empty(),
                StepModel::Failed(nested(DeError::MismatchedTestType, below.len())),
            )
        } else {
            settle(below, advanced(top, test), max)
        }
    }
}

/// What a document that was asked for, or the failure to get it, makes of the state.
pub open spec fn fed(state: ResolverModel, loaded: Result<SuiteModel, DeError>) -> (
    ResolverModel,
    StepModel,
) {
    match loaded {
        Err(cause) => (
            ResolverModel { max_depth: state.max_depth, stack: Seq::empty() },
            StepModel::Failed(reported(cause, state.stack.len())),
        ),
        Ok(document) => {
            let (stack, step) = settle(state.stack, opened(document), state.max_depth);
            (ResolverModel { max_depth: state.max_depth, stack }, step)
        },
    }
}

/// A document that was loaded, or why it was not, as a value of mathematics.
pub open spec fn view_loaded(loaded: Result<ArbitestConfig, DeError>) -> Result<
    SuiteModel,
    DeError,
> {
    match loaded {
        Ok(document) => Ok(document@),
        Err(cause) => Err(cause),
    }
}

struct Frame {
    config: Config,
    commands: Vec<Command>,
    done: Vec<Test>,
    pending: Vec<Test>,
}

impl View for Frame {
    type V = FrameModel;

    closed spec fn view(&self) -> FrameModel {
        FrameModel {
            delegate: self.config.delegate,
            commands: view_commands(self.commands@),
            done: test_models(self.done@),
            pending: test_models(self.pending@),
        }
    }
}

/// The suites in the making of a list, each by its view.
spec fn frame_models(frames: Seq<Frame>) -> Seq<FrameModel> {
    frames.map_values(|f: Frame| f@)
}

/// The resolver of one root document.
pub struct Resolver {
    max_depth: u32,
    stack: Vec<Frame>,
}

impl View for Resolver {
    type V = ResolverModel;

    closed spec fn view(&self) -> ResolverModel {
        ResolverModel { max_depth: self.max_depth, stack: frame_models(self.stack@) }
    }
}

/// The models of a list of tests that grew by one.
proof fn lemma_test_models_push(tests: Seq<Test>, test: Test)
    ensures
        test_models(tests.push(test)) == test_models(tests).push(test_model(test)),
{
    assert(test_models(tests.push(test)) =~= test_models(tests).push(test_model(test)));
}

/// The models of a list of tests that lost its last.
proof fn lemma_test_models_pop(tests: Seq<Test>)
    requires
        tests.len() > 0,
    ensures
        test_models(tests.drop_last()) == test_models(tests).drop_last(),
        test_models(tests).last() == test_model(tests.last()),
        test_models(tests).len() == tests.len(),
{
    assert(test_models(tests.drop_last()) =~= test_models(tests).drop_last());
}

/// The models of a list of suites in the making that grew by one.
proof fn lemma_frame_models_push(frames: Seq<Frame>, frame: Frame)
    ensures
        frame_models(frames.push(frame)) == frame_models(frames).push(frame@),
{
    assert(frame_models(frames.push(frame)) =~= frame_models(frames).push(frame@));
}

/// The models of a list of suites in the making that lost its last.
proof fn lemma_frame_models_pop(frames: Seq<Frame>)
    requires
        frames.len() > 0,
    ensures
        frame_models(frames.drop_last()) == frame_models(frames).drop_last(),
        frame_models(frames).last() == frames.last()@,
{
    assert(frame_models(frames.drop_last()) =~= frame_models(frames).drop_last());
}

/// Wraps the cause once for each level.
fn wrap(cause: DeError, depth: usize) -> (error: DeError)
    ensures
        error == nested(cause, depth as nat),
{
    let mut error = cause;
    let mut i: usize = 0;
    while i < depth
        invariant
            i <= depth,
            error == nested(cause, i as nat),
        decreases depth - i,
    {
        error = DeError::RecursiveError(Box::new(error));
        i = i + 1;
    }
    error
}

/// The tests of a list, the last one first.
fn reversed(tests: Vec<Test>) -> (turned: Vec<Test>)
    ensures
        test_models(turned@) == test_models(tests@).reverse(),
{
    let mut tests = tests;
    let mut turned: Vec<Test> = Vec::new();
    let ghost whole = tests@;
    while tests.len() > 0
        invariant
            tests@.len() + turned@.len() == whole.len(),
            tests@ == whole.take(tests@.len() as int),
            forall|k: int|
                0 <= k < turned@.len() ==> #[trigger] turned@[k] == whole[whole.len() - 1 - k],
        decreases tests@.len(),
    {
        let test = tests.pop().unwrap();
        turned.push(test);
        proof {
            assert(tests@ =~= whole.take(tests@.len() as int));
        }
    }
    proof {
        assert(test_models(turned@) =~= test_models(whole).reverse());
    }
    turned
}

impl Resolver {
    /// A resolver that waits for the root document.
    pub fn new(opts: &Options) -> (resolver: Resolver)
        ensures
            resolver@.max_depth == opts.depth_limit(),
            resolver@.stack.len() == 0,
            resolver@.wf(),
    {
        let resolver = Resolver { max_depth: opts.max_depth(), stack: Vec::new() };
        proof {
            assert(resolver@.stack =~= Seq::<FrameModel>::empty());
        }
        resolver
    }

    /// The depth of the document that the resolver waits for.
    pub fn depth(&self) -> (depth: usize)
        ensures
            depth == self@.stack.len(),
    {
        self.stack.len()
    }

    /// Takes the document that the resolver waits for, or the failure to get it, and goes
    /// on until the next document is needed or the resolution ends. A resolver that has
    /// ended waits for a root document again. The suite that a resolver that was made by
    /// `new` hands out is resolved: every test that stands for a nested suite holds it.
    pub fn feed(&mut self, loaded: Result<ArbitestConfig, DeError>) -> (step: Step)
        ensures
            (final(self)@, step@) == fed(old(self)@, view_loaded(loaded)),
            old(self)@.wf() ==> {
                &&& final(self)@.wf()
                &&& step matches Step::Finished(suite) ==> all_resolved(suite@.tests)
                &&& step is Load <==> final(self)@.stack.len() > 0
            },
    {
        let step = self.advance(loaded);
        proof {
            if old(self)@.wf() {
                law_finished_is_resolved(old(self)@, view_loaded(loaded));
            }
        }
        step
    }

    /// The step itself, as `fed` says it.
    fn advance(&mut self, loaded: Result<ArbitestConfig, DeError>) -> (step: Step)
        ensures
            (final(self)@, step@) == fed(old(self)@, view_loaded(loaded)),
    {
        let depth = self.stack.len();
        let max = self.max_depth;
        let document = match loaded {
            Err(cause) => {
                self.stack = Vec::new();
                proof {
                    assert(frame_models(self.stack@) =~= Seq::<FrameModel>::empty());
                }
                if let DeError::RecursiveLimit = cause {
                    return Step::Failed(cause);
                }
                return Step::Failed(wrap(cause, depth));
            },
            Ok(document) => document,
        };
        let ghost given = document@;
        let ghost start = opened(given);
        let ghost base = frame_models(self.stack@);
        let ArbitestConfig { config, tests, commands } = document;
        let mut top = Frame { config, commands, done: Vec::new(), pending: reversed(tests) };
        proof {
            assert(top@.done =~= start.done);
            assert(top@ == start);
        }
        loop
            invariant
                max == self.max_depth,
                max == old(self).max_depth,
                view_loaded(loaded) == Ok::<SuiteModel, DeError>(given),
                start == opened(given),
                base == old(self)@.stack,
                settle(frame_models(self.stack@), top@, max) == settle(base, start, max),
            decreases work(frame_models(self.stack@)) + top@.pending.len(),
        {
            let ghost frames = self.stack@;
            let ghost current = top@;
            if top.pending.len() == 0 {
                let suite = ArbitestConfig {
                    config: top.config,
                    tests: top.done,
                    commands: top.commands,
                };
                proof {
                    assert(suite@ == closed_suite(top@));
                }
                let mut parent = match self.stack.pop() {
                    None => {
                        proof {
                            assert(frame_models(self.stack@) =~= Seq::<FrameModel>::empty());
                        }
                        return Step::Finished(suite);
                    },
                    Some(parent) => parent,
                };
                proof {
                    lemma_frame_models_pop(frames);
                }
                let ghost waiting = parent.pending@;
                let ghost parent_model = parent@;
                let test = match parent.pending.pop() {
                    None => {
                        self.stack = Vec::new();
                        proof {
                            assert(frame_models(self.stack@) =~= Seq::<FrameModel>::empty());
                        }
                        return Step::Finished(suite);
                    },
                    Some(test) => test,
                };
                let breakdown = match &test.subtest {
                    Some(sub) => sub.breakdown,
                    None => true,
                };
                let attached = Test {
                    file: test.file,
                    action: test.action,
                    xout: test.xout,
                    command: test.command,
                    subtest: Some(SubTestConfig { sub_config: Some(Box::new(suite)), breakdown }),
                };
                proof {
                    lemma_test_models_pop(waiting);
                    lemma_test_models_push(parent.done@, attached);
                    assert(test_model(attached) == attach(test_model(test), suite@));
                }
                parent.done.push(attached);
                top = parent;
                proof {
                    assert(top@ == advanced(parent_model, attach(parent_model.pending.last(), closed_suite(current))));
                }
            } else {
                let last = top.pending.len() - 1;
                if top.pending[last].action.is_subtest() {
                    if self.stack.len() >= max as usize {
                        proof {
                            lemma_test_models_pop(top.pending@);
                        }
                        self.stack = Vec::new();
                        proof {
                            assert(frame_models(self.stack@) =~= Seq::<FrameModel>::empty());
                        }
                        return Step::Failed(DeError::RecursiveLimit);
                    }
                    let path = top.pending[last].file.clone();
                    proof {
                        lemma_test_models_pop(top.pending@);
                        lemma_frame_models_push(frames, top);
                    }
                    self.stack.push(top);
                    return Step::Load(path);
                } else if top.pending[last].subtest.is_some() {
                    let depth = self.stack.len();
                    proof {
                        lemma_test_models_pop(top.pending@);
                    }
                    self.stack = Vec::new();
                    proof {
                        assert(frame_models(self.stack@) =~= Seq::<FrameModel>::empty());
                    }
                    return Step::Failed(wrap(DeError::MismatchedTestType, depth));
                } else {
                    proof {
                        lemma_test_models_pop(top.pending@);
                    }
                    let test = top.pending.pop().unwrap();
                    proof {
                        lemma_test_models_push(top.done@, test);
                    }
                    top.done.push(test);
                }
            }
        }
    }
}

/// Whether a test is resolved: one that stands for a nested suite holds that suite,
/// resolved in its turn, and no other test says anything of a nested suite.
pub open spec fn test_resolved(test: TestModel) -> bool
    decreases test,
{
    if test.action.is_subtest() {
        match test.subtest {
            Some(sub) => match sub.sub_config {
                Some(suite) => all_resolved(suite.tests),
                None => false,
            },
            None => false,
        }
    } else {
        test.subtest is None
    }
}

/// Whether every test of a list is resolved.
pub open spec fn all_resolved(tests: Seq<TestModel>) -> bool
    decreases tests,
{
    forall|i: int| 0 <= i < tests.len() ==> test_resolved(#[trigger] tests[i])
}

/// Whether a suite in the making waits for a nested suite.
pub open spec fn waits(frame: FrameModel) -> bool {
    frame.pending.len() > 0 && frame.pending.last().action.is_subtest()
}

impl ResolverModel {
    /// What holds of every state that a fresh resolver reaches: no suite lies beyond the
    /// limit, every suite in the making waits for a nested suite, and the tests done
    /// are resolved.
    pub open spec fn wf(self) -> bool {
        &&& self.stack.len() <= self.max_depth
        &&& forall|i: int|
            0 <= i < self.stack.len() ==> waits(#[trigger] self.stack[i]) && all_resolved(
                self.stack[i].done,
            )
    }
}

/// Going on from a state as a fresh resolver reaches them leads to such a state again. It
/// ends with a suite only where no suite in the making is left, and that suite is
/// resolved; it asks for a document only where one is left.
pub proof fn lemma_settle(below: Seq<FrameModel>, top: FrameModel, max: u32)
    requires
        (ResolverModel { max_depth: max, stack: below }).wf(),
        all_resolved(top.done),
    ensures
        (ResolverModel { max_depth: max, stack: settle(below, top, max).0 }).wf(),
        settle(below, top, max).1 matches StepModel::Finished(suite) ==> all_resolved(
            suite.tests,
        ),
        settle(below, top, max).1 is Load <==> settle(below, top, max).0.len() > 0,
    decreases work(below) + top.pending.len(),
{
    if top.pending.len() == 0 {
        if below.len() > 0 {
            let parent = below.last();
            let waiting = parent.pending.last();
            let next = advanced(parent, attach(waiting, closed_suite(top)));
            assert(waits(below[below.len() - 1]));
            assert(test_resolved(attach(waiting, closed_suite(top))));
            assert forall|i: int| 0 <= i < next.done.len() implies test_resolved(
                #[trigger] next.done[i],
            ) by {
                if i < parent.done.len() {
                    assert(next.done[i] == parent.done[i]);
                }
            }
            assert forall|i: int| 0 <= i < below.drop_last().len() implies waits(
                #[trigger] below.drop_last()[i],
            ) && all_resolved(below.drop_last()[i].done) by {
                assert(below.drop_last()[i] == below[i]);
            }
            lemma_settle(below.drop_last(), next, max);
        }
    } else {
        let test = top.pending.last();
        if test.action.is_subtest() {
            if below.len() < max {
                assert forall|i: int| 0 <= i < below.push(top).len() implies waits(
                    #[trigger] below.push(top)[i],
                ) && all_resolved(below.push(top)[i].done) by {
                    if i < below.len() {
                        assert(below.push(top)[i] == below[i]);
                    }
                }
            }
        } else if test.subtest is None {
            let next = advanced(top, test);
            assert forall|i: int| 0 <= i < next.done.len() implies test_resolved(
                #[trigger] next.done[i],
            ) by {
                if i < top.done.len() {
                    assert(next.done[i] == top.done[i]);
                }
            }
            lemma_settle(below, next, max);
        }
    }
}

/// Nesting is bounded by the limit alone. A document that starts with a nested suite has
/// that suite asked for where the nested suite lies within the limit, and the resolution
/// fails with `RecursiveLimit`, and with nothing else, where it would lie beyond.
pub proof fn law_depth_limit(state: ResolverModel, document: SuiteModel)
    requires
        document.tests.len() > 0,
        document.tests[0].action.is_subtest(),
    ensures
        state.stack.len() < state.max_depth ==> fed(state, Ok(document)) == (
            ResolverModel {
                max_depth: state.max_depth,
                stack: state.stack.push(opened(document)),
            },
            StepModel::Load(document.tests[0].file),
        ),
        state.stack.len() >= state.max_depth ==> fed(state, Ok(document)).1 == StepModel::Failed(
            DeError::RecursiveLimit,
        ),
{
    assert(opened(document).pending.last() == document.tests[0]);
}

/// What a resolver that started fresh hands out is resolved, and it stays a state as a
/// fresh resolver reaches them whatever it is fed.
pub proof fn law_finished_is_resolved(state: ResolverModel, loaded: Result<SuiteModel, DeError>)
    requires
        state.wf(),
    ensures
        fed(state, loaded).0.wf(),
        fed(state, loaded).1 matches StepModel::Finished(suite) ==> all_resolved(suite.tests),
        fed(state, loaded).1 is Load <==> fed(state, loaded).0.stack.len() > 0,
{
    match loaded {
        Ok(document) => {
            lemma_settle(state.stack, opened(document), state.max_depth);
        },
        Err(_) => {},
    }
}

/// A failure to get a document is reported with the depth at which the document was
/// asked for: wrapped once for each level above it.
pub proof fn law_failure_depth(state: ResolverModel, cause: DeError)
    requires
        !(cause is RecursiveLimit),
    ensures
        fed(state, Err(cause)).1 == StepModel::Failed(nested(cause, state.stack.len())),
        state.stack.len() == 0 ==> fed(state, Err(cause)).1 == StepModel::Failed(cause),
{
}

/// The test at `depth` with its nested suite resolved, where `files` says what loading
/// each path gives. A test that stands for a nested suite has the document at its file
/// loaded and resolved one level deeper, unless that level lies beyond `max`; a failure is
/// reported with its depth.
pub open spec fn resolved_test(
    test: TestModel,
    files: spec_fn(Seq<char>) -> Result<SuiteModel, DeError>,
    depth: nat,
    max: nat,
) -> Result<TestModel, DeError>
    decreases max - depth, 0nat, 0nat,
{
    if test.action.is_subtest() {
        if depth >= max {
            Err(DeError::RecursiveLimit)
        } else {
            match files(test.file) {
                Err(cause) => Err(reported(cause, depth + 1)),
                Ok(document) => match resolved_suite(document, files, depth + 1, max) {
                    Err(e) => Err(e),
                    Ok(suite) => Ok(attach(test, suite)),
                },
            }
        }
    } else if test.subtest is Some {
        Err(nested(DeError::MismatchedTestType, depth))
    } else {
        Ok(test)
    }
}

/// The tests of a list at `depth`, each resolved, or the failure of the first that fails.
pub open spec fn resolved_tests(
    tests: Seq<TestModel>,
    files: spec_fn(Seq<char>) -> Result<SuiteModel, DeError>,
    depth: nat,
    max: nat,
) -> Result<Seq<TestModel>, DeError>
    decreases max - depth, tests.len(), 1nat,
{
    if tests.len() == 0 {
        Ok(Seq::empty())
    } else {
        match resolved_test(tests[0], files, depth, max) {
            Err(e) => Err(e),
            Ok(first) => match resolved_tests(tests.skip(1), files, depth, max) {
                Err(e) => Err(e),
                Ok(rest) => Ok(seq![first] + rest),
            },
        }
    }
}

/// The document at `depth` with every nested suite in its place, or why it has none.
pub open spec fn resolved_suite(
    document: SuiteModel,
    files: spec_fn(Seq<char>) -> Result<SuiteModel, DeError>,
    depth: nat,
    max: nat,
) -> Result<SuiteModel, DeError>
    decreases max - depth, document.tests.len() + 1, 0nat,
{
    match resolved_tests(document.tests, files, depth, max) {
        Err(e) => Err(e),
        Ok(tests) => Ok(SuiteModel { tests, ..document }),
    }
}

/// How many documents are loaded while the tests of a list at `depth` are resolved.
pub open spec fn loads(
    tests: Seq<TestModel>,
    files: spec_fn(Seq<char>) -> Result<SuiteModel, DeError>,
    depth: nat,
    max: nat,
) -> nat
    decreases max - depth, tests.len(),
{
    if tests.len() == 0 {
        0
    } else {
        let first = tests[0];
        let here = if first.action.is_subtest() && depth < max {
            1 + match files(first.file) {
                Ok(document) => loads(document.tests, files, depth + 1, max),
                Err(_) => 0,
            }
        } else {
            0
        };
        here + if resolved_test(first, files, depth, max) is Ok {
            loads(tests.skip(1), files, depth, max)
        } else {
            0
        }
    }
}

/// What the resolver comes to when every document that it asks for is answered from
/// `files`, if it asks for no more than `fuel` documents.
pub open spec fn driven(
    below: Seq<FrameModel>,
    top: FrameModel,
    files: spec_fn(Seq<char>) -> Result<SuiteModel, DeError>,
    max: u32,
    fuel: nat,
) -> Option<StepModel>
    decreases fuel,
{
    let (stack, step) = settle(below, top, max);
    match step {
        StepModel::Load(path) => if fuel == 0 {
            None
        } else {
            match files(path) {
                Err(cause) => Some(StepModel::Failed(reported(cause, stack.len()))),
                Ok(document) => driven(stack, opened(document), files, max, (fuel - 1) as nat),
            }
        },
        StepModel::Finished(suite) => Some(StepModel::Finished(suite)),
        StepModel::Failed(error) => Some(StepModel::Failed(error)),
    }
}

/// The suite in the making with the tests `more` done and nothing left.
pub open spec fn completed(frame: FrameModel, more: Seq<TestModel>) -> FrameModel {
    FrameModel { done: frame.done + more, pending: Seq::empty(), ..frame }
}

/// Driving the resolver through the tests that a suite in the making still holds comes
/// to what resolving those tests comes to: to their failure, or to the suite with those
/// tests done.
proof fn lemma_driven(
    below: Seq<FrameModel>,
    top: FrameModel,
    files: spec_fn(Seq<char>) -> Result<SuiteModel, DeError>,
    max: u32,
    fuel: nat,
)
    requires
        below.len() <= max,
        forall|i: int| 0 <= i < below.len() ==> (#[trigger] below[i]).pending.len() > 0,
        fuel >= loads(top.pending.reverse(), files, below.len(), max as nat),
    ensures
        match resolved_tests(top.pending.reverse(), files, below.len(), max as nat) {
            Err(e) => driven(below, top, files, max, fuel) == Some(StepModel::Failed(e)),
            Ok(more) => driven(below, top, files, max, fuel) == driven(
                below,
                completed(top, more),
                files,
                max,
                (fuel - loads(top.pending.reverse(), files, below.len(), max as nat)) as nat,
            ),
        },
    decreases max - below.len(), top.pending.len(),
{
    let tests = top.pending.reverse();
    let depth = below.len();
    if top.pending.len() == 0 {
        assert(tests.len() == 0);
        assert(completed(top, Seq::empty()).done =~= top.done);
        assert(completed(top, Seq::empty()).pending =~= top.pending);
        assert(completed(top, Seq::empty()) == top);
    } else {
        let test = top.pending.last();
        assert(tests[0] == test);
        assert(tests.skip(1) =~= top.pending.drop_last().reverse());
        if test.action.is_subtest() {
            if depth < max {
                let stack = below.push(top);
                match files(test.file) {
                    Err(cause) => {},
                    Ok(document) => {
                        let child = opened(document);
                        assert(child.pending.reverse() =~= document.tests);
                        assert forall|i: int| 0 <= i < stack.len() implies (
                        #[trigger] stack[i]).pending.len() > 0 by {
                            if i < below.len() {
                                assert(stack[i] == below[i]);
                            }
                        }
                        let inner = loads(document.tests, files, depth + 1, max as nat);
                        lemma_driven(stack, child, files, max, (fuel - 1) as nat);
                        match resolved_tests(document.tests, files, depth + 1, max as nat) {
                            Err(e) => {},
                            Ok(more) => {
                                let full = completed(child, more);
                                let suite = closed_suite(full);
                                assert(full.done =~= more);
                                assert(suite == SuiteModel { tests: more, ..document });
                                let next = advanced(top, attach(test, suite));
                                let left = (fuel - 1 - inner) as nat;
                                assert(stack.last() == top);
                                assert(stack.drop_last() =~= below);
                                assert(settle(stack, full, max) == settle(below, next, max));
                                assert(driven(stack, full, files, max, left) == driven(
                                    below,
                                    next,
                                    files,
                                    max,
                                    left,
                                ));
                                lemma_driven(below, next, files, max, left);
                                match resolved_tests(tests.skip(1), files, depth, max as nat) {
                                    Err(e) => {},
                                    Ok(rest) => {
                                        let first = attach(test, suite);
                                        assert(completed(next, rest).done =~= completed(
                                            top,
                                            seq![first] + rest,
                                        ).done);
                                        assert(completed(next, rest) == completed(
                                            top,
                                            seq![first] + rest,
                                        ));
                                    },
                                }
                            },
                        }
                    },
                }
            }
        } else if test.subtest is None {
            let next = advanced(top, test);
            assert(settle(below, top, max) == settle(below, next, max));
            assert(driven(below, top, files, max, fuel) == driven(below, next, files, max, fuel));
            lemma_driven(below, next, files, max, fuel);
            match resolved_tests(tests.skip(1), files, depth, max as nat) {
                Err(e) => {},
                Ok(rest) => {
                    assert(completed(next, rest).done =~= completed(top, seq![test] + rest).done);
                    assert(completed(next, rest) == completed(top, seq![test] + rest));
                },
            }
        }
    }
}

/// A whole resolution is what the documents say. Where every document that the resolver
/// asks for is answered from `files`, the resolver, fed the root document, ends after
/// finitely many documents: with the root suite in which every nested suite, loaded from
/// the file of its test and resolved in its turn, stands in its place, or with the
/// failure of the first test that fails.
pub proof fn law_resolution(
    root: SuiteModel,
    files: spec_fn(Seq<char>) -> Result<SuiteModel, DeError>,
    max: u32,
)
    ensures
        driven(
            Seq::empty(),
            opened(root),
            files,
            max,
            loads(root.tests, files, 0, max as nat),
        ) == Some(
            match resolved_suite(root, files, 0, max as nat) {
                Ok(suite) => StepModel::Finished(suite),
                Err(e) => StepModel::Failed(e),
            },
        ),
{
    let top = opened(root);
    let fuel = loads(root.tests, files, 0, max as nat);
    assert(top.pending.reverse() =~= root.tests);
    lemma_driven(Seq::empty(), top, files, max, fuel);
    match resolved_tests(root.tests, files, 0, max as nat) {
        Err(e) => {},
        Ok(more) => {
            let full = completed(top, more);
            assert(full.done =~= more);
            assert(closed_suite(full) == SuiteModel { tests: more, ..root });
        },
    }
}

/// What feeding comes to when the resolver in `state` is fed `loaded` and then, as long as
/// it asks for a document, what `files` gives for it, if it asks for no more than `fuel`
/// documents.
pub open spec fn run(
    state: ResolverModel,
    loaded: Result<SuiteModel, DeError>,
    files: spec_fn(Seq<char>) -> Result<SuiteModel, DeError>,
    fuel: nat,
) -> Option<StepModel>
    decreases fuel,
{
    let (next, step) = fed(state, loaded);
    match step {
        StepModel::Load(path) => if fuel == 0 {
            None
        } else {
            run(next, files(path), files, (fuel - 1) as nat)
        },
        StepModel::Finished(suite) => Some(StepModel::Finished(suite)),
        StepModel::Failed(error) => Some(StepModel::Failed(error)),
    }
}

/// Feeding a document and going on from `files` is driving the resolver from the suite
/// that the document starts as.
proof fn lemma_run(
    state: ResolverModel,
    document: SuiteModel,
    files: spec_fn(Seq<char>) -> Result<SuiteModel, DeError>,
    fuel: nat,
)
    ensures
        run(state, Ok(document), files, fuel) == driven(
            state.stack,
            opened(document),
            files,
            state.max_depth,
            fuel,
        ),
    decreases fuel,
{
    let (stack, step) = settle(state.stack, opened(document), state.max_depth);
    match step {
        StepModel::Load(path) => {
            if fuel > 0 {
                let reached = ResolverModel { max_depth: state.max_depth, stack };
                match files(path) {
                    Ok(next) => {
                        lemma_run(reached, next, files, (fuel - 1) as nat);
                    },
                    Err(cause) => {
                        assert(run(reached, Err(cause), files, (fuel - 1) as nat) == Some(
                            StepModel::Failed(reported(cause, stack.len())),
                        ));
                    },
                }
            }
        },
        _ => {},
    }
}

/// The resolution of the document at a path: the failure to load it, or the document
/// with every nested suite in its place.
pub open spec fn resolution(
    path: Seq<char>,
    files: spec_fn(Seq<char>) -> Result<SuiteModel, DeError>,
    max: nat,
) -> Result<SuiteModel, DeError> {
    match files(path) {
        Err(cause) => Err(cause),
        Ok(root) => resolved_suite(root, files, 0, max),
    }
}

/// A fresh resolver that is fed the root document and then each document that it asks
/// for, all as `files` gives them, ends with the resolution of the root: after finitely
/// many documents it hands out the resolved suite, or the failure.
pub proof fn law_feeding_resolves(
    path: Seq<char>,
    files: spec_fn(Seq<char>) -> Result<SuiteModel, DeError>,
    max: u32,
)
    ensures
        exists|fuel: nat|
            #[trigger] run(
                ResolverModel { max_depth: max, stack: Seq::empty() },
                files(path),
                files,
                fuel,
            ) == Some(
                match resolution(path, files, max as nat) {
                    Ok(suite) => StepModel::Finished(suite),
                    Err(e) => StepModel::Failed(e),
                },
            ),
{
    let fresh = ResolverModel { max_depth: max, stack: Seq::empty() };
    match files(path) {
        Err(cause) => {
            assert(run(fresh, files(path), files, 0) == Some(StepModel::Failed(cause)));
        },
        Ok(root) => {
            let fuel = loads(root.tests, files, 0, max as nat);
            lemma_run(fresh, root, files, fuel);
            law_resolution(root, files, max);
            assert(run(fresh, files(path), files, fuel) == Some(
                match resolution(path, files, max as nat) {
                    Ok(suite) => StepModel::Finished(suite),
                    Err(e) => StepModel::Failed(e),
                },
            ));
        },
    }
}

/// Nesting as deep as the limit allows succeeds, and one level deeper fails with
/// `RecursiveLimit`. A test at `depth` that nests a suite has its document loaded
/// exactly where the nested suite lies within the limit: the test is then as resolved as
/// its document, and resolved to the document itself where that holds no tests. Where
/// the nested suite would lie beyond the limit the test fails with the limit, and with
/// nothing else, whatever its file holds.
pub proof fn law_limit_is_exact(
    test: TestModel,
    files: spec_fn(Seq<char>) -> Result<SuiteModel, DeError>,
    depth: nat,
    max: nat,
)
    requires
        test.action.is_subtest(),
    ensures
        depth >= max ==> resolved_test(test, files, depth, max) == Err::<TestModel, _>(
            DeError::RecursiveLimit,
        ),
        depth < max ==> (files(test.file) matches Ok(document) ==> (resolved_test(
            test,
            files,
            depth,
            max,
        ) is Ok <==> resolved_suite(document, files, depth + 1, max) is Ok)),
        depth < max ==> (files(test.file) matches Ok(leaf) ==> (leaf.tests.len() == 0
            ==> resolved_test(test, files, depth, max) == Ok::<_, DeError>(attach(test, leaf)))),
{
    if depth < max {
        match files(test.file) {
            Ok(leaf) => {
                if leaf.tests.len() == 0 {
                    assert(resolved_tests(leaf.tests, files, depth + 1, max) == Ok::<
                        _,
                        DeError,
                    >(Seq::<TestModel>::empty()));
                    assert(leaf.tests =~= Seq::<TestModel>::empty());
                    assert(resolved_suite(leaf, files, depth + 1, max) == Ok::<_, DeError>(leaf));
                }
            },
            Err(_) => {},
        }
    }
}

} // verus!
