//! The test executor: which commands a test runs and how, and what a finished
//! run says about the test.

use crate::atest::{
    find_script, first_named, view_bytes, view_entries, view_scripts, view_strings, Script,
    ScriptEntry, ScriptEntryView, ScriptView, Test, TestView,
};
use crate::scanner::to_chars;
use crate::test::{
    view_commands, Action, ActionModel, Command, CommandModel, Test as DocTest, TestModel,
};
use vstd::string::StringExecFns;
use vstd::prelude::*;

verus! {

/// `std::io::Error` of the standard library. Nothing is said of what is inside: such an
/// error is carried through as it came.
#[verifier::external_type_specification]
#[verifier::external_body]
pub struct ExIoError(std::io::Error);

/// Why a suite document could not be resolved.
#[derive(Debug)]
pub enum DeError {
    /// A document could not be read.
    IOError(std::io::Error),
    /// A document was read and has not the shape of a suite; the text says why.
    InvalidDocument(String),
    /// A nested suite could not be resolved; the cause is inside.
    RecursiveError(Box<DeError>),
    /// Suites are nested deeper than the limit allows.
    RecursiveLimit,
    /// A test describes a nested suite and does not run one.
    MismatchedTestType,
}

impl From<std::io::Error> for DeError {
    /// A failure to read, as the error of a resolution.
    fn from(v: std::io::Error) -> (r: Self) {
        DeError::IOError(v)
    }
}

impl vstd::std_specs::convert::FromSpecImpl<std::io::Error> for DeError {
    open spec fn obeys_from_spec() -> bool {
        true
    }

    open spec fn from_spec(v: std::io::Error) -> Self {
        DeError::IOError(v)
    }
}

/// How much the execution engine says while it runs a script.
#[derive(Debug, Clone, Copy, PartialEq, Eq, Structural)]
pub enum Verbosity {
    Normal,
    Silent,
}

/// What the execution engine is told beside the script. Its standard input is
/// always empty, and the working directory is the caller's to give.
#[derive(Debug, Clone, PartialEq, Eq)]
pub struct ExecConfig {
    pub verbosity: Verbosity,
    pub positional_args: Vec<String>,
    pub capture_stdout: bool,
}

/// What a run that could be made left behind. A run that a signal ended has no exit code.
#[derive(Debug, Clone, PartialEq, Eq)]
pub struct ProcessOutput {
    pub code: Option<i32>,
    pub stdout: Vec<u8>,
    pub stderr: Vec<u8>,
}

/// Why the execution engine could not run a command.
#[derive(Debug, Clone, PartialEq, Eq)]
pub struct CommandExecError {
    pub message: String,
}

/// What running a test came to.
#[derive(Debug, Clone, PartialEq, Eq)]
pub enum TestStatus {
    /// The run met every expectation.
    Success,
    /// The run was made and missed an expectation.
    Failure,
    /// The run could not be made: the engine's error and the command it failed on.
    ExecError(CommandExecError, ScriptEntry),
}

impl TestStatus {
    /// Whether the status ends the whole run: a command that could not be run does, a
    /// test that failed does not.
    pub fn is_fatal(&self) -> (fatal: bool)
        ensures
            fatal == (self is ExecError),
    {
        match self {
            TestStatus::ExecError(_, _) => true,
            _ => false,
        }
    }
}

/// Whether an exit code meets the expectation: no expectation is met by every run, and a
/// number only by a run that ended with that code.
pub open spec fn exit_matches(expected: Option<i32>, code: Option<i32>) -> bool {
    match expected {
        None => true,
        Some(x) => code == Some(x),
    }
}

/// Whether a captured stream meets the expectation: no expectation is met by every
/// output, and bytes only by the very same bytes.
pub open spec fn stream_matches(expected: Option<Seq<u8>>, actual: Seq<u8>) -> bool {
    match expected {
        None => true,
        Some(bytes) => bytes == actual,
    }
}

/// Whether a run meets all that is expected of it.
pub open spec fn meets(
    xexit: Option<i32>,
    xstdout: Option<Seq<u8>>,
    xstderr: Option<Seq<u8>>,
    code: Option<i32>,
    stdout: Seq<u8>,
    stderr: Seq<u8>,
) -> bool {
    &&& exit_matches(xexit, code)
    &&& stream_matches(xstdout, stdout)
    &&& stream_matches(xstderr, stderr)
}

/// Whether two byte strings are the same.
pub fn bytes_equal(a: &Vec<u8>, b: &Vec<u8>) -> (same: bool)
    ensures
        same == (a@ == b@),
{
    if a.len() != b.len() {
        return false;
    }
    let mut i: usize = 0;
    while i < a.len()
        invariant
            i <= a@.len(),
            a@.len() == b@.len(),
            forall|k: int| 0 <= k < i ==> a@[k] == b@[k],
        decreases a@.len() - i,
    {
        if a[i] != b[i] {
            return false;
        }
        i = i + 1;
    }
    proof {
        assert(a@ =~= b@);
    }
    true
}

/// Checks a run against what is expected of it.
pub fn check_output(
    xexit: &Option<i32>,
    xstdout: &Option<Vec<u8>>,
    xstderr: &Option<Vec<u8>>,
    output: &ProcessOutput,
) -> (ok: bool)
    ensures
        ok == meets(
            *xexit,
            view_bytes(*xstdout),
            view_bytes(*xstderr),
            output.code,
            output.stdout@,
            output.stderr@,
        ),
{
    let exit = match xexit {
        Some(x) => match output.code {
            Some(c) => *x == c,
            None => false,
        },
        None => true,
    };
    let stdout = match xstdout {
        Some(expected) => bytes_equal(expected, &output.stdout),
        None => true,
    };
    let stderr = match xstderr {
        Some(expected) => bytes_equal(expected, &output.stderr),
        None => true,
    };
    exit && stdout && stderr
}

/// Says what a test came to, given what the execution engine handed back: `Success` where
/// the run meets all that the test expects, `Failure` where the run was made and misses
/// something, and the engine's error where the run could not be made.
pub fn run_test(test: &Test, outcome: Result<ProcessOutput, (CommandExecError, ScriptEntry)>) -> (status:
    TestStatus)
    ensures
        match outcome {
            Ok(output) => status == if meets(
                test@.xexit,
                test@.xstdout,
                test@.xstderr,
                output.code,
                output.stdout@,
                output.stderr@,
            ) {
                TestStatus::Success
            } else {
                TestStatus::Failure
            },
            Err((error, entry)) => status == TestStatus::ExecError(error, entry),
        },
{
    match outcome {
        Ok(output) => {
            if check_output(&test.xexit, &test.xstdout, &test.xstderr, &output) {
                TestStatus::Success
            } else {
                TestStatus::Failure
            }
        },
        Err((error, entry)) => TestStatus::ExecError(error, entry),
    }
}

/// Says what a test of a document came to, given what the execution engine handed back,
/// by the same rule as `run_test`.
pub fn run_document_test(
    test: &DocTest,
    outcome: Result<ProcessOutput, (CommandExecError, ScriptEntry)>,
) -> (status: TestStatus)
    ensures
        match outcome {
            Ok(output) => status == if meets(
                test@.xout.code,
                test@.xout.stdout,
                test@.xout.stderr,
                output.code,
                output.stdout@,
                output.stderr@,
            ) {
                TestStatus::Success
            } else {
                TestStatus::Failure
            },
            Err((error, entry)) => status == TestStatus::ExecError(error, entry),
        },
{
    match outcome {
        Ok(output) => {
            if check_output(&test.xout.code, &test.xout.stdout, &test.xout.stderr, &output) {
                TestStatus::Success
            } else {
                TestStatus::Failure
            }
        },
        Err((error, entry)) => TestStatus::ExecError(error, entry),
    }
}

/// The commands that a test runs: those of its base script, where it has one, and then
/// its own, under the place where the base script was declared; its own alone, under its
/// own place, where it has none. A test whose base script does not exist runs nothing.
pub open spec fn effective_script(test: TestView, scripts: Seq<(Seq<char>, ScriptView)>) -> Option<
    ScriptView,
> {
    match test.script {
        None => Some(test.commands),
        Some((name, _)) => match first_named(scripts, name) {
            Some(i) => Some(
                ScriptView {
                    commands: scripts[i].1.commands + test.commands.commands,
                    location: scripts[i].1.location,
                },
            ),
            None => None,
        },
    }
}

/// Appends copies of the commands of `from` to `to`.
fn extend_entries(to: &mut Vec<ScriptEntry>, from: &Vec<ScriptEntry>)
    ensures
        view_entries(final(to)@) == view_entries(old(to)@) + view_entries(from@),
{
    let mut i: usize = 0;
    proof {
        assert(view_entries(to@) + view_entries(from@).take(0) =~= view_entries(to@));
    }
    while i < from.len()
        invariant
            i <= from@.len(),
            view_entries(to@) == view_entries(old(to)@) + view_entries(from@).take(i as int),
        decreases from@.len() - i,
    {
        let entry = ScriptEntry { text: from[i].text.clone(), location: from[i].location };
        proof {
            assert(entry@ == view_entries(from@)[i as int]);
            assert(view_entries(to@.push(entry)) =~= view_entries(to@).push(entry@));
            assert(view_entries(from@).take(i + 1) =~= view_entries(from@).take(i as int).push(
                entry@,
            ));
        }
        to.push(entry);
        i = i + 1;
    }
    proof {
        assert(view_entries(from@).take(from@.len() as int) =~= view_entries(from@));
    }
}

/// Builds the script that a test runs, if its base script exists.
pub fn build_script(test: &Test, scripts: &Vec<(String, Script)>) -> (built: Option<Script>)
    ensures
        match built {
            Some(script) => effective_script(test@, view_scripts(scripts@)) == Some(script@),
            None => effective_script(test@, view_scripts(scripts@)) is None,
        },
{
    let mut commands: Vec<ScriptEntry> = Vec::new();
    proof {
        assert(view_entries(commands@) =~= Seq::<ScriptEntryView>::empty());
    }
    match &test.script {
        None => {
            extend_entries(&mut commands, &test.commands.commands);
            proof {
                assert(Seq::<ScriptEntryView>::empty() + view_entries(test.commands.commands@)
                    =~= view_entries(test.commands.commands@));
            }
            Some(Script { commands, location: test.commands.location })
        },
        Some((name, _)) => match find_script(scripts, name.as_str()) {
            Some(i) => {
                extend_entries(&mut commands, &scripts[i].1.commands);
                extend_entries(&mut commands, &test.commands.commands);
                proof {
                    assert(Seq::<ScriptEntryView>::empty() + view_entries(scripts@[i as int].1.commands@)
                        =~= view_entries(scripts@[i as int].1.commands@));
                }
                Some(Script { commands, location: scripts[i].1.location })
            },
            None => None,
        },
    }
}

/// Says how the execution engine is to run a test called `name`: without echo, with the
/// name as the one positional argument, and capturing output exactly where the test
/// expects something of one of the streams.
pub fn exec_config(test: &Test, name: &str) -> (config: ExecConfig)
    ensures
        config.verbosity == Verbosity::Silent,
        view_strings(config.positional_args@) == seq![name@],
        config.capture_stdout == (test@.xstdout is Some || test@.xstderr is Some),
{
    let mut positional_args: Vec<String> = Vec::new();
    positional_args.push(name.to_owned());
    proof {
        assert(view_strings(positional_args@) =~= seq![name@]);
    }
    ExecConfig {
        verbosity: Verbosity::Silent,
        positional_args,
        capture_stdout: test.xstdout.is_some() || test.xstderr.is_some(),
    }
}

/// Says how the execution engine is to run a test of a document: without echo, with the
/// file of the test as the one positional argument, and capturing output exactly where
/// the test expects something of one of the streams.
pub fn document_exec_config(test: &DocTest) -> (config: ExecConfig)
    ensures
        config.verbosity == Verbosity::Silent,
        view_strings(config.positional_args@) == seq![test@.file],
        config.capture_stdout == (test@.xout.stdout is Some || test@.xout.stderr is Some),
{
    let mut positional_args: Vec<String> = Vec::new();
    positional_args.push(test.file.clone());
    proof {
        assert(view_strings(positional_args@) =~= seq![test@.file]);
    }
    ExecConfig {
        verbosity: Verbosity::Silent,
        positional_args,
        capture_stdout: test.xout.stdout.is_some() || test.xout.stderr.is_some(),
    }
}

/// A test that expects nothing succeeds on every run that could be made.
pub proof fn law_no_expectation_succeeds(code: Option<i32>, stdout: Seq<u8>, stderr: Seq<u8>)
    ensures
        meets(None, None, None, code, stdout, stderr),
{
}

/// A test that expects an exit code, and nothing of the streams, succeeds exactly on the
/// runs that ended with that code; a run that a signal ended meets no number.
pub proof fn law_exit_code_decides(expected: i32, code: Option<i32>, stdout: Seq<u8>, stderr: Seq<u8>)
    ensures
        meets(Some(expected), None, None, code, stdout, stderr) <==> code == Some(expected),
        !meets(Some(expected), None, None, None, stdout, stderr),
{
}

/// A run that misses any one expectation fails the test, whatever else it meets.
pub proof fn law_any_mismatch_fails(
    xexit: Option<i32>,
    xstdout: Option<Seq<u8>>,
    xstderr: Option<Seq<u8>>,
    code: Option<i32>,
    stdout: Seq<u8>,
    stderr: Seq<u8>,
)
    ensures
        (xexit matches Some(x) && code != Some(x)) ==> !meets(
            xexit,
            xstdout,
            xstderr,
            code,
            stdout,
            stderr,
        ),
        (xstdout matches Some(bytes) && bytes != stdout) ==> !meets(
            xexit,
            xstdout,
            xstderr,
            code,
            stdout,
            stderr,
        ),
        (xstderr matches Some(bytes) && bytes != stderr) ==> !meets(
            xexit,
            xstdout,
            xstderr,
            code,
            stdout,
            stderr,
        ),
{
}

/// The program and the arguments that a test of a document runs.
#[derive(Debug, Clone, PartialEq, Eq)]
pub struct Invocation {
    pub program: String,
    pub args: Vec<String>,
}

/// An invocation as a value of mathematics.
pub struct InvocationModel {
    pub program: Seq<char>,
    pub args: Seq<Seq<char>>,
}

impl View for Invocation {
    type V = InvocationModel;

    open spec fn view(&self) -> InvocationModel {
        InvocationModel { program: self.program@, args: view_strings(self.args@) }
    }
}

/// Why a test of a document runs no command.
#[derive(Debug, Clone, Copy, PartialEq, Eq, Structural)]
pub enum InvokeError {
    /// The command table has no command at this position.
    UnknownCommand(usize),
    /// The test stands for a nested suite.
    NestedSuite,
}

/// The token in an argument that stands for the file of the test.
pub open spec fn placeholder() -> Seq<char> {
    seq!['$', 'F', 'I', 'L', 'E']
}

/// The text with every placeholder in it, from the left, replaced by `file`.
pub open spec fn substitute(text: Seq<char>, file: Seq<char>) -> Seq<char>
    decreases text.len(),
{
    if text.len() == 0 {
        text
    } else if placeholder().is_prefix_of(text) {
        file + substitute(text.skip(5), file)
    } else {
        seq![text[0]] + substitute(text.skip(1), file)
    }
}

/// The arguments, the placeholder replaced in each.
pub open spec fn substitute_all(args: Seq<Seq<char>>, file: Seq<char>) -> Seq<Seq<char>> {
    Seq::new(args.len(), |i: int| substitute(args[i], file))
}

/// What a test of a document runs. A position stands for the command there, with its own
/// arguments; a name is the program itself, with the arguments that the test adds. In the
/// arguments the placeholder gives way to the file of the test.
pub open spec fn invocation(test: TestModel, commands: Seq<CommandModel>) -> Result<
    InvocationModel,
    InvokeError,
> {
    match test.action {
        ActionModel::CommandRef(i) => if i < commands.len() {
            Ok(
                InvocationModel {
                    program: commands[i as int].command,
                    args: substitute_all(commands[i as int].args, test.file),
                },
            )
        } else {
            Err(InvokeError::UnknownCommand(i))
        },
        ActionModel::Command(name) => if test.action.is_subtest() {
            Err(InvokeError::NestedSuite)
        } else {
            Ok(
                InvocationModel {
                    program: name,
                    args: substitute_all(
                        match test.command {
                            Some(args) => args,
                            None => Seq::empty(),
                        },
                        test.file,
                    ),
                },
            )
        },
    }
}

/// Replaces every placeholder in `text` by `file`.
pub fn substitute_file(text: &str, file: &str) -> (out: String)
    ensures
        out@ == substitute(text@, file@),
{
    let chars = to_chars(text);
    let mut out = String::new();
    let mut i: usize = 0;
    proof {
        assert(chars@.skip(0) =~= chars@);
        assert(out@ + substitute(chars@, file@) =~= substitute(chars@, file@));
    }
    while i < chars.len()
        invariant
            i <= chars@.len(),
            chars@ == text@,
            out@ + substitute(chars@.skip(i as int), file@) == substitute(chars@, file@),
        decreases chars@.len() - i,
    {
        let ghost rest = chars@.skip(i as int);
        if chars.len() - i >= 5 && chars[i] == '$' && chars[i + 1] == 'F' && chars[i + 2] == 'I'
            && chars[i + 3] == 'L' && chars[i + 4] == 'E' {
            proof {
                assert(rest.subrange(0, 5) =~= placeholder());
                assert(placeholder().is_prefix_of(rest));
                assert(rest.skip(5) =~= chars@.skip(i + 5));
                assert((out@ + file@) + substitute(rest.skip(5), file@) =~= out@ + (file@
                    + substitute(rest.skip(5), file@)));
            }
            out.append(file);
            i = i + 5;
        } else {
            proof {
                if placeholder().is_prefix_of(rest) {
                    assert(rest.len() >= 5);
                    assert(rest.subrange(0, 5) == placeholder());
                    assert(rest.subrange(0, 5)[0] == '$');
                    assert(rest.subrange(0, 5)[1] == 'F');
                    assert(rest.subrange(0, 5)[2] == 'I');
                    assert(rest.subrange(0, 5)[3] == 'L');
                    assert(rest.subrange(0, 5)[4] == 'E');
                }
                assert(rest.skip(1) =~= chars@.skip(i + 1));
                assert(out@.push(chars@[i as int]) + substitute(rest.skip(1), file@) =~= out@ + (
                seq![rest[0]] + substitute(rest.skip(1), file@)));
            }
            out.push(chars[i]);
            i = i + 1;
        }
    }
    proof {
        assert(out@ + Seq::<char>::empty() =~= out@);
    }
    out
}

/// Replaces the placeholder in each argument by `file`.
pub fn substitute_args(args: &Vec<String>, file: &str) -> (out: Vec<String>)
    ensures
        view_strings(out@) == substitute_all(view_strings(args@), file@),
{
    let mut out: Vec<String> = Vec::new();
    let mut i: usize = 0;
    while i < args.len()
        invariant
            i <= args@.len(),
            out@.len() == i,
            forall|k: int| 0 <= k < i ==> (#[trigger] out@[k])@ == substitute(args@[k]@, file@),
        decreases args@.len() - i,
    {
        out.push(substitute_file(args[i].as_str(), file));
        i = i + 1;
    }
    proof {
        assert(view_strings(out@) =~= substitute_all(view_strings(args@), file@));
    }
    out
}

/// Says what a test of a document runs, or why it runs no command.
pub fn resolve_command(test: &DocTest, commands: &Vec<Command>) -> (r: Result<Invocation, InvokeError>)
    ensures
        match r {
            Ok(found) => invocation(test@, view_commands(commands@)) == Ok::<_, InvokeError>(
                found@,
            ),
            Err(e) => invocation(test@, view_commands(commands@)) == Err::<InvocationModel, _>(e),
        },
{
    match &test.action {
        Action::CommandRef(i) => {
            if *i < commands.len() {
                let command = &commands[*i];
                Ok(
                    Invocation {
                        program: command.command.clone(),
                        args: substitute_args(&command.args, test.file.as_str()),
                    },
                )
            } else {
                Err(InvokeError::UnknownCommand(*i))
            }
        },
        Action::Command(name) => {
            if test.action.is_subtest() {
                Err(InvokeError::NestedSuite)
            } else {
                let args = match &test.command {
                    Some(config) => substitute_args(&config.args, test.file.as_str()),
                    None => Vec::new(),
                };
                proof {
                    if test.command is None {
                        assert(view_strings(args@) =~= substitute_all(
                            Seq::<Seq<char>>::empty(),
                            test.file@,
                        ));
                    }
                }
                Ok(Invocation { program: name.clone(), args })
            }
        },
    }
}

} // verus!
