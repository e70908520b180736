//! The line-oriented suite notation, as functions of the text.
//!
//! A suite is a run of blocks. `!` starts a comment that lasts to the end of
//! its line. `#name` starts a script: the lines after it, up to the next line
//! that begins with `#`, are its commands. `##name` starts a test, and
//! `##name: script args` a test on a base script. The commands of a test end
//! at a line that begins with `#`, which must hold a segment marker: `#0` and
//! `#1` start the expected standard output and standard error, given by the
//! lines that follow; `#/`, `#/-` and `#/<digits>` end the test and say which
//! exit code it expects.
//!
//! `parse_suite` says which suite a text denotes. The functions before it say
//! what its parts denote, and the laws after it what follows for every text.

use crate::atest::{
    is_first_named, lemma_first_named, lemma_unnamed, ArbitestView, Location,
    ScriptEntryView, ScriptView, TestView,
};
use crate::scanner::{
    is_blank, is_digit, is_identifier, is_space, lemma_line_end, lemma_word_end, line_end,
    location_of, next_line, word_end,
};
use vstd::prelude::*;
use vstd::utf8::encode_utf8;

verus! {

/// Why a text is no suite, as a value of mathematics.
pub enum ParseErrorView {
    UnexpectedInput { location: Location },
    UnexpectedEnd { location: Location },
    InvalidID { location: Location, found: Seq<char> },
    InvalidExitCode { location: Location, found: Seq<char> },
    MissingBaseScript { location: Location },
    MultipleDefinition { previous_location: Location, new_location: Location, target_name: Seq<char> },
}

/// The two output streams of a run.
#[derive(Debug, Clone, Copy, PartialEq, Eq, Structural)]
pub enum Stream {
    Stdout,
    Stderr,
}

/// What a segment marker announces.
#[derive(Debug, Clone, Copy, PartialEq, Eq, Structural)]
pub enum NextSegment {
    /// The test ends, with this expected exit code or none.
    Finished(Option<i32>),
    /// The expected output of a stream follows.
    ExpectedStreamOutput(Stream),
}

/// The value of a run of decimal digits.
pub open spec fn decimal(digits: Seq<char>) -> nat
    decreases digits.len(),
{
    if digits.len() == 0 {
        0
    } else {
        decimal(digits.drop_last()) * 10 + (digits.last() as nat - '0' as nat) as nat
    }
}

/// Whether a word holds decimal digits only.
pub open spec fn all_digits(word: Seq<char>) -> bool {
    forall|i: int| 0 <= i < word.len() ==> is_digit(#[trigger] word[i])
}

/// The segment marker whose `#` stands at `pos`, and where the text goes on after it.
pub open spec fn marker(src: Seq<char>, pos: int) -> Result<(NextSegment, int), ParseErrorView> {
    if pos + 1 >= src.len() {
        Err(ParseErrorView::UnexpectedEnd { location: location_of(src, src.len() as int) })
    } else if src[pos + 1] == '0' {
        Ok((NextSegment::ExpectedStreamOutput(Stream::Stdout), next_line(src, pos + 2)))
    } else if src[pos + 1] == '1' {
        Ok((NextSegment::ExpectedStreamOutput(Stream::Stderr), next_line(src, pos + 2)))
    } else if src[pos + 1] == '/' {
        if pos + 2 >= src.len() {
            Ok((NextSegment::Finished(Some(0)), pos + 2))
        } else if src[pos + 2] == '\n' {
            Ok((NextSegment::Finished(Some(0)), pos + 3))
        } else if src[pos + 2] == '-' {
            Ok((NextSegment::Finished(None), pos + 3))
        } else if is_digit(src[pos + 2]) {
            let end = word_end(src, pos + 2);
            let word = src.subrange(pos + 2, end);
            if all_digits(word) && decimal(word) <= i32::MAX {
                Ok((NextSegment::Finished(Some(decimal(word) as i32)), end))
            } else {
                Err(
                    ParseErrorView::InvalidExitCode {
                        location: location_of(src, pos + 2),
                        found: word,
                    },
                )
            }
        } else {
            Err(ParseErrorView::UnexpectedInput { location: location_of(src, pos + 2) })
        }
    } else {
        Err(ParseErrorView::UnexpectedInput { location: location_of(src, pos + 1) })
    }
}

/// The words between `pos` and `stop`, which white space separates.
pub open spec fn words(src: Seq<char>, pos: int, stop: int) -> Seq<Seq<char>>
    decreases stop - pos,
{
    if pos < 0 || pos >= stop || stop > src.len() {
        Seq::empty()
    } else if is_space(src[pos]) {
        words(src, pos + 1, stop)
    } else {
        let end = if word_end(src, pos) < stop {
            word_end(src, pos)
        } else {
            stop
        };
        proof {
            lemma_word_end(src, pos);
        }
        seq![src.subrange(pos, end)] + words(src, end, stop)
    }
}

/// A line of a body that is no command: a blank line or a comment.
pub open spec fn is_skipped(line: Seq<char>) -> bool {
    is_blank(line) || line[0] == '!'
}

/// Where the body that starts at `pos` ends: at the first of its lines that begins with `#`,
/// or at the end of the text.
pub open spec fn body_end(src: Seq<char>, pos: int) -> int
    decreases src.len() - pos,
{
    if pos < 0 || pos >= src.len() || src[pos] == '#' {
        pos
    } else {
        proof {
            lemma_line_end(src, pos);
        }
        body_end(src, next_line(src, pos))
    }
}

/// The commands of the body that starts at `pos`: its lines, but for blank lines and comments.
pub open spec fn body_entries(src: Seq<char>, pos: int) -> Seq<ScriptEntryView>
    decreases src.len() - pos,
{
    if pos < 0 || pos >= src.len() || src[pos] == '#' {
        Seq::empty()
    } else {
        proof {
            lemma_line_end(src, pos);
        }
        let line = src.subrange(pos, line_end(src, pos));
        let rest = body_entries(src, next_line(src, pos));
        if is_skipped(line) {
            rest
        } else {
            seq![ScriptEntryView { text: line, location: location_of(src, pos) }] + rest
        }
    }
}

/// The expected output that the lines from `start` up to the marker at `stop` give: the
/// lines as written, joined by newlines, in UTF-8.
pub open spec fn captured(src: Seq<char>, start: int, stop: int) -> Seq<u8> {
    if stop <= start {
        Seq::empty()
    } else {
        encode_utf8(src.subrange(start, stop - 1))
    }
}

/// What a test expects: the exit code, the standard output and the standard error.
pub struct Expected {
    pub xexit: Option<i32>,
    pub xstdout: Option<Seq<u8>>,
    pub xstderr: Option<Seq<u8>>,
}

/// The segments of a test from the marker at `pos` on, given the outputs `xstdout` and
/// `xstderr` that earlier segments set: what the test expects, and where the text goes on.
pub open spec fn segments(
    src: Seq<char>,
    pos: int,
    xstdout: Option<Seq<u8>>,
    xstderr: Option<Seq<u8>>,
) -> Result<(Expected, int), ParseErrorView>
    decreases src.len() - pos,
{
    if pos < 0 || pos >= src.len() {
        Err(ParseErrorView::UnexpectedEnd { location: location_of(src, src.len() as int) })
    } else {
        match marker(src, pos) {
            Err(e) => Err(e),
            Ok((NextSegment::Finished(xexit), next)) => Ok(
                (Expected { xexit, xstdout, xstderr }, next),
            ),
            Ok((NextSegment::ExpectedStreamOutput(stream), start)) => {
                proof {
                    lemma_line_end(src, pos + 2);
                    lemma_body_end(src, start);
                }
                let stop = body_end(src, start);
                let text = Some(captured(src, start, stop));
                match stream {
                    Stream::Stdout => segments(src, stop, text, xstderr),
                    Stream::Stderr => segments(src, stop, xstdout, text),
                }
            },
        }
    }
}

/// The head of a test: its name, its base script with the extra arguments, and where its
/// body starts.
pub struct TestHead {
    pub name: Seq<char>,
    pub script: Option<(Seq<char>, Seq<Seq<char>>)>,
    pub body: int,
}

/// The head of the test whose `##` stands at `pos`.
pub open spec fn test_head(src: Seq<char>, pos: int) -> Result<TestHead, ParseErrorView> {
    let end = word_end(src, pos + 2);
    let raw = src.subrange(pos + 2, end);
    let based = raw.len() > 0 && raw.last() == ':';
    let name = if based {
        raw.drop_last()
    } else {
        raw
    };
    if pos < 0 || pos + 2 > src.len() {
        Err(ParseErrorView::UnexpectedEnd { location: location_of(src, src.len() as int) })
    } else if !is_identifier(name) {
        Err(ParseErrorView::InvalidID { location: location_of(src, pos + 2), found: name })
    } else if based {
        let stop = line_end(src, end);
        let call = words(src, end, stop);
        if call.len() == 0 {
            Err(ParseErrorView::MissingBaseScript { location: location_of(src, stop) })
        } else {
            Ok(TestHead { name, script: Some((call[0], call.skip(1))), body: next_line(src, end) })
        }
    } else {
        Ok(TestHead { name, script: None, body: end })
    }
}

/// The test whose `##` stands at `pos`: its name, the test, and where the text goes on.
pub open spec fn test_block(src: Seq<char>, pos: int) -> Result<
    (Seq<char>, TestView, int),
    ParseErrorView,
> {
    match test_head(src, pos) {
        Err(e) => Err(e),
        Ok(head) => match segments(src, body_end(src, head.body), None, None) {
            Err(e) => Err(e),
            Ok((expected, next)) => Ok(
                (
                    head.name,
                    TestView {
                        script: head.script,
                        commands: ScriptView {
                            commands: body_entries(src, head.body),
                            location: location_of(src, pos),
                        },
                        xexit: expected.xexit,
                        xstdout: expected.xstdout,
                        xstderr: expected.xstderr,
                    },
                    next,
                ),
            ),
        },
    }
}

/// The script whose `#` stands at `pos`: its name, the script, and where the text goes on.
pub open spec fn script_block(src: Seq<char>, pos: int) -> Result<
    (Seq<char>, ScriptView, int),
    ParseErrorView,
> {
    let end = word_end(src, pos + 1);
    let name = src.subrange(pos + 1, end);
    if pos < 0 || pos + 1 > src.len() {
        Err(ParseErrorView::UnexpectedEnd { location: location_of(src, src.len() as int) })
    } else if !is_identifier(name) {
        Err(ParseErrorView::InvalidID { location: location_of(src, pos + 1), found: name })
    } else {
        let body = next_line(src, end);
        Ok(
            (
                name,
                ScriptView { commands: body_entries(src, body), location: location_of(src, pos) },
                body_end(src, body),
            ),
        )
    }
}

/// The suite that the blocks from `pos` on add to `suite`.
pub open spec fn blocks(src: Seq<char>, pos: int, suite: ArbitestView) -> Result<
    ArbitestView,
    ParseErrorView,
>
    decreases src.len() - pos,
{
    if pos < 0 || pos >= src.len() {
        Ok(suite)
    } else if src[pos] == '!' {
        proof {
            lemma_line_end(src, pos);
        }
        blocks(src, next_line(src, pos), suite)
    } else if src[pos] == '#' && pos + 1 < src.len() && src[pos + 1] == '#' {
        match test_block(src, pos) {
            Err(e) => Err(e),
            Ok((name, test, next)) => match suite.test_index(name) {
                Some(i) => Err(
                    ParseErrorView::MultipleDefinition {
                        previous_location: suite.tests[i].1.commands.location,
                        new_location: location_of(src, pos),
                        target_name: name,
                    },
                ),
                None => {
                    proof {
                        lemma_test_block(src, pos);
                    }
                    blocks(
                        src,
                        next,
                        ArbitestView { scripts: suite.scripts, tests: suite.tests.push((name, test)) },
                    )
                },
            },
        }
    } else if src[pos] == '#' {
        match script_block(src, pos) {
            Err(e) => Err(e),
            Ok((name, script, next)) => match suite.script_index(name) {
                Some(i) => Err(
                    ParseErrorView::MultipleDefinition {
                        previous_location: suite.scripts[i].1.location,
                        new_location: location_of(src, pos),
                        target_name: name,
                    },
                ),
                None => {
                    proof {
                        lemma_script_block(src, pos);
                    }
                    blocks(
                        src,
                        next,
                        ArbitestView {
                            scripts: suite.scripts.push((name, script)),
                            tests: suite.tests,
                        },
                    )
                },
            },
        }
    } else if is_space(src[pos]) {
        blocks(src, pos + 1, suite)
    } else {
        Err(ParseErrorView::UnexpectedInput { location: location_of(src, pos) })
    }
}

/// The suite that a source text denotes, or why it denotes none.
pub open spec fn parse_suite(src: Seq<char>) -> Result<ArbitestView, ParseErrorView> {
    blocks(src, 0, ArbitestView::empty())
}

/// A body ends at or after its start and inside the text; where it ends before the end of
/// the text, a line begins there with `#`.
pub proof fn lemma_body_end(src: Seq<char>, pos: int)
    requires
        0 <= pos <= src.len(),
    ensures
        pos <= body_end(src, pos) <= src.len(),
        body_end(src, pos) < src.len() ==> src[body_end(src, pos)] == '#',
        pos < body_end(src, pos) < src.len() ==> src[body_end(src, pos) - 1] == '\n',
    decreases src.len() - pos,
{
    if pos < src.len() && src[pos] != '#' {
        lemma_line_end(src, pos);
        lemma_body_end(src, next_line(src, pos));
    }
}

/// A marker that is one leaves the text after it inside the text and behind the `#`.
pub proof fn lemma_marker(src: Seq<char>, pos: int)
    requires
        0 <= pos < src.len(),
    ensures
        marker(src, pos) matches Ok((_, next)) ==> pos < next <= src.len(),
{
    if pos + 1 < src.len() {
        lemma_line_end(src, pos + 2);
        lemma_word_end(src, pos + 2);
    }
}

/// The segments of a test end behind the marker that they start at.
pub proof fn lemma_segments(
    src: Seq<char>,
    pos: int,
    xstdout: Option<Seq<u8>>,
    xstderr: Option<Seq<u8>>,
)
    requires
        0 <= pos <= src.len(),
    ensures
        segments(src, pos, xstdout, xstderr) matches Ok((_, next)) ==> pos < next <= src.len(),
    decreases src.len() - pos,
{
    if pos < src.len() {
        lemma_marker(src, pos);
        match marker(src, pos) {
            Ok((NextSegment::ExpectedStreamOutput(stream), start)) => {
                lemma_body_end(src, start);
                let stop = body_end(src, start);
                let text = Some(captured(src, start, stop));
                match stream {
                    Stream::Stdout => lemma_segments(src, stop, text, xstderr),
                    Stream::Stderr => lemma_segments(src, stop, xstdout, text),
                }
            },
            _ => {},
        }
    }
}

/// A test ends behind the `##` that it starts at.
pub proof fn lemma_test_block(src: Seq<char>, pos: int)
    requires
        0 <= pos,
        pos + 1 < src.len(),
    ensures
        test_block(src, pos) matches Ok((_, _, next)) ==> pos + 2 < next <= src.len(),
{
    lemma_word_end(src, pos + 2);
    let end = word_end(src, pos + 2);
    lemma_line_end(src, end);
    match test_head(src, pos) {
        Ok(head) => {
            lemma_body_end(src, head.body);
            lemma_segments(src, body_end(src, head.body), None, None);
        },
        Err(_) => {},
    }
}

/// A script ends behind the `#` that it starts at.
pub proof fn lemma_script_block(src: Seq<char>, pos: int)
    requires
        0 <= pos < src.len(),
    ensures
        script_block(src, pos) matches Ok((_, _, next)) ==> pos + 1 < next <= src.len(),
{
    lemma_word_end(src, pos + 1);
    let end = word_end(src, pos + 1);
    lemma_line_end(src, end);
    lemma_body_end(src, next_line(src, end));
    if is_identifier(src.subrange(pos + 1, end)) {
        assert(end > pos + 1);
    }
}


/// A script whose name the suite already holds is an error that names both places: that
/// of the script held and that of the new one.
pub proof fn law_duplicate_script(src: Seq<char>, pos: int, suite: ArbitestView)
    requires
        0 <= pos < src.len(),
        src[pos] == '#',
        !(pos + 1 < src.len() && src[pos + 1] == '#'),
        script_block(src, pos) is Ok,
        suite.script_index(script_block(src, pos)->Ok_0.0) is Some,
    ensures
        blocks(src, pos, suite) == Err::<ArbitestView, _>(
            ParseErrorView::MultipleDefinition {
                previous_location: suite.scripts[suite.script_index(
                    script_block(src, pos)->Ok_0.0,
                )->0].1.location,
                new_location: location_of(src, pos),
                target_name: script_block(src, pos)->Ok_0.0,
            },
        ),
{
}

/// A test whose name the suite already holds is an error that names both places.
pub proof fn law_duplicate_test(src: Seq<char>, pos: int, suite: ArbitestView)
    requires
        0 <= pos,
        pos + 1 < src.len(),
        src[pos] == '#',
        src[pos + 1] == '#',
        test_block(src, pos) is Ok,
        suite.test_index(test_block(src, pos)->Ok_0.0) is Some,
    ensures
        blocks(src, pos, suite) == Err::<ArbitestView, _>(
            ParseErrorView::MultipleDefinition {
                previous_location: suite.tests[suite.test_index(
                    test_block(src, pos)->Ok_0.0,
                )->0].1.commands.location,
                new_location: location_of(src, pos),
                target_name: test_block(src, pos)->Ok_0.0,
            },
        ),
{
}

/// Two scripts of one name, the second right after the first, are an error wherever in a
/// text they stand and whatever stands before them, unless the name was held already:
/// the error names the place of the first and the place of the second.
pub proof fn law_script_twice(src: Seq<char>, first: int, suite: ArbitestView)
    requires
        0 <= first < src.len(),
        src[first] == '#',
        !(first + 1 < src.len() && src[first + 1] == '#'),
        script_block(src, first) is Ok,
        suite.script_index(script_block(src, first)->Ok_0.0) is None,
        ({
            let second = script_block(src, first)->Ok_0.2;
            &&& second < src.len()
            &&& !(second + 1 < src.len() && src[second + 1] == '#')
            &&& script_block(src, second) is Ok
            &&& script_block(src, second)->Ok_0.0 == script_block(src, first)->Ok_0.0
        }),
    ensures
        blocks(src, first, suite) == Err::<ArbitestView, _>(
            ParseErrorView::MultipleDefinition {
                previous_location: location_of(src, first),
                new_location: location_of(src, script_block(src, first)->Ok_0.2),
                target_name: script_block(src, first)->Ok_0.0,
            },
        ),
{
    let (name, script, second) = script_block(src, first)->Ok_0;
    let grown = ArbitestView { scripts: suite.scripts.push((name, script)), tests: suite.tests };
    lemma_script_block(src, first);
    lemma_body_end(src, next_line(src, word_end(src, first + 1)));
    lemma_word_end(src, first + 1);
    lemma_line_end(src, word_end(src, first + 1));
    assert(src[second] == '#');
    lemma_unnamed(suite.scripts, name);
    let at = suite.scripts.len() as int;
    assert forall|k: int| 0 <= k < at implies (#[trigger] grown.scripts[k]).0 != name by {
        assert(grown.scripts[k] == suite.scripts[k]);
    }
    assert(grown.scripts[at] == (name, script));
    assert(is_first_named(grown.scripts, name, at));
    lemma_first_named(grown.scripts, name, at);
    assert(blocks(src, first, suite) == blocks(src, second, grown));
    law_duplicate_script(src, second, grown);
}

/// The terminator `#/-` ends a test without an expected exit code, whatever the test
/// holds and whatever follows.
pub proof fn law_unchecked_exit(
    src: Seq<char>,
    pos: int,
    xstdout: Option<Seq<u8>>,
    xstderr: Option<Seq<u8>>,
)
    requires
        0 <= pos,
        pos + 2 < src.len(),
        src[pos + 1] == '/',
        src[pos + 2] == '-',
    ensures
        marker(src, pos) == Ok::<_, ParseErrorView>((NextSegment::Finished(None), pos + 3)),
        segments(src, pos, xstdout, xstderr) == Ok::<_, ParseErrorView>(
            (Expected { xexit: None, xstdout, xstderr }, pos + 3),
        ),
{
}

/// The terminator `#/` at the end of a line or of the text ends a test that expects the
/// exit code 0.
pub proof fn law_plain_terminator(
    src: Seq<char>,
    pos: int,
    xstdout: Option<Seq<u8>>,
    xstderr: Option<Seq<u8>>,
)
    requires
        0 <= pos,
        pos + 1 < src.len(),
        src[pos + 1] == '/',
        pos + 2 == src.len() || src[pos + 2] == '\n',
    ensures
        segments(src, pos, xstdout, xstderr) matches Ok((expected, _)) && expected == (Expected {
            xexit: Some(0),
            xstdout,
            xstderr,
        }),
{
}

/// The blocks of a text add no name twice to a suite that holds none twice.
pub proof fn lemma_blocks_wf(src: Seq<char>, pos: int, suite: ArbitestView)
    requires
        suite.wf(),
    ensures
        blocks(src, pos, suite) matches Ok(whole) ==> whole.wf(),
    decreases src.len() - pos,
{
    if pos < 0 || pos >= src.len() {
    } else if src[pos] == '!' {
        lemma_line_end(src, pos);
        lemma_blocks_wf(src, next_line(src, pos), suite);
    } else if src[pos] == '#' && pos + 1 < src.len() && src[pos + 1] == '#' {
        match test_block(src, pos) {
            Err(e) => {},
            Ok((name, test, next)) => {
                if suite.test_index(name) is None {
                    lemma_test_block(src, pos);
                    lemma_unnamed(suite.tests, name);
                    let grown = ArbitestView {
                        scripts: suite.scripts,
                        tests: suite.tests.push((name, test)),
                    };
                    assert forall|i: int, j: int| 0 <= i < j < grown.tests.len() implies (
                    #[trigger] grown.tests[i]).0 != (#[trigger] grown.tests[j]).0 by {
                        assert(grown.tests[i] == suite.tests[i]);
                        if j < suite.tests.len() {
                            assert(grown.tests[j] == suite.tests[j]);
                        }
                    }
                    lemma_blocks_wf(src, next, grown);
                }
            },
        }
    } else if src[pos] == '#' {
        match script_block(src, pos) {
            Err(e) => {},
            Ok((name, script, next)) => {
                if suite.script_index(name) is None {
                    lemma_script_block(src, pos);
                    lemma_unnamed(suite.scripts, name);
                    let grown = ArbitestView {
                        scripts: suite.scripts.push((name, script)),
                        tests: suite.tests,
                    };
                    assert forall|i: int, j: int| 0 <= i < j < grown.scripts.len() implies (
                    #[trigger] grown.scripts[i]).0 != (#[trigger] grown.scripts[j]).0 by {
                        assert(grown.scripts[i] == suite.scripts[i]);
                        if j < suite.scripts.len() {
                            assert(grown.scripts[j] == suite.scripts[j]);
                        }
                    }
                    lemma_blocks_wf(src, next, grown);
                }
            },
        }
    } else if is_space(src[pos]) {
        lemma_blocks_wf(src, pos + 1, suite);
    }
}

/// A test expects no exit code exactly where its terminator is `#/-`: where the
/// character before the place at which the text goes on is `-`.
pub proof fn law_unchecked_iff_dash(
    src: Seq<char>,
    pos: int,
    xstdout: Option<Seq<u8>>,
    xstderr: Option<Seq<u8>>,
)
    requires
        0 <= pos <= src.len(),
    ensures
        segments(src, pos, xstdout, xstderr) matches Ok((expected, next)) ==> (expected.xexit
            is None <==> src[next - 1] == '-'),
    decreases src.len() - pos,
{
    if pos < src.len() {
        lemma_marker(src, pos);
        match marker(src, pos) {
            Ok((NextSegment::ExpectedStreamOutput(stream), start)) => {
                lemma_body_end(src, start);
                let stop = body_end(src, start);
                let text = Some(captured(src, start, stop));
                match stream {
                    Stream::Stdout => law_unchecked_iff_dash(src, stop, text, xstderr),
                    Stream::Stderr => law_unchecked_iff_dash(src, stop, xstdout, text),
                }
            },
            Ok((NextSegment::Finished(xexit), next)) => {
                if pos + 2 < src.len() && is_digit(src[pos + 2]) {
                    lemma_word_end(src, pos + 2);
                    let word = src.subrange(pos + 2, next);
                    assert(is_digit(word[word.len() - 1]));
                }
            },
            Err(_) => {},
        }
    }
}

/// Parsing overwrites nothing: the scripts and tests that a suite holds stay, in their
/// places, in the suite that the blocks of a text add to.
pub proof fn law_blocks_keep(src: Seq<char>, pos: int, suite: ArbitestView)
    ensures
        blocks(src, pos, suite) matches Ok(whole) ==> {
            &&& suite.scripts.len() <= whole.scripts.len()
            &&& suite.tests.len() <= whole.tests.len()
            &&& whole.scripts.take(suite.scripts.len() as int) == suite.scripts
            &&& whole.tests.take(suite.tests.len() as int) == suite.tests
        },
    decreases src.len() - pos,
{
    if pos < 0 || pos >= src.len() {
        assert(suite.scripts.take(suite.scripts.len() as int) =~= suite.scripts);
        assert(suite.tests.take(suite.tests.len() as int) =~= suite.tests);
    } else if src[pos] == '!' {
        lemma_line_end(src, pos);
        law_blocks_keep(src, next_line(src, pos), suite);
    } else if src[pos] == '#' && pos + 1 < src.len() && src[pos + 1] == '#' {
        match test_block(src, pos) {
            Err(e) => {},
            Ok((name, test, next)) => {
                if suite.test_index(name) is None {
                    lemma_test_block(src, pos);
                    let grown = ArbitestView {
                        scripts: suite.scripts,
                        tests: suite.tests.push((name, test)),
                    };
                    law_blocks_keep(src, next, grown);
                    match blocks(src, next, grown) {
                        Ok(whole) => {
                            assert(whole.tests.take(suite.tests.len() as int) =~= whole.tests.take(
                                grown.tests.len() as int,
                            ).take(suite.tests.len() as int));
                            assert(grown.tests.take(suite.tests.len() as int) =~= suite.tests);
                        },
                        Err(_) => {},
                    }
                }
            },
        }
    } else if src[pos] == '#' {
        match script_block(src, pos) {
            Err(e) => {},
            Ok((name, script, next)) => {
                if suite.script_index(name) is None {
                    lemma_script_block(src, pos);
                    let grown = ArbitestView {
                        scripts: suite.scripts.push((name, script)),
                        tests: suite.tests,
                    };
                    law_blocks_keep(src, next, grown);
                    match blocks(src, next, grown) {
                        Ok(whole) => {
                            assert(whole.scripts.take(suite.scripts.len() as int)
                                =~= whole.scripts.take(grown.scripts.len() as int).take(
                                suite.scripts.len() as int,
                            ));
                            assert(grown.scripts.take(suite.scripts.len() as int)
                                =~= suite.scripts);
                        },
                        Err(_) => {},
                    }
                }
            },
        }
    } else if is_space(src[pos]) {
        law_blocks_keep(src, pos + 1, suite);
    }
}

} // verus!
