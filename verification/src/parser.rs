//! The parser of the line-oriented suite notation: it reads a text block by
//! block and gives the suite that the text denotes, or the first error.

use crate::atest::{
    find_script, find_test, lemma_unnamed, view_base, view_bytes, view_entries, view_scripts,
    view_strings, view_tests, Arbitest, ArbitestView, Location, Script, ScriptEntry,
    ScriptEntryView, ScriptView, Test, TestView,
};
use crate::grammar::{
    all_digits, blocks, body_end, body_entries, decimal, is_skipped, lemma_blocks_wf,
    lemma_body_end, lemma_marker, lemma_script_block, lemma_segments, marker, parse_suite,
    script_block, segments, test_block, test_head, words, Expected, NextSegment, ParseErrorView,
    Stream, TestHead,
};
use crate::scanner::{
    bytes_of, consume_line, consume_word, is_ascii_digit, is_digit, is_id_char,
    is_identifier, is_identifier_char, is_space, is_whitespace, lemma_line_end, locate,
    location_of, text_of, to_chars, word_end, Cursor,
};
use vstd::prelude::*;

verus! {

/// Why a source text is no suite.
#[derive(Debug, Clone, PartialEq, Eq)]
pub enum ParseError {
    /// Text that starts no block, or a segment marker that is none.
    UnexpectedInput { location: Location },
    /// The text ends inside a test.
    UnexpectedEnd { location: Location },
    /// A name that is empty or holds a character that no identifier has.
    InvalidID { location: Location, found: String },
    /// An exit code that is no decimal number or does not fit.
    InvalidExitCode { location: Location, found: String },
    /// A test that announces a base script and names none.
    MissingBaseScript { location: Location },
    /// A second script, or a second test, of one name.
    MultipleDefinition { previous_location: Location, new_location: Location, target_name: String },
}

impl View for ParseError {
    type V = ParseErrorView;

    open spec fn view(&self) -> ParseErrorView {
        match self {
            ParseError::UnexpectedInput { location } => ParseErrorView::UnexpectedInput {
                location: *location,
            },
            ParseError::UnexpectedEnd { location } => ParseErrorView::UnexpectedEnd {
                location: *location,
            },
            ParseError::InvalidID { location, found } => ParseErrorView::InvalidID {
                location: *location,
                found: found@,
            },
            ParseError::InvalidExitCode { location, found } => ParseErrorView::InvalidExitCode {
                location: *location,
                found: found@,
            },
            ParseError::MissingBaseScript { location } => ParseErrorView::MissingBaseScript {
                location: *location,
            },
            ParseError::MultipleDefinition {
                previous_location,
                new_location,
                target_name,
            } => ParseErrorView::MultipleDefinition {
                previous_location: *previous_location,
                new_location: *new_location,
                target_name: target_name@,
            },
        }
    }
}

/// Reads the exit code that starts at `start`, a digit: the word there, as a decimal number.
fn scan_exit_code(src: &Vec<char>, start: usize) -> (r: Result<(i32, usize), ParseError>)
    requires
        start < src@.len(),
    ensures
        ({
            let end = word_end(src@, start as int);
            let word = src@.subrange(start as int, end);
            match r {
                Ok((code, next)) => all_digits(word) && decimal(word) == code && next == end,
                Err(e) => !(all_digits(word) && decimal(word) <= i32::MAX) && e@
                    == (ParseErrorView::InvalidExitCode {
                    location: location_of(src@, start as int),
                    found: word,
                }),
            }
        }),
{
    let end = consume_word(src, start);
    let ghost word = src@.subrange(start as int, end as int);
    let mut value: i64 = 0;
    let mut fits = true;
    let mut digits = true;
    let mut i: usize = start;
    while i < end && digits
        invariant
            start <= i <= end <= src@.len(),
            word == src@.subrange(start as int, end as int),
            digits ==> all_digits(src@.subrange(start as int, i as int)),
            !digits ==> !all_digits(word),
            fits ==> 0 <= value <= i32::MAX && value == decimal(src@.subrange(start as int, i as int)),
            !fits ==> decimal(src@.subrange(start as int, i as int)) > i32::MAX,
        decreases end - i + if digits { 1int } else { 0int },
    {
        let c = src[i];
        let ghost before = src@.subrange(start as int, i as int);
        let ghost after = src@.subrange(start as int, i + 1);
        proof {
            assert(after.drop_last() =~= before);
            assert(after.last() == c);
        }
        if is_ascii_digit(c) {
            let digit: i64 = (c as u32 - '0' as u32) as i64;
            if fits {
                value = value * 10 + digit;
                if value > i32::MAX as i64 {
                    fits = false;
                }
            }
            proof {
                assert forall|k: int| 0 <= k < after.len() implies is_digit(#[trigger] after[k]) by {
                    if k < before.len() {
                        assert(after[k] == before[k]);
                    }
                }
            }
            i = i + 1;
        } else {
            digits = false;
            proof {
                assert(word[i - start] == c);
            }
        }
    }
    if digits && fits {
        Ok((value as i32, end))
    } else {
        Err(
            ParseError::InvalidExitCode {
                location: locate(src, start),
                found: text_of(src, start, end),
            },
        )
    }
}

/// Reads the segment marker whose `#` stands at `pos`.
pub fn scan_marker(src: &Vec<char>, pos: usize) -> (r: Result<(NextSegment, usize), ParseError>)
    ensures
        match r {
            Ok((segment, next)) => marker(src@, pos as int) == Ok::<_, ParseErrorView>(
                (segment, next as int),
            ),
            Err(e) => marker(src@, pos as int) == Err::<(NextSegment, int), _>(e@),
        },
{
    let len = src.len();
    if pos >= len || pos + 1 >= len {
        return Err(ParseError::UnexpectedEnd { location: locate(src, len) });
    }
    let c = src[pos + 1];
    if c == '0' || c == '1' {
        let (_, next) = consume_line(src, pos + 2);
        let stream = if c == '0' {
            Stream::Stdout
        } else {
            Stream::Stderr
        };
        Ok((NextSegment::ExpectedStreamOutput(stream), next))
    } else if c == '/' {
        if pos + 2 >= len {
            Ok((NextSegment::Finished(Some(0)), pos + 2))
        } else if src[pos + 2] == '\n' {
            Ok((NextSegment::Finished(Some(0)), pos + 3))
        } else if src[pos + 2] == '-' {
            Ok((NextSegment::Finished(None), pos + 3))
        } else if is_ascii_digit(src[pos + 2]) {
            match scan_exit_code(src, pos + 2) {
                Ok((code, next)) => Ok((NextSegment::Finished(Some(code)), next)),
                Err(e) => Err(e),
            }
        } else {
            Err(ParseError::UnexpectedInput { location: locate(src, pos + 2) })
        }
    } else {
        Err(ParseError::UnexpectedInput { location: locate(src, pos + 1) })
    }
}

/// Mapping a list that grew by one item gives the mapped list, grown by the mapped item.
proof fn lemma_view_entries_push(entries: Seq<ScriptEntry>, entry: ScriptEntry)
    ensures
        view_entries(entries.push(entry)) == view_entries(entries).push(entry@),
{
    assert(view_entries(entries.push(entry)) =~= view_entries(entries).push(entry@));
}

/// The same, of a list of strings.
proof fn lemma_view_strings_push(strings: Seq<String>, s: String)
    ensures
        view_strings(strings.push(s)) == view_strings(strings).push(s@),
{
    assert(view_strings(strings.push(s)) =~= view_strings(strings).push(s@));
}

/// Splits the text between `pos` and `stop` into its words.
pub fn scan_words(src: &Vec<char>, pos: usize, stop: usize) -> (found: Vec<String>)
    ensures
        view_strings(found@) == words(src@, pos as int, stop as int),
{
    let mut found: Vec<String> = Vec::new();
    let mut i: usize = pos;
    proof {
        assert(view_strings(found@) =~= Seq::<Seq<char>>::empty());
    }
    if pos > stop || stop > src.len() {
        return found;
    }
    while i < stop
        invariant
            pos <= i <= stop <= src@.len(),
            view_strings(found@) + words(src@, i as int, stop as int) == words(
                src@,
                pos as int,
                stop as int,
            ),
        decreases stop - i,
    {
        if is_whitespace(src[i]) {
            i = i + 1;
        } else {
            let reached = consume_word(src, i);
            let end = if reached < stop {
                reached
            } else {
                stop
            };
            let word = text_of(src, i, end);
            proof {
                lemma_view_strings_push(found@, word);
                assert(view_strings(found@).push(word@) + words(src@, end as int, stop as int)
                    =~= view_strings(found@) + (seq![word@] + words(
                    src@,
                    end as int,
                    stop as int,
                )));
            }
            found.push(word);
            i = end;
        }
    }
    proof {
        assert(view_strings(found@) + Seq::<Seq<char>>::empty() =~= view_strings(found@));
    }
    found
}

/// Whether the line between `from` and `to` is no command: blank, or a comment.
fn skip_line(src: &Vec<char>, from: usize, to: usize) -> (skipped: bool)
    requires
        from <= to <= src@.len(),
    ensures
        skipped == is_skipped(src@.subrange(from as int, to as int)),
{
    let ghost line = src@.subrange(from as int, to as int);
    if from < to && src[from] == '!' {
        assert(line[0] == '!');
        return true;
    }
    let mut i: usize = from;
    while i < to
        invariant
            from <= i <= to <= src@.len(),
            line == src@.subrange(from as int, to as int),
            from < to ==> line[0] != '!',
            forall|k: int| 0 <= k < i - from ==> is_space(#[trigger] line[k]),
        decreases to - i,
    {
        if !is_whitespace(src[i]) {
            assert(!is_space(line[i - from]));
            return false;
        }
        i = i + 1;
    }
    true
}

/// Reads the body that starts at `pos`: its commands, and where it ends.
pub fn scan_body(src: &Vec<char>, pos: usize) -> (r: (Vec<ScriptEntry>, usize))
    ensures
        view_entries(r.0@) == body_entries(src@, pos as int),
        r.1 == body_end(src@, pos as int),
        pos <= src@.len() ==> pos <= r.1 <= src@.len(),
{
    if pos > src.len() {
        let none: Vec<ScriptEntry> = Vec::new();
        proof {
            assert(view_entries(none@) =~= Seq::<ScriptEntryView>::empty());
        }
        return (none, pos);
    }
    let mut cursor = Cursor::new();
    body_from(src, pos, &mut cursor)
}

/// Reads a body as `scan_body` does, finding places from where `cursor` stands.
fn body_from(src: &Vec<char>, pos: usize, cursor: &mut Cursor) -> (r: (Vec<ScriptEntry>, usize))
    requires
        pos <= src@.len(),
        old(cursor).tracks(src@),
    ensures
        final(cursor).tracks(src@),
        view_entries(r.0@) == body_entries(src@, pos as int),
        r.1 == body_end(src@, pos as int),
        pos <= r.1 <= src@.len(),
{
    let mut entries: Vec<ScriptEntry> = Vec::new();
    let mut i: usize = pos;
    proof {
        assert(view_entries(entries@) =~= Seq::<ScriptEntryView>::empty());
    }
    while i < src.len() && src[i] != '#'
        invariant
            pos <= i <= src@.len(),
            cursor.tracks(src@),
            view_entries(entries@) + body_entries(src@, i as int) == body_entries(src@, pos as int),
            body_end(src@, i as int) == body_end(src@, pos as int),
        decreases src@.len() - i,
    {
        let (end, next) = consume_line(src, i);
        proof {
            lemma_line_end(src@, i as int);
        }
        if !skip_line(src, i, end) {
            let entry = ScriptEntry { text: text_of(src, i, end), location: cursor.seek(src, i) };
            proof {
                lemma_view_entries_push(entries@, entry);
                assert(view_entries(entries@).push(entry@) + body_entries(src@, next as int)
                    =~= view_entries(entries@) + (seq![entry@] + body_entries(src@, next as int)));
            }
            entries.push(entry);
        }
        i = next;
    }
    proof {
        assert(view_entries(entries@) + Seq::<ScriptEntryView>::empty() =~= view_entries(
            entries@,
        ));
    }
    (entries, i)
}

/// Reads the segments of a test from the marker at `pos` on: the expected exit code, the
/// expected outputs, and where the text goes on.
pub fn scan_segments(src: &Vec<char>, pos: usize) -> (r: Result<
    (Option<i32>, Option<Vec<u8>>, Option<Vec<u8>>, usize),
    ParseError,
>)
    ensures
        match r {
            Ok((xexit, xstdout, xstderr, next)) => segments(src@, pos as int, None, None) == Ok::<
                _,
                ParseErrorView,
            >(
                (
                    Expected { xexit, xstdout: view_bytes(xstdout), xstderr: view_bytes(xstderr) },
                    next as int,
                ),
            ) && pos < next <= src@.len(),
            Err(e) => segments(src@, pos as int, None, None) == Err::<(Expected, int), _>(e@),
        },
{
    if pos > src.len() {
        return Err(ParseError::UnexpectedEnd { location: locate(src, src.len()) });
    }
    let mut xstdout: Option<Vec<u8>> = None;
    let mut xstderr: Option<Vec<u8>> = None;
    let mut at: usize = pos;
    loop
        invariant
            pos <= at <= src@.len(),
            segments(src@, at as int, view_bytes(xstdout), view_bytes(xstderr)) == segments(
                src@,
                pos as int,
                None,
                None,
            ),
        decreases src@.len() - at,
    {
        if at >= src.len() {
            return Err(ParseError::UnexpectedEnd { location: locate(src, src.len()) });
        }
        proof {
            lemma_marker(src@, at as int);
        }
        match scan_marker(src, at) {
            Err(e) => {
                return Err(e);
            },
            Ok((NextSegment::Finished(xexit), next)) => {
                proof {
                    lemma_segments(src@, pos as int, None, None);
                }
                return Ok((xexit, xstdout, xstderr, next));
            },
            Ok((NextSegment::ExpectedStreamOutput(stream), start)) => {
                proof {
                    lemma_body_end(src@, start as int);
                }
                let stop = scan_body_end(src, start);
                let text = if stop <= start {
                    Vec::new()
                } else {
                    bytes_of(src, start, stop - 1)
                };
                match stream {
                    Stream::Stdout => {
                        xstdout = Some(text);
                    },
                    Stream::Stderr => {
                        xstderr = Some(text);
                    },
                }
                at = stop;
            },
        }
    }
}

/// Finds where the body that starts at `pos` ends.
fn scan_body_end(src: &Vec<char>, pos: usize) -> (end: usize)
    requires
        pos <= src@.len(),
    ensures
        end == body_end(src@, pos as int),
        pos <= end <= src@.len(),
{
    let mut i: usize = pos;
    while i < src.len() && src[i] != '#'
        invariant
            pos <= i <= src@.len(),
            body_end(src@, i as int) == body_end(src@, pos as int),
        decreases src@.len() - i,
    {
        let (_, next) = consume_line(src, i);
        proof {
            lemma_line_end(src@, i as int);
        }
        i = next;
    }
    i
}

/// Whether the text between `from` and `to` is an identifier.
fn check_identifier(src: &Vec<char>, from: usize, to: usize) -> (valid: bool)
    requires
        from <= to <= src@.len(),
    ensures
        valid == is_identifier(src@.subrange(from as int, to as int)),
{
    let ghost name = src@.subrange(from as int, to as int);
    if from == to {
        return false;
    }
    let mut i: usize = from;
    while i < to
        invariant
            from <= i <= to <= src@.len(),
            name == src@.subrange(from as int, to as int),
            forall|k: int| 0 <= k < i - from ==> is_id_char(#[trigger] name[k]),
        decreases to - i,
    {
        if !is_identifier_char(src[i]) {
            assert(!is_id_char(name[i - from]));
            return false;
        }
        i = i + 1;
    }
    true
}

/// Reads the head of the test whose `##` stands at `pos`: its name, its base script, and
/// where its body starts.
pub fn parse_test_head(src: &Vec<char>, pos: usize) -> (r: Result<
    (String, Option<(String, Vec<String>)>, usize),
    ParseError,
>)
    ensures
        match r {
            Ok((name, script, body)) => test_head(src@, pos as int) == Ok::<_, ParseErrorView>(
                TestHead { name: name@, script: view_base(script), body: body as int },
            ) && pos + 2 <= body <= src@.len(),
            Err(e) => test_head(src@, pos as int) == Err::<TestHead, _>(e@),
        },
{
    if pos >= src.len() || src.len() - pos < 2 {
        return Err(ParseError::UnexpectedEnd { location: locate(src, src.len()) });
    }
    let start = pos + 2;
    let end = consume_word(src, start);
    let based = end > start && src[end - 1] == ':';
    let name_end = if based {
        end - 1
    } else {
        end
    };
    proof {
        let raw = src@.subrange(start as int, end as int);
        if based {
            assert(raw.drop_last() =~= src@.subrange(start as int, name_end as int));
        }
    }
    if !check_identifier(src, start, name_end) {
        return Err(
            ParseError::InvalidID {
                location: locate(src, start),
                found: text_of(src, start, name_end),
            },
        );
    }
    let name = text_of(src, start, name_end);
    if based {
        let (stop, next) = consume_line(src, end);
        let mut call = scan_words(src, end, stop);
        if call.len() == 0 {
            proof {
                assert(view_strings(call@).len() == 0);
            }
            return Err(ParseError::MissingBaseScript { location: locate(src, stop) });
        }
        let ghost whole = call@;
        let script = call.remove(0);
        proof {
            assert(view_strings(whole).len() == whole.len());
            assert(view_strings(whole)[0] == script@);
            assert(view_strings(call@) =~= view_strings(whole).skip(1));
        }
        Ok((name, Some((script, call)), next))
    } else {
        Ok((name, None, end))
    }
}

/// Reads the test whose `##` stands at `pos`: its name, the test, and where the text goes on.
pub fn parse_test(src: &Vec<char>, pos: usize) -> (r: Result<(String, Test, usize), ParseError>)
    ensures
        match r {
            Ok((name, test, next)) => test_block(src@, pos as int) == Ok::<_, ParseErrorView>(
                (name@, test@, next as int),
            ) && pos + 2 < next <= src@.len(),
            Err(e) => test_block(src@, pos as int) == Err::<(Seq<char>, TestView, int), _>(e@),
        },
{
    let mut cursor = Cursor::new();
    test_from(src, pos, &mut cursor)
}

/// Reads a test as `parse_test` does, finding places from where `cursor` stands.
fn test_from(src: &Vec<char>, pos: usize, cursor: &mut Cursor) -> (r: Result<
    (String, Test, usize),
    ParseError,
>)
    requires
        old(cursor).tracks(src@),
    ensures
        final(cursor).tracks(src@),
        match r {
            Ok((name, test, next)) => test_block(src@, pos as int) == Ok::<_, ParseErrorView>(
                (name@, test@, next as int),
            ) && pos + 2 < next <= src@.len(),
            Err(e) => test_block(src@, pos as int) == Err::<(Seq<char>, TestView, int), _>(e@),
        },
{
    let (name, script, body) = match parse_test_head(src, pos) {
        Ok(head) => head,
        Err(e) => {
            return Err(e);
        },
    };
    let location = cursor.seek(src, pos);
    let (commands, marker_at) = body_from(src, body, cursor);
    let (xexit, xstdout, xstderr, next) = match scan_segments(src, marker_at) {
        Ok(found) => found,
        Err(e) => {
            return Err(e);
        },
    };
    let test = Test { script, commands: Script { commands, location }, xexit, xstdout, xstderr };
    Ok((name, test, next))
}

/// Reads the script whose `#` stands at `pos`: its name, the script, and where the text
/// goes on.
pub fn parse_script(src: &Vec<char>, pos: usize) -> (r: Result<(String, Script, usize), ParseError>)
    ensures
        match r {
            Ok((name, script, next)) => script_block(src@, pos as int) == Ok::<_, ParseErrorView>(
                (name@, script@, next as int),
            ) && pos + 1 < next <= src@.len(),
            Err(e) => script_block(src@, pos as int) == Err::<(Seq<char>, ScriptView, int), _>(
                e@,
            ),
        },
{
    let mut cursor = Cursor::new();
    script_from(src, pos, &mut cursor)
}

/// Reads a script as `parse_script` does, finding places from where `cursor` stands.
fn script_from(src: &Vec<char>, pos: usize, cursor: &mut Cursor) -> (r: Result<
    (String, Script, usize),
    ParseError,
>)
    requires
        old(cursor).tracks(src@),
    ensures
        final(cursor).tracks(src@),
        match r {
            Ok((name, script, next)) => script_block(src@, pos as int) == Ok::<_, ParseErrorView>(
                (name@, script@, next as int),
            ) && pos + 1 < next <= src@.len(),
            Err(e) => script_block(src@, pos as int) == Err::<(Seq<char>, ScriptView, int), _>(
                e@,
            ),
        },
{
    if pos >= src.len() {
        return Err(ParseError::UnexpectedEnd { location: locate(src, src.len()) });
    }
    let start = pos + 1;
    let end = consume_word(src, start);
    if !check_identifier(src, start, end) {
        return Err(
            ParseError::InvalidID { location: locate(src, start), found: text_of(src, start, end) },
        );
    }
    let name = text_of(src, start, end);
    let location = cursor.seek(src, pos);
    let (_, body) = consume_line(src, end);
    let (commands, next) = body_from(src, body, cursor);
    proof {
        lemma_script_block(src@, pos as int);
    }
    Ok((name, Script { commands, location }, next))
}

/// The views of a list of scripts that grew by one are the views before and the view of
/// the new one.
proof fn lemma_view_scripts_push(scripts: Seq<(String, Script)>, name: String, script: Script)
    ensures
        view_scripts(scripts.push((name, script))) == view_scripts(scripts).push(
            (name@, script@),
        ),
{
    assert(view_scripts(scripts.push((name, script))) =~= view_scripts(scripts).push(
        (name@, script@),
    ));
}

/// The same, of a list of tests.
proof fn lemma_view_tests_push(tests: Seq<(String, Test)>, name: String, test: Test)
    ensures
        view_tests(tests.push((name, test))) == view_tests(tests).push((name@, test@)),
{
    assert(view_tests(tests.push((name, test))) =~= view_tests(tests).push((name@, test@)));
}

/// Parses the characters of a source text into a suite.
pub fn parse_root(src: &Vec<char>) -> (r: Result<Arbitest, ParseError>)
    ensures
        parses_to(src@, r),
        r matches Ok(suite) ==> suite.wf(),
{
    let mut atest = Arbitest { scripts: Vec::new(), tests: Vec::new() };
    let mut cursor = Cursor::new();
    let mut pos: usize = 0;
    proof {
        assert(atest@.scripts =~= ArbitestView::empty().scripts);
        assert(atest@.tests =~= ArbitestView::empty().tests);
    }
    while pos < src.len()
        invariant
            pos <= src@.len(),
            cursor.tracks(src@),
            atest.wf(),
            blocks(src@, pos as int, atest@) == parse_suite(src@),
        decreases src@.len() - pos,
    {
        let c = src[pos];
        if c == '!' {
            let (_, next) = consume_line(src, pos);
            proof {
                lemma_line_end(src@, pos as int);
            }
            pos = next;
        } else if c == '#' && pos + 1 < src.len() && src[pos + 1] == '#' {
            let (name, test, next) = match test_from(src, pos, &mut cursor) {
                Ok(parsed) => parsed,
                Err(e) => {
                    return Err(e);
                },
            };
            match find_test(&atest.tests, name.as_str()) {
                Some(i) => {
                    return Err(
                        ParseError::MultipleDefinition {
                            previous_location: atest.tests[i].1.commands.location,
                            new_location: locate(src, pos),
                            target_name: name,
                        },
                    );
                },
                None => {
                    proof {
                        lemma_unnamed(atest@.tests, name@);
                        lemma_view_tests_push(atest.tests@, name, test);
                    }
                    atest.tests.push((name, test));
                    pos = next;
                },
            }
        } else if c == '#' {
            let (name, script, next) = match script_from(src, pos, &mut cursor) {
                Ok(parsed) => parsed,
                Err(e) => {
                    return Err(e);
                },
            };
            match find_script(&atest.scripts, name.as_str()) {
                Some(i) => {
                    return Err(
                        ParseError::MultipleDefinition {
                            previous_location: atest.scripts[i].1.location,
                            new_location: locate(src, pos),
                            target_name: name,
                        },
                    );
                },
                None => {
                    proof {
                        lemma_unnamed(atest@.scripts, name@);
                        lemma_view_scripts_push(atest.scripts@, name, script);
                    }
                    atest.scripts.push((name, script));
                    pos = next;
                },
            }
        } else if is_whitespace(c) {
            pos = pos + 1;
        } else {
            return Err(ParseError::UnexpectedInput { location: locate(src, pos) });
        }
    }
    Ok(atest)
}

/// Parses a source text into a suite: the suite that `parse_suite` gives for the text, or
/// the error that it gives.
pub fn parse_arbitest(source: &str) -> (r: Result<Arbitest, ParseError>)
    ensures
        parses_to(source@, r),
        r matches Ok(suite) ==> suite.wf(),
{
    let chars = to_chars(source);
    parse_root(&chars)
}

/// Whether `result` is what parsing `source` comes to.
pub open spec fn parses_to(source: Seq<char>, result: Result<Arbitest, ParseError>) -> bool {
    match result {
        Ok(suite) => parse_suite(source) == Ok::<_, ParseErrorView>(suite@),
        Err(e) => parse_suite(source) == Err::<ArbitestView, _>(e@),
    }
}

/// Parsing is a function of the text: two results of parsing one text are both suites
/// with the same scripts and tests, or both the same error.
pub proof fn law_parse_deterministic(
    source: Seq<char>,
    first: Result<Arbitest, ParseError>,
    second: Result<Arbitest, ParseError>,
)
    requires
        parses_to(source, first),
        parses_to(source, second),
    ensures
        match (first, second) {
            (Ok(a), Ok(b)) => a@ == b@,
            (Err(a), Err(b)) => a@ == b@,
            _ => false,
        },
{
}

/// A suite that parsing gives holds no name twice.
pub proof fn law_names_unique(source: Seq<char>, suite: Arbitest)
    requires
        parses_to(source, Ok(suite)),
    ensures
        suite.wf(),
{
    lemma_blocks_wf(source, 0, ArbitestView::empty());
}

} // verus!
