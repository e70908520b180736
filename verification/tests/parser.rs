use arbitest::atest::{find_script, find_test, Arbitest, Location};
use arbitest::grammar::{NextSegment, Stream};
use arbitest::parser::{
    parse_arbitest, parse_root, parse_script, parse_test, parse_test_head, scan_body, scan_marker,
    scan_segments, scan_words, ParseError,
};
use arbitest::scanner::same_text;

fn chars(text: &str) -> Vec<char> {
    text.chars().collect()
}

fn loc(line: usize, column: usize) -> Location {
    Location { line, column }
}

fn parsed(text: &str) -> Arbitest {
    match parse_arbitest(text) {
        Ok(suite) => suite,
        Err(e) => panic!("{:?}", e),
    }
}

#[test]
fn parses_one_script_and_one_test() {
    let suite = parsed("#greet\necho hi\n##basic\necho hi\n#0\nhi\n#/\n");
    assert_eq!(suite.scripts.len(), 1);
    assert_eq!(suite.scripts[0].0, "greet");
    assert_eq!(suite.scripts[0].1.commands.len(), 1);
    assert_eq!(suite.scripts[0].1.commands[0].text, "echo hi");
    assert_eq!(suite.scripts[0].1.commands[0].location, loc(1, 0));
    assert_eq!(suite.scripts[0].1.location, loc(0, 0));
    assert_eq!(suite.tests.len(), 1);
    let (name, test) = &suite.tests[0];
    assert_eq!(name, "basic");
    assert!(test.script.is_none());
    assert_eq!(test.commands.commands.len(), 1);
    assert_eq!(test.commands.commands[0].text, "echo hi");
    assert_eq!(test.commands.commands[0].location, loc(3, 0));
    assert_eq!(test.commands.location, loc(2, 0));
    assert_eq!(test.xexit, Some(0));
    assert_eq!(test.xstdout, Some(b"hi".to_vec()));
    assert_eq!(test.xstderr, None);
}

#[test]
fn empty_text_is_an_empty_suite() {
    let suite = parsed("");
    assert!(suite.scripts.is_empty());
    assert!(suite.tests.is_empty());
    let blank = parsed(" \n\t\n\u{a0}\n");
    assert!(blank.scripts.is_empty());
    assert!(blank.tests.is_empty());
}

#[test]
fn parsing_twice_gives_the_same_suite() {
    let text = "! a suite\n#setup\nmkdir x\n##one: setup a b\nls x\n#1\nwarn\n#0\nout\n#/3\n##two\ntrue\n#/-\n";
    assert_eq!(parse_arbitest(text), parse_arbitest(text));
    let broken = "##one\ntrue\n#/\n##one\nfalse\n#/1\n";
    assert_eq!(parse_arbitest(broken), parse_arbitest(broken));
    assert!(parse_arbitest(broken).is_err());
}

#[test]
fn duplicate_script_names_both_locations() {
    let err = parse_arbitest("#a\nx\n#a\ny\n").unwrap_err();
    assert_eq!(
        err,
        ParseError::MultipleDefinition {
            previous_location: loc(0, 0),
            new_location: loc(2, 0),
            target_name: "a".to_string(),
        }
    );
    let indented = parse_arbitest("  #a\nx\n##t\n#/\n\t #a\ny\n").unwrap_err();
    assert_eq!(
        indented,
        ParseError::MultipleDefinition {
            previous_location: loc(0, 2),
            new_location: loc(4, 2),
            target_name: "a".to_string(),
        }
    );
}

#[test]
fn duplicate_script_after_other_blocks() {
    let err = parse_arbitest("#a\nx\n#b\ny\n##t\nz\n#/\n#a\n").unwrap_err();
    assert_eq!(
        err,
        ParseError::MultipleDefinition {
            previous_location: loc(0, 0),
            new_location: loc(7, 0),
            target_name: "a".to_string(),
        }
    );
}

#[test]
fn duplicate_test_names_both_locations() {
    let err = parse_arbitest("##t\nx\n#/\n##t\ny\n#/\n").unwrap_err();
    assert_eq!(
        err,
        ParseError::MultipleDefinition {
            previous_location: loc(0, 0),
            new_location: loc(3, 0),
            target_name: "t".to_string(),
        }
    );
}

#[test]
fn a_script_and_a_test_may_share_a_name() {
    let suite = parsed("#same\nx\n##same\ny\n#/\n");
    assert_eq!(suite.scripts[0].0, "same");
    assert_eq!(suite.tests[0].0, "same");
}

#[test]
fn dash_terminator_checks_no_exit_code() {
    let suite = parsed("##t\nexit 3\n#/-\n");
    let test = &suite.tests[0].1;
    assert_eq!(test.xexit, None);
    assert_eq!(test.xstdout, None);
    assert_eq!(test.xstderr, None);
    let with_output = parsed("##t\nexit 3\n#0\nout\n#/-\n");
    assert_eq!(with_output.tests[0].1.xexit, None);
    assert_eq!(with_output.tests[0].1.xstdout, Some(b"out".to_vec()));
}

#[test]
fn plain_terminator_expects_zero() {
    assert_eq!(parsed("##t\ntrue\n#/\n").tests[0].1.xexit, Some(0));
    assert_eq!(parsed("##t\ntrue\n#/").tests[0].1.xexit, Some(0));
    assert_eq!(parsed("##t\ntrue\n#0\nx\n#/").tests[0].1.xexit, Some(0));
}

#[test]
fn numbered_terminator_expects_that_code() {
    assert_eq!(parsed("##t\nx\n#/3\n").tests[0].1.xexit, Some(3));
    assert_eq!(parsed("##t\nx\n#/0\n").tests[0].1.xexit, Some(0));
    assert_eq!(parsed("##t\nx\n#/007").tests[0].1.xexit, Some(7));
    assert_eq!(parsed("##t\nx\n#/255 ").tests[0].1.xexit, Some(255));
    assert_eq!(parsed("##t\nx\n#/2147483647\n").tests[0].1.xexit, Some(2147483647));
    assert_eq!(
        parsed("##t\nx\n#/00000000000000000000000000000000000012\n").tests[0].1.xexit,
        Some(12)
    );
}

#[test]
fn exit_code_that_does_not_fit_is_refused() {
    assert_eq!(
        parse_arbitest("##t\nx\n#/2147483648\n").unwrap_err(),
        ParseError::InvalidExitCode { location: loc(2, 2), found: "2147483648".to_string() }
    );
    assert_eq!(
        parse_arbitest("##t\nx\n#/99999999999999999999999999\n").unwrap_err(),
        ParseError::InvalidExitCode {
            location: loc(2, 2),
            found: "99999999999999999999999999".to_string()
        }
    );
}

#[test]
fn exit_code_with_other_characters_is_refused() {
    assert_eq!(
        parse_arbitest("##t\nx\n#/12ab\n").unwrap_err(),
        ParseError::InvalidExitCode { location: loc(2, 2), found: "12ab".to_string() }
    );
}

#[test]
fn captures_both_streams() {
    let suite = parsed("##t\ncmd\n#0\nout 1\nout 2\n#1\nerr 1\n#/2\n");
    let test = &suite.tests[0].1;
    assert_eq!(test.xstdout, Some(b"out 1\nout 2".to_vec()));
    assert_eq!(test.xstderr, Some(b"err 1".to_vec()));
    assert_eq!(test.xexit, Some(2));
}

#[test]
fn captured_lines_are_kept_as_written() {
    let suite = parsed("##t\ncmd\n#0 this is dropped\n\n  indented\n! no comment here\n\n#/\n");
    assert_eq!(suite.tests[0].1.xstdout, Some(b"\n  indented\n! no comment here\n".to_vec()));
}

#[test]
fn empty_capture_expects_empty_output() {
    let suite = parsed("##t\ncmd\n#1\n#/\n");
    assert_eq!(suite.tests[0].1.xstderr, Some(Vec::new()));
    assert_eq!(suite.tests[0].1.xstdout, None);
    let one_empty_line = parsed("##t\ncmd\n#1\n\n#/\n");
    assert_eq!(one_empty_line.tests[0].1.xstderr, Some(Vec::new()));
    let two_empty_lines = parsed("##t\ncmd\n#1\n\n\n#/\n");
    assert_eq!(two_empty_lines.tests[0].1.xstderr, Some(b"\n".to_vec()));
}

#[test]
fn later_capture_of_a_stream_replaces_the_earlier() {
    let suite = parsed("##t\ncmd\n#0\nfirst\n#0\nsecond\n#/\n");
    assert_eq!(suite.tests[0].1.xstdout, Some(b"second".to_vec()));
}

#[test]
fn captured_output_is_utf8() {
    let suite = parsed("##t\ncmd\n#0\nh\u{e9}llo \u{4e16}\u{754c} \u{1f600}\n#/\n");
    assert_eq!(
        suite.tests[0].1.xstdout,
        Some("h\u{e9}llo \u{4e16}\u{754c} \u{1f600}".as_bytes().to_vec())
    );
}

#[test]
fn test_on_a_base_script() {
    let suite = parsed("##t: greet one  two\necho more\n#/\n");
    let (name, test) = &suite.tests[0];
    assert_eq!(name, "t");
    assert_eq!(
        test.script,
        Some(("greet".to_string(), vec!["one".to_string(), "two".to_string()]))
    );
    assert_eq!(test.commands.commands.len(), 1);
    assert_eq!(test.commands.commands[0].text, "echo more");
    let bare = parsed("##t: greet\n#/\n");
    assert_eq!(bare.tests[0].1.script, Some(("greet".to_string(), Vec::new())));
    assert!(bare.tests[0].1.commands.commands.is_empty());
}

#[test]
fn base_script_must_be_named() {
    assert_eq!(
        parse_arbitest("##t:\necho\n#/\n").unwrap_err(),
        ParseError::MissingBaseScript { location: loc(0, 4) }
    );
    assert_eq!(
        parse_arbitest("##t:   \necho\n#/\n").unwrap_err(),
        ParseError::MissingBaseScript { location: loc(0, 7) }
    );
}

#[test]
fn names_must_be_identifiers() {
    assert_eq!(
        parse_arbitest("#bad!name\n").unwrap_err(),
        ParseError::InvalidID { location: loc(0, 1), found: "bad!name".to_string() }
    );
    assert_eq!(
        parse_arbitest("# spaced\n").unwrap_err(),
        ParseError::InvalidID { location: loc(0, 1), found: String::new() }
    );
    assert_eq!(
        parse_arbitest("\n#").unwrap_err(),
        ParseError::InvalidID { location: loc(1, 1), found: String::new() }
    );
    assert_eq!(
        parse_arbitest("##a.b\n#/\n").unwrap_err(),
        ParseError::InvalidID { location: loc(0, 2), found: "a.b".to_string() }
    );
    assert_eq!(
        parse_arbitest("##:\n#/\n").unwrap_err(),
        ParseError::InvalidID { location: loc(0, 2), found: String::new() }
    );
    assert_eq!(
        parse_arbitest("##\n#/\n").unwrap_err(),
        ParseError::InvalidID { location: loc(0, 2), found: String::new() }
    );
    assert_eq!(
        parse_arbitest("#na\u{ef}ve\n").unwrap_err(),
        ParseError::InvalidID { location: loc(0, 1), found: "na\u{ef}ve".to_string() }
    );
    let fine = parsed("#A-z_09\n##Z-a_90\n#/\n");
    assert_eq!(fine.scripts[0].0, "A-z_09");
    assert_eq!(fine.tests[0].0, "Z-a_90");
}

#[test]
fn text_outside_a_block_is_unexpected() {
    assert_eq!(
        parse_arbitest("echo hi\n").unwrap_err(),
        ParseError::UnexpectedInput { location: loc(0, 0) }
    );
    assert_eq!(
        parse_arbitest("##t\nx\n#/-\n  stray").unwrap_err(),
        ParseError::UnexpectedInput { location: loc(3, 2) }
    );
    assert_eq!(
        parse_arbitest("##t\nx\n#/-5\n").unwrap_err(),
        ParseError::UnexpectedInput { location: loc(2, 3) }
    );
}

#[test]
fn unknown_markers_are_unexpected() {
    assert_eq!(
        parse_arbitest("##t\nx\n#2\nout\n#/\n").unwrap_err(),
        ParseError::UnexpectedInput { location: loc(2, 1) }
    );
    assert_eq!(
        parse_arbitest("##t\nx\n#other\n").unwrap_err(),
        ParseError::UnexpectedInput { location: loc(2, 1) }
    );
    assert_eq!(
        parse_arbitest("##t\nx\n##u\n#/\n").unwrap_err(),
        ParseError::UnexpectedInput { location: loc(2, 1) }
    );
    assert_eq!(
        parse_arbitest("##t\nx\n#/x\n").unwrap_err(),
        ParseError::UnexpectedInput { location: loc(2, 2) }
    );
    assert_eq!(
        parse_arbitest("##t\nx\n#/ \n").unwrap_err(),
        ParseError::UnexpectedInput { location: loc(2, 2) }
    );
    assert_eq!(
        parse_arbitest("##t\nx\n#0\nout\n#9\n").unwrap_err(),
        ParseError::UnexpectedInput { location: loc(4, 1) }
    );
}

#[test]
fn text_that_ends_inside_a_test() {
    assert_eq!(
        parse_arbitest("##t\necho hi\n").unwrap_err(),
        ParseError::UnexpectedEnd { location: loc(2, 0) }
    );
    assert_eq!(
        parse_arbitest("##t\necho hi").unwrap_err(),
        ParseError::UnexpectedEnd { location: loc(1, 7) }
    );
    assert_eq!(
        parse_arbitest("##t\nx\n#0\nout\n").unwrap_err(),
        ParseError::UnexpectedEnd { location: loc(4, 0) }
    );
    assert_eq!(
        parse_arbitest("##t\nx\n#").unwrap_err(),
        ParseError::UnexpectedEnd { location: loc(2, 1) }
    );
    assert_eq!(parse_arbitest("##t").unwrap_err(), ParseError::UnexpectedEnd { location: loc(0, 3) });
}

#[test]
fn comments_and_blank_lines_are_passed_over() {
    let suite = parsed("! top\n\n#s\n! inside\n\n  \none\n\ntwo\n   ! late\n##t\n! inside\nthree\n#/\n! end");
    assert_eq!(suite.scripts[0].1.commands.len(), 3);
    assert_eq!(suite.scripts[0].1.commands[0].text, "one");
    assert_eq!(suite.scripts[0].1.commands[0].location, loc(6, 0));
    assert_eq!(suite.scripts[0].1.commands[1].text, "two");
    assert_eq!(suite.scripts[0].1.commands[2].text, "   ! late");
    assert_eq!(suite.tests[0].1.commands.commands.len(), 1);
    assert_eq!(suite.tests[0].1.commands.commands[0].text, "three");
}

#[test]
fn rest_of_a_script_header_is_dropped() {
    let suite = parsed("#build with words after\nmake\n");
    assert_eq!(suite.scripts[0].0, "build");
    assert_eq!(suite.scripts[0].1.commands.len(), 1);
    assert_eq!(suite.scripts[0].1.commands[0].text, "make");
}

#[test]
fn order_of_declaration_is_kept() {
    let suite = parsed("##b\n#/\n#z\n##a\n#/\n#y\n#x\n");
    let scripts: Vec<&str> = suite.scripts.iter().map(|s| s.0.as_str()).collect();
    let tests: Vec<&str> = suite.tests.iter().map(|t| t.0.as_str()).collect();
    assert_eq!(scripts, vec!["z", "y", "x"]);
    assert_eq!(tests, vec!["b", "a"]);
}

#[test]
fn parse_root_agrees_with_parse_arbitest() {
    let text = "#s\none\n##t: s\ntwo\n#1\nerr\n#/4\n";
    assert_eq!(parse_root(&chars(text)), parse_arbitest(text));
}

#[test]
fn markers_one_by_one() {
    let src = chars("#0 rest\n#1\n#/\n#/-\n#/42 \n#/");
    assert_eq!(scan_marker(&src, 0), Ok((NextSegment::ExpectedStreamOutput(Stream::Stdout), 8)));
    assert_eq!(scan_marker(&src, 8), Ok((NextSegment::ExpectedStreamOutput(Stream::Stderr), 11)));
    assert_eq!(scan_marker(&src, 11), Ok((NextSegment::Finished(Some(0)), 14)));
    assert_eq!(scan_marker(&src, 14), Ok((NextSegment::Finished(None), 17)));
    assert_eq!(scan_marker(&src, 18), Ok((NextSegment::Finished(Some(42)), 22)));
    assert_eq!(scan_marker(&src, 24), Ok((NextSegment::Finished(Some(0)), 26)));
}

#[test]
fn segments_from_a_marker_on() {
    let src = chars("#0\na\nb\n#1\n#/7\nrest");
    let (xexit, xstdout, xstderr, next) = scan_segments(&src, 0).unwrap();
    assert_eq!(xexit, Some(7));
    assert_eq!(xstdout, Some(b"a\nb".to_vec()));
    assert_eq!(xstderr, Some(Vec::new()));
    assert_eq!(next, 13);
    assert_eq!(
        scan_segments(&src, src.len()),
        Err(ParseError::UnexpectedEnd { location: loc(5, 4) })
    );
}

#[test]
fn body_up_to_the_next_marker() {
    let src = chars("one\n\n! no\ntwo words\n#next");
    let (entries, end) = scan_body(&src, 0);
    assert_eq!(end, 20);
    assert_eq!(entries.len(), 2);
    assert_eq!(entries[0].text, "one");
    assert_eq!(entries[1].text, "two words");
    assert_eq!(entries[1].location, loc(3, 0));
    let (none, at) = scan_body(&src, 20);
    assert!(none.is_empty());
    assert_eq!(at, 20);
}

#[test]
fn words_between_two_positions() {
    let src = chars("  alpha\tbeta  gamma \nnext");
    assert_eq!(scan_words(&src, 0, 20), vec!["alpha", "beta", "gamma"]);
    assert_eq!(scan_words(&src, 3, 10), vec!["lpha", "be"]);
    assert!(scan_words(&src, 0, 2).is_empty());
    assert!(scan_words(&src, 5, 5).is_empty());
}

#[test]
fn heads_of_tests() {
    let src = chars("##name: base x\nbody");
    assert_eq!(
        parse_test_head(&src, 0),
        Ok(("name".to_string(), Some(("base".to_string(), vec!["x".to_string()])), 15))
    );
    let plain = chars("##name rest\n");
    assert_eq!(parse_test_head(&plain, 0), Ok(("name".to_string(), None, 6)));
}

#[test]
fn one_test_and_one_script() {
    let src = chars("##t\nrun\n#/5\n#s\nmake\n");
    let (name, test, next) = parse_test(&src, 0).unwrap();
    assert_eq!(name, "t");
    assert_eq!(test.xexit, Some(5));
    assert_eq!(next, 11);
    let (name, script, next) = parse_script(&src, 12).unwrap();
    assert_eq!(name, "s");
    assert_eq!(script.commands.len(), 1);
    assert_eq!(script.location, loc(3, 0));
    assert_eq!(next, src.len());
}

#[test]
fn lookup_by_name_finds_the_first() {
    let suite = parsed("#a\n#b\n##x\n#/\n##y\n#/\n");
    assert_eq!(find_script(&suite.scripts, "a"), Some(0));
    assert_eq!(find_script(&suite.scripts, "b"), Some(1));
    assert_eq!(find_script(&suite.scripts, "c"), None);
    assert_eq!(find_test(&suite.tests, "y"), Some(1));
    assert_eq!(find_test(&suite.tests, "a"), None);
    assert!(same_text("abc", "abc"));
    assert!(!same_text("abc", "abd"));
    assert!(!same_text("abc", "ab"));
}

#[test]
fn positions_beyond_the_text_end_it() {
    let src = chars("##t\n#/\n");
    let end = ParseError::UnexpectedEnd { location: loc(2, 0) };
    assert_eq!(scan_marker(&src, 7), Err(end.clone()));
    assert_eq!(scan_marker(&src, 70), Err(end.clone()));
    assert_eq!(scan_segments(&src, 8), Err(end.clone()));
    assert_eq!(parse_test_head(&src, 6), Err(end.clone()));
    assert_eq!(parse_test_head(&src, 60), Err(end.clone()));
    assert_eq!(parse_test(&src, 7), Err(end.clone()));
    assert_eq!(parse_script(&src, 7), Err(end.clone()));
    assert_eq!(parse_script(&src, 70), Err(end));
    assert_eq!(scan_body(&src, 9), (Vec::new(), 9));
    assert!(scan_words(&src, 2, 1).is_empty());
    assert!(scan_words(&src, 0, 8).is_empty());
    assert_eq!(scan_words(&src, 0, 3), vec!["##t"]);
    let last = chars("##t\n#");
    assert_eq!(parse_test_head(&last, 4), Err(ParseError::UnexpectedEnd { location: loc(1, 1) }));
    assert_eq!(
        parse_script(&last, 4),
        Err(ParseError::InvalidID { location: loc(1, 1), found: String::new() })
    );
}
