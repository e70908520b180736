use arbitest::exec::DeError;
use arbitest::resolve::{Resolver, Step};
use arbitest::test::{Action, ArbitestConfig, Command, Config, SubTestConfig, Test, XOut};
use arbitest::Options;

fn command(file: &str) -> Test {
    Test {
        file: file.to_string(),
        action: Action::Command("run".to_string()),
        xout: XOut::default(),
        command: None,
        subtest: None,
    }
}

fn nesting(file: &str, descriptor: Option<bool>) -> Test {
    Test {
        file: file.to_string(),
        action: Action::Command("subtest".to_string()),
        xout: XOut::default(),
        command: None,
        subtest: descriptor.map(|breakdown| SubTestConfig { sub_config: None, breakdown }),
    }
}

fn document(delegate: bool, tests: Vec<Test>) -> ArbitestConfig {
    ArbitestConfig {
        config: Config { delegate },
        tests,
        commands: vec![Command { command: "run".to_string(), args: Vec::new() }],
    }
}

fn attached(file: &str, breakdown: bool, suite: ArbitestConfig) -> Test {
    Test {
        file: file.to_string(),
        action: Action::Command("subtest".to_string()),
        xout: XOut::default(),
        command: None,
        subtest: Some(SubTestConfig { sub_config: Some(Box::new(suite)), breakdown }),
    }
}

fn load_of(step: Step) -> String {
    match step {
        Step::Load(path) => path,
        other => panic!("{:?}", other),
    }
}

fn finished(step: Step) -> ArbitestConfig {
    match step {
        Step::Finished(suite) => suite,
        other => panic!("{:?}", other),
    }
}

fn failed(step: Step) -> DeError {
    match step {
        Step::Failed(error) => error,
        other => panic!("{:?}", other),
    }
}

#[test]
fn default_limit_is_a_thousand() {
    assert_eq!(Options::default().max_depth(), 1000);
    assert_eq!(Options::new(3).max_depth(), 3);
}

#[test]
fn document_without_nested_suites_is_done_at_once() {
    let mut resolver = Resolver::new(&Options::default());
    assert_eq!(resolver.depth(), 0);
    let suite = finished(resolver.feed(Ok(document(false, vec![command("a"), command("b")]))));
    assert_eq!(suite, document(false, vec![command("a"), command("b")]));
    assert_eq!(resolver.depth(), 0);
    let empty = finished(resolver.feed(Ok(document(true, Vec::new()))));
    assert_eq!(empty, document(true, Vec::new()));
}

#[test]
fn nested_suites_are_asked_for_in_order_and_attached() {
    let mut resolver = Resolver::new(&Options::default());
    let root = document(
        false,
        vec![command("a"), nesting("first", Some(false)), command("b"), nesting("second", None)],
    );
    assert_eq!(load_of(resolver.feed(Ok(root))), "first");
    assert_eq!(resolver.depth(), 1);
    let first = document(true, vec![nesting("inner", Some(true)), command("c")]);
    assert_eq!(load_of(resolver.feed(Ok(first))), "inner");
    assert_eq!(resolver.depth(), 2);
    let inner = document(false, vec![command("d")]);
    assert_eq!(load_of(resolver.feed(Ok(inner))), "second");
    assert_eq!(resolver.depth(), 1);
    let second = document(false, Vec::new());
    let suite = finished(resolver.feed(Ok(second)));
    assert_eq!(resolver.depth(), 0);
    let expected = document(
        false,
        vec![
            command("a"),
            attached(
                "first",
                false,
                document(
                    true,
                    vec![attached("inner", true, document(false, vec![command("d")])), command("c")],
                ),
            ),
            command("b"),
            attached("second", true, document(false, Vec::new())),
        ],
    );
    assert_eq!(suite, expected);
}

#[test]
fn nesting_at_the_limit_succeeds() {
    let mut resolver = Resolver::new(&Options::new(2));
    assert_eq!(load_of(resolver.feed(Ok(document(false, vec![nesting("one", None)])))), "one");
    assert_eq!(load_of(resolver.feed(Ok(document(false, vec![nesting("two", None)])))), "two");
    assert_eq!(resolver.depth(), 2);
    let suite = finished(resolver.feed(Ok(document(false, vec![command("leaf")]))));
    let expected = document(
        false,
        vec![attached(
            "one",
            true,
            document(false, vec![attached("two", true, document(false, vec![command("leaf")]))]),
        )],
    );
    assert_eq!(suite, expected);
}

#[test]
fn nesting_beyond_the_limit_fails_with_the_limit() {
    let mut resolver = Resolver::new(&Options::new(2));
    assert_eq!(load_of(resolver.feed(Ok(document(false, vec![nesting("one", None)])))), "one");
    assert_eq!(load_of(resolver.feed(Ok(document(false, vec![nesting("two", None)])))), "two");
    let error = failed(resolver.feed(Ok(document(false, vec![command("x"), nesting("three", None)]))));
    assert!(matches!(error, DeError::RecursiveLimit));
    assert_eq!(resolver.depth(), 0);
}

#[test]
fn limit_zero_allows_no_nesting() {
    let mut resolver = Resolver::new(&Options::new(0));
    assert_eq!(
        finished(resolver.feed(Ok(document(false, vec![command("a")])))),
        document(false, vec![command("a")])
    );
    let error = failed(resolver.feed(Ok(document(false, vec![nesting("one", None)]))));
    assert!(matches!(error, DeError::RecursiveLimit));
}

#[test]
fn suite_that_nests_itself_ends_at_the_limit() {
    let mut resolver = Resolver::new(&Options::new(25));
    let mut loads = 0;
    let mut step = resolver.feed(Ok(document(false, vec![nesting("self", None)])));
    loop {
        match step {
            Step::Load(path) => {
                assert_eq!(path, "self");
                loads += 1;
                step = resolver.feed(Ok(document(false, vec![nesting("self", None)])));
            }
            Step::Failed(error) => {
                assert!(matches!(error, DeError::RecursiveLimit));
                break;
            }
            Step::Finished(suite) => panic!("{:?}", suite),
        }
    }
    assert_eq!(loads, 25);
}

#[test]
fn descriptor_without_the_action_is_a_mismatch() {
    let mut odd = command("a");
    odd.subtest = Some(SubTestConfig::default());
    let mut resolver = Resolver::new(&Options::default());
    let error = failed(resolver.feed(Ok(document(false, vec![command("b"), odd]))));
    assert!(matches!(error, DeError::MismatchedTestType));
    let mut by_position = command("a");
    by_position.action = Action::CommandRef(0);
    by_position.subtest = Some(SubTestConfig { sub_config: None, breakdown: false });
    let error = failed(resolver.feed(Ok(document(false, vec![by_position]))));
    assert!(matches!(error, DeError::MismatchedTestType));
}

#[test]
fn mismatch_in_a_nested_suite_is_wrapped_per_level() {
    let mut odd = command("a");
    odd.subtest = Some(SubTestConfig::default());
    let mut resolver = Resolver::new(&Options::default());
    assert_eq!(load_of(resolver.feed(Ok(document(false, vec![nesting("one", None)])))), "one");
    assert_eq!(load_of(resolver.feed(Ok(document(false, vec![nesting("two", None)])))), "two");
    let error = failed(resolver.feed(Ok(document(false, vec![odd]))));
    match error {
        DeError::RecursiveError(outer) => match *outer {
            DeError::RecursiveError(inner) => assert!(matches!(*inner, DeError::MismatchedTestType)),
            other => panic!("{:?}", other),
        },
        other => panic!("{:?}", other),
    }
    assert_eq!(resolver.depth(), 0);
}

#[test]
fn unreadable_documents_fail_with_their_depth() {
    let mut resolver = Resolver::new(&Options::default());
    let gone = || DeError::IOError(std::io::Error::new(std::io::ErrorKind::NotFound, "gone"));
    match failed(resolver.feed(Err(gone()))) {
        DeError::IOError(error) => assert_eq!(error.kind(), std::io::ErrorKind::NotFound),
        other => panic!("{:?}", other),
    }
    assert_eq!(load_of(resolver.feed(Ok(document(false, vec![nesting("one", None)])))), "one");
    match failed(resolver.feed(Err(gone()))) {
        DeError::RecursiveError(inner) => assert!(matches!(*inner, DeError::IOError(_))),
        other => panic!("{:?}", other),
    }
    assert_eq!(resolver.depth(), 0);
    assert_eq!(load_of(resolver.feed(Ok(document(false, vec![nesting("one", None)])))), "one");
    assert!(matches!(failed(resolver.feed(Err(DeError::RecursiveLimit))), DeError::RecursiveLimit));
}

#[test]
fn malformed_documents_fail_with_their_depth() {
    let mut resolver = Resolver::new(&Options::default());
    let bad = || DeError::InvalidDocument("tests: expected a list".to_string());
    match failed(resolver.feed(Err(bad()))) {
        DeError::InvalidDocument(why) => assert_eq!(why, "tests: expected a list"),
        other => panic!("{:?}", other),
    }
    assert_eq!(load_of(resolver.feed(Ok(document(false, vec![nesting("one", None)])))), "one");
    match failed(resolver.feed(Err(bad()))) {
        DeError::RecursiveError(inner) => assert!(matches!(*inner, DeError::InvalidDocument(_))),
        other => panic!("{:?}", other),
    }
}

#[test]
fn resolver_starts_anew_after_it_ended() {
    let mut resolver = Resolver::new(&Options::new(1));
    assert_eq!(load_of(resolver.feed(Ok(document(false, vec![nesting("one", None)])))), "one");
    assert!(matches!(
        failed(resolver.feed(Ok(document(false, vec![nesting("two", None)])))),
        DeError::RecursiveLimit
    ));
    assert_eq!(resolver.depth(), 0);
    assert_eq!(load_of(resolver.feed(Ok(document(true, vec![nesting("one", Some(false))])))), "one");
    let suite = finished(resolver.feed(Ok(document(false, Vec::new()))));
    assert_eq!(suite, document(true, vec![attached("one", false, document(false, Vec::new()))]));
}
