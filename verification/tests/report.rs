use arbitest::atest::{Location, ScriptEntry};
use arbitest::exec::{CommandExecError, TestStatus};
use arbitest::parser::parse_arbitest;
use arbitest::report::{
    execute_config, execution_order, find_test_at, report, tally, Report, RunError, Summary, Tally,
};
use arbitest::test::{Action, ArbitestConfig, Config, SubTestConfig, Test, XOut};

fn fatal() -> TestStatus {
    TestStatus::ExecError(
        CommandExecError { message: "spawn".to_string() },
        ScriptEntry { text: "x".to_string(), location: Location { line: 0, column: 0 } },
    )
}

fn leaf(file: &str) -> Test {
    Test {
        file: file.to_string(),
        action: Action::CommandRef(0),
        xout: XOut::default(),
        command: None,
        subtest: None,
    }
}

fn nested(suite: ArbitestConfig) -> Test {
    Test {
        file: "nested".to_string(),
        action: Action::Command("subtest".to_string()),
        xout: XOut::default(),
        command: None,
        subtest: Some(SubTestConfig { sub_config: Some(Box::new(suite)), breakdown: true }),
    }
}

fn suite(delegate: bool, tests: Vec<Test>) -> ArbitestConfig {
    ArbitestConfig { config: Config { delegate }, tests, commands: Vec::new() }
}

fn line(path: Vec<usize>, passed: usize, failed: usize) -> Summary {
    Summary { path, passed, failed }
}

const P: TestStatus = TestStatus::Success;
const F: TestStatus = TestStatus::Failure;

#[test]
fn tally_counts_each_status_once() {
    assert_eq!(tally(&Vec::new()), Ok(Tally { passed: 0, failed: 0 }));
    assert_eq!(tally(&vec![P, F, P, P]), Ok(Tally { passed: 3, failed: 1 }));
    assert_eq!(tally(&vec![F, F]), Ok(Tally { passed: 0, failed: 2 }));
}

#[test]
fn first_engine_failure_is_fatal() {
    assert_eq!(tally(&vec![P, fatal(), F, fatal()]), Err(1));
    assert_eq!(tally(&vec![fatal()]), Err(0));
}

#[test]
fn flat_suite_counts_its_tests() {
    let config = parse_arbitest("##a\n#/\n##b\n#/\n##c\n#/\n").unwrap();
    assert_eq!(execute_config(&config, &vec![P, F, P]), Ok(Tally { passed: 2, failed: 1 }));
    assert_eq!(execute_config(&config, &vec![P, P, P]), Ok(Tally { passed: 3, failed: 0 }));
    assert_eq!(execute_config(&config, &vec![P, F]), Err(RunError::Mismatch));
    assert_eq!(execute_config(&config, &vec![P, F, P, P]), Err(RunError::Mismatch));
    assert_eq!(execute_config(&config, &vec![P, fatal()]), Err(RunError::Fatal(1)));
    let empty = parse_arbitest("").unwrap();
    assert_eq!(execute_config(&empty, &Vec::new()), Ok(Tally { passed: 0, failed: 0 }));
}

#[test]
fn nested_suites_run_in_full_before_the_next_test() {
    let tree = suite(
        false,
        vec![
            leaf("a"),
            nested(suite(false, vec![leaf("b"), nested(suite(true, vec![leaf("c")])), leaf("d")])),
            leaf("e"),
            nested(suite(false, Vec::new())),
        ],
    );
    assert_eq!(
        execution_order(&tree),
        vec![vec![0], vec![1, 0], vec![1, 1, 0], vec![1, 2], vec![2]]
    );
    assert_eq!(execution_order(&suite(false, Vec::new())), Vec::<Vec<usize>>::new());
}

#[test]
fn each_suite_counts_its_own_tests_only() {
    let tree = suite(
        false,
        vec![
            leaf("a"),
            nested(suite(false, vec![leaf("b"), nested(suite(false, vec![leaf("c")])), leaf("d")])),
            leaf("e"),
        ],
    );
    let whole = report(&tree, &vec![P, F, P, F, F]).unwrap();
    assert_eq!(
        whole,
        Report {
            summaries: vec![line(vec![1, 1], 1, 0), line(vec![1], 0, 2), line(vec![], 1, 1)],
            passed: 2,
            failed: 3,
        }
    );
}

#[test]
fn delegating_suite_gives_no_summary() {
    let tree = suite(
        true,
        vec![leaf("a"), nested(suite(true, vec![leaf("b")])), nested(suite(false, vec![leaf("c")]))],
    );
    let whole = report(&tree, &vec![P, P, F]).unwrap();
    assert_eq!(
        whole,
        Report { summaries: vec![line(vec![2], 0, 1)], passed: 2, failed: 1 }
    );
    let alone = report(&suite(true, vec![leaf("a"), leaf("b")]), &vec![P, F]).unwrap();
    assert_eq!(alone, Report { summaries: Vec::new(), passed: 1, failed: 1 });
    let loud = report(&suite(false, vec![leaf("a"), leaf("b")]), &vec![P, F]).unwrap();
    assert_eq!(loud, Report { summaries: vec![line(vec![], 1, 1)], passed: 1, failed: 1 });
}

#[test]
fn report_needs_one_status_for_each_run() {
    let tree = suite(false, vec![leaf("a"), nested(suite(false, vec![leaf("b")]))]);
    assert_eq!(report(&tree, &vec![P]), Err(RunError::Mismatch));
    assert_eq!(report(&tree, &vec![P, P, P]), Err(RunError::Mismatch));
    assert_eq!(report(&tree, &Vec::new()), Err(RunError::Mismatch));
    assert_eq!(report(&tree, &vec![P, fatal()]), Err(RunError::Fatal(1)));
    assert_eq!(report(&tree, &vec![fatal()]), Err(RunError::Fatal(0)));
    assert_eq!(
        report(&suite(false, Vec::new()), &Vec::new()),
        Ok(Report { summaries: vec![line(vec![], 0, 0)], passed: 0, failed: 0 })
    );
}

#[test]
fn paths_name_tests_and_their_suites() {
    let inner = suite(true, vec![leaf("c")]);
    let middle = suite(false, vec![leaf("b"), nested(suite(true, vec![leaf("c")])), leaf("d")]);
    let tree = suite(
        false,
        vec![
            leaf("a"),
            nested(suite(false, vec![leaf("b"), nested(suite(true, vec![leaf("c")])), leaf("d")])),
        ],
    );
    let (holder, test) = find_test_at(&tree, &vec![0]).unwrap();
    assert_eq!(holder, &tree);
    assert_eq!(test.file, "a");
    let (holder, test) = find_test_at(&tree, &vec![1, 2]).unwrap();
    assert_eq!(holder, &middle);
    assert_eq!(test.file, "d");
    let (holder, test) = find_test_at(&tree, &vec![1, 1, 0]).unwrap();
    assert_eq!(holder, &inner);
    assert_eq!(test.file, "c");
    let (holder, test) = find_test_at(&tree, &vec![1]).unwrap();
    assert_eq!(holder, &tree);
    assert_eq!(test.file, "nested");
    assert_eq!(find_test_at(&tree, &Vec::new()), None);
    assert_eq!(find_test_at(&tree, &vec![2]), None);
    assert_eq!(find_test_at(&tree, &vec![0, 0]), None);
    assert_eq!(find_test_at(&tree, &vec![1, 3]), None);
    assert_eq!(find_test_at(&tree, &vec![1, 1, 0, 0]), None);
}

#[test]
fn every_path_of_the_order_names_a_test_that_runs() {
    let tree = suite(
        false,
        vec![
            nested(suite(true, vec![nested(suite(false, vec![leaf("x"), leaf("y")]))])),
            leaf("z"),
        ],
    );
    let files: Vec<String> = execution_order(&tree)
        .iter()
        .map(|path| find_test_at(&tree, path).unwrap().1.file.clone())
        .collect();
    assert_eq!(files, vec!["x", "y", "z"]);
}

#[test]
fn tally_is_ok_without_failures() {
    assert!(Tally { passed: 0, failed: 0 }.ok());
    assert!(Tally { passed: 4, failed: 0 }.ok());
    assert!(!Tally { passed: 4, failed: 1 }.ok());
    assert!(!P.is_fatal());
    assert!(!F.is_fatal());
    assert!(fatal().is_fatal());
}
