use arbitest::test::{Action, ArbitestConfig, CommandConfig, Config, SubTestConfig, XOut};

#[test]
fn actions_from_text_and_numbers() {
    assert_eq!(Action::from_text("run"), Action::Command("run".to_string()));
    assert_eq!(Action::from_text(""), Action::Command(String::new()));
    assert_eq!(Action::from_signed(0), Some(Action::CommandRef(0)));
    assert_eq!(Action::from_signed(17), Some(Action::CommandRef(17)));
    assert_eq!(Action::from_signed(-1), None);
    assert_eq!(Action::from_signed(i64::MIN), None);
    assert_eq!(Action::from_unsigned(0), Some(Action::CommandRef(0)));
    assert_eq!(Action::from_unsigned(42), Some(Action::CommandRef(42)));
    assert_eq!(
        Action::from_unsigned(u64::MAX),
        usize::try_from(u64::MAX).ok().map(Action::CommandRef)
    );
    assert_eq!(
        Action::from_signed(i64::MAX),
        usize::try_from(i64::MAX).ok().map(Action::CommandRef)
    );
}

#[test]
fn only_the_literal_subtest_nests() {
    assert!(Action::from_text("subtest").is_subtest());
    assert!(!Action::from_text("Subtest").is_subtest());
    assert!(!Action::from_text("subtests").is_subtest());
    assert!(!Action::from_text("subtes").is_subtest());
    assert!(!Action::from_text("").is_subtest());
    assert!(!Action::CommandRef(0).is_subtest());
}

#[test]
fn defaults_of_the_document_types() {
    assert_eq!(Config::default(), Config { delegate: false });
    assert_eq!(SubTestConfig::default(), SubTestConfig { sub_config: None, breakdown: true });
    assert_eq!(CommandConfig::default(), CommandConfig { args: Vec::new() });
    assert_eq!(XOut::default(), XOut { code: None, stdout: None, stderr: None });
    assert_eq!(
        ArbitestConfig::default(),
        ArbitestConfig { config: Config { delegate: false }, tests: Vec::new(), commands: Vec::new() }
    );
}
