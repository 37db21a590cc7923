use fellm::error::FellmError;
use fellm::run::{
    chat_thinking, check_speculation, check_speculator, choose_speculator, needs_model_probe, thinking_setting,
    visible_tokens,
};

fn message(r: Result<(), FellmError>) -> String {
    match r {
        Err(FellmError::Other(m)) => m,
        _ => panic!("expected an error"),
    }
}

#[test]
fn speculation_conflicts() {
    assert!(check_speculation(None, None, false).is_ok());
    assert!(check_speculation(Some("off"), None, false).is_ok());
    assert_eq!(
        message(check_speculation(Some("off"), Some("mtp"), false)),
        "--speculative off cannot be combined with a speculator or draft model"
    );
    assert_eq!(
        message(check_speculation(Some("off"), None, true)),
        "--speculative off cannot be combined with a speculator or draft model"
    );
    assert_eq!(
        message(check_speculation(None, Some("dspark"), true)),
        "choose either --speculative-draft or --speculator, not both"
    );
    assert!(check_speculation(None, Some("other"), true).is_ok());
}

#[test]
fn speculator_selection() {
    assert!(needs_model_probe(Some("auto"), None));
    assert!(!needs_model_probe(Some("auto"), Some("mtp")));
    assert_eq!(choose_speculator(Some("auto"), None, false, 2).as_deref(), Some("mtp"));
    assert_eq!(choose_speculator(Some("auto"), None, true, 0).as_deref(), Some("dspark"));
    assert_eq!(choose_speculator(Some("auto"), None, false, 0), None);
    assert_eq!(choose_speculator(Some("dspark"), None, false, 0).as_deref(), Some("dspark"));
    assert_eq!(choose_speculator(Some("off"), None, false, 5), None);
    assert_eq!(choose_speculator(Some("mtp"), Some("dspark"), false, 0).as_deref(), Some("dspark"));
    assert_eq!(choose_speculator(None, Some("off"), false, 0), None);
    assert_eq!(choose_speculator(None, None, true, 3), None);
}

#[test]
fn speculator_checks() {
    assert!(check_speculator("mtp", false).is_ok());
    assert!(check_speculator("dspark", true).is_ok());
    assert_eq!(
        message(check_speculator("mtp", true)),
        "native MTP uses tensors embedded in the target; --speculator-model is not applicable"
    );
    assert_eq!(message(check_speculator("eagle", false)), "unknown speculator 'eagle' (expected mtp or dspark)");
}

#[test]
fn thinking_flags() {
    assert_eq!(thinking_setting(true, false).unwrap(), Some(true));
    assert_eq!(thinking_setting(false, true).unwrap(), Some(false));
    assert_eq!(thinking_setting(false, false).unwrap(), None);
    match thinking_setting(true, true) {
        Err(FellmError::Other(m)) => assert_eq!(m, "--think and --no-think cannot be used together"),
        _ => panic!("expected an error"),
    }
    assert_eq!(chat_thinking(Some(true), true), Some(true));
    assert_eq!(chat_thinking(None, true), Some(false));
    assert_eq!(chat_thinking(None, false), None);
}

#[test]
fn stop_tokens_are_hidden() {
    assert_eq!(visible_tokens(&[5, 2, 7, 2, 9], &[2]), vec![5, 7, 9]);
    assert_eq!(visible_tokens(&[1, 2, 3], &[]), vec![1, 2, 3]);
    assert_eq!(visible_tokens(&[4, 4], &[4, 8]), Vec::<u32>::new());
}
