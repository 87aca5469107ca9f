use ternary_sandbox::outcome::{contender_failure, post_check_verdict, pre_check_verdict, Contender};

#[test]
fn passed_checks_are_ok() {
    assert!(pre_check_verdict("baseline", true).is_ok());
    assert!(post_check_verdict("baseline", true).is_ok());
}

#[test]
fn failed_pre_check_message() {
    assert_eq!(
        pre_check_verdict("fail_pre", false),
        Err("Experiment 'fail_pre' failed pre-condition check".to_string())
    );
}

#[test]
fn failed_post_check_message() {
    assert_eq!(
        post_check_verdict("fail_post", false),
        Err("Experiment 'fail_post' failed post-condition check".to_string())
    );
}

#[test]
fn contender_failure_prefixes_side() {
    assert_eq!(contender_failure(Contender::A, "boom"), "Experiment A: boom");
    assert_eq!(contender_failure(Contender::B, ""), "Experiment B: ");
}
