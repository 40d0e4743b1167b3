use galvanic_test::report::{
    describe, failure_summary, notice, unassigned_description, TestOutcome,
};

#[test]
fn describe_joins_with_comma_and_space() {
    let parts = vec![
        String::from("A { it: 2 }"),
        String::from("B { it: 3 }"),
        String::from("C { it: 5 }"),
    ];
    assert_eq!(describe(&parts), "A { it: 2 }, B { it: 3 }, C { it: 5 }");
}

#[test]
fn describe_of_one_part_is_the_part() {
    assert_eq!(describe(&vec![String::from("mul { x: 2, y: 4 }")]), "mul { x: 2, y: 4 }");
}

#[test]
fn describe_of_nothing_is_empty() {
    assert_eq!(describe(&vec![]), "");
}

#[test]
fn describe_keeps_empty_parts() {
    assert_eq!(describe(&vec![String::new(), String::new()]), ", ");
    assert_eq!(describe(&vec![String::from("a"), String::new()]), "a, ");
    assert_eq!(describe(&vec![String::new(), String::from("b")]), ", b");
}

#[test]
fn describe_takes_text_beyond_ascii() {
    let parts = vec![String::from("größe: 1"), String::from("名前")];
    assert_eq!(describe(&parts), "größe: 1, 名前");
}

#[test]
fn unassigned_description_says_the_fixtures_were_not_ready() {
    assert_eq!(
        unassigned_description(),
        "Test panicked before all fixtures have been assigned."
    );
}

#[test]
fn notice_puts_the_description_under_the_heading() {
    assert_eq!(
        notice(&String::from("mul { x: 2, y: 4 }")),
        "The above error occured with the following parameterisation of the test case:\n    mul { x: 2, y: 4 }\n"
    );
}

#[test]
fn a_new_outcome_passes() {
    let outcome = TestOutcome::new();
    assert!(outcome.has_passed());
    assert!(!outcome.has_failed());
    assert_eq!(outcome.last_diagnostic(), "");
}

#[test]
fn a_recorded_failure_fails_the_test_for_good() {
    let mut outcome = TestOutcome::new();
    outcome.record_failure(String::from("A { it: 1 }"));
    assert!(outcome.has_failed());
    assert!(!outcome.has_passed());
    assert_eq!(outcome.last_diagnostic(), "A { it: 1 }");
    outcome.record_failure(String::from("A { it: 3 }"));
    assert!(outcome.has_failed());
    assert_eq!(outcome.last_diagnostic(), "A { it: 3 }");
}

#[test]
fn a_failed_test_sums_up_in_one_sentence() {
    assert_eq!(failure_summary(), "Some parameterised test cases failed");
}
