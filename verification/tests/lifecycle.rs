use galvanic_test::lifecycle::{first, next, Step};

fn steps(fixtures: usize, outcome: &dyn Fn(Step) -> bool) -> Vec<Step> {
    let mut taken = Vec::new();
    let mut step = first(fixtures);
    while step != Step::Done {
        taken.push(step);
        step = next(fixtures, step, outcome(step));
    }
    taken
}

#[test]
fn a_passing_invocation_constructs_sets_up_runs_and_tears_down() {
    assert_eq!(
        steps(2, &|_| true),
        vec![
            Step::Construct(0),
            Step::Construct(1),
            Step::Setup(0),
            Step::Setup(1),
            Step::Body,
            Step::TearDown(1),
            Step::TearDown(0),
        ]
    );
}

#[test]
fn a_test_without_fixtures_is_its_body() {
    assert_eq!(first(0), Step::Body);
    assert_eq!(steps(0, &|_| true), vec![Step::Body]);
    assert_eq!(steps(0, &|_| false), vec![Step::Body]);
}

#[test]
fn a_failing_body_is_followed_by_every_teardown() {
    assert_eq!(
        steps(3, &|step| step != Step::Body),
        vec![
            Step::Construct(0),
            Step::Construct(1),
            Step::Construct(2),
            Step::Setup(0),
            Step::Setup(1),
            Step::Setup(2),
            Step::Body,
            Step::TearDown(2),
            Step::TearDown(1),
            Step::TearDown(0),
        ]
    );
}

#[test]
fn a_failing_setup_skips_the_body_and_tears_all_down() {
    assert_eq!(
        steps(2, &|step| step != Step::Setup(0)),
        vec![
            Step::Construct(0),
            Step::Construct(1),
            Step::Setup(0),
            Step::TearDown(1),
            Step::TearDown(0),
        ]
    );
}

#[test]
fn a_failing_construction_tears_down_what_exists() {
    assert_eq!(
        steps(3, &|step| step != Step::Construct(1)),
        vec![Step::Construct(0), Step::Construct(1), Step::TearDown(0)]
    );
    assert_eq!(steps(3, &|step| step != Step::Construct(0)), vec![Step::Construct(0)]);
}

#[test]
fn a_failing_teardown_does_not_stop_the_others() {
    assert_eq!(
        steps(3, &|step| step != Step::TearDown(2)),
        vec![
            Step::Construct(0),
            Step::Construct(1),
            Step::Construct(2),
            Step::Setup(0),
            Step::Setup(1),
            Step::Setup(2),
            Step::Body,
            Step::TearDown(2),
            Step::TearDown(1),
            Step::TearDown(0),
        ]
    );
}

#[test]
fn every_constructed_instance_is_torn_down_once_newest_first() {
    let fixtures = 4;
    let mut candidates = vec![Step::Body];
    for fixture in 0..fixtures {
        candidates.push(Step::Construct(fixture));
        candidates.push(Step::Setup(fixture));
        candidates.push(Step::TearDown(fixture));
    }
    for failing in candidates {
        let taken = steps(fixtures, &|step| step != failing);
        let mut constructed = Vec::new();
        let mut torn_down = Vec::new();
        for step in taken {
            match step {
                Step::Construct(fixture) if step != failing => constructed.push(fixture),
                Step::TearDown(fixture) => torn_down.push(fixture),
                _ => {}
            }
        }
        constructed.reverse();
        assert_eq!(constructed, torn_down);
    }
}

#[test]
fn steps_of_another_test_end_the_invocation() {
    assert_eq!(next(2, Step::Construct(2), true), Step::Done);
    assert_eq!(next(2, Step::Setup(5), true), Step::Done);
    assert_eq!(next(2, Step::TearDown(usize::MAX), false), Step::Done);
    assert_eq!(next(0, Step::Construct(0), true), Step::Done);
    assert_eq!(next(2, Step::Done, true), Step::Done);
    assert_eq!(next(2, Step::Done, false), Step::Done);
}

#[test]
fn the_last_setup_leads_to_the_body() {
    assert_eq!(next(1, Step::Construct(0), true), Step::Setup(0));
    assert_eq!(next(1, Step::Setup(0), true), Step::Body);
    assert_eq!(next(1, Step::Body, true), Step::TearDown(0));
    assert_eq!(next(1, Step::TearDown(0), true), Step::Done);
    assert_eq!(next(usize::MAX, Step::Construct(usize::MAX - 1), true), Step::Setup(0));
    assert_eq!(next(usize::MAX, Step::Setup(usize::MAX - 1), true), Step::Body);
}
