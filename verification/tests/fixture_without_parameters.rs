use galvanic_test::FixtureBinding;
use galvanic_test::TestFixture;
use galvanic_test::source::unit_parameters;
use std::sync::atomic::{AtomicBool, Ordering};

#[derive(Debug)]
pub struct SetupOnly<'param> {
    _phantom: &'param (),
}

impl<'param> TestFixture<'param, (), i32> for SetupOnly<'param> {
    fn new(_phantom: &'param ()) -> Self {
        SetupOnly { _phantom }
    }

    fn parameters() -> Option<Vec<()>> {
        unit_parameters()
    }

    fn setup(&mut self) -> FixtureBinding<Self, i32> {
        let value = 42;
        FixtureBinding { val: value, params: self }
    }
}

impl<'param> Drop for SetupOnly<'param> {
    fn drop(&mut self) {
        self.tear_down();
    }
}

#[test]
fn should_create_i32() {
    let params = &();
    let mut fixture = SetupOnly::new(params);
    assert_eq!(fixture.setup().val, 42);
}

#[test]
fn should_get_single_unit_parameter() {
    assert_eq!(
        SetupOnly::parameters().unwrap().into_iter().collect::<Vec<_>>(),
        vec![()]
    );
}

static TEAR_DOWN_FLAG: AtomicBool = AtomicBool::new(false);

#[derive(Debug)]
pub struct WithTearDown<'param> {
    _phantom: &'param (),
}

impl<'param> TestFixture<'param, (), i32> for WithTearDown<'param> {
    fn new(_phantom: &'param ()) -> Self {
        WithTearDown { _phantom }
    }

    fn parameters() -> Option<Vec<()>> {
        unit_parameters()
    }

    fn setup(&mut self) -> FixtureBinding<Self, i32> {
        let value = 42;
        FixtureBinding { val: value, params: self }
    }

    fn tear_down(&self) {
        TEAR_DOWN_FLAG.store(true, Ordering::SeqCst);
    }
}

impl<'param> Drop for WithTearDown<'param> {
    fn drop(&mut self) {
        self.tear_down();
    }
}

#[test]
fn should_tear_down_fixture() {
    {
        let params = &();
        WithTearDown::new(params);
    }
    assert!(TEAR_DOWN_FLAG.load(Ordering::SeqCst));
}
