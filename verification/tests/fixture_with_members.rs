use galvanic_test::FixtureBinding;
use galvanic_test::TestFixture;

#[derive(Debug)]
pub struct WithMembers<'param> {
    pub x: &'param i32,
    pub y: &'param i32,
    data_int: Option<i32>,
    data_float: Option<f32>,
}

impl<'param> TestFixture<'param, (i32, i32), ()> for WithMembers<'param> {
    fn new(curried_params: &'param (i32, i32)) -> Self {
        WithMembers {
            x: &curried_params.0,
            y: &curried_params.1,
            data_int: None,
            data_float: None,
        }
    }

    fn parameters() -> Option<Vec<(i32, i32)>> {
        None
    }

    fn setup(&mut self) -> FixtureBinding<Self, ()> {
        self.data_int = Some(self.x + self.y);
        self.data_float = Some((self.x + self.y) as f32 * 2.0);
        FixtureBinding { val: (), params: self }
    }

    fn tear_down(&self) {
        assert_eq!(self.data_int, Some(41));
        assert_eq!(self.data_float, Some(82.0));
    }
}

impl<'param> Drop for WithMembers<'param> {
    fn drop(&mut self) {
        self.tear_down();
    }
}

#[test]
fn should_create_fixture_with_members_and_assign_expected_values() {
    let mut fixture = WithMembers::new(&(40, 1));
    fixture.setup();
}

#[test]
#[should_panic]
fn should_create_fixture_with_members_and_assign_wrong_values() {
    let mut fixture = WithMembers::new(&(40, 2));
    fixture.setup();
}

#[test]
fn setup_fills_the_members_that_construction_left_empty() {
    let params = (40, 1);
    let mut fixture = WithMembers::new(&params);
    assert_eq!(fixture.data_int, None);
    assert_eq!(fixture.data_float, None);
    let binding = fixture.setup();
    assert_eq!(binding.params.data_int, Some(41));
    assert_eq!(binding.params.data_float, Some(82.0));
}
