use galvanic_test::FixtureBinding;
use galvanic_test::TestFixture;

#[derive(Debug)]
pub struct Generated<'param> {
    pub x: &'param i32,
    pub y: &'param i32,
}

impl<'param> TestFixture<'param, (i32, i32), i32> for Generated<'param> {
    fn new(curried_params: &'param (i32, i32)) -> Self {
        Generated { x: &curried_params.0, y: &curried_params.1 }
    }

    fn parameters() -> Option<Vec<(i32, i32)>> {
        Some(vec![(1, 1), (2, 4), (3, 6)])
    }

    fn setup(&mut self) -> FixtureBinding<Self, i32> {
        let value = self.x * self.y;
        FixtureBinding { val: value, params: self }
    }
}

impl<'param> Drop for Generated<'param> {
    fn drop(&mut self) {
        self.tear_down();
    }
}

#[test]
fn should_generate_multiple_fixtures() {
    let cases = Generated::parameters()
        .expect("A case iterator should be returned")
        .into_iter()
        .map(|p| {
            let mut f = Generated::new(&p);
            let b = f.setup();
            (b.val, b.params.y - b.params.x)
        })
        .collect::<Vec<_>>();

    assert_eq!(cases.len(), 3);

    assert_eq!(cases[0].0, 1);
    assert_eq!(cases[0].1, 0);

    assert_eq!(cases[1].0, 8);
    assert_eq!(cases[1].1, 2);

    assert_eq!(cases[2].0, 18);
    assert_eq!(cases[2].1, 3);
}

#[test]
fn should_get_fixture_parameters() {
    assert_eq!(
        Generated::parameters().unwrap().into_iter().collect::<Vec<_>>(),
        vec![(1, 1), (2, 4), (3, 6)]
    );
}

#[test]
fn parameters_can_be_asked_for_again() {
    let first = Generated::parameters().unwrap();
    let second = Generated::parameters().unwrap();
    assert_eq!(first, second);
    assert_eq!(first, vec![(1, 1), (2, 4), (3, 6)]);
}
