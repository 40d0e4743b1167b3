use galvanic_test::FixtureBinding;

#[derive(Debug, PartialEq)]
struct Pair {
    x: i32,
    y: i32,
}

#[test]
fn decompose_gives_value_and_fixture() {
    let fixture = Pair { x: 6, y: 7 };
    let binding = FixtureBinding { val: 42, params: &fixture };
    let (value, params) = binding.decompose();
    assert_eq!(value, 42);
    assert_eq!(params, &Pair { x: 6, y: 7 });
    assert_eq!(value, params.x * params.y);
}

#[test]
fn into_val_gives_the_value() {
    let fixture = Pair { x: 2, y: 3 };
    let binding = FixtureBinding { val: String::from("bound"), params: &fixture };
    assert_eq!(binding.into_val(), "bound");
}

#[test]
fn into_params_gives_the_fixture() {
    let fixture = Pair { x: 2, y: 3 };
    let binding = FixtureBinding { val: 6, params: &fixture };
    let params = binding.into_params();
    assert_eq!(params.x, 2);
    assert_eq!(params.y, 3);
    assert!(std::ptr::eq(params, &fixture));
}
