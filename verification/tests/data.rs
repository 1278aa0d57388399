use thomas::{
    Dimensions2d, Entity, KeyState, Layer, Matrix, Priority, TerminalCollider, TerminalCollision,
};

fn collision(l0: i32, l1: i32) -> TerminalCollision {
    TerminalCollision {
        bodies: [
            (Entity(0), TerminalCollider { is_active: true, layer: Layer(l0) }),
            (Entity(1), TerminalCollider { is_active: true, layer: Layer(l1) }),
        ],
    }
}

#[test]
fn is_true_when_both_layers_are_present() {
    assert!(collision(0, 1).is_collision_between(Layer(0), Layer(1)));
}

#[test]
fn is_true_when_checking_for_collision_on_same_layer_and_both_bodies_have_the_correct_layer() {
    assert!(collision(0, 0).is_collision_between(Layer(0), Layer(0)));
}

#[test]
fn is_false_when_checking_for_collision_on_same_layer_and_only_one_body_has_the_correct_layer() {
    assert!(!collision(0, 1).is_collision_between(Layer(0), Layer(0)));
}

#[test]
fn is_false_when_only_one_layer_is_present() {
    assert!(!collision(0, 2).is_collision_between(Layer(0), Layer(1)));
}

#[test]
fn is_false_when_both_layers_are_absent() {
    assert!(!collision(3, 2).is_collision_between(Layer(0), Layer(1)));
}

#[test]
fn collision_bodies_are_found_by_layer() {
    let c = collision(4, 7);
    assert_eq!(c.get_entity_on_layer(Layer(7)), Some(Entity(1)));
    assert_eq!(c.get_entity_on_layer(Layer(4)), Some(Entity(0)));
    assert_eq!(c.get_entity_on_layer(Layer(5)), None);
    assert!(c.get_body_on_layer(Layer(5)).is_none());
}

#[test]
fn equality_works() {
    assert!(KeyState::Up == KeyState::Up);
    assert!(KeyState::Down == KeyState::Down);
}

#[test]
fn inequality_works() {
    assert!(KeyState::Up != KeyState::Down);
}

#[test]
fn it_produces_a_value_above_the_provided_layer() {
    let source = Layer(3);
    assert!(Layer::above(&source).is_above(&source));
}

#[test]
fn it_produces_a_value_below_the_provided_layer() {
    let source = Layer(3);
    assert!(Layer::below(&source).is_below(&source));
}

#[test]
fn it_produces_a_value_with_the_provided_layer() {
    let source = Layer(3);
    assert!(Layer::with(&source).is_with(&source));
}

#[test]
fn returns_true_when_source_is_above_other() {
    let layer = Layer(2);
    assert!(layer.is_above(&Layer(1)));
}

#[test]
fn returns_false_when_source_is_not_above_other() {
    let layer = Layer(0);
    assert!(!layer.is_above(&Layer(2)));
}

#[test]
fn returns_true_when_source_is_below_other() {
    let layer = Layer(2);
    assert!(!layer.is_below(&Layer(1)));
}

#[test]
fn returns_false_when_source_is_not_below_other() {
    let layer = Layer(0);
    assert!(layer.is_below(&Layer(2)));
}

#[test]
fn returns_false_when_source_is_above_other() {
    let layer = Layer(2);
    assert!(!layer.is_with(&Layer(1)));
}

#[test]
fn returns_false_when_source_is_below_other() {
    let layer = Layer(0);
    assert!(!layer.is_with(&Layer(2)));
}

#[test]
fn returns_true_when_source_with_other() {
    let layer = Layer(3);
    assert!(layer.is_with(&Layer(3)));
}

#[test]
fn layer_extremes_and_values() {
    assert_eq!(Layer::base().value(), 0);
    assert_eq!(Layer::furthest_background().value(), i32::MIN);
    assert_eq!(Layer::furthest_foreground().value(), i32::MAX);
    assert_eq!(Layer::below(&Layer::furthest_foreground()).value(), i32::MAX - 1);
}

#[test]
fn priorities_order_by_value() {
    assert_eq!(Priority::default().value(), 100);
    assert_eq!(Priority::highest().value(), 0);
    assert_eq!(Priority::lowest().value(), u128::MAX);
    assert_eq!(Priority::higher_than(&Priority::new(5)).value(), 4);
    assert_eq!(Priority::lower_than(&Priority::new(5)).value(), 6);
    assert_eq!(Priority::higher_than(&Priority::highest()).value(), 0);
    assert_eq!(Priority::lower_than(&Priority::lowest()).value(), u128::MAX);
}

fn cell_values(matrix: &Matrix<i32>) -> Vec<i32> {
    let mut out = vec![];
    let mut it = matrix.iter();
    while let Some(cell) = it.next() {
        out.push(*cell.data());
    }
    out
}

#[test]
fn it_iterates_from_top_left_to_bottom_right() {
    let matrix = Matrix::new(Dimensions2d::new(3, 4), || 5);

    let mut result = String::new();

    let mut it = matrix.iter();
    while let Some(cell) = it.next() {
        result += format!("{:?}\n", cell.location().values()).as_str();
    }

    let expected = String::from(
        "(0, 0)
(1, 0)
(2, 0)
(3, 0)
(0, 1)
(1, 1)
(2, 1)
(3, 1)
(0, 2)
(1, 2)
(2, 2)
(3, 2)
",
    );

    assert_eq!(result, expected);
}

#[test]
fn it_updates_the_cell_with_provided_info() {
    let mut matrix = Matrix::new(Dimensions2d::new(3, 3), || 5);

    matrix.update_cell_at(1, 2, 9);

    assert_eq!(*matrix.get(1, 2).unwrap().data(), 9);
}

#[test]
fn it_does_nothing_when_given_a_bad_coord() {
    let mut matrix = Matrix::new(Dimensions2d::new(3, 3), || 5);

    let original_data = cell_values(&matrix);

    matrix.update_cell_at(100, 2, 9);
    matrix.update_cell_at(1, 200, 10);
    matrix.update_cell_at(111, 222, 2);

    let new_data = cell_values(&matrix);

    assert_eq!(original_data, new_data);
}

#[test]
fn matrix_get_is_none_outside_and_iteration_ends() {
    let matrix = Matrix::new(Dimensions2d::new(2, 1), || 0u8);
    assert!(matrix.get(1, 0).is_none());
    assert!(matrix.get(0, 2).is_none());
    let mut it = matrix.iter();
    assert!(it.next().is_some());
    assert!(it.next().is_some());
    assert!(it.next().is_none());
}
