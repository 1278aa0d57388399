use thomas::{
    Behaviour, BehaviourList, Component, CustomComponent, Layer, Message, MockFn, Renderable, TerminalRenderable,
};

fn custom(name: &str, data: u8) -> Component<u8> {
    Component::Custom(CustomComponent::new(name.to_string(), data))
}

#[test]
fn behaviour_list_gets_a_behaviour_by_its_name() {
    let list = BehaviourList::from(vec![TerminalRenderable::new('a', Layer::base())]);

    let found = list.get("TerminalRenderable");
    assert!(found.is_some());
    assert_eq!(found.unwrap().display, 'a');
    assert!(list.get("Other").is_none());
}

#[test]
fn behaviour_list_from_keeps_the_last_of_one_name() {
    let list = BehaviourList::from(vec![
        TerminalRenderable::new('a', Layer::base()),
        TerminalRenderable::new('b', Layer::base()),
    ]);

    assert_eq!(list.iter().len(), 1);
    assert_eq!(list.get("TerminalRenderable").unwrap().display, 'b');
}

#[test]
fn behaviour_list_add_refuses_a_taken_name() {
    let mut list = BehaviourList::from(vec![custom("Speed", 1)]);

    assert_eq!(list.add(custom("Speed", 2)), Err(()));
    assert!(matches!(list.get("Speed"), Some(Component::Custom(c)) if c.data == 1));

    assert_eq!(list.add(custom("Health", 3)), Ok(()));
    assert!(matches!(list.get("Health"), Some(Component::Custom(c)) if c.data == 3));
    assert_eq!(list.iter().len(), 2);
}

#[test]
fn behaviour_list_remove_takes_the_named_behaviour_out() {
    let mut list = BehaviourList::from(vec![custom("Speed", 1), custom("Health", 2)]);

    list.remove("Speed");
    assert!(list.get("Speed").is_none());
    assert!(list.get("Health").is_some());

    list.remove("Missing");
    assert_eq!(list.iter().len(), 1);
}

#[test]
fn behaviour_list_as_mut_changes_the_list_itself() {
    let mut list: BehaviourList<Component<u8>> = BehaviourList::new();
    assert_eq!(list.as_mut().add(custom("Speed", 4)), Ok(()));
    assert!(list.get("Speed").is_some());
}

#[test]
fn behaviour_names_come_from_the_component() {
    assert_eq!(custom("Speed", 1).name(), "Speed");
    assert_eq!(TerminalRenderable::new('x', Layer::base()).name(), "TerminalRenderable");
}

#[test]
fn renderable_layer_is_the_renderables_layer() {
    let r = TerminalRenderable::new('x', Layer::furthest_foreground());
    assert_eq!(Renderable::layer(&r).value(), Layer::furthest_foreground().value());
}

#[test]
fn message_new_keeps_type_and_payload() {
    let m = Message::new("hit", 7u8);
    assert_eq!(m.typ, "hit");
    assert_eq!(m.payload, 7);
}

#[test]
fn mock_fn_counts_calls_until_reset() {
    let mut f = MockFn::new();
    assert_eq!(f.num_calls(), 0);
    f.call();
    f.call();
    assert_eq!(f.num_calls(), 2);
    f.reset();
    assert_eq!(f.num_calls(), 0);
}
