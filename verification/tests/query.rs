use thomas::{Component, CustomComponent, Entity, QueryResult, StoredComponentList};

fn test_component(prop: &str) -> Component<String> {
    Component::Custom(CustomComponent::new(String::from("TestComponent"), String::from(prop)))
}

fn another_empty_component() -> Component<String> {
    Component::Custom(CustomComponent::new(String::from("AnotherEmptyComponent"), String::new()))
}

fn prop(c: &Component<String>) -> String {
    match c {
        Component::Custom(c) => c.data.clone(),
        _ => panic!("not a custom component"),
    }
}

fn set_prop(c: &mut Component<String>, value: String) {
    match c {
        Component::Custom(c) => c.data = value,
        _ => panic!("not a custom component"),
    }
}

fn name(s: &str) -> String {
    String::from(s)
}

#[test]
fn query_gives_back_component_when_it_is_present_in_the_results() {
    let qr = QueryResult::new(Entity(0), StoredComponentList::new(vec![test_component("val")]));

    let test_component = qr.components().try_get_named(&name("TestComponent"));
    assert!(test_component.is_some());
    assert_eq!(prop(test_component.unwrap()), "val");

    let test_component = qr.components().get_named(&name("TestComponent"));
    assert_eq!(prop(test_component), "val");
}

#[test]
fn query_is_none_when_component_is_not_present_in_the_results() {
    let mut qr = QueryResult::new(Entity(0), StoredComponentList::new(vec![another_empty_component()]));

    let empty_component_option = qr.components().try_get_named(&name("EmptyComponent"));
    assert!(empty_component_option.is_none());

    let empty_component_option = qr.components_mut().try_get_mut(&name("EmptyComponent"));
    assert!(empty_component_option.is_none());
}

#[test]
fn query_can_mutate_returned_component() {
    for use_try in [true, false] {
        let mut qr = QueryResult::new(Entity(0), StoredComponentList::new(vec![test_component("val")]));

        let test_component = if use_try {
            qr.components_mut().try_get_mut(&name("TestComponent")).unwrap()
        } else {
            qr.components_mut().get_mut(&name("TestComponent"))
        };

        assert_eq!(prop(test_component), "val");

        let new_prop = String::from("now for something totally different");
        set_prop(test_component, new_prop.clone());

        assert_eq!(prop(test_component), new_prop);
        assert_eq!(prop(qr.components().get_named(&name("TestComponent"))), new_prop);
    }
}

#[test]
#[should_panic]
fn query_panics_when_component_is_not_present_in_the_results() {
    let qr = QueryResult::new(Entity(0), StoredComponentList::new(vec![another_empty_component()]));

    qr.components().get_named(&name("EmptyComponent"));
}
