use thomas::entity_manager::intersection;
use thomas::{
    Component, ComponentIndexEntry, ComponentQueryData, CustomComponent, Entity, EntityManager, EntityRecord, Query,
    QueryResultList,
};

type Pred = Box<dyn Fn(&Component<u8>) -> bool>;

fn custom(name: &str, value: u8) -> Component<u8> {
    Component::Custom(CustomComponent::new(String::from(name), value))
}

fn test_component(prop1: u8) -> Component<u8> {
    custom("TestComponent", prop1)
}

fn other_test_component(prop1: u8) -> Component<u8> {
    custom("OtherTestComponent", prop1)
}

fn another_test_component(prop1: u8) -> Component<u8> {
    custom("AnotherTestComponent", prop1)
}

fn empty_component() -> Component<u8> {
    custom("EmptyComponent", 0)
}

fn name(s: &str) -> String {
    String::from(s)
}

fn data(c: &Component<u8>) -> u8 {
    match c {
        Component::Custom(c) => c.data,
        _ => panic!("not a custom component"),
    }
}

fn prop_where(component_name: &str, wanted: u8) -> Pred {
    let component_name = String::from(component_name);
    Box::new(move |c: &Component<u8>| match c {
        Component::Custom(c) => c.name == component_name && c.data == wanted,
        _ => false,
    })
}

fn record(entity: Entity, components: Vec<Component<u8>>) -> EntityRecord<u8> {
    EntityRecord { entity, components }
}

fn index_entry(component_name: &str, entities: Vec<Entity>) -> ComponentIndexEntry {
    ComponentIndexEntry { name: String::from(component_name), entities }
}

fn record_of(em: &EntityManager<u8>, entity: Entity) -> Option<&EntityRecord<u8>> {
    em.entities_to_components.iter().find(|r| r.entity == entity)
}

fn index_of<'a>(em: &'a EntityManager<u8>, component_name: &str) -> Option<&'a ComponentIndexEntry> {
    em.components_to_entities.iter().find(|e| e.name == component_name)
}

fn prop_on(em: &EntityManager<u8>, entity: Entity, component_name: &str) -> Option<u8> {
    em.get_component_on_entity(&entity, &name(component_name)).map(data)
}

/// A manager whose world holds `Entity(id)` with a `TestComponent` of the given value.
fn manager_with_test_component(id: u64, prop1: u8) -> EntityManager<u8> {
    let mut em: EntityManager<u8> = EntityManager::new();
    em.entities_to_components.push(record(Entity(id), vec![test_component(prop1)]));
    em.components_to_entities.push(index_entry("TestComponent", vec![Entity(id)]));
    em.next_entity_id = id + 1;
    em
}

#[test]
fn can_borrow_multiple_different_components_mutably_at_the_same_time() {
    let mut em: EntityManager<u8> = EntityManager::new();

    em.add_entity(vec![empty_component(), test_component(5)]);

    let mut results = em.query(&Query::<Pred>::new().has(name("EmptyComponent")).has(name("TestComponent")));

    for result in results.matches.iter_mut() {
        let _bind1 = result.components_mut().get_mut(&name("EmptyComponent"));
        let _bind2 = result.components_mut().get_mut(&name("TestComponent"));
    }
}

#[test]
#[should_panic]
fn panics_when_trying_to_borrow_a_component_that_is_not_present() {
    let mut em: EntityManager<u8> = EntityManager::new();

    em.add_entity(vec![empty_component()]);

    let results = em.query(&Query::<Pred>::new().has(name("EmptyComponent")));

    for result in results.matches() {
        result.components().get_named(&name("TestComponent"));
    }
}

#[test]
fn returns_entity_and_adds_to_maps() {
    let mut em: EntityManager<u8> = EntityManager::new();

    let result = em.add_entity(vec![]);

    let component_map = record_of(&em, result);

    assert!(component_map.is_some());
    assert!(component_map.unwrap().components.is_empty());
    assert!(em.components_to_entities.is_empty());
}

#[test]
fn can_add_a_component_with_the_entity() {
    let mut em: EntityManager<u8> = EntityManager::new();

    let result = em.add_entity(vec![test_component(1)]);

    assert!(record_of(&em, result).is_some());
    assert!(em.get_component_on_entity(&result, &name("TestComponent")).is_some());
    assert_eq!(prop_on(&em, result, "TestComponent"), Some(1));
}

#[test]
fn can_add_multiple_components_with_the_entity() {
    let mut em: EntityManager<u8> = EntityManager::new();

    let result = em.add_entity(vec![test_component(1), other_test_component(3), another_test_component(5)]);

    assert!(record_of(&em, result).is_some());
    assert_eq!(prop_on(&em, result, "TestComponent"), Some(1));
    assert_eq!(prop_on(&em, result, "OtherTestComponent"), Some(3));
    assert_eq!(prop_on(&em, result, "AnotherTestComponent"), Some(5));
}

#[test]
fn ids_are_reused_when_available() {
    let mut em: EntityManager<u8> = EntityManager::new();
    em.available_entity_ids.push(Entity(1000));
    em.next_entity_id = 1001;

    let entity = em.add_entity(vec![]);

    assert_eq!(entity, Entity(1000));
    assert_eq!(em.available_entity_ids.len(), 0);
}

#[test]
fn removing_a_nonexistent_entity_does_nothing() {
    let mut em = manager_with_test_component(1, 1);

    em.remove_entity(&Entity(2));

    let entity_set = index_of(&em, "TestComponent").unwrap();
    let component_map = record_of(&em, Entity(1)).unwrap();

    assert_eq!(entity_set.entities.len(), 1);
    assert!(entity_set.entities.contains(&Entity(1)));

    assert_eq!(component_map.components.len(), 1);
    assert_eq!(prop_on(&em, Entity(1), "TestComponent"), Some(1));
}

#[test]
fn can_remove_an_existing_entity() {
    let mut em = manager_with_test_component(1, 1);

    em.remove_entity(&Entity(1));

    let entity_set = index_of(&em, "TestComponent")
        .expect("TestComponent entry wasn't wiped just because there are no longer any Entities with that component.");

    assert_eq!(entity_set.entities.len(), 0);
    assert!(record_of(&em, Entity(1)).is_none());
    assert_eq!(em.entities_to_components.len(), 0);
    assert_eq!(em.components_to_entities.len(), 1);
}

#[test]
fn can_remove_an_entity_that_has_no_components() {
    let mut em: EntityManager<u8> = EntityManager::new();
    em.entities_to_components.push(record(Entity(1), vec![]));
    em.next_entity_id = 2;

    em.remove_entity(&Entity(1));

    assert!(record_of(&em, Entity(1)).is_none());
    assert_eq!(em.entities_to_components.len(), 0);
    assert_eq!(em.components_to_entities.len(), 0);
}

#[test]
fn removing_an_entity_makes_its_id_available() {
    let mut em: EntityManager<u8> = EntityManager::new();

    let entity = em.add_entity(vec![]);

    em.remove_entity(&entity);

    assert_eq!(em.available_entity_ids.len(), 1);
    assert_eq!(em.available_entity_ids[0], entity);
}

#[test]
fn nothing_happens_when_adding_to_a_nonexistent_entity() {
    let mut em: EntityManager<u8> = EntityManager::new();

    em.add_component_to_entity(&Entity(0), test_component(5));

    assert!(em.components_to_entities.is_empty());
    assert!(em.entities_to_components.is_empty());
}

#[test]
fn component_is_correctly_added_on_an_existing_entity() {
    let mut em = manager_with_test_component(0, 5);

    em.add_component_to_entity(&Entity(0), other_test_component(10));

    assert_eq!(em.components_to_entities.len(), 2);
    assert_eq!(em.entities_to_components.len(), 1);
    assert_eq!(prop_on(&em, Entity(0), "OtherTestComponent"), Some(10));
}

#[test]
fn nothing_happens_when_adding_a_component_to_an_entity_that_it_already_has() {
    let mut em = manager_with_test_component(0, 5);

    em.add_component_to_entity(&Entity(0), test_component(10));

    assert_eq!(em.components_to_entities.len(), 1);
    assert_eq!(em.entities_to_components.len(), 1);
    assert_eq!(prop_on(&em, Entity(0), "TestComponent"), Some(5));
}

#[test]
fn removing_a_component_that_does_not_exist_on_the_entity_has_no_effect() {
    let mut em = manager_with_test_component(0, 5);

    em.remove_component_from_entity(&Entity(0), &name("OtherTestComponent"));

    assert_eq!(em.entities_to_components.len(), 1);
    assert_eq!(em.components_to_entities.len(), 1);
    assert!(em.get_component_on_entity(&Entity(0), &name("OtherTestComponent")).is_none());
}

#[test]
fn removing_a_component_on_a_nonexistent_entity_has_no_effect() {
    let mut em = manager_with_test_component(0, 5);

    em.remove_component_from_entity(&Entity(1), &name("TestComponent"));

    assert_eq!(em.entities_to_components.len(), 1);
    assert_eq!(em.components_to_entities.len(), 1);
    assert!(!index_of(&em, "TestComponent")
        .expect("TestComponent is available")
        .entities
        .contains(&Entity(1)));
}

#[test]
fn removing_from_an_existent_entity_succeeds() {
    let mut em = manager_with_test_component(0, 5);

    em.remove_component_from_entity(&Entity(0), &name("TestComponent"));

    assert_eq!(em.entities_to_components.len(), 1);
    assert_eq!(em.components_to_entities.len(), 1);
    assert!(record_of(&em, Entity(0)).expect("Entity 0 exists.").components.is_empty());
    assert!(index_of(&em, "TestComponent").expect("There's an entry for TestComponent").entities.is_empty());
}

fn has_match(results: &QueryResultList<u8>, entity: Entity) -> bool {
    results.matches().iter().any(|r| *r.entity() == entity)
}

#[test]
fn entity_manager_query_returns_only_relevant_matches() {
    {
        let mut em: EntityManager<u8> = EntityManager::new();

        let entity = em.add_entity(vec![test_component(10), another_test_component(100)]);
        em.add_entity(vec![test_component(20)]);

        let query_results = em.query(&Query::<Pred>::new().has(name("AnotherTestComponent")));

        assert_eq!(query_results.len(), 1);
        assert_eq!(*query_results.get(0).unwrap().entity(), entity);
    }
    {
        let mut em: EntityManager<u8> = EntityManager::new();

        em.add_entity(vec![test_component(10), another_test_component(100)]);
        let entity = em.add_entity(vec![test_component(20)]);

        let query_results =
            em.query(&Query::<Pred>::new().has(name("TestComponent")).has_no(name("AnotherTestComponent")));

        assert_eq!(query_results.len(), 1);
        assert_eq!(*query_results.get(0).unwrap().entity(), entity);
    }
}

#[test]
fn entity_manager_complex_query_for_more_than_one_component_match_works() {
    {
        let mut em: EntityManager<u8> = EntityManager::new();

        let entity1 = em.add_entity(vec![test_component(10), another_test_component(100), empty_component()]);
        em.add_entity(vec![test_component(20)]);
        let entity2 = em.add_entity(vec![empty_component(), test_component(1)]);

        let query_results = em.query(&Query::<Pred>::new().has(name("EmptyComponent")).has(name("TestComponent")));

        assert_eq!(query_results.len(), 2);
        assert!(has_match(&query_results, entity1));
        assert!(has_match(&query_results, entity2));
    }
    {
        let mut em: EntityManager<u8> = EntityManager::new();

        em.add_entity(vec![test_component(10), another_test_component(100), empty_component()]);
        em.add_entity(vec![test_component(20)]);
        let entity = em.add_entity(vec![empty_component(), test_component(1)]);

        let query_results = em.query(
            &Query::<Pred>::new()
                .has(name("EmptyComponent"))
                .has(name("TestComponent"))
                .has_no(name("AnotherTestComponent")),
        );

        assert_eq!(query_results.len(), 1);
        assert!(has_match(&query_results, entity));
    }
}

#[test]
fn entity_manager_can_read_queried_components() {
    for with_forbidden in [false, true] {
        let mut em: EntityManager<u8> = EntityManager::new();

        let entity1 = em.add_entity(vec![test_component(10), another_test_component(100)]);
        let entity2 = em.add_entity(vec![test_component(20)]);
        if with_forbidden {
            em.add_entity(vec![test_component(30), empty_component()]);
        }

        let mut query = Query::<Pred>::new().has(name("TestComponent"));
        if with_forbidden {
            query = query.has_no(name("EmptyComponent"));
        }
        let query_results = em.query(&query);

        assert_eq!(query_results.len(), 2);

        for result in query_results.matches() {
            if *result.entity() == entity1 {
                assert_eq!(data(result.components().get_named(&name("TestComponent"))), 10)
            } else if *result.entity() == entity2 {
                assert_eq!(data(result.components().get_named(&name("TestComponent"))), 20)
            } else {
                panic!("Entity present in results that should not be: {:?}", result.entity())
            }
        }
    }
}

fn set_data(c: &mut Component<u8>, value: u8) {
    match c {
        Component::Custom(c) => c.data = value,
        _ => panic!("not a custom component"),
    }
}

#[test]
fn entity_manager_can_mutate_queried_components() {
    for with_forbidden in [false, true] {
        let mut em: EntityManager<u8> = EntityManager::new();

        let entity1 = em.add_entity(vec![test_component(10), another_test_component(100), other_test_component(20)]);
        let entity2 = em.add_entity(vec![test_component(20), another_test_component(2)]);
        if with_forbidden {
            em.add_entity(vec![test_component(50), empty_component()]);
        }

        let mut query = Query::<Pred>::new().has(name("TestComponent")).has(name("AnotherTestComponent"));
        if with_forbidden {
            query = query.has_no(name("EmptyComponent"));
        }
        let mut query_results = em.query(&query);

        assert_eq!(query_results.len(), 2);

        for result in query_results.matches.iter_mut() {
            if *result.entity() == entity1 {
                set_data(result.components_mut().get_mut(&name("AnotherTestComponent")), 50);
                set_data(result.components_mut().get_mut(&name("TestComponent")), 1);
            } else if *result.entity() == entity2 {
                set_data(result.components_mut().get_mut(&name("TestComponent")), 240);
            }
        }

        for result in query_results.matches() {
            let test_component = data(result.components().get_named(&name("TestComponent")));
            let another_test_component = data(result.components().get_named(&name("AnotherTestComponent")));
            if *result.entity() == entity1 {
                assert_eq!(test_component, 1);
                assert_eq!(another_test_component, 50);
            } else if *result.entity() == entity2 {
                assert_eq!(test_component, 240);
                assert_eq!(another_test_component, 2);
            } else {
                panic!("Entity present in results that should not be: {:?}", result.entity())
            }
        }

        em.commit_results(vec![query_results]);
        assert_eq!(prop_on(&em, entity1, "TestComponent"), Some(1));
        assert_eq!(prop_on(&em, entity1, "AnotherTestComponent"), Some(50));
        assert_eq!(prop_on(&em, entity2, "TestComponent"), Some(240));
    }
}

#[test]
fn entity_manager_where_clauses_exclude_any_potential_matches_that_fail_the_predicate() {
    {
        let mut em: EntityManager<u8> = EntityManager::new();

        em.add_entity(vec![test_component(10), another_test_component(100), other_test_component(20)]);
        let entity = em.add_entity(vec![test_component(20), another_test_component(2)]);

        let query_results = em.query(
            &Query::<Pred>::new()
                .has(name("TestComponent"))
                .has_where(name("AnotherTestComponent"), prop_where("AnotherTestComponent", 2)),
        );

        assert_eq!(query_results.len(), 1);

        let result = query_results.get(0).unwrap();

        assert_eq!(*result.entity(), entity);
        assert_eq!(result.components().len(), 2);
        assert_eq!(data(result.components().get_named(&name("AnotherTestComponent"))), 2);
    }
    {
        let mut em: EntityManager<u8> = EntityManager::new();

        let entity1 = em.add_entity(vec![test_component(10), another_test_component(2), other_test_component(20)]);
        let entity2 = em.add_entity(vec![test_component(20), another_test_component(2)]);
        em.add_entity(vec![test_component(50), empty_component(), another_test_component(2)]);

        let query_results = em.query(
            &Query::<Pred>::new()
                .has(name("TestComponent"))
                .has_where(name("AnotherTestComponent"), prop_where("AnotherTestComponent", 2))
                .has_no(name("EmptyComponent")),
        );

        assert_eq!(query_results.len(), 2);
        assert!(has_match(&query_results, entity1));
        assert!(has_match(&query_results, entity2));
    }
}

#[test]
fn query_has_no_results_when_the_forbidden_components_remove_all_potential_matches() {
    let mut em: EntityManager<u8> = EntityManager::new();

    em.add_entity(vec![test_component(10), another_test_component(100)]);
    em.add_entity(vec![test_component(20)]);

    let query_results =
        em.query(&Query::<Pred>::new().has(name("AnotherTestComponent")).has_no(name("TestComponent")));

    assert!(query_results.is_empty());
}

fn standard_entity(em: &mut EntityManager<u8>) -> Entity {
    em.add_entity(vec![test_component(10), another_test_component(100), empty_component()])
}

#[test]
fn is_true_when_all_predicates_pass() {
    let mut em: EntityManager<u8> = EntityManager::new();
    let entity = standard_entity(&mut em);

    let result = em.entity_components_pass_all_predicates(
        &entity,
        &vec![
            ComponentQueryData::new(name("TestComponent"), Some(prop_where("TestComponent", 10))),
            ComponentQueryData::new(name("AnotherTestComponent"), Some(prop_where("AnotherTestComponent", 100))),
        ],
    );

    assert!(result);
}

#[test]
fn is_true_when_there_are_no_predicates() {
    let mut em: EntityManager<u8> = EntityManager::new();
    let entity = standard_entity(&mut em);

    let result = em.entity_components_pass_all_predicates::<Pred>(
        &entity,
        &vec![
            ComponentQueryData::new(name("TestComponent"), None),
            ComponentQueryData::new(name("AnotherTestComponent"), None),
        ],
    );

    assert!(result);
}

#[test]
fn is_false_when_all_predicates_fail() {
    let mut em: EntityManager<u8> = EntityManager::new();
    let entity = standard_entity(&mut em);

    let result = em.entity_components_pass_all_predicates(
        &entity,
        &vec![
            ComponentQueryData::new(name("TestComponent"), Some(prop_where("TestComponent", 99))),
            ComponentQueryData::new(name("AnotherTestComponent"), Some(prop_where("AnotherTestComponent", 5))),
        ],
    );

    assert!(!result);
}

#[test]
fn is_false_when_any_predicate_fails() {
    let mut em: EntityManager<u8> = EntityManager::new();
    let entity = standard_entity(&mut em);

    let result = em.entity_components_pass_all_predicates(
        &entity,
        &vec![
            ComponentQueryData::new(name("TestComponent"), Some(prop_where("TestComponent", 10))),
            ComponentQueryData::new(name("AnotherTestComponent"), Some(prop_where("AnotherTestComponent", 5))),
        ],
    );

    assert!(!result);
}

#[test]
fn entity_manager_is_empty_when_there_are_no_entities() {
    let em: EntityManager<u8> = EntityManager::new();

    let result = em.get_entities_with_component(&name("EmptyComponent"));
    assert!(result.is_empty());

    let result = em.get_entities_with_components(&vec![name("EmptyComponent")]);
    assert!(result.is_empty());
}

#[test]
fn is_empty_when_no_entities_have_the_provided_component() {
    let mut em: EntityManager<u8> = EntityManager::new();
    em.add_entity(vec![test_component(10)]);

    let result = em.get_entities_with_component(&name("EmptyComponent"));

    assert!(result.is_empty());
}

#[test]
fn works_when_one_entity_matches() {
    let mut em: EntityManager<u8> = EntityManager::new();
    em.add_entity(vec![test_component(10)]);
    let entity1 = em.add_entity(vec![empty_component()]);

    let result = em.get_entities_with_component(&name("EmptyComponent"));

    assert_eq!(result.len(), 1);
    assert_eq!(result[0], entity1);
}

#[test]
fn works_when_multiple_entities_match() {
    let mut em: EntityManager<u8> = EntityManager::new();
    let entity1 = em.add_entity(vec![test_component(10)]);
    let entity2 = em.add_entity(vec![test_component(100), empty_component()]);

    let result = em.get_entities_with_component(&name("TestComponent"));

    assert_eq!(result.len(), 2);
    assert!(result.contains(&entity1) && result.contains(&entity2));
}

#[test]
fn is_empty_when_no_entities_have_provided_components() {
    let mut em: EntityManager<u8> = EntityManager::new();
    em.add_entity(vec![test_component(10)]);

    let result = em.get_entities_with_components(&vec![name("EmptyComponent")]);

    assert!(result.is_empty());
}

#[test]
fn returns_entity_list_for_component_when_searching_for_one_component() {
    let mut em: EntityManager<u8> = EntityManager::new();
    em.add_entity(vec![test_component(10)]);
    let entity2 = em.add_entity(vec![another_test_component(20), empty_component()]);

    let result = em.get_entities_with_components(&vec![name("EmptyComponent")]);

    assert_eq!(result.len(), 1);
    assert_eq!(result[0], entity2);
}

#[test]
fn works_when_one_entity_has_all_provided_components() {
    let mut em: EntityManager<u8> = EntityManager::new();
    em.add_entity(vec![test_component(10)]);
    let entity2 = em.add_entity(vec![another_test_component(20), empty_component(), other_test_component(200)]);

    let result = em.get_entities_with_components(&vec![name("AnotherTestComponent"), name("OtherTestComponent")]);

    assert_eq!(result.len(), 1);
    assert!(result.contains(&entity2));
}

#[test]
fn works_when_multiple_entities_have_all_provided_components() {
    let mut em: EntityManager<u8> = EntityManager::new();
    let entity1 = em.add_entity(vec![test_component(10), empty_component()]);
    em.add_entity(vec![test_component(10)]);
    em.add_entity(vec![another_test_component(10)]);
    em.add_entity(vec![empty_component()]);
    let entity2 = em.add_entity(vec![test_component(20), empty_component(), other_test_component(200)]);

    let result = em.get_entities_with_components(&vec![name("TestComponent"), name("EmptyComponent")]);

    assert_eq!(result.len(), 2);
    assert!(result.contains(&entity1));
    assert!(result.contains(&entity2));
}

#[test]
fn is_empty_for_non_existent_entity() {
    let em: EntityManager<u8> = EntityManager::new();

    let results = em.get_components_on_entity(&Entity(0), &vec![name("TestComponent")]);

    assert!(results.is_empty());
}

#[test]
fn is_empty_for_entity_with_no_components() {
    let mut em: EntityManager<u8> = EntityManager::new();
    let entity = em.add_entity(vec![]);

    let results = em.get_components_on_entity(&entity, &vec![name("TestComponent")]);

    assert!(results.is_empty());
}

#[test]
fn is_empty_when_no_search_components_are_provided() {
    let mut em: EntityManager<u8> = EntityManager::new();
    let entity = em.add_entity(vec![empty_component()]);

    let results = em.get_components_on_entity(&entity, &vec![]);

    assert!(results.is_empty());
}

#[test]
fn works_when_searching_for_one_component_on_entity_with_that_component() {
    let mut em: EntityManager<u8> = EntityManager::new();
    let entity = em.add_entity(vec![test_component(10)]);

    let results = em.get_components_on_entity(&entity, &vec![name("TestComponent")]);

    assert_eq!(results.len(), 1);
    assert_eq!(data(results.get_named(&name("TestComponent"))), 10);
}

#[test]
fn works_when_searching_for_one_component_on_entity_with_multiple_components() {
    let mut em: EntityManager<u8> = EntityManager::new();
    let entity = em.add_entity(vec![test_component(10), empty_component()]);

    let results = em.get_components_on_entity(&entity, &vec![name("TestComponent")]);

    assert_eq!(results.len(), 1);
    assert_eq!(data(results.get_named(&name("TestComponent"))), 10);
}

#[test]
fn works_when_searching_for_multiple_components_on_entity_with_one_component() {
    let mut em: EntityManager<u8> = EntityManager::new();
    let entity = em.add_entity(vec![test_component(10)]);

    let results = em.get_components_on_entity(&entity, &vec![name("TestComponent")]);

    assert_eq!(results.len(), 1);
    assert_eq!(data(results.get_named(&name("TestComponent"))), 10);
}

#[test]
fn works_when_searching_for_multiple_components_on_entity_with_multiple_components() {
    let mut em: EntityManager<u8> = EntityManager::new();
    let entity = em.add_entity(vec![
        test_component(10),
        empty_component(),
        other_test_component(100),
        another_test_component(200),
    ]);

    let results = em.get_components_on_entity(
        &entity,
        &vec![name("TestComponent"), name("EmptyComponent"), name("AnotherTestComponent")],
    );

    let test_component = data(results.get_named(&name("TestComponent")));
    let another_test_component = data(results.get_named(&name("AnotherTestComponent")));
    let empty_component_option = results.try_get_named(&name("EmptyComponent"));

    assert_eq!(results.len(), 3);
    assert_eq!(test_component, 10);
    assert_eq!(another_test_component, 200);
    assert!(empty_component_option.is_some());
}

fn entities(values: &[u64]) -> Vec<Entity> {
    values.iter().map(|v| Entity(*v)).collect()
}

#[test]
fn is_empty_when_there_are_no_vectors() {
    let vecs: Vec<Vec<Entity>> = vec![];
    let result = intersection(&vecs);
    assert!(result.is_empty());
}

#[test]
fn is_empty_when_there_is_only_one_vector() {
    let vecs = vec![entities(&[1, 4, 5])];
    let result = intersection(&vecs);
    assert!(result.is_empty());
}

#[test]
fn is_empty_when_there_are_no_intersections() {
    let vecs = vec![entities(&[1, 4, 5]), entities(&[10, 20, 30])];
    let result = intersection(&vecs);
    assert!(result.is_empty());
}

#[test]
fn reports_intersections_for_two_vectors() {
    let vecs = vec![entities(&[1, 2, 3]), entities(&[4, 3, 5])];
    let result = intersection(&vecs);
    assert_eq!(result.len(), 1);
    assert!(result.contains(&Entity(3)));
}

#[test]
fn reports_intersections_for_more_than_two_vectors() {
    let vecs = vec![
        entities(&[1, 2, 3]),
        entities(&[4, 3, 5]),
        entities(&[5, 10, 20]),
        entities(&[40, 10, 20, 30]),
    ];
    let result = intersection(&vecs);
    assert_eq!(result.len(), 4);
    assert!(result.contains(&Entity(3)));
    assert!(result.contains(&Entity(5)));
    assert!(result.contains(&Entity(10)));
    assert!(result.contains(&Entity(20)));
}

#[test]
fn updating_a_component_replaces_it_and_leaves_others() {
    let mut em: EntityManager<u8> = EntityManager::new();
    let entity = em.add_entity(vec![test_component(1), empty_component()]);

    em.update_component_on_entity(&entity, test_component(9));
    em.update_component_on_entity(&entity, other_test_component(4));

    assert_eq!(prop_on(&em, entity, "TestComponent"), Some(9));
    assert_eq!(prop_on(&em, entity, "EmptyComponent"), Some(0));
    assert_eq!(prop_on(&em, entity, "OtherTestComponent"), None);
}

#[test]
fn adding_then_removing_an_entity_restores_the_world() {
    let mut em: EntityManager<u8> = EntityManager::new();
    let kept = em.add_entity(vec![test_component(7)]);

    let added = em.add_entity(vec![empty_component(), another_test_component(3)]);
    em.remove_entity(&added);

    assert_eq!(em.entities_to_components.len(), 1);
    assert_eq!(prop_on(&em, kept, "TestComponent"), Some(7));
    assert!(em.get_entities_with_component(&name("EmptyComponent")).is_empty());
    assert_eq!(em.add_entity(vec![]), added);
}
