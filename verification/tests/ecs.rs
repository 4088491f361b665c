use gg::component::body::{Body, Vector2};
use gg::component::{Dead, Focus, Latency, Network};
use gg::ecs::{entity_has, entity_has_all, Component, ComponentKind, World};
use gg::input::{Button, InputEvent};

fn all_ids(ecs: &World) -> Vec<u64> {
    let mut ids: Vec<u64> = vec![77];
    ecs.collect(&mut ids);
    ids
}

#[test]
fn ids_are_never_given_out_twice() {
    let mut ecs = World::new();
    assert_eq!(Some(0), ecs.create_entity());
    assert_eq!(Some(1), ecs.create_entity());
    ecs.destroy_entity(1).unwrap();
    ecs.destroy_entity(0).unwrap();
    assert_eq!(0, all_ids(&ecs).len());
    assert_eq!(Some(2), ecs.create_entity());
    assert_eq!(vec![2], all_ids(&ecs));
    assert!(!ecs.contains(0));
    assert!(ecs.contains(2));
}

#[test]
fn what_is_not_there_is_reported() {
    let mut ecs = World::new();
    assert_eq!("Entity not found", ecs.destroy_entity(0).unwrap_err().to_string());
    let dead = Component::Dead(Dead);
    assert_eq!("Entity not found", ecs.set(0, dead).unwrap_err().to_string());
    assert_eq!(
        "Entity not found",
        ecs.unset(0, ComponentKind::Dead).unwrap_err().to_string()
    );
    assert_eq!("Entity not found", ecs.has(0, ComponentKind::Dead).unwrap_err().to_string());
    assert!(ecs.get(0).is_none());
    let event = InputEvent { button: Button::One, is_down: true };
    assert!(!ecs.push_input_event(0, event));
    assert_eq!(0, ecs.take_input_events(0).len());
}

#[test]
fn components_come_and_go() {
    let mut ecs = World::new();
    let id = ecs.create_entity().unwrap();
    assert_eq!(false, ecs.has(id, ComponentKind::Body).unwrap());
    let body = Body::new_static(Vector2 { x: 1, y: 2 });
    ecs.set(id, Component::Body(body)).unwrap();
    ecs.set(id, Component::Focus(Focus)).unwrap();
    ecs.set(id, Component::Latency(Latency(5))).unwrap();
    assert_eq!(true, ecs.has(id, ComponentKind::Body).unwrap());
    assert_eq!(Some(body), ecs.get(id).unwrap().body);
    assert!(entity_has(ecs.get(id).unwrap(), ComponentKind::Focus));
    assert!(entity_has_all(
        ecs.get(id).unwrap(),
        &vec![ComponentKind::Focus, ComponentKind::Body, ComponentKind::Latency]
    ));
    assert!(!entity_has_all(
        ecs.get(id).unwrap(),
        &vec![ComponentKind::Focus, ComponentKind::Dead]
    ));
    assert!(entity_has_all(ecs.get(id).unwrap(), &vec![]));
    ecs.unset(id, ComponentKind::Focus).unwrap();
    assert_eq!(false, ecs.has(id, ComponentKind::Focus).unwrap());
    assert_eq!(true, ecs.has(id, ComponentKind::Latency).unwrap());
}

#[test]
fn input_waits_only_on_gorillas() {
    let mut ecs = World::new();
    let plain = ecs.create_entity().unwrap();
    let gorilla = ecs.create_entity().unwrap();
    ecs.set(gorilla, Component::Gorilla(Vector2 { x: 0, y: 0 })).unwrap();
    let down = InputEvent { button: Button::Two, is_down: true };
    let up = InputEvent { button: Button::Two, is_down: false };
    assert!(!ecs.push_input_event(plain, down));
    assert!(ecs.push_input_event(gorilla, down));
    assert!(ecs.push_input_event(gorilla, up));
    assert_eq!(0, ecs.take_input_events(plain).len());
    assert_eq!(vec![down, up], ecs.take_input_events(gorilla));
    assert_eq!(0, ecs.take_input_events(gorilla).len());
}

#[test]
fn a_query_finds_the_entities_with_every_kind_going_up() {
    let mut ecs = World::new();
    for _ in 0..4 {
        ecs.create_entity().unwrap();
    }
    ecs.set(3, Component::Network(Network)).unwrap();
    ecs.set(1, Component::Network(Network)).unwrap();
    ecs.set(1, Component::Dead(Dead)).unwrap();
    ecs.set(0, Component::Dead(Dead)).unwrap();
    let mut found: Vec<u64> = vec![77];
    ecs.collect_with(&vec![ComponentKind::Network], &mut found);
    assert_eq!(vec![1, 3], found);
    ecs.collect_with(&vec![ComponentKind::Network, ComponentKind::Dead], &mut found);
    assert_eq!(vec![1], found);
    ecs.collect_with(&vec![], &mut found);
    assert_eq!(vec![0, 1, 2, 3], found);
    ecs.collect_with(&vec![ComponentKind::Sprite], &mut found);
    assert_eq!(0, found.len());
}

#[test]
fn the_last_id_is_not_given_out() {
    let mut ecs = World::starting_at(u64::MAX - 1);
    assert_eq!(Some(u64::MAX - 1), ecs.create_entity());
    assert_eq!(None, ecs.create_entity());
    assert_eq!(None, ecs.create_entity());
    assert_eq!(vec![u64::MAX - 1], all_ids(&ecs));
    ecs.destroy_entity(u64::MAX - 1).unwrap();
    assert_eq!(None, ecs.create_entity());
}

#[test]
fn many_entities_keep_their_own_records() {
    let mut ecs = World::starting_at(10);
    for k in 0..200u64 {
        let id = ecs.create_entity().unwrap();
        assert_eq!(10 + k, id);
        ecs.set(id, Component::Latency(Latency(k))).unwrap();
    }
    for k in 0..200u64 {
        if k % 2 == 0 {
            ecs.destroy_entity(10 + k).unwrap();
        }
    }
    assert_eq!(Some(210), ecs.create_entity());
    let expected: Vec<u64> = (0..200u64).filter(|k| k % 2 == 1).map(|k| 10 + k).collect();
    let mut with_latency: Vec<u64> = vec![];
    ecs.collect_with(&vec![ComponentKind::Latency], &mut with_latency);
    assert_eq!(expected, with_latency);
    assert_eq!(101, ecs.len());
    for k in 0..200u64 {
        match ecs.get(10 + k) {
            Some(entity) => {
                assert_eq!(1, k % 2);
                assert_eq!(10 + k, entity.id);
                assert_eq!(Some(Latency(k)), entity.latency);
            }
            None => assert_eq!(0, k % 2),
        }
    }
    assert!(ecs.get(9).is_none());
    assert!(ecs.get(211).is_none());
    assert_eq!(None, ecs.get(210).unwrap().latency);
}
