use gg::colors::{rgb, white, Colors};
use gg::component::body::{Body, Vector2};
use gg::component::{Anchor, Focus, Keyboard, Latency, Network};
use gg::ecs::{Component, ComponentKind, World};
use gg::input::{new_key_mapping, Button, InputEvent};
use gg::system::gorilla::{
    command, spawn_anchor, spawn_anchors, spawn_gorilla, BodyCommand, GorillaSystem, GRAVITY,
    HEAVY_GRAVITY,
};
use gg::system::keyboard::KeyboardSystem;
use gg::system::teardown::Teardown;

fn press(button: Button) -> InputEvent {
    InputEvent { button, is_down: true }
}

fn release(button: Button) -> InputEvent {
    InputEvent { button, is_down: false }
}

#[test]
fn the_bit_patterns_are_those_of_the_numbers() {
    assert_eq!((-10.0f32).to_bits(), GRAVITY);
    assert_eq!((-20.0f32).to_bits(), HEAVY_GRAVITY);
    assert_eq!(1.0f32.to_bits(), gg::colors::ONE);
    assert_eq!(0.0f32.to_bits(), gg::colors::ZERO);
    assert_eq!(0.1f32.to_bits(), gg::system::gorilla::TENTH);
    assert_eq!(0.3f32.to_bits(), gg::system::gorilla::THREE_TENTHS);
    assert_eq!(3.0f32.to_bits(), gg::system::gorilla::THREE);
    assert_eq!((-3.0f32).to_bits(), gg::system::gorilla::MINUS_THREE);
    assert_eq!((-1.5f32).to_bits(), gg::system::server::START_X);
    assert_eq!(5.0f32.to_bits(), gg::system::server::START_Y);
}

#[test]
fn the_buttons_mean_rope_and_weight() {
    assert_eq!(BodyCommand::TryAddRope, command(press(Button::One)));
    assert_eq!(BodyCommand::TryRemoveRope, command(release(Button::One)));
    assert_eq!(
        BodyCommand::SetAcc(Vector2 { x: 0, y: HEAVY_GRAVITY }),
        command(press(Button::Two))
    );
    assert_eq!(BodyCommand::SetAcc(Vector2 { x: 0, y: GRAVITY }), command(release(Button::Two)));
}

#[test]
fn without_input_the_body_is_left_alone() {
    let on = GorillaSystem { is_latency_compensation_enabled: true };
    let off = GorillaSystem { is_latency_compensation_enabled: false };
    assert_eq!(0, on.plan(&vec![], 50_000_000).len());
    assert_eq!(0, off.plan(&vec![], 50_000_000).len());
}

#[test]
fn compensation_winds_back_by_half_the_round_trip_and_forward_again() {
    let on = GorillaSystem { is_latency_compensation_enabled: true };
    let events = vec![press(Button::One), release(Button::Two)];
    assert_eq!(
        vec![
            BodyCommand::Step(-25_000_000),
            BodyCommand::TryAddRope,
            BodyCommand::SetAcc(Vector2 { x: 0, y: GRAVITY }),
            BodyCommand::Step(25_000_000),
        ],
        on.plan(&events, 50_000_000)
    );
    assert_eq!(
        vec![BodyCommand::Step(-3), BodyCommand::TryRemoveRope, BodyCommand::Step(3)],
        on.plan(&vec![release(Button::One)], 7)
    );
    assert_eq!(
        vec![
            BodyCommand::Step(-i64::MAX),
            BodyCommand::TryRemoveRope,
            BodyCommand::Step(i64::MAX)
        ],
        on.plan(&vec![release(Button::One)], u64::MAX)
    );
}

#[test]
fn without_compensation_only_the_input_counts() {
    let off = GorillaSystem { is_latency_compensation_enabled: false };
    assert_eq!(
        vec![BodyCommand::TryAddRope],
        off.plan(&vec![press(Button::One)], 50_000_000)
    );
}

#[test]
fn pending_input_is_taken_with_the_avatar_s_latency() {
    let mut state = World::new();
    let loc = Vector2 { x: 1, y: 2 };
    let avatar = spawn_gorilla(&mut state, loc, rgb(true, true, false), None, false).unwrap();
    state.set(avatar, Component::Latency(Latency(10))).unwrap();
    assert!(state.push_input_event(avatar, press(Button::Two)));
    let on = GorillaSystem { is_latency_compensation_enabled: true };
    assert_eq!(
        vec![
            BodyCommand::Step(-5),
            BodyCommand::SetAcc(Vector2 { x: 0, y: HEAVY_GRAVITY }),
            BodyCommand::Step(5)
        ],
        on.process_user_input(avatar, &mut state)
    );
    // the input is gone
    assert_eq!(0, on.process_user_input(avatar, &mut state).len());
    // and an entity that is not there has none
    assert_eq!(0, on.process_user_input(99, &mut state).len());
}

#[test]
fn a_gorilla_is_made_with_all_it_needs() {
    let mut state = World::new();
    let loc = Vector2 { x: 1, y: 2 };
    let mapping = new_key_mapping(1, 2);
    let id = spawn_gorilla(&mut state, loc, rgb(true, false, false), Some(mapping), true).unwrap();
    let entity = state.get(id).unwrap();
    assert_eq!(
        Some(Body::new_dynamic(loc, Vector2 { x: 0, y: 0 }, Vector2 { x: 0, y: GRAVITY })),
        entity.body
    );
    assert_eq!(rgb(true, false, false), entity.sprite.unwrap().color);
    assert_eq!(loc, entity.gorilla.as_ref().unwrap().spawn_location);
    assert_eq!(0, entity.gorilla.as_ref().unwrap().input_events.len());
    assert_eq!(Some(Latency(0)), entity.latency);
    assert_eq!(Some(Keyboard(mapping)), entity.keyboard);
    assert_eq!(Some(Focus), entity.focus);
    assert_eq!(Some(Network), entity.network);
    assert_eq!(None, entity.anchor);
    assert_eq!(None, entity.dead);

    let plain = spawn_gorilla(&mut state, loc, rgb(true, false, false), None, false).unwrap();
    assert_eq!(1, plain);
    assert_eq!(None, state.get(plain).unwrap().keyboard);
    assert_eq!(None, state.get(plain).unwrap().focus);
}

#[test]
fn anchors_are_static_white_and_told() {
    let mut state = World::new();
    let loc = Vector2 { x: 3, y: 4 };
    let id = spawn_anchor(&mut state, loc).unwrap();
    let entity = state.get(id).unwrap();
    assert_eq!(Some(Body::new_static(loc)), entity.body);
    assert_eq!(white(), entity.sprite.unwrap().color);
    assert_eq!(Some(Anchor), entity.anchor);
    assert_eq!(Some(Network), entity.network);
    assert!(entity.gorilla.is_none());

    let ids = spawn_anchors(&mut state).unwrap();
    assert_eq!(vec![1, 2, 3, 4, 5], ids);
    let centre = state.get(3).unwrap().body.unwrap();
    assert_eq!(Body::new_static(Vector2 { x: 0, y: 0 }), centre);
    let mut found: Vec<u64> = vec![];
    state.collect_with(&vec![ComponentKind::Anchor, ComponentKind::Body], &mut found);
    assert_eq!(vec![0, 1, 2, 3, 4, 5], found);
}

#[test]
fn the_colours_go_round() {
    let mut colors = Colors::new();
    let mut seen = vec![];
    for _ in 0..7 {
        seen.push(colors.next());
    }
    assert_eq!(rgb(true, false, false), seen[0]);
    assert_eq!(rgb(true, true, false), seen[1]);
    assert_eq!(rgb(false, true, false), seen[2]);
    assert_eq!(rgb(false, true, true), seen[3]);
    assert_eq!(rgb(false, false, true), seen[4]);
    assert_eq!(rgb(true, false, true), seen[5]);
    assert_eq!(seen[0], seen[6]);
    assert_eq!(1.0f32.to_bits(), seen[0].a);
}

#[test]
fn a_key_drives_the_first_avatar_that_binds_it() {
    let mut state = World::new();
    let loc = Vector2 { x: 0, y: 0 };
    let c = rgb(true, false, false);
    let first = spawn_gorilla(&mut state, loc, c, Some(new_key_mapping(1, 2)), false).unwrap();
    let second = spawn_gorilla(&mut state, loc, c, Some(new_key_mapping(1, 3)), false).unwrap();
    let remote = spawn_gorilla(&mut state, loc, c, None, false).unwrap();
    let mut keyboard = KeyboardSystem {};
    keyboard.key_down(&mut state, 1, false);
    keyboard.key_down(&mut state, 1, true);
    keyboard.key_up(&mut state, 3);
    keyboard.key_up(&mut state, 9);
    assert_eq!(
        vec![press(Button::One)],
        state.get(first).unwrap().gorilla.as_ref().unwrap().input_events
    );
    assert_eq!(
        vec![release(Button::Two)],
        state.get(second).unwrap().gorilla.as_ref().unwrap().input_events
    );
    assert_eq!(0, state.get(remote).unwrap().gorilla.as_ref().unwrap().input_events.len());
}

#[test]
fn the_dead_are_destroyed_and_no_other() {
    let mut state = World::new();
    let a = state.create_entity().unwrap();
    let b = state.create_entity().unwrap();
    let c = state.create_entity().unwrap();
    state.set(a, Component::Dead(gg::component::Dead)).unwrap();
    state.set(c, Component::Dead(gg::component::Dead)).unwrap();
    let mut teardown = Teardown::new();
    teardown.step(&mut state);
    assert!(!state.contains(a));
    assert!(state.contains(b));
    assert!(!state.contains(c));
    teardown.step(&mut state);
    assert_eq!(1, state.len());
}

#[test]
fn nothing_is_made_when_no_id_is_left() {
    let mut state = World::starting_at(u64::MAX);
    let loc = Vector2 { x: 0, y: 0 };
    let failed = spawn_gorilla(&mut state, loc, rgb(true, false, false), None, false).unwrap_err();
    assert_eq!("out of entity ids", failed.to_string());
    assert_eq!("out of entity ids", spawn_anchor(&mut state, loc).unwrap_err().to_string());
    assert_eq!(0, state.len());

    let mut few = World::starting_at(u64::MAX - 2);
    assert_eq!("out of entity ids", spawn_anchors(&mut few).unwrap_err().to_string());
    assert_eq!(2, few.len());
}
