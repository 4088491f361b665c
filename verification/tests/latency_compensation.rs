use gg::component::body::{Body, PlanarBody, RadialBody, Vector2};
use gg::context::TimerService;
use gg::ecs::{Component, ComponentKind, World};
use gg::input::new_key_mapping;
use gg::network::sim::{SimNetworkEnd, SimServer};
use gg::network::{ClientMsg, ServerMsg};
use gg::system::client::ClientSystem;
use gg::system::gorilla::{BodyCommand, GorillaSystem};
use gg::system::physics::PhysicsSystem;
use gg::system::server::ServerSystem;

const MILLI: u64 = 1_000_000;
const SPACE: u32 = 76;
const RETURN: u32 = 74;

fn point(v: Vector2) -> (f32, f32) {
    (f32::from_bits(v.x), f32::from_bits(v.y))
}

fn bits(v: (f32, f32)) -> Vector2 {
    Vector2 { x: v.0.to_bits(), y: v.1.to_bits() }
}

fn seconds(nanos: i64) -> f32 {
    nanos as f32 / 1e9
}

fn tangent(loc: f32) -> (f32, f32) {
    ((loc + (std::f32::consts::PI * 0.5)).sin(), (loc + (std::f32::consts::PI * 0.5)).cos())
}

fn to_planar(body: &RadialBody) -> PlanarBody {
    let (ox, oy) = point(body.origin);
    let angle = f32::from_bits(body.loc);
    let radius = f32::from_bits(body.radius);
    let speed = f32::from_bits(body.vel);
    let (tx, ty) = tangent(angle);
    PlanarBody::new(
        bits((ox + angle.sin() * radius, oy + angle.cos() * radius)),
        bits((tx * speed * radius, ty * speed * radius)),
        body.acc,
    )
}

fn to_radial(body: &PlanarBody, origin: (f32, f32)) -> RadialBody {
    let (x, y) = point(body.loc);
    let (rx, ry) = (x - origin.0, y - origin.1);
    let norm = (rx * rx + ry * ry).sqrt();
    let loc = rx.atan2(ry);
    let (vx, vy) = point(body.vel);
    let (tx, ty) = tangent(loc);
    let vel = (vx * tx + vy * ty) / norm;
    RadialBody::new(bits(origin), norm.to_bits(), loc.to_bits(), vel.to_bits(), body.acc)
}

fn get_loc(body: &Body) -> (f32, f32) {
    match body {
        Body::Static(b) => point(b.loc),
        Body::Planar(b) => point(b.loc),
        Body::Radial(b) => point(to_planar(b).loc),
    }
}

fn moved(body: Body, duration: f32) -> Body {
    match body {
        Body::Static(_) => body,
        Body::Planar(b) => {
            let (x, y) = point(b.loc);
            let (vx, vy) = point(b.vel);
            let (ax, ay) = point(b.acc);
            Body::Planar(PlanarBody {
                loc: bits((
                    x + (vx + (ax * duration / 2.0)) * duration,
                    y + (vy + (ay * duration / 2.0)) * duration,
                )),
                vel: bits((vx + ax * duration, vy + ay * duration)),
                ..b
            })
        }
        Body::Radial(b) => {
            let loc = f32::from_bits(b.loc);
            let mut vel = f32::from_bits(b.vel);
            let (tx, ty) = tangent(loc);
            let (ax, ay) = point(b.acc);
            let accel = tx * ax + ty * ay;
            let loc = loc + (vel + (accel * duration / 2.0)) * duration;
            vel += accel * duration;
            vel *= 1.0 - (0.1 * duration);
            Body::Radial(RadialBody { loc: loc.to_bits(), vel: vel.to_bits(), ..b })
        }
    }
}

fn body_of(state: &World, entity: u64) -> Body {
    state.get(entity).unwrap().body.unwrap()
}

fn update_bodies(state: &mut World, duration: i64) {
    let mut ids: Vec<u64> = vec![];
    state.collect_with(&vec![ComponentKind::Body], &mut ids);
    for id in ids {
        let body = body_of(state, id);
        state.set(id, Component::Body(moved(body, seconds(duration)))).unwrap();
    }
    PhysicsSystem {}.update(state, duration);
}

fn execute(state: &mut World, entity: u64, plan: Vec<BodyCommand>) {
    for command in plan {
        let mut body = body_of(state, entity);
        match command {
            BodyCommand::Step(duration) => {
                body = moved(body, seconds(duration));
                body.elapse(duration);
            }
            BodyCommand::TryAddRope => {
                if let Body::Planar(planar) = body {
                    let loc = get_loc(&body);
                    let mut anchors: Vec<u64> = vec![];
                    state.collect_with(
                        &vec![ComponentKind::Anchor, ComponentKind::Body],
                        &mut anchors,
                    );
                    let closest = anchors
                        .iter()
                        .map(|&id| {
                            let (x, y) = get_loc(&body_of(state, id));
                            (id, ((loc.0 - x).powi(2) + (loc.1 - y).powi(2)).sqrt())
                        })
                        .min_by(|a, b| {
                            if a.1 > b.1 {
                                std::cmp::Ordering::Greater
                            } else {
                                std::cmp::Ordering::Less
                            }
                        })
                        .map(|a| a.0);
                    if let Some(anchor) = closest {
                        body = Body::Radial(to_radial(&planar, get_loc(&body_of(state, anchor))));
                    }
                }
            }
            BodyCommand::TryRemoveRope => {
                if let Body::Radial(radial) = body {
                    body = Body::Planar(to_planar(&radial));
                }
            }
            BodyCommand::SetAcc(acc) => body.set_acc(acc),
        }
        state.set(entity, Component::Body(body)).unwrap();
    }
}

fn update_gorillas(system: &GorillaSystem, state: &mut World) {
    let mut ids: Vec<u64> = vec![];
    state.collect_with(&vec![ComponentKind::Gorilla, ComponentKind::Body], &mut ids);
    for entity in ids {
        let plan = system.process_user_input(entity, state);
        execute(state, entity, plan);
    }
}

struct MockContext {
    average_delta: u64,
    time_since_start: u64,
}

impl TimerService for MockContext {
    fn average_delta(&self) -> u64 {
        self.average_delta
    }

    fn time_since_start(&self) -> u64 {
        self.time_since_start
    }
}

struct MockSetup {
    context: MockContext,
    server: ServerSystem<SimServer, SimNetworkEnd<ServerMsg, ClientMsg>>,
    server_state: World,
    gorillas: GorillaSystem,
    client: ClientSystem,
    client_state: World,
}

impl MockSetup {
    fn new(network_latency: u64, event_loop_period: u64, compensate: bool) -> MockSetup {
        let mut registry = SimServer::new(network_latency, 0);
        registry.connect();
        let gorillas = GorillaSystem { is_latency_compensation_enabled: compensate };
        let mut server_state = World::new();
        gorillas.init(&mut server_state).unwrap();
        let mut server = ServerSystem::new(registry, compensate).unwrap();
        server.init(&mut server_state).unwrap();

        let mut result = MockSetup {
            context: MockContext { average_delta: event_loop_period, time_since_start: 0 },
            server,
            server_state,
            gorillas,
            client: ClientSystem::new(new_key_mapping(SPACE, RETURN)),
            client_state: World::new(),
        };

        // process new clients
        result.step();

        result
    }

    fn step(&mut self) {
        let delta = self.context.average_delta as i64;

        update_bodies(&mut self.client_state, delta);
        if self.server.client_count() > 0 {
            self.client.update(self.server.channel_mut(0), &mut self.client_state).unwrap();
        }

        update_bodies(&mut self.server_state, delta);
        update_gorillas(&self.gorillas, &mut self.server_state);
        self.server.update(&mut self.server_state, &self.context).unwrap();
        self.server.teardown_dead_entities(&mut self.server_state);

        self.context.time_since_start += self.context.average_delta;
        for i in 0..self.server.client_count() {
            self.server.channel_mut(i).set_time(self.context.time_since_start);
        }
    }
}

fn assert_roughly_eq(name: &'static str, expected: f32, actual: f32) {
    assert!((expected - actual).abs() < 0.002, "{}: {} != {}", name, expected, actual);
}

fn heights_after_input(user_input: u32, mut setups: Vec<MockSetup>) -> Vec<f32> {

    // allow time for server to measure latency
    for setup in setups.iter_mut() {
        for _ in 0..10 {
            setup.step();
        }
    }

    // in each setup a client issues the same user input at the same time
    for setup in setups.iter_mut() {
        setup.client.key_down(setup.server.channel_mut(0), user_input, false).unwrap();
    }

    // after both servers have received the user input
    for setup in setups.iter_mut() {
        for _ in 0..10 {
            setup.step();
        }
    }

    // both should be in roughly the same state
    // (despite the fact that they recevied it at different times)
    let bodies = setups
        .iter()
        .map(|s| {
            let mut body_entities: Vec<u64> = vec![];
            s.server_state.collect_with(&vec![ComponentKind::Gorilla], &mut body_entities);
            body_entities
                .iter()
                .map(|&e| get_loc(&body_of(&s.server_state, e)).1)
                .collect::<Vec<_>>()
        })
        .collect::<Vec<_>>();

    // the input has reached every server and has been acted on
    for setup in setups.iter() {
        let avatar = setup.server.client(0).0;
        let body = body_of(&setup.server_state, avatar);
        if user_input == SPACE {
            assert!(body.get_is_attached());
        } else {
            match body {
                Body::Planar(b) => assert_eq!(gg::system::gorilla::HEAVY_GRAVITY, b.acc.y),
                _ => panic!("the avatar is in free flight"),
            }
        }
    }

    bodies.iter().map(|heights| {
        assert_eq!(1, heights.len());
        heights[0]
    }).collect()
}

fn expect_latency_compensation(user_input: u32) {
    // create two setups, one with zero latency and no latency comp and
    // one with non-zero latency and latency comp
    let setups = vec![
        MockSetup::new(0, 16 * MILLI, false),
        MockSetup::new(50 * MILLI, 16 * MILLI, true),
    ];
    let heights = heights_after_input(user_input, setups);
    assert_roughly_eq("body.y", heights[0], heights[1]);
}

#[test]
fn without_compensation_the_latency_shows() {
    let setups = vec![
        MockSetup::new(0, 16 * MILLI, false),
        MockSetup::new(50 * MILLI, 16 * MILLI, false),
    ];
    let heights = heights_after_input(RETURN, setups);
    assert!((heights[0] - heights[1]).abs() >= 0.002);
}

#[test]
fn the_latency_measured_is_the_round_trip() {
    let mut setup = MockSetup::new(50 * MILLI, 16 * MILLI, true);
    for _ in 0..10 {
        setup.step();
    }
    let avatar = setup.server.client(0).0;
    let measured = setup.server_state.get(avatar).unwrap().latency.unwrap().0;
    // two ways of 50 ms each, seen at the next tick of 16 ms
    assert!(measured >= 100 * MILLI);
    assert!(measured < 100 * MILLI + 2 * 16 * MILLI);
}

#[test]
fn test_latency_compensation() {
    expect_latency_compensation(RETURN);
    expect_latency_compensation(SPACE);
}
