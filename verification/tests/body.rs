use gg::component::body::{
    Body, PlanarBody, RadialBody, StaticBody, Vector2, KEYFRAME_PERIOD,
};

const SECOND: i64 = 1_000_000_000;

fn zeros() -> Vector2 {
    Vector2 { x: 0, y: 0 }
}

fn expect_planar_keyframe(keyframe_countdown: i64, step_size: i64, expect: bool) {
    let mut subject =
        PlanarBody { keyframe_countdown, loc: zeros(), vel: zeros(), acc: zeros() };

    subject.elapse(step_size);

    assert_eq!(expect, subject.get_is_keyframe_and_reset());
    assert_eq!(false, subject.get_is_keyframe_and_reset());
}

#[test]
fn planar_test_keyframe() {
    expect_planar_keyframe(0, 0, true);
    expect_planar_keyframe(SECOND, 0, false);
    expect_planar_keyframe(0, SECOND, true);
    expect_planar_keyframe(SECOND, SECOND, true);

    let mut subject = PlanarBody::new(zeros(), zeros(), zeros());

    assert_eq!(0, subject.keyframe_countdown);
    assert_eq!(true, subject.get_is_keyframe_and_reset());
    assert_eq!(false, subject.get_is_keyframe_and_reset());
    assert_eq!(KEYFRAME_PERIOD, subject.keyframe_countdown);
}

fn expect_radial_keyframe(keyframe_countdown: i64, step_size: i64, expect: bool) {
    let mut subject = RadialBody {
        keyframe_countdown,
        origin: zeros(),
        radius: 0x3f80_0000,
        loc: 0,
        vel: 0,
        acc: zeros(),
    };

    subject.elapse(step_size);

    assert_eq!(expect, subject.get_is_keyframe_and_reset());
    assert_eq!(false, subject.get_is_keyframe_and_reset());
}

#[test]
fn radial_test_keyframe() {
    expect_radial_keyframe(0, 0, true);
    expect_radial_keyframe(SECOND, 0, false);
    expect_radial_keyframe(0, SECOND, true);
    expect_radial_keyframe(SECOND, SECOND, true);

    let mut subject = RadialBody::new(zeros(), 0, 0, 0, zeros());

    assert_eq!(0, subject.keyframe_countdown);
    assert_eq!(true, subject.get_is_keyframe_and_reset());
    assert_eq!(false, subject.get_is_keyframe_and_reset());
    assert_eq!(KEYFRAME_PERIOD, subject.keyframe_countdown);
}

#[test]
fn static_test_keyframe() {
    let mut subject = StaticBody::new(zeros());
    assert_eq!(true, subject.get_is_keyframe_and_reset());
    assert_eq!(false, subject.get_is_keyframe_and_reset());
    assert_eq!(false, subject.get_is_keyframe_and_reset());
}

#[test]
fn keyframe_period_is_a_quarter_second() {
    assert_eq!(250_000_000, KEYFRAME_PERIOD);
    let mut subject = Body::new_dynamic(zeros(), zeros(), zeros());
    assert!(subject.get_is_keyframe_and_reset());
    subject.elapse(KEYFRAME_PERIOD - 1);
    assert!(!subject.get_is_keyframe_and_reset());
    subject.elapse(1);
    assert!(subject.get_is_keyframe_and_reset());
}

#[test]
fn winding_back_puts_the_keyframe_off() {
    let mut subject = Body::new_dynamic(zeros(), zeros(), zeros());
    subject.elapse(-5);
    assert_eq!(
        Body::Planar(PlanarBody {
            loc: zeros(),
            vel: zeros(),
            acc: zeros(),
            keyframe_countdown: 5
        }),
        subject
    );
    assert!(!subject.get_is_keyframe_and_reset());
    subject.elapse(5);
    assert!(subject.get_is_keyframe_and_reset());
}

#[test]
fn the_countdown_stays_within_range() {
    let mut subject =
        PlanarBody { keyframe_countdown: i64::MIN + 1, loc: zeros(), vel: zeros(), acc: zeros() };
    subject.elapse(i64::MAX);
    assert_eq!(i64::MIN, subject.keyframe_countdown);
    let mut other =
        PlanarBody { keyframe_countdown: i64::MAX - 1, loc: zeros(), vel: zeros(), acc: zeros() };
    other.elapse(i64::MIN);
    assert_eq!(i64::MAX, other.keyframe_countdown);
}

#[test]
fn setting_the_acceleration_makes_a_keyframe_due() {
    let mut subject = Body::new_dynamic(zeros(), zeros(), zeros());
    assert!(subject.get_is_keyframe_and_reset());
    assert!(!subject.get_is_keyframe_and_reset());
    subject.set_acc(Vector2 { x: 1, y: 2 });
    assert!(subject.get_is_keyframe_and_reset());
    match subject {
        Body::Planar(b) => assert_eq!(Vector2 { x: 1, y: 2 }, b.acc),
        _ => panic!("a body in free flight stays one"),
    }
}

#[test]
fn only_a_body_on_a_rope_is_attached() {
    assert!(!Body::new_static(zeros()).get_is_attached());
    assert!(!Body::new_dynamic(zeros(), zeros(), zeros()).get_is_attached());
    assert!(Body::Radial(RadialBody::new(zeros(), 0, 0, 0, zeros())).get_is_attached());
}

#[test]
fn a_static_body_has_no_countdown() {
    let mut subject = Body::new_static(zeros());
    subject.elapse(SECOND);
    assert_eq!(Body::Static(StaticBody { loc: zeros(), keyframe: true }), subject);
}
