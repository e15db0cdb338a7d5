use spatiand::pose::{
    eye_fovs, to_openxr, viewport, wire_slot, Eye, Quaternion, Slot, Vector,
};

/// One, in the units these tests measure in.
const ONE: i64 = 1_000_000_000;

const IDENTITY: Quaternion = Quaternion { x: 0, y: 0, z: 0, w: ONE };
const ZERO: Vector = Vector { x: 0, y: 0, z: 0 };
const X: Vector = Vector { x: ONE, y: 0, z: 0 };
const Y: Vector = Vector { x: 0, y: ONE, z: 0 };
const Z: Vector = Vector { x: 0, y: 0, z: ONE };

/// Half the distance between the eyes.
const HALF_IPD: i64 = 31_500_000;

fn eyes() -> [Eye; 2] {
    let eye = |side: i64| Eye {
        orientation: IDENTITY,
        position: Vector { x: 0, y: side * HALF_IPD, z: 0 },
        half_h: 349_000_000,
        half_v: 202_000_000,
    };
    [eye(1), eye(-1)]
}

fn level() -> Slot {
    wire_slot(IDENTITY, ZERO, eyes(), 111, 222)
}

#[test]
fn forward_becomes_negative_z() {
    // The one conversion in the whole protocol, and getting it wrong gives a client a
    // world rotated ninety degrees -- which reads as a tracking bug, not a sign error.
    let (_, p) = to_openxr(IDENTITY, X);
    assert_eq!(p, [0, 0, -ONE]);
}

#[test]
fn left_becomes_negative_x_and_up_stays_up() {
    let (_, left) = to_openxr(IDENTITY, Y);
    assert_eq!(left, [-ONE, 0, 0]);
    let (_, up) = to_openxr(IDENTITY, Z);
    assert_eq!(up, [0, ONE, 0]);
}

#[test]
fn the_conversion_is_a_rotation_and_not_a_reflection() {
    // A reflection would also map the axes onto each other, and would silently mirror
    // every client's world. Checked by handedness: X cross Y must still be Z.
    let (_, x) = to_openxr(IDENTITY, X);
    let (_, y) = to_openxr(IDENTITY, Y);
    let (_, z) = to_openxr(IDENTITY, Z);
    let [x, y, z] = [x, y, z].map(|v| v.map(|n| n / ONE));
    let cross = [
        x[1] * y[2] - x[2] * y[1],
        x[2] * y[0] - x[0] * y[2],
        x[0] * y[1] - x[1] * y[0],
    ];
    assert_eq!(cross, z);
}

#[test]
fn identity_orientation_stays_identity() {
    let (q, _) = to_openxr(IDENTITY, ZERO);
    assert_eq!(q, [0, 0, 0, ONE]);
}

#[test]
fn the_eyes_are_an_ipd_apart_and_the_left_one_is_on_the_left() {
    // In OpenXR's frame +X is right, so the left eye has the smaller X. Getting this
    // backwards swaps the eyes, which looks almost right and is deeply unpleasant.
    let slot = level();
    let (left, right) = (slot.eye[0], slot.eye[1]);
    assert!(left.position[0] < right.position[0], "eyes are swapped");
    assert_eq!(right.position[0] - left.position[0], 2 * HALF_IPD);
}

#[test]
fn the_field_of_view_is_signed_the_way_openxr_signs_it() {
    // angleLeft and angleDown are negative, angleRight and angleUp positive. A runtime
    // that gets this wrong builds an inside-out projection.
    let fov = level().eye[0].fov;
    assert!(fov[0] < 0 && fov[1] > 0, "horizontal: {fov:?}");
    assert!(fov[2] > 0 && fov[3] < 0, "vertical: {fov:?}");
    // And a 16:9 eye is wider than it is tall.
    assert!(fov[1] > fov[2], "{fov:?}");
    assert_eq!(eye_fovs(eyes()), [fov, fov]);
}

#[test]
fn a_sample_carries_its_times_and_its_head() {
    let newest = level();
    assert_eq!(newest.sample_ns, 111);
    assert_eq!(newest.predicted_ns, 222);
    assert_eq!(newest.head_orientation, [0, 0, 0, ONE]);
    assert_eq!((newest.seq, newest.reserved), (0, 0));
}

#[test]
fn a_host_is_sent_exactly_what_a_local_client_reads() {
    // The whole reason the viewport is built from the slot rather than beside it: two
    // applications, one here and one on a host, must not be handed eyes a few
    // millimetres apart.
    let turned = Quaternion { x: 19_834_000, y: -97_843_000, z: 197_677_000, w: 975_170_000 };
    let slot = wire_slot(turned, Vector { x: 0, y: 0, z: 1_600_000_000 }, eyes(), 5_000, 9_000);
    let v = viewport(&slot, 42, (2304, 1296));
    assert_eq!(v.seq, 42);
    assert_eq!(v.orientation, slot.head_orientation);
    assert_eq!(v.position, slot.head_position);
    assert_eq!(v.eye_position, [slot.eye[0].position, slot.eye[1].position]);
    assert_eq!(v.fov, [slot.eye[0].fov, slot.eye[1].fov]);
    assert_eq!(v.render_size, (2304, 1296));
    assert_eq!(v.time_us, 5);
    assert_eq!(slot.head_orientation, [97_843_000, 197_677_000, -19_834_000, 975_170_000]);
    let early = wire_slot(turned, ZERO, eyes(), -5_000, 0);
    assert_eq!(viewport(&early, 1, (1, 1)).time_us, 0);
}
