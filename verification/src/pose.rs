//! A pose, on its way out of the session.
//!
//! Spatiand thinks in +X forward, +Y left, +Z up. What goes out is OpenXR's frame -- +X right, +Y
//! up, -Z forward -- and OpenXR's field order, so an adapter is a memcpy rather than a conversion
//! layer. The conversion is [`to_openxr`] and it happens exactly once, here, at the boundary.
//!
//! Lengths and the parts of a quaternion are whole numbers of some small unit, the same one for
//! everything in a slot; nothing here depends on which.

use vstd::prelude::*;

verus! {

/// A direction or a place.
#[derive(Debug, Clone, Copy, PartialEq, Eq, Structural)]
pub struct Vector {
    pub x: i64,
    pub y: i64,
    pub z: i64,
}

/// A turn.
#[derive(Debug, Clone, Copy, PartialEq, Eq, Structural)]
pub struct Quaternion {
    pub x: i64,
    pub y: i64,
    pub z: i64,
    pub w: i64,
}

impl Vector {
    /// Whether each part has an opposite.
    pub open spec fn turns(self) -> bool {
        self.x > i64::MIN && self.y > i64::MIN && self.z > i64::MIN
    }
}

impl Quaternion {
    /// Whether each part has an opposite.
    pub open spec fn turns(self) -> bool {
        self.x > i64::MIN && self.y > i64::MIN && self.z > i64::MIN
    }
}

/// A vector, as numbers of any size.
pub type Triple = (int, int, int);

/// What a vector becomes in the other frame: forward is away from +Z, left away from +X, up is +Y.
pub open spec fn reframed(v: Triple) -> Triple {
    (-v.1, v.2, -v.0)
}

/// The parts of a vector.
pub open spec fn parts(v: Vector) -> Triple {
    (v.x as int, v.y as int, v.z as int)
}

/// The parts of a quaternion's axis.
pub open spec fn axis(q: Quaternion) -> Triple {
    (q.x as int, q.y as int, q.z as int)
}

/// The numbers of three fields on the wire.
pub open spec fn wired(v: [i64; 3]) -> Triple {
    (v[0] as int, v[1] as int, v[2] as int)
}

/// Spatiand's frame to OpenXR's.
///
/// Ours is +X forward, +Y left, +Z up. OpenXR's is +X right, +Y up, −Z forward. So a vector
/// `(x, y, z)` becomes `(−y, z, −x)`, which is a pure rotation — the determinant is +1 — and
/// a rotation may be applied to a quaternion's vector part alone, leaving `w` untouched.
pub fn to_openxr(orientation: Quaternion, position: Vector) -> (out: ([i64; 4], [i64; 3]))
    requires
        orientation.turns(),
        position.turns(),
    ensures
        (out.0[0] as int, out.0[1] as int, out.0[2] as int) == reframed(axis(orientation)),
        out.0[3] == orientation.w,
        wired(out.1) == reframed(parts(position)),
{
    let q = [0 - orientation.y, orientation.z, 0 - orientation.x, orientation.w];
    let p = [0 - position.y, position.z, 0 - position.x];
    (q, p)
}

/// The vector at right angles to two others.
pub open spec fn cross(a: Triple, b: Triple) -> Triple {
    (a.1 * b.2 - a.2 * b.1, a.2 * b.0 - a.0 * b.2, a.0 * b.1 - a.1 * b.0)
}

/// How far two vectors point the same way.
pub open spec fn dot(a: Triple, b: Triple) -> int {
    a.0 * b.0 + a.1 * b.1 + a.2 * b.2
}

/// The conversion is a rotation and not a reflection: it keeps lengths and angles, and it keeps
/// handedness. A reflection would also map the axes onto each other, and would silently mirror
/// every client's world.
pub proof fn the_conversion_is_a_rotation(a: Triple, b: Triple)
    ensures
        dot(reframed(a), reframed(b)) == dot(a, b),
        cross(reframed(a), reframed(b)) == reframed(cross(a, b)),
{
    let (ax, ay, az) = a;
    let (bx, by, bz) = b;
    assert((-ay) * (-by) == ay * by && (-ax) * (-bx) == ax * bx) by (nonlinear_arith);
    assert(az * (-bx) == -(az * bx) && (-ax) * bz == -(ax * bz)) by (nonlinear_arith);
    assert((-ax) * (-by) == ax * by && (-ay) * (-bx) == ay * bx) by (nonlinear_arith);
    assert((-ay) * bz == -(ay * bz) && az * (-by) == -(az * by)) by (nonlinear_arith);
}

/// No two poses become the same one, so nothing of a pose is lost on its way out.
pub proof fn the_conversion_loses_nothing(a: Triple, b: Triple)
    requires
        reframed(a) == reframed(b),
    ensures
        a == b,
{
}

/// One eye as the renderer has it: where it is, which way it faces, and half of what it sees across
/// and up.
#[derive(Debug, Clone, Copy, PartialEq, Eq, Structural)]
pub struct Eye {
    pub orientation: Quaternion,
    pub position: Vector,
    pub half_h: i64,
    pub half_v: i64,
}

impl Eye {
    /// Whether everything in it has an opposite.
    pub open spec fn turns(self) -> bool {
        self.orientation.turns() && self.position.turns() && self.half_h > i64::MIN && self.half_v
            > i64::MIN
    }
}

/// One eye, in OpenXR's frame and field order.
#[derive(Debug, Clone, Copy, PartialEq, Eq)]
pub struct WireEye {
    pub orientation: [i64; 4],
    pub position: [i64; 3],
    /// Left, right, up, down; left and down are negative.
    pub fov: [i64; 4],
}

/// Whether an eye on the wire is this one.
pub open spec fn carries(wire: WireEye, eye: Eye) -> bool {
    &&& (wire.orientation[0] as int, wire.orientation[1] as int, wire.orientation[2] as int)
        == reframed(axis(eye.orientation))
    &&& wire.orientation[3] == eye.orientation.w
    &&& wired(wire.position) == reframed(parts(eye.position))
    &&& wire.fov@ =~= signed_fov(eye.half_h as int, eye.half_v as int)
}

/// A symmetric field of view, signed the way OpenXR signs it.
pub open spec fn signed_fov(half_h: int, half_v: int) -> Seq<i64> {
    seq![(-half_h) as i64, half_h as i64, half_v as i64, (-half_v) as i64]
}

fn wire_eye(eye: Eye) -> (out: WireEye)
    requires
        eye.turns(),
    ensures
        carries(out, eye),
{
    let (orientation, position) = to_openxr(eye.orientation, eye.position);
    // Signed, and symmetric because the projection is. `XrFovf` exactly.
    let fov = [0 - eye.half_h, eye.half_h, eye.half_v, 0 - eye.half_v];
    WireEye { orientation, position, fov }
}

/// One sample, in the wire's frame and field order.
#[derive(Debug, Clone, Copy, PartialEq, Eq)]
pub struct Slot {
    pub seq: u32,
    pub sample_ns: i64,
    pub predicted_ns: i64,
    pub reserved: u64,
    pub head_orientation: [i64; 4],
    pub head_position: [i64; 3],
    pub eye: [WireEye; 2],
}

/// One sample, in the wire's frame and field order.
///
/// Both the local channel and the viewport sent to a host are built from this, so an
/// application reading poses here and one reading them on a host thirty metres away are
/// handed the same numbers — same eyes, same neck, same field of view.
pub fn wire_slot(
    orientation: Quaternion,
    head_position: Vector,
    eyes: [Eye; 2],
    sample_ns: i64,
    predicted_ns: i64,
) -> (out: Slot)
    requires
        orientation.turns(),
        head_position.turns(),
        eyes[0].turns(),
        eyes[1].turns(),
    ensures
        out.seq == 0,
        out.reserved == 0,
        out.sample_ns == sample_ns,
        out.predicted_ns == predicted_ns,
        (out.head_orientation[0] as int, out.head_orientation[1] as int, out.head_orientation[2] as int)
            == reframed(axis(orientation)),
        out.head_orientation[3] == orientation.w,
        wired(out.head_position) == reframed(parts(head_position)),
        carries(out.eye[0], eyes[0]),
        carries(out.eye[1], eyes[1]),
{
    let (head_orientation, position) = to_openxr(orientation, head_position);
    Slot {
        seq: 0,
        sample_ns,
        predicted_ns,
        reserved: 0,
        head_orientation,
        head_position: position,
        eye: [wire_eye(eyes[0]), wire_eye(eyes[1])],
    }
}

/// Each eye's field of view as `XrFovf`, left first.
///
/// The numbers every pose this session hands out carries, and so what an application drawing
/// from those poses has been told to draw with.
pub fn eye_fovs(eyes: [Eye; 2]) -> (out: [[i64; 4]; 2])
    requires
        eyes[0].turns(),
        eyes[1].turns(),
    ensures
        out[0]@ == signed_fov(eyes[0].half_h as int, eyes[0].half_v as int),
        out[1]@ == signed_fov(eyes[1].half_h as int, eyes[1].half_v as int),
{
    [wire_eye(eyes[0]).fov, wire_eye(eyes[1]).fov]
}

/// What a host is sent to draw.
#[derive(Debug, Clone, Copy, PartialEq, Eq)]
pub struct Viewport {
    pub seq: u32,
    pub time_us: u64,
    pub orientation: [i64; 4],
    pub position: [i64; 3],
    pub eye_position: [[i64; 3]; 2],
    pub fov: [[i64; 4]; 2],
    pub render_size: (u32, u32),
}

/// The same sample as the viewport a host is sent: exactly what a local client reads.
///
/// `seq` counts viewports so a picture can say which one it was drawn for. `render_size` is
/// what the host should draw into, overscan included.
pub fn viewport(slot: &Slot, seq: u32, render_size: (u32, u32)) -> (out: Viewport)
    ensures
        out.seq == seq,
        out.time_us == (if slot.sample_ns < 0 {
            0int
        } else {
            slot.sample_ns as int / 1000
        }),
        out.orientation == slot.head_orientation,
        out.position == slot.head_position,
        out.eye_position[0] == slot.eye[0].position,
        out.eye_position[1] == slot.eye[1].position,
        out.fov[0] == slot.eye[0].fov,
        out.fov[1] == slot.eye[1].fov,
        out.render_size == render_size,
{
    // The session's own clock. A host cannot compare it with its own, and is not meant
    // to; it comes back with each picture so this end can measure how old that picture is.
    let time_us: u64 = if slot.sample_ns < 0 {
        0
    } else {
        (slot.sample_ns / 1000) as u64
    };
    Viewport {
        seq,
        time_us,
        orientation: slot.head_orientation,
        position: slot.head_position,
        eye_position: [slot.eye[0].position, slot.eye[1].position],
        fov: [slot.eye[0].fov, slot.eye[1].fov],
        render_size,
    }
}

/// Forward is away from +Z, left away from +X, and up is +Y: each part of a vector goes where it
/// belongs and nowhere else.
pub proof fn forward_is_away_from_z(v: Triple)
    ensures
        ({
            let (right, up, back) = reframed(v);
            &&& back == -v.0
            &&& right == -v.1
            &&& up == v.2
        }),
        reframed((1, 0, 0)) == (0int, 0int, -1int),
        reframed((0, 1, 0)) == (-1int, 0int, 0int),
        reframed((0, 0, 1)) == (0int, 1int, 0int),
{
}

/// A field of view is as wide to the left as to the right and as high as it is low: left and down
/// are below nothing, and right and up are half of what is seen.
pub proof fn a_field_of_view_is_symmetric(half_h: i64, half_v: i64)
    requires
        half_h > i64::MIN,
        half_v > i64::MIN,
    ensures
        ({
            let fov = signed_fov(half_h as int, half_v as int);
            &&& fov.len() == 4
            &&& fov[0] + fov[1] == 0
            &&& fov[2] + fov[3] == 0
            &&& fov[1] == half_h
            &&& fov[2] == half_v
        }),
{
}

/// An eye on the wire is the eye it was made from and no other: two eyes that go out the same are
/// the same, so a picture drawn for one is drawn for that one.
pub proof fn an_eye_is_told_apart(wire: WireEye, one: Eye, other: Eye)
    requires
        one.turns(),
        other.turns(),
        carries(wire, one),
        carries(wire, other),
    ensures
        one == other,
{
    assert(signed_fov(one.half_h as int, one.half_v as int)[1] == wire.fov@[1]);
    assert(signed_fov(one.half_h as int, one.half_v as int)[2] == wire.fov@[2]);
    assert(signed_fov(other.half_h as int, other.half_v as int)[1] == wire.fov@[1]);
    assert(signed_fov(other.half_h as int, other.half_v as int)[2] == wire.fov@[2]);
}

} // verus!
