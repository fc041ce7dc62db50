//! The component records that can be attached to an entity.
//!
//! Positions and velocities are fixed-point: a `Position` coordinate counts
//! thousandths of a pixel, a `Moveable` axis counts thousandths of full speed
//! and stays within `-1000 ..= 1000`. Durations are milliseconds.
use vstd::prelude::*;

verus! {

/// World location of an entity, in thousandths of a pixel.
#[derive(Clone, Copy, PartialEq, Eq, Structural, Debug)]
pub struct Position {
    pub x: i64,
    pub y: i64,
}

impl Position {
    pub fn new(x: i64, y: i64) -> (r: Position)
        ensures
            r == (Position { x, y }),
    {
        Position { x, y }
    }
}

/// Intended direction of travel, each axis in thousandths of full speed.
#[derive(Clone, Copy, PartialEq, Eq, Structural, Debug)]
pub struct Moveable {
    pub dx: i64,
    pub dy: i64,
}

/// A velocity axis is a fraction of full speed: it stays within one unit.
pub open spec fn moveable_wf(m: Moveable) -> bool {
    &&& -1000 <= m.dx <= 1000
    &&& -1000 <= m.dy <= 1000
}

impl Moveable {
    pub fn new(dx: i64, dy: i64) -> (r: Moveable)
        requires
            -1000 <= dx <= 1000,
            -1000 <= dy <= 1000,
        ensures
            r == (Moveable { dx, dy }),
            moveable_wf(r),
    {
        Moveable { dx, dy }
    }
}

/// Collision extent of an entity, in thousandths of a pixel; currently unused
/// by the systems.
#[derive(Clone, Copy, PartialEq, Eq, Structural, Debug)]
pub struct Collidable {
    pub width: u64,
    pub height: u64,
}

impl Collidable {
    pub fn new(width: u64, height: u64) -> (r: Collidable)
        ensures
            r == (Collidable { width, height }),
    {
        Collidable { width, height }
    }
}

/// A static sprite: a source rectangle on the shared sprite sheet plus the
/// draw layer.
#[derive(Clone, Copy, PartialEq, Eq, Structural, Debug)]
pub struct Drawable {
    pub x: i32,
    pub y: i32,
    pub w: u32,
    pub h: u32,
    pub layer: u32,
}

impl Drawable {
    pub fn new(x: i32, y: i32, w: u32, h: u32, layer: u32) -> (r: Drawable)
        ensures
            r == (Drawable { x, y, w, h, layer }),
    {
        Drawable { x, y, w, h, layer }
    }
}

/// An ordered sequence of sprite frames with a playback rate and flip flags.
/// `fps == 0` means a single static pose that never advances.
#[derive(Clone, PartialEq, Eq, Debug)]
pub struct Animation {
    pub frames: Vec<Drawable>,
    pub fps: u32,
    pub flip_horizontal: bool,
    pub flip_vertical: bool,
}

/// Playback rate stays within the millisecond resolution of the clock, so a
/// positive rate always has a whole-millisecond frame period; the frame count
/// stays countable in 32 bits.
pub open spec fn animation_wf(a: Animation) -> bool {
    &&& a.fps <= 1000
    &&& a.frames@.len() <= 0xFFFF_FFFF
}

impl Animation {
    pub fn new() -> (r: Animation)
        ensures
            r.frames@ == Seq::<Drawable>::empty(),
            r.fps == 0,
            !r.flip_horizontal,
            !r.flip_vertical,
            animation_wf(r),
    {
        Animation { frames: Vec::new(), fps: 0, flip_horizontal: false, flip_vertical: false }
    }

    pub fn new_with_frames(frames: Vec<Drawable>, fps: u32, flip_horizontal: bool, flip_vertical: bool) -> (r: Animation)
        requires
            fps <= 1000,
            frames@.len() <= 0xFFFF_FFFF,
        ensures
            r == (Animation { frames, fps, flip_horizontal, flip_vertical }),
            animation_wf(r),
    {
        Animation { frames, fps, flip_horizontal, flip_vertical }
    }
}

/// Which named animation an entity can play.
#[derive(Clone, Copy, PartialEq, Eq, Structural, Debug)]
pub enum AnimationType {
    Empty,
    StandingDown,
    StandingUp,
    StandingLeft,
    StandingRight,
    WalkingDown,
    WalkingUp,
    WalkingLeft,
    WalkingRight,
    CountingDown,
    Exploding,
}

/// Runtime animation-player state for one entity: the variant map, the
/// selected variant, the frame index and the accumulated sub-frame time.
#[derive(Clone, PartialEq, Eq, Debug)]
pub struct Animations {
    pub animations: Vec<(AnimationType, Animation)>,
    pub current_animation: AnimationType,
    pub current_frame: usize,
    pub last_frame_time: u32,
}

/// The first animation listed for `t` at or after position `i`, if any.
pub open spec fn find_animation_from(
    s: Seq<(AnimationType, Animation)>,
    t: AnimationType,
    i: int,
) -> Option<Animation>
    decreases s.len() - i,
{
    if i < 0 || i >= s.len() {
        None
    } else if s[i].0 == t {
        Some(s[i].1)
    } else {
        find_animation_from(s, t, i + 1)
    }
}

/// The animation selected for `t`, if any.
pub open spec fn spec_find_animation(s: Seq<(AnimationType, Animation)>, t: AnimationType) -> Option<Animation> {
    find_animation_from(s, t, 0)
}

/// A found animation is one of the listed entries, under its own variant.
pub proof fn lemma_find_animation_is_listed(
    s: Seq<(AnimationType, Animation)>,
    t: AnimationType,
    i: int,
)
    requires
        0 <= i,
        find_animation_from(s, t, i) is Some,
    ensures
        exists|j: int|
            i <= j < s.len() && (#[trigger] s[j]).0 == t && s[j].1 == find_animation_from(
                s,
                t,
                i,
            )->Some_0,
    decreases s.len() - i,
{
    if i < s.len() {
        if s[i].0 == t {
            assert(i <= i < s.len() && s[i].0 == t && s[i].1 == find_animation_from(s, t, i)->Some_0);
        } else {
            lemma_find_animation_is_listed(s, t, i + 1);
            let j = choose|j: int|
                i + 1 <= j < s.len() && (#[trigger] s[j]).0 == t && s[j].1 == find_animation_from(
                    s,
                    t,
                    i + 1,
                )->Some_0;
            assert(i <= j < s.len() && s[j].0 == t && s[j].1 == find_animation_from(s, t, i)->Some_0);
        }
    }
}

/// Well-formed player state: variant keys are distinct, every animation keeps
/// a whole-millisecond frame period, the frame index is inside the selected
/// animation's frame sequence (or zero when there is none), and the sub-frame
/// remainder is below one second.
pub open spec fn animations_wf(a: Animations) -> bool {
    &&& forall|i: int, j: int|
        0 <= i < j < a.animations@.len() ==> a.animations@[i].0 != a.animations@[j].0
    &&& forall|i: int| 0 <= i < a.animations@.len() ==> animation_wf(#[trigger] a.animations@[i].1)
    &&& match spec_find_animation(a.animations@, a.current_animation) {
        Some(anim) => anim.frames@.len() > 0 ==> a.current_frame < anim.frames@.len(),
        None => true,
    }
    &&& match spec_find_animation(a.animations@, a.current_animation) {
        Some(anim) => anim.frames@.len() == 0 ==> a.current_frame == 0,
        None => a.current_frame == 0,
    }
    &&& a.last_frame_time < 1000
}

impl Animations {
    pub fn new(current_animation: AnimationType, animations: Vec<(AnimationType, Animation)>) -> (r: Animations)
        requires
            forall|i: int, j: int|
                0 <= i < j < animations@.len() ==> animations@[i].0 != animations@[j].0,
            forall|i: int| 0 <= i < animations@.len() ==> animation_wf(#[trigger] animations@[i].1),
        ensures
            r.animations == animations,
            r.current_animation == current_animation,
            r.current_frame == 0,
            r.last_frame_time == 0,
            animations_wf(r),
    {
        Animations { current_animation, animations, current_frame: 0, last_frame_time: 0 }
    }
}

/// Facing of an entity, updated from pure cardinal movement.
#[derive(Clone, Copy, PartialEq, Eq, Structural, Debug)]
pub enum Direction {
    Down,
    Up,
    Left,
    Right,
}

/// Behaviour class of an AI-driven entity.
#[derive(Clone, Copy, PartialEq, Eq, Structural, Debug)]
pub enum AIType {
    Warrior,
}

/// Behavioural state of an AI-driven entity; the behaviour tree itself is an
/// extension point and only the timer is maintained so far.
#[derive(Clone, Copy, PartialEq, Eq, Structural, Debug)]
pub enum AIState {
    Idle,
}

/// Per-entity behaviour-timer state.
#[derive(Clone, Copy, PartialEq, Eq, Structural, Debug)]
pub struct AI {
    pub ai_type: AIType,
    pub state: AIState,
    pub last_think: u64,
}

impl AI {
    pub fn new(ai_type: AIType) -> (r: AI)
        ensures
            r == (AI { ai_type, state: AIState::Idle, last_think: 0u64 }),
    {
        AI { ai_type, state: AIState::Idle, last_think: 0 }
    }
}

/// Lifecycle stage of a bomb.
#[derive(Clone, Copy, PartialEq, Eq, Structural, Debug)]
pub enum BombThinkState {
    Spawned,
    Exploding,
    Exploded,
}

/// Time-driven bomb state machine: tracks milliseconds since spawn.
#[derive(Clone, Copy, PartialEq, Eq, Structural, Debug)]
pub struct BombThink {
    pub time_since_spawn: u64,
    pub state: BombThinkState,
}

impl BombThink {
    pub fn new() -> (r: BombThink)
        ensures
            r == (BombThink { time_since_spawn: 0u64, state: BombThinkState::Spawned }),
    {
        BombThink { time_since_spawn: 0, state: BombThinkState::Spawned }
    }
}

/// Notification emitted by a system. The event channel is an extension point
/// for damage and explosion notifications; no system emits a value yet, so
/// every returned event list is empty.
#[derive(Clone, Copy, PartialEq, Eq, Structural, Debug)]
pub enum Event {
    BombExploded(u64),
}

} // verus!
