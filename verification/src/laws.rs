//! The laws of the frame systems, stated and proved once over the same spec
//! functions the systems' contracts use.
use vstd::prelude::*;

use crate::components::Animations;
use crate::components::AnimationType;
use crate::components::Direction;
use crate::components::Moveable;
use crate::components::Position;
use crate::components::animations_wf;
use crate::components::moveable_wf;
use crate::components::spec_find_animation;
use crate::entity_system::Component;
use crate::numeric::lemma_sqrt_floor_unique;
use crate::systems::abs_axis;
use crate::systems::anim_step;
use crate::systems::dir_step;
use crate::systems::direction_step_map;
use crate::systems::cmd_le;
use crate::systems::MAX_SPEED;
use crate::systems::move_delta_x;
use crate::systems::move_delta_y;
use crate::systems::moved_position;
use crate::systems::RenderCommand;
use crate::systems::sorted_cmds;
use crate::systems::target_animation;
use vstd::arithmetic::div_mod::lemma_fundamental_div_mod;

verus! {

/// A purely horizontal or purely vertical full-speed intent moves the
/// position by exactly full speed times the tick, along that axis alone.
pub proof fn lemma_axis_aligned_move(p: Position, m: Moveable, dt: u32)
    requires
        moveable_wf(m),
        (m.dx == 1000 || m.dx == -1000) && m.dy == 0 || m.dx == 0 && (m.dy == 1000 || m.dy
            == -1000),
        p.x + (MAX_SPEED as int) * (dt as int) <= i64::MAX,
        p.x - (MAX_SPEED as int) * (dt as int) >= i64::MIN,
        p.y + (MAX_SPEED as int) * (dt as int) <= i64::MAX,
        p.y - (MAX_SPEED as int) * (dt as int) >= i64::MIN,
    ensures
        m.dx == 1000 && m.dy == 0 ==> moved_position(p, m, dt as nat) == (Position {
            x: (p.x + (MAX_SPEED as int) * (dt as int)) as i64,
            y: p.y,
        }),
        m.dx == -1000 && m.dy == 0 ==> moved_position(p, m, dt as nat) == (Position {
            x: (p.x - (MAX_SPEED as int) * (dt as int)) as i64,
            y: p.y,
        }),
        m.dx == 0 && m.dy == 1000 ==> moved_position(p, m, dt as nat) == (Position {
            x: p.x,
            y: (p.y + (MAX_SPEED as int) * (dt as int)) as i64,
        }),
        m.dx == 0 && m.dy == -1000 ==> moved_position(p, m, dt as nat) == (Position {
            x: p.x,
            y: (p.y - (MAX_SPEED as int) * (dt as int)) as i64,
        }),
{
    let dtn = dt as int;
    assert((MAX_SPEED as int) * 1000 * dtn / 1000 == (MAX_SPEED as int) * dtn) by (nonlinear_arith);
    assert((MAX_SPEED as int) * 0 * dtn / 1000 == 0) by (nonlinear_arith);
    if m.dy == 0 {
        assert(abs_axis(m.dx as int) == 1000);
        assert(abs_axis(m.dy as int) == 0);
    } else {
        assert(abs_axis(m.dy as int) == 1000);
        assert(abs_axis(m.dx as int) == 0);
    }
}

/// The squared length of one tick's movement vector.
pub open spec fn move_magnitude_sq(m: Moveable, dt: nat) -> int {
    move_delta_x(m, dt) * move_delta_x(m, dt) + move_delta_y(m, dt) * move_delta_y(m, dt)
}

/// A full diagonal intent is normalized: the movement vector's squared
/// length never exceeds the squared full-speed distance and stays within one
/// per cent of it.
pub proof fn lemma_diagonal_move_normalized(m: Moveable, dt: u32)
    requires
        m.dx == 1000 || m.dx == -1000,
        m.dy == 1000 || m.dy == -1000,
    ensures
        move_magnitude_sq(m, dt as nat) <= ((MAX_SPEED as int) * (dt as int)) * ((
        MAX_SPEED as int) * (dt as int)),
        100 * move_magnitude_sq(m, dt as nat) >= 99 * (((MAX_SPEED as int) * (dt as int)) * ((
        MAX_SPEED as int) * (dt as int))),
{
    let dtn = dt as int;
    assert(abs_axis(m.dx as int) == 1000 && abs_axis(m.dy as int) == 1000);
    assert(1414 * 1414 <= 2000000 < 1415 * 1415) by (nonlinear_arith);
    lemma_sqrt_floor_unique(2000000, 1414);
    assert(crate::numeric::sqrt_floor((1000 * 1000 + 1000 * 1000) as nat) == 1414);
    assert(1000 * 1000 / 1414 == 707);
    assert(crate::systems::norm_axis(1000, 1000) == 707);
    let q = ((MAX_SPEED as int) * 707 * dtn) / 1000;
    assert(crate::systems::axis_delta(707, dt as nat) == q);
    assert((MAX_SPEED as int) * 707 == 282800);
    lemma_fundamental_div_mod(282800 * dtn, 1000);
    let r = (282800 * dtn) % 1000;
    assert(282800 * dtn == 1000 * q + r && 0 <= r < 1000);
    assert(q >= 0) by (nonlinear_arith)
        requires
            282800 * dtn == 1000 * q + r,
            0 <= r < 1000,
            dtn >= 0,
    ;
    let target = (MAX_SPEED as int) * dtn;
    assert(move_delta_x(m, dt as nat) == q || move_delta_x(m, dt as nat) == -q);
    assert(move_delta_y(m, dt as nat) == q || move_delta_y(m, dt as nat) == -q);
    assert(move_magnitude_sq(m, dt as nat) == 2 * (q * q)) by (nonlinear_arith)
        requires
            move_delta_x(m, dt as nat) == q || move_delta_x(m, dt as nat) == -q,
            move_delta_y(m, dt as nat) == q || move_delta_y(m, dt as nat) == -q,
            move_magnitude_sq(m, dt as nat) == move_delta_x(m, dt as nat) * move_delta_x(
                m,
                dt as nat,
            ) + move_delta_y(m, dt as nat) * move_delta_y(m, dt as nat),
    ;
    assert(2 * ((1000 * q) * (1000 * q)) <= 1000000 * (target * target)) by (nonlinear_arith)
        requires
            1000 * q <= 282800 * dtn,
            q >= 0,
            dtn >= 0,
            target == 400 * dtn,
    ;
    assert(2 * (q * q) <= target * target) by (nonlinear_arith)
        requires
            2 * ((1000 * q) * (1000 * q)) <= 1000000 * (target * target),
    ;
    if dtn == 0 {
        assert(q == 0);
        assert(100 * (2 * (q * q)) >= 99 * (target * target)) by (nonlinear_arith)
            requires
                q == 0,
                target == 0,
        ;
    } else {
        assert(1000 * q >= 282800 * dtn - 999);
        assert(200 * ((1000 * q) * (1000 * q)) >= 99 * (1000000 * (target * target)))
            by (nonlinear_arith)
            requires
                1000 * q >= 282800 * dtn - 999,
                dtn >= 1,
                q >= 0,
                target == 400 * dtn,
        ;
        assert(100 * (2 * (q * q)) >= 99 * (target * target)) by (nonlinear_arith)
            requires
                200 * ((1000 * q) * (1000 * q)) >= 99 * (1000000 * (target * target)),
        ;
    }
}

/// The direction step is idempotent: with an unchanged intent, turning twice
/// is the same as turning once.
pub proof fn lemma_direction_idempotent(m: Moveable, d: Direction)
    ensures
        dir_step(m, dir_step(m, d)) == dir_step(m, d),
{
}

/// Running the direction system twice in succession over unchanged moveables
/// produces the same direction table as running it once.
pub proof fn lemma_direction_system_idempotent(mov: Map<u64, Component>, dir: Map<u64, Component>)
    ensures
        direction_step_map(mov, direction_step_map(mov, dir)) == direction_step_map(mov, dir),
{
    let once = direction_step_map(mov, dir);
    let twice = direction_step_map(mov, once);
    assert forall|id: u64| #[trigger] twice.contains_key(id) implies once.contains_key(id)
        && twice[id] == once[id] by {
        if mov.contains_key(id) {
            let m = crate::systems::spec_moveable(mov[id]);
            let d0 = crate::systems::spec_direction(dir[id]);
            lemma_direction_idempotent(m, d0);
        }
    }
    assert forall|id: u64| #[trigger] once.contains_key(id) implies twice.contains_key(id) by {}
    assert(twice =~= once);
}

/// The animation step keeps the player state well formed; in particular the
/// frame index stays inside the selected animation's frame sequence, for
/// every elapsed time.
pub proof fn lemma_animation_frame_in_range(
    a: Animations,
    mo: Option<Moveable>,
    di: Option<Direction>,
    dt: nat,
)
    requires
        animations_wf(a),
    ensures
        animations_wf(anim_step(a, mo, di, dt)),
        match spec_find_animation(
            anim_step(a, mo, di, dt).animations@,
            anim_step(a, mo, di, dt).current_animation,
        ) {
            Some(anim) => anim.frames@.len() > 0 ==> anim_step(a, mo, di, dt).current_frame
                < anim.frames@.len(),
            None => anim_step(a, mo, di, dt).current_frame == 0,
        },
{
    let r = anim_step(a, mo, di, dt);
    if a.current_animation == AnimationType::Empty {
    } else if spec_find_animation(a.animations@, a.current_animation) is None {
    } else {
        let target = target_animation(
            a.current_animation,
            di,
            crate::systems::is_moving(mo),
        );
        let cf0: int = if target != a.current_animation {
            0
        } else {
            a.current_frame as int
        };
        match spec_find_animation(a.animations@, target) {
            None => {},
            Some(anim) => {
                proof_fps_bound(a, target, anim);
                if anim.fps > 0 && anim.frames@.len() > 0 {
                    let period = 1000int / (anim.fps as int);
                    let len = anim.frames@.len() as int;
                    let acc = a.last_frame_time + dt;
                    let steps = acc as int / period;
                    assert(period >= 1) by (nonlinear_arith)
                        requires
                            period == 1000int / (anim.fps as int),
                            1 <= anim.fps <= 1000,
                    ;
                    assert(steps >= 0) by (nonlinear_arith)
                        requires
                            steps == acc as int / period,
                            acc >= 0,
                            period >= 1,
                    ;
                    assert(cf0 >= 0);
                    assert(0 <= (cf0 + steps) % len < len) by (nonlinear_arith)
                        requires
                            len >= 1,
                            cf0 + steps >= 0,
                    ;
                    assert(0 <= (acc as int) % period < period) by (nonlinear_arith)
                        requires
                            period >= 1,
                            acc >= 0,
                    ;
                }
            },
        }
    }
}

/// The animation found for a variant obeys the per-animation bounds of a
/// well-formed player.
proof fn proof_fps_bound(a: Animations, t: AnimationType, anim: crate::components::Animation)
    requires
        animations_wf(a),
        spec_find_animation(a.animations@, t) == Some(anim),
    ensures
        crate::components::animation_wf(anim),
{
    crate::components::lemma_find_animation_is_listed(a.animations@, t, 0);
    let j = choose|j: int|
        0 <= j < a.animations@.len() && (#[trigger] a.animations@[j]).0 == t && a.animations@[j].1
            == spec_find_animation(a.animations@, t)->Some_0;
    assert(crate::components::animation_wf(a.animations@[j].1));
}

/// Changing the selected animation variant restarts playback: the frame
/// index after a change counts from zero, whatever it was before.
pub proof fn lemma_animation_change_resets_frame(
    a: Animations,
    mo: Option<Moveable>,
    di: Option<Direction>,
    dt: nat,
)
    requires
        animations_wf(a),
        a.current_animation != AnimationType::Empty,
        spec_find_animation(a.animations@, a.current_animation) is Some,
        target_animation(a.current_animation, di, crate::systems::is_moving(mo))
            != a.current_animation,
    ensures
        anim_step(a, mo, di, dt).current_frame == (match spec_find_animation(
            a.animations@,
            target_animation(a.current_animation, di, crate::systems::is_moving(mo)),
        ) {
            Some(anim) => if anim.fps > 0 && anim.frames@.len() > 0 {
                (((a.last_frame_time + dt) as int / (1000int / (anim.fps as int))) % (
                anim.frames@.len() as int)) as usize
            } else {
                0
            },
            None => 0,
        }),
{
}

/// Attaching a component and then detaching it leaves the table without
/// that entity, exactly as if only a detach had run; a second detach then
/// finds nothing, which is the detach error condition.
pub proof fn lemma_attach_detach_round_trip(m: Map<u64, Component>, id: u64, c: Component)
    ensures
        !m.insert(id, c).remove(id).contains_key(id),
        m.insert(id, c).remove(id) == m.remove(id),
{
    assert(m.insert(id, c).remove(id) =~= m.remove(id));
}

/// Within one layer, draw commands are ordered by ascending world y: the
/// entity higher on screen is drawn first.
pub proof fn lemma_render_order(s: Seq<RenderCommand>, i: int, j: int)
    requires
        sorted_cmds(s),
        0 <= i < j < s.len(),
        s[i].layer == s[j].layer,
    ensures
        s[i].sort_y <= s[j].sort_y,
{
    assert(cmd_le(s[i], s[j]));
}

} // verus!
