//! The per-frame systems: movement integration, direction facing, animation
//! advance, AI and bomb timers, and the depth-sorted render pass.
//!
//! Each system runs once per tick over the component tables it needs. A
//! missing table means "zero entities of that kind". Each table-mutating
//! system rewrites one table pointwise; `map_transform` is the shape all of
//! those rewrites share.
use vstd::prelude::*;

use crate::GameError;
use crate::components::Animation;
use crate::components::Animations;
use crate::components::AnimationType;
use crate::components::BombThink;
use crate::components::BombThinkState;
use crate::components::Direction;
use crate::components::Drawable;
use crate::components::Event;
use crate::components::Moveable;
use crate::components::Position;
use crate::components::moveable_wf;
use crate::entity_system::as_moveable;
use crate::entity_system::as_position;
use crate::entity_system::Component;
use crate::entity_system::ComponentKind;
use crate::entity_system::EntitySystem;
use crate::entity_system::component_wf;
use crate::entity_system::kind_of;
use crate::numeric::isqrt;
use crate::numeric::sat_add_i64;
use crate::numeric::sat_add_i64_spec;
use crate::numeric::sqrt_floor;
use crate::table::distinct_keys;
use crate::table::lemma_pairs_map;
use crate::table::lemma_sorted_implies_distinct;
use crate::table::pairs_map;

verus! {

/// Failure of a per-frame system, carrying the entity that triggered it.
#[derive(Clone, Copy, PartialEq, Eq, Structural, Debug)]
pub enum SystemsError {
    /// An entity has a Moveable but no Position.
    Moveable(u64),
    /// A drawable entity could not be rendered.
    Drawable(u64),
    /// A drawable or animated entity has no Position.
    Position(u64),
    /// An entity has a Moveable but no Direction.
    Direction(u64),
}

/// Full speed of a moving entity, in pixels per second.
pub const MAX_SPEED: u64 = 400;

/// The position component of a tagged component value.
pub open spec fn spec_position(c: Component) -> Position {
    c->Position_0
}

/// The moveable component of a tagged component value.
pub open spec fn spec_moveable(c: Component) -> Moveable {
    c->Moveable_0
}

/// The direction component of a tagged component value.
pub open spec fn spec_direction(c: Component) -> Direction {
    c->Direction_0
}

/// The drawable component of a tagged component value.
pub open spec fn spec_drawable(c: Component) -> Drawable {
    c->Drawable_0
}

/// The animation-player component of a tagged component value.
pub open spec fn spec_animations(c: Component) -> Animations {
    c->Animations_0
}

/// The AI component of a tagged component value.
pub open spec fn spec_ai(c: Component) -> crate::components::AI {
    c->Ai_0
}

/// The bomb component of a tagged component value.
pub open spec fn spec_bomb_think(c: Component) -> BombThink {
    c->BombThink_0
}

/// `m0` rewritten pointwise: every identifier that `touch` also holds is
/// mapped through `f`; the rest keep their value. The domain is `m0`'s.
pub open spec fn map_transform(
    m0: Map<u64, Component>,
    touch: Map<u64, Component>,
    f: spec_fn(u64, Component) -> Component,
) -> Map<u64, Component> {
    Map::new(
        |id: u64| m0.contains_key(id),
        |id: u64|
            if touch.contains_key(id) {
                f(id, m0[id])
            } else {
                m0[id]
            },
    )
}

/// The rewrite after the first `n` entries of the driving pair list have been
/// applied; this is the shape of each system's loop.
pub open spec fn map_transform_prefix(
    p: Seq<(u64, Component)>,
    m0: Map<u64, Component>,
    f: spec_fn(u64, Component) -> Component,
    n: int,
) -> Map<u64, Component>
    decreases n,
{
    if n <= 0 {
        m0
    } else {
        let prev = map_transform_prefix(p, m0, f, n - 1);
        let id = p[n - 1].0;
        if prev.contains_key(id) {
            prev.insert(id, f(id, prev[id]))
        } else {
            prev
        }
    }
}

/// Pointwise description of the partial rewrite.
proof fn lemma_map_transform_prefix(
    p: Seq<(u64, Component)>,
    m0: Map<u64, Component>,
    f: spec_fn(u64, Component) -> Component,
    n: int,
)
    requires
        distinct_keys(p),
        0 <= n <= p.len(),
    ensures
        forall|id: u64| #[trigger]
            map_transform_prefix(p, m0, f, n).contains_key(id) <==> m0.contains_key(id),
        forall|id: u64|
            m0.contains_key(id) && (exists|j: int| 0 <= j < n && (#[trigger] p[j]).0 == id)
                ==> #[trigger] map_transform_prefix(p, m0, f, n)[id] == f(id, m0[id]),
        forall|id: u64|
            m0.contains_key(id) && !(exists|j: int| 0 <= j < n && (#[trigger] p[j]).0 == id)
                ==> #[trigger] map_transform_prefix(p, m0, f, n)[id] == m0[id],
    decreases n,
{
    if n > 0 {
        lemma_map_transform_prefix(p, m0, f, n - 1);
        let prev = map_transform_prefix(p, m0, f, n - 1);
        let cur = map_transform_prefix(p, m0, f, n);
        let k0 = p[n - 1].0;
        assert forall|id: u64|
            m0.contains_key(id) && (exists|j: int| 0 <= j < n && (#[trigger] p[j]).0 == id)
                implies #[trigger] cur[id] == f(id, m0[id]) by {
            let j = choose|j: int| 0 <= j < n && (#[trigger] p[j]).0 == id;
            if id == k0 {
                assert(!(exists|j2: int| 0 <= j2 < n - 1 && (#[trigger] p[j2]).0 == id)) by {
                    if exists|j2: int| 0 <= j2 < n - 1 && (#[trigger] p[j2]).0 == id {
                        let j2 = choose|j2: int| 0 <= j2 < n - 1 && (#[trigger] p[j2]).0 == id;
                        assert(p[j2].0 != p[n - 1].0);
                    }
                }
                assert(prev[id] == m0[id]);
                assert(cur == prev.insert(k0, f(k0, prev[k0])));
            } else {
                assert(j < n - 1);
                assert(exists|j2: int| 0 <= j2 < n - 1 && (#[trigger] p[j2]).0 == id);
                assert(prev[id] == f(id, m0[id]));
            }
        }
        assert forall|id: u64|
            m0.contains_key(id) && !(exists|j: int| 0 <= j < n && (#[trigger] p[j]).0 == id)
                implies #[trigger] cur[id] == m0[id] by {
            assert(id != k0) by {
                if id == k0 {
                    assert((p[n - 1]).0 == id);
                }
            }
            assert(!(exists|j2: int| 0 <= j2 < n - 1 && (#[trigger] p[j2]).0 == id)) by {
                if exists|j2: int| 0 <= j2 < n - 1 && (#[trigger] p[j2]).0 == id {
                    let j2 = choose|j2: int| 0 <= j2 < n - 1 && (#[trigger] p[j2]).0 == id;
                    assert((p[j2]).0 == id);
                }
            }
        }
    }
}

/// After the whole driving list is applied, the partial rewrite is the full
/// pointwise rewrite.
proof fn lemma_map_transform_full(
    p: Seq<(u64, Component)>,
    m0: Map<u64, Component>,
    touch: Map<u64, Component>,
    f: spec_fn(u64, Component) -> Component,
)
    requires
        distinct_keys(p),
        pairs_map(p) == touch,
    ensures
        map_transform_prefix(p, m0, f, p.len() as int) == map_transform(m0, touch, f),
{
    let n = p.len() as int;
    lemma_map_transform_prefix(p, m0, f, n);
    lemma_pairs_map(p);
    let lhs = map_transform_prefix(p, m0, f, n);
    let rhs = map_transform(m0, touch, f);
    assert forall|id: u64| #[trigger] lhs.contains_key(id) implies rhs.contains_key(id) by {}
    assert forall|id: u64| #[trigger] rhs.contains_key(id) implies lhs.contains_key(id) by {}
    assert forall|id: u64| #[trigger] lhs.contains_key(id) implies lhs[id] == rhs[id] by {
        if touch.contains_key(id) {
            assert(exists|j: int| 0 <= j < n && (#[trigger] p[j]).0 == id);
        } else {
            assert(!(exists|j: int| 0 <= j < n && (#[trigger] p[j]).0 == id)) by {
                if exists|j: int| 0 <= j < n && (#[trigger] p[j]).0 == id {
                    let j = choose|j: int| 0 <= j < n && (#[trigger] p[j]).0 == id;
                    assert(pairs_map(p).contains_key(p[j].0));
                }
            }
        }
    }
    assert(lhs =~= rhs);
}

/// Absolute value of a velocity axis, in thousandths of full speed.
pub open spec fn abs_axis(x: int) -> nat {
    if x >= 0 {
        x as nat
    } else {
        (-x) as nat
    }
}

/// Distance covered along one axis in `dt` milliseconds at an axis fraction
/// of `a` thousandths of full speed, in thousandths of a pixel.
pub open spec fn axis_delta(a: nat, dt: nat) -> nat {
    (((MAX_SPEED as int) * a * dt) / 1000) as nat
}

/// One axis of a diagonal intent normalized to unit length: `a` scaled by the
/// vector's inverse magnitude, in thousandths.
pub open spec fn norm_axis(a: nat, b: nat) -> nat {
    a * 1000 / sqrt_floor(a * a + b * b)
}

/// Signed distance the movement system covers along x in one tick.
pub open spec fn move_delta_x(m: Moveable, dt: nat) -> int {
    let a = abs_axis(m.dx as int);
    let b = abs_axis(m.dy as int);
    let mag = if m.dx != 0 && m.dy != 0 {
        axis_delta(norm_axis(a, b), dt)
    } else {
        axis_delta(a, dt)
    };
    if m.dx < 0 {
        -(mag as int)
    } else {
        mag as int
    }
}

/// Signed distance the movement system covers along y in one tick.
pub open spec fn move_delta_y(m: Moveable, dt: nat) -> int {
    let a = abs_axis(m.dy as int);
    let b = abs_axis(m.dx as int);
    let mag = if m.dx != 0 && m.dy != 0 {
        axis_delta(norm_axis(a, b), dt)
    } else {
        axis_delta(a, dt)
    };
    if m.dy < 0 {
        -(mag as int)
    } else {
        mag as int
    }
}

/// The position after one movement tick: the intent vector, normalized when
/// diagonal, scaled by full speed and the tick duration; coordinates saturate
/// at the representation limits.
pub open spec fn moved_position(p: Position, m: Moveable, dt: nat) -> Position {
    Position {
        x: sat_add_i64_spec(p.x as int, move_delta_x(m, dt)) as i64,
        y: sat_add_i64_spec(p.y as int, move_delta_y(m, dt)) as i64,
    }
}

/// The position table after one movement tick over a moveable table.
pub open spec fn moveable_step_map(
    mov: Map<u64, Component>,
    pos: Map<u64, Component>,
    dt: nat,
) -> Map<u64, Component> {
    map_transform(
        pos,
        mov,
        |id: u64, c: Component|
            Component::Position(moved_position(spec_position(c), spec_moveable(mov[id]), dt)),
    )
}

/// The magnitude of one tick's movement along one axis, with normalization
/// already applied.
fn scaled_axis(a: u64, norm: u64, diagonal: bool, dt: u32) -> (r: u64)
    requires
        a <= 1000,
        norm <= 1000,
    ensures
        r == axis_delta(if diagonal {
            norm as nat
        } else {
            a as nat
        }, dt as nat),
        r < 0x8000_0000_0000_0000,
{
    let basis: u64 = if diagonal {
        norm
    } else {
        a
    };
    assert((MAX_SPEED as int) * (basis as int) * (dt as int) < 0x8000_0000_0000_0000)
        by (nonlinear_arith)
        requires
            basis <= 1000u64,
            (dt as int) <= 0xFFFF_FFFF,
    ;
    (MAX_SPEED * basis * (dt as u64)) / 1000
}

/// One entity's movement integration.
fn move_position(p: &Position, m: &Moveable, dt: u32) -> (r: Position)
    requires
        moveable_wf(*m),
    ensures
        r == moved_position(*p, *m, dt as nat),
{
    let adx: u64 = if m.dx < 0 {
        (-m.dx) as u64
    } else {
        m.dx as u64
    };
    let ady: u64 = if m.dy < 0 {
        (-m.dy) as u64
    } else {
        m.dy as u64
    };
    let diagonal = m.dx != 0 && m.dy != 0;
    assert(adx * adx + ady * ady <= 2000000) by (nonlinear_arith)
        requires
            adx <= 1000u64,
            ady <= 1000u64,
    ;
    let (nx, ny): (u64, u64) = if diagonal {
        assert(adx >= 1 && ady >= 1);
        assert(adx * adx + ady * ady >= 1) by (nonlinear_arith)
            requires
                adx >= 1u64,
                ady >= 1u64,
        ;
        let len: u64 = isqrt(adx * adx + ady * ady);
        proof {
            crate::numeric::lemma_sqrt_floor_exists((adx * adx + ady * ady) as nat);
        }
        assert(len >= 1) by {
            if len == 0 {
                assert((len + 1) * (len + 1) == 1) by (nonlinear_arith)
                    requires
                        len == 0u64,
                ;
            }
        }
        assert(adx <= len && ady <= len) by (nonlinear_arith)
            requires
                len * len <= adx * adx + ady * ady,
                adx * adx + ady * ady < (len + 1) * (len + 1),
                adx <= 1000,
                ady <= 1000,
        ;
        let nx = adx * 1000 / len;
        let ny = ady * 1000 / len;
        assert(nx <= 1000 && ny <= 1000) by (nonlinear_arith)
            requires
                nx == (adx as int) * 1000 / (len as int),
                ny == (ady as int) * 1000 / (len as int),
                adx <= len,
                ady <= len,
                1 <= len,
        ;
        (nx, ny)
    } else {
        (0, 0)
    };
    let mx: u64 = scaled_axis(adx, nx, diagonal, dt);
    let my: u64 = scaled_axis(ady, ny, diagonal, dt);
    proof {
        assert(adx == abs_axis(m.dx as int));
        assert(ady == abs_axis(m.dy as int));
        if diagonal {
            assert(nx == norm_axis(adx as nat, ady as nat));
            assert(ny == norm_axis(ady as nat, adx as nat));
        }
    }
    let sx: i64 = if m.dx < 0 {
        -(mx as i64)
    } else {
        mx as i64
    };
    let sy: i64 = if m.dy < 0 {
        -(my as i64)
    } else {
        my as i64
    };
    proof {
        assert(sx == move_delta_x(*m, dt as nat));
        assert(sy == move_delta_y(*m, dt as nat));
    }
    Position { x: sat_add_i64(p.x, sx), y: sat_add_i64(p.y, sy) }
}

/// Movement system: for each entity with a Moveable, integrate its Position
/// by the intent vector, unit-normalized when diagonal, at full speed over
/// the tick. A Moveable without a Position is a per-frame data-consistency
/// error and leaves the store unchanged; a missing Moveable or Position
/// table makes the tick a no-op.
#[verifier::rlimit(60)]
#[verifier::loop_isolation(false)]
pub fn system_moveable(es: &mut EntitySystem, dt: u32) -> (r: Result<Option<Vec<Event>>, GameError>)
    requires
        old(es).wf(),
    ensures
        final(es).wf(),
        EntitySystem::same_entities(*old(es), *final(es)),
        EntitySystem::same_tables_except(*old(es), *final(es), ComponentKind::Position),
        final(es).has_table(ComponentKind::Position) == old(es).has_table(
            ComponentKind::Position,
        ),
        r is Err <==> old(es).has_table(ComponentKind::Moveable) && old(es).has_table(
            ComponentKind::Position,
        ) && (exists|id: u64|
            #[trigger] old(es).tmap(ComponentKind::Moveable).contains_key(id) && !old(es).tmap(
                ComponentKind::Position,
            ).contains_key(id)),
        r is Err ==> EntitySystem::same_tables(*old(es), *final(es)) && (match r->Err_0 {
            GameError::SystemsError(SystemsError::Moveable(id)) => old(es).tmap(
                ComponentKind::Moveable,
            ).contains_key(id) && !old(es).tmap(ComponentKind::Position).contains_key(id),
            _ => false,
        }),
        r is Ok ==> r->Ok_0 is None,
        r is Ok && old(es).has_table(ComponentKind::Moveable) && old(es).has_table(
            ComponentKind::Position,
        ) ==> final(es).tmap(ComponentKind::Position) == moveable_step_map(
            old(es).tmap(ComponentKind::Moveable),
            old(es).tmap(ComponentKind::Position),
            dt as nat,
        ),
        !(old(es).has_table(ComponentKind::Moveable) && old(es).has_table(ComponentKind::Position))
            ==> EntitySystem::same_tables(*old(es), *final(es)),
{
    let moveables = match es.borrow_all_components_of_type_mut(ComponentKind::Moveable) {
        Ok(t) => t,
        Err(_) => {
            return Ok(None);
        },
    };
    let mut positions = match es.borrow_all_components_of_type_mut(ComponentKind::Position) {
        Ok(t) => t,
        Err(_) => {
            es.restore_all_components_of_type(ComponentKind::Moveable, moveables);
            return Ok(None);
        },
    };
    let ghost mov0 = moveables@;
    let ghost pos0 = positions@;
    let ghost movp = moveables.pairs();
    proof {
        lemma_sorted_implies_distinct(movp);
        lemma_pairs_map(movp);
    }
    let ghost taken = *es;
    let n = moveables.len();
    let mut i: usize = 0;
    while i < n
        invariant
            i <= n,
            *es == taken,
            moveables.pairs() == movp,
            moveables@ == mov0,
            positions@ == pos0,
            positions.wf(),
            forall|j: int| 0 <= j < i ==> pos0.contains_key((#[trigger] movp[j]).0),
        decreases n - i,
    {
        let id = moveables.key_at(i);
        if !positions.contains(id) {
            proof {
                assert(mov0.contains_key(id));
                assert(old(es).tmap(ComponentKind::Moveable).contains_key(id) && !old(es).tmap(
                    ComponentKind::Position,
                ).contains_key(id));
            }
            es.restore_all_components_of_type(ComponentKind::Moveable, moveables);
            es.restore_all_components_of_type(ComponentKind::Position, positions);
            return Err(GameError::SystemsError(SystemsError::Moveable(id)));
        }
        i = i + 1;
    }
    proof {
        assert forall|id: u64| #[trigger] mov0.contains_key(id) implies pos0.contains_key(id) by {
            let j = choose|j: int| 0 <= j < movp.len() && (#[trigger] movp[j]).0 == id;
            assert(movp[j].0 == id);
        }
    }
    let ghost f = |id: u64, c: Component|
        Component::Position(moved_position(spec_position(c), spec_moveable(mov0[id]), dt as nat));
    let mut i: usize = 0;
    while i < n
        invariant
            i <= n,
            positions.wf(),
            forall|id: u64| #[trigger] positions@.contains_key(id) ==> kind_of(positions@[id])
                == ComponentKind::Position,
            positions@ == map_transform_prefix(movp, pos0, f, i as int),
        decreases n - i,
    {
        proof {
            lemma_map_transform_prefix(movp, pos0, f, i as int);
            lemma_map_transform_prefix(movp, pos0, f, i as int + 1);
        }
        let id = moveables.key_at(i);
        let m: Moveable = *as_moveable(moveables.value_at(i));
        proof {
            assert(movp[i as int].1 == mov0[id]);
            assert(mov0.contains_key(id));
            assert(positions@.contains_key(id));
        }
        let c = match positions.get(id) {
            Some(c) => c,
            None => {
                proof {
                    assert(false);
                }
                vstd::pervasive::unreached()
            },
        };
        let p: Position = *as_position(c);
        proof {
            assert(component_wf(mov0[id]));
            assert(mov0[id] == Component::Moveable(m));
        }
        let newp = move_position(&p, &m, dt);
        positions.insert(id, Component::Position(newp));
        proof {
            let prev = map_transform_prefix(movp, pos0, f, i as int);
            assert(prev[id] == pos0[id] || prev[id] == f(id, pos0[id])) by {
                if exists|j: int| 0 <= j < i && (#[trigger] movp[j]).0 == id {
                    let j = choose|j: int| 0 <= j < i && (#[trigger] movp[j]).0 == id;
                    assert(movp[j].0 == movp[i as int].0);
                    assert(false);
                }
            }
            assert(prev[id] == pos0[id]);
            assert(positions@ =~= map_transform_prefix(movp, pos0, f, i as int + 1));
        }
        i = i + 1;
    }
    let ghost mid = *es;
    es.restore_all_components_of_type(ComponentKind::Moveable, moveables);
    es.restore_all_components_of_type(ComponentKind::Position, positions);
    proof {
        lemma_map_transform_full(movp, pos0, mov0, f);
        assert(es.tmap(ComponentKind::Position) =~= moveable_step_map(mov0, pos0, dt as nat));
        assert forall|id: u64| #[trigger] old(es).tmap(ComponentKind::Moveable).contains_key(id)
            implies old(es).tmap(ComponentKind::Position).contains_key(id) by {
            assert(mov0.contains_key(id));
        }
    }
    Ok(None)
}

/// The facing after one direction tick: pure cardinal movement turns the
/// entity; diagonal or zero movement keeps the last facing.
pub open spec fn dir_step(m: Moveable, d: Direction) -> Direction {
    if m.dx != 0 && m.dy == 0 {
        if m.dx < 0 {
            Direction::Left
        } else {
            Direction::Right
        }
    } else if m.dx == 0 && m.dy != 0 {
        if m.dy < 0 {
            Direction::Up
        } else {
            Direction::Down
        }
    } else {
        d
    }
}

/// The direction table after one direction tick over a moveable table.
pub open spec fn direction_step_map(
    mov: Map<u64, Component>,
    dir: Map<u64, Component>,
) -> Map<u64, Component> {
    map_transform(
        dir,
        mov,
        |id: u64, c: Component|
            Component::Direction(dir_step(spec_moveable(mov[id]), spec_direction(c))),
    )
}

/// One entity's facing update.
fn dir_step_exec(m: &Moveable, d: Direction) -> (r: Direction)
    ensures
        r == dir_step(*m, d),
{
    if m.dx != 0 && m.dy == 0 {
        if m.dx < 0 {
            Direction::Left
        } else {
            Direction::Right
        }
    } else if m.dx == 0 && m.dy != 0 {
        if m.dy < 0 {
            Direction::Up
        } else {
            Direction::Down
        }
    } else {
        d
    }
}

/// Direction system: each entity with a Moveable faces its pure cardinal
/// movement; diagonal or zero movement keeps the last facing. A Moveable
/// without a Direction is a per-frame error; missing tables make the tick a
/// no-op.
#[verifier::rlimit(60)]
#[verifier::loop_isolation(false)]
pub fn system_direction(es: &mut EntitySystem, _dt: u32) -> (r: Result<
    Option<Vec<Event>>,
    GameError,
>)
    requires
        old(es).wf(),
    ensures
        final(es).wf(),
        EntitySystem::same_entities(*old(es), *final(es)),
        EntitySystem::same_tables_except(*old(es), *final(es), ComponentKind::Direction),
        final(es).has_table(ComponentKind::Direction) == old(es).has_table(
            ComponentKind::Direction,
        ),
        r is Err <==> old(es).has_table(ComponentKind::Moveable) && old(es).has_table(
            ComponentKind::Direction,
        ) && (exists|id: u64|
            #[trigger] old(es).tmap(ComponentKind::Moveable).contains_key(id) && !old(es).tmap(
                ComponentKind::Direction,
            ).contains_key(id)),
        r is Err ==> EntitySystem::same_tables(*old(es), *final(es)) && (match r->Err_0 {
            GameError::SystemsError(SystemsError::Direction(id)) => old(es).tmap(
                ComponentKind::Moveable,
            ).contains_key(id) && !old(es).tmap(ComponentKind::Direction).contains_key(id),
            _ => false,
        }),
        r is Ok ==> r->Ok_0 is None,
        r is Ok && old(es).has_table(ComponentKind::Moveable) && old(es).has_table(
            ComponentKind::Direction,
        ) ==> final(es).tmap(ComponentKind::Direction) == direction_step_map(
            old(es).tmap(ComponentKind::Moveable),
            old(es).tmap(ComponentKind::Direction),
        ),
        !(old(es).has_table(ComponentKind::Moveable) && old(es).has_table(ComponentKind::Direction))
            ==> EntitySystem::same_tables(*old(es), *final(es)),
{
    let moveables = match es.borrow_all_components_of_type_mut(ComponentKind::Moveable) {
        Ok(t) => t,
        Err(_) => {
            return Ok(None);
        },
    };
    let mut directions = match es.borrow_all_components_of_type_mut(ComponentKind::Direction) {
        Ok(t) => t,
        Err(_) => {
            es.restore_all_components_of_type(ComponentKind::Moveable, moveables);
            return Ok(None);
        },
    };
    let ghost mov0 = moveables@;
    let ghost dir0 = directions@;
    let ghost movp = moveables.pairs();
    proof {
        lemma_sorted_implies_distinct(movp);
        lemma_pairs_map(movp);
    }
    let ghost taken = *es;
    let n = moveables.len();
    let mut i: usize = 0;
    while i < n
        invariant
            i <= n,
            *es == taken,
            moveables.pairs() == movp,
            moveables@ == mov0,
            directions@ == dir0,
            directions.wf(),
            forall|j: int| 0 <= j < i ==> dir0.contains_key((#[trigger] movp[j]).0),
        decreases n - i,
    {
        let id = moveables.key_at(i);
        if !directions.contains(id) {
            proof {
                assert(mov0.contains_key(id));
                assert(old(es).tmap(ComponentKind::Moveable).contains_key(id) && !old(es).tmap(
                    ComponentKind::Direction,
                ).contains_key(id));
            }
            es.restore_all_components_of_type(ComponentKind::Moveable, moveables);
            es.restore_all_components_of_type(ComponentKind::Direction, directions);
            return Err(GameError::SystemsError(SystemsError::Direction(id)));
        }
        i = i + 1;
    }
    proof {
        assert forall|id: u64| #[trigger] mov0.contains_key(id) implies dir0.contains_key(id) by {
            let j = choose|j: int| 0 <= j < movp.len() && (#[trigger] movp[j]).0 == id;
            assert(movp[j].0 == id);
        }
    }
    let ghost f = |id: u64, c: Component|
        Component::Direction(dir_step(spec_moveable(mov0[id]), spec_direction(c)));
    let mut i: usize = 0;
    while i < n
        invariant
            i <= n,
            directions.wf(),
            forall|id: u64| #[trigger] directions@.contains_key(id) ==> kind_of(directions@[id])
                == ComponentKind::Direction,
            directions@ == map_transform_prefix(movp, dir0, f, i as int),
        decreases n - i,
    {
        proof {
            lemma_map_transform_prefix(movp, dir0, f, i as int);
            lemma_map_transform_prefix(movp, dir0, f, i as int + 1);
        }
        let id = moveables.key_at(i);
        let m: Moveable = *as_moveable(moveables.value_at(i));
        proof {
            assert(movp[i as int].1 == mov0[id]);
            assert(mov0.contains_key(id));
            assert(directions@.contains_key(id));
        }
        let c = match directions.get(id) {
            Some(c) => c,
            None => {
                proof {
                    assert(false);
                }
                vstd::pervasive::unreached()
            },
        };
        let d: Direction = *crate::entity_system::as_direction(c);
        proof {
            assert(mov0[id] == Component::Moveable(m));
        }
        let newd = dir_step_exec(&m, d);
        directions.insert(id, Component::Direction(newd));
        proof {
            let prev = map_transform_prefix(movp, dir0, f, i as int);
            assert(prev[id] == dir0[id]) by {
                if exists|j: int| 0 <= j < i && (#[trigger] movp[j]).0 == id {
                    let j = choose|j: int| 0 <= j < i && (#[trigger] movp[j]).0 == id;
                    assert(movp[j].0 == movp[i as int].0);
                    assert(false);
                }
            }
            assert(directions@ =~= map_transform_prefix(movp, dir0, f, i as int + 1));
        }
        i = i + 1;
    }
    es.restore_all_components_of_type(ComponentKind::Moveable, moveables);
    es.restore_all_components_of_type(ComponentKind::Direction, directions);
    proof {
        lemma_map_transform_full(movp, dir0, mov0, f);
        assert(es.tmap(ComponentKind::Direction) =~= direction_step_map(mov0, dir0));
        assert forall|id: u64| #[trigger] old(es).tmap(ComponentKind::Moveable).contains_key(id)
            implies old(es).tmap(ComponentKind::Direction).contains_key(id) by {
            assert(mov0.contains_key(id));
        }
    }
    Ok(None)
}

/// Milliseconds a bomb waits in `Spawned` before it starts exploding.
pub const BOMB_FUSE_MS: u64 = 2000;

/// One AI timer tick: the think clock accumulates the elapsed time.
pub open spec fn ai_step(a: crate::components::AI, dt: u64) -> crate::components::AI {
    crate::components::AI {
        ai_type: a.ai_type,
        state: a.state,
        last_think: a.last_think.saturating_add(dt),
    }
}

/// The AI table after one tick.
pub open spec fn ai_step_map(ais: Map<u64, Component>, dt: u64) -> Map<u64, Component> {
    map_transform(ais, ais, |id: u64, c: Component| Component::Ai(ai_step(spec_ai(c), dt as u64)))
}

/// One bomb tick: time since spawn accumulates, and a spawned bomb whose
/// fuse has run out starts exploding.
pub open spec fn bomb_step(b: BombThink, dt: u64) -> BombThink {
    let t = b.time_since_spawn.saturating_add(dt);
    BombThink {
        time_since_spawn: t,
        state: if b.state == BombThinkState::Spawned && t > BOMB_FUSE_MS {
            BombThinkState::Exploding
        } else {
            b.state
        },
    }
}

/// The bomb table after one tick.
pub open spec fn bomb_step_map(bombs: Map<u64, Component>, dt: u64) -> Map<u64, Component> {
    map_transform(
        bombs,
        bombs,
        |id: u64, c: Component| Component::BombThink(bomb_step(spec_bomb_think(c), dt as u64)),
    )
}

/// AI system: every entity with an AI component accumulates the elapsed time
/// into its think clock; behaviour dispatch is an extension point.
#[verifier::rlimit(60)]
#[verifier::loop_isolation(false)]
pub fn system_ai(es: &mut EntitySystem, dt: u32) -> (r: Result<Option<Vec<Event>>, GameError>)
    requires
        old(es).wf(),
    ensures
        final(es).wf(),
        EntitySystem::same_entities(*old(es), *final(es)),
        EntitySystem::same_tables_except(*old(es), *final(es), ComponentKind::Ai),
        final(es).has_table(ComponentKind::Ai) == old(es).has_table(ComponentKind::Ai),
        r == Result::<Option<Vec<Event>>, GameError>::Ok(None),
        old(es).has_table(ComponentKind::Ai) ==> final(es).tmap(ComponentKind::Ai) == ai_step_map(
            old(es).tmap(ComponentKind::Ai),
            dt as u64,
        ),
        !old(es).has_table(ComponentKind::Ai) ==> EntitySystem::same_tables(
            *old(es),
            *final(es),
        ),
{
    let mut ais = match es.borrow_all_components_of_type_mut(ComponentKind::Ai) {
        Ok(t) => t,
        Err(_) => {
            return Ok(None);
        },
    };
    let ghost ai0 = ais@;
    let ghost p0 = ais.pairs();
    proof {
        lemma_sorted_implies_distinct(p0);
        lemma_pairs_map(p0);
    }
    let ghost f = |id: u64, c: Component| Component::Ai(ai_step(spec_ai(c), dt as u64));
    let n = ais.len();
    let mut i: usize = 0;
    while i < n
        invariant
            i <= n,
            ais.pairs().len() == n,
            forall|j: int| 0 <= j < n ==> (#[trigger] ais.pairs()[j]).0 == p0[j].0,
            forall|j: int| i <= j < n ==> (#[trigger] ais.pairs()[j]).1 == p0[j].1,
            ais.wf(),
            forall|id: u64| #[trigger] ais@.contains_key(id) ==> kind_of(ais@[id])
                == ComponentKind::Ai,
            ais@ == map_transform_prefix(p0, ai0, f, i as int),
        decreases n - i,
    {
        proof {
            lemma_map_transform_prefix(p0, ai0, f, i as int);
            lemma_map_transform_prefix(p0, ai0, f, i as int + 1);
        }
        let ghost pre_pairs = ais.pairs();
        let (id, c) = ais.extract_at(i);
        proof {
            pre_pairs.remove_ensures(i as int);
            assert(pre_pairs[i as int] == p0[i as int]);
            assert(ai0.contains_key(id) && ai0[id] == p0[i as int].1) by {
                assert(p0[i as int].0 == id);
            }
            assert(c == ai0[id]);
        }
        let a: crate::components::AI = *crate::entity_system::as_ai(&c);
        let newc = Component::Ai(crate::components::AI {
            ai_type: a.ai_type,
            state: a.state,
            last_think: a.last_think.saturating_add(dt as u64),
        });
        proof {
            assert(newc == f(id, ai0[id]));
            assert forall|j: int| 0 <= j < i implies (#[trigger] ais.pairs()[j]).0 < id by {
                assert(ais.pairs()[j].0 == p0[j].0);
                assert(p0[j].0 < p0[i as int].0);
            }
            assert forall|j: int| i <= j < ais.pairs().len() implies (#[trigger] ais.pairs()[j]).0
                > id by {
                assert(ais.pairs()[j] == pre_pairs[j + 1]);
                assert(pre_pairs[j + 1].0 == p0[j + 1].0);
                assert(p0[i as int].0 < p0[j + 1].0);
            }
        }
        let ghost mid_pairs = ais.pairs();
        ais.insert_at(i, (id, newc));
        proof {
            mid_pairs.insert_ensures(i as int, (id, newc));
            let prev = map_transform_prefix(p0, ai0, f, i as int);
            assert(prev[id] == ai0[id]) by {
                if exists|j: int| 0 <= j < i && (#[trigger] p0[j]).0 == id {
                    let j = choose|j: int| 0 <= j < i && (#[trigger] p0[j]).0 == id;
                    assert(p0[j].0 == p0[i as int].0);
                    assert(false);
                }
            }
            assert(ais@ =~= map_transform_prefix(p0, ai0, f, i as int + 1));
            assert forall|j: int| 0 <= j < n implies (#[trigger] ais.pairs()[j]).0 == p0[j].0 by {
                if j < i {
                    assert(ais.pairs()[j] == mid_pairs[j]);
                    assert(mid_pairs[j] == pre_pairs[j]);
                } else if j == i {
                } else {
                    assert(ais.pairs()[j] == mid_pairs[j - 1]);
                    assert(mid_pairs[j - 1] == pre_pairs[j]);
                }
            }
            assert forall|j: int| i + 1 <= j < n implies (#[trigger] ais.pairs()[j]).1 == p0[j].1
                by {
                assert(ais.pairs()[j] == mid_pairs[j - 1]);
                assert(mid_pairs[j - 1] == pre_pairs[j]);
            }
        }
        i = i + 1;
    }
    es.restore_all_components_of_type(ComponentKind::Ai, ais);
    proof {
        lemma_map_transform_full(p0, ai0, ai0, f);
        assert(es.tmap(ComponentKind::Ai) =~= ai_step_map(ai0, dt as u64));
    }
    Ok(None)
}

/// Bomb lifecycle system: every bomb accumulates time since spawn, and a
/// spawned bomb whose fuse has run out transitions to exploding. The event
/// list is an extension point and stays empty.
#[verifier::rlimit(60)]
#[verifier::loop_isolation(false)]
pub fn system_bomb_think(es: &mut EntitySystem, dt: u32) -> (r: Result<
    Option<Vec<Event>>,
    GameError,
>)
    requires
        old(es).wf(),
    ensures
        final(es).wf(),
        EntitySystem::same_entities(*old(es), *final(es)),
        EntitySystem::same_tables_except(*old(es), *final(es), ComponentKind::BombThink),
        final(es).has_table(ComponentKind::BombThink) == old(es).has_table(
            ComponentKind::BombThink,
        ),
        r == Result::<Option<Vec<Event>>, GameError>::Ok(None),
        old(es).has_table(ComponentKind::BombThink) ==> final(es).tmap(ComponentKind::BombThink)
            == bomb_step_map(old(es).tmap(ComponentKind::BombThink), dt as u64),
        !old(es).has_table(ComponentKind::BombThink) ==> EntitySystem::same_tables(
            *old(es),
            *final(es),
        ),
{
    let mut bombs = match es.borrow_all_components_of_type_mut(ComponentKind::BombThink) {
        Ok(t) => t,
        Err(_) => {
            return Ok(None);
        },
    };
    let ghost b0 = bombs@;
    let ghost p0 = bombs.pairs();
    proof {
        lemma_sorted_implies_distinct(p0);
        lemma_pairs_map(p0);
    }
    let ghost f = |id: u64, c: Component|
        Component::BombThink(bomb_step(spec_bomb_think(c), dt as u64));
    let n = bombs.len();
    let mut i: usize = 0;
    while i < n
        invariant
            i <= n,
            bombs.pairs().len() == n,
            forall|j: int| 0 <= j < n ==> (#[trigger] bombs.pairs()[j]).0 == p0[j].0,
            forall|j: int| i <= j < n ==> (#[trigger] bombs.pairs()[j]).1 == p0[j].1,
            bombs.wf(),
            forall|id: u64| #[trigger] bombs@.contains_key(id) ==> kind_of(bombs@[id])
                == ComponentKind::BombThink,
            bombs@ == map_transform_prefix(p0, b0, f, i as int),
        decreases n - i,
    {
        proof {
            lemma_map_transform_prefix(p0, b0, f, i as int);
            lemma_map_transform_prefix(p0, b0, f, i as int + 1);
        }
        let ghost pre_pairs = bombs.pairs();
        let (id, c) = bombs.extract_at(i);
        proof {
            pre_pairs.remove_ensures(i as int);
            assert(pre_pairs[i as int] == p0[i as int]);
            assert(b0.contains_key(id) && b0[id] == p0[i as int].1) by {
                assert(p0[i as int].0 == id);
            }
            assert(c == b0[id]);
        }
        let b: BombThink = *crate::entity_system::as_bomb_think(&c);
        let t = b.time_since_spawn.saturating_add(dt as u64);
        let st = if matches!(b.state, BombThinkState::Spawned) && t > BOMB_FUSE_MS {
            BombThinkState::Exploding
        } else {
            b.state
        };
        let newc = Component::BombThink(BombThink { time_since_spawn: t, state: st });
        proof {
            assert(newc == f(id, b0[id]));
            assert forall|j: int| 0 <= j < i implies (#[trigger] bombs.pairs()[j]).0 < id by {
                assert(bombs.pairs()[j].0 == p0[j].0);
                assert(p0[j].0 < p0[i as int].0);
            }
            assert forall|j: int| i <= j < bombs.pairs().len() implies (
            #[trigger] bombs.pairs()[j]).0 > id by {
                assert(bombs.pairs()[j] == pre_pairs[j + 1]);
                assert(pre_pairs[j + 1].0 == p0[j + 1].0);
                assert(p0[i as int].0 < p0[j + 1].0);
            }
        }
        let ghost mid_pairs = bombs.pairs();
        bombs.insert_at(i, (id, newc));
        proof {
            mid_pairs.insert_ensures(i as int, (id, newc));
            let prev = map_transform_prefix(p0, b0, f, i as int);
            assert(prev[id] == b0[id]) by {
                if exists|j: int| 0 <= j < i && (#[trigger] p0[j]).0 == id {
                    let j = choose|j: int| 0 <= j < i && (#[trigger] p0[j]).0 == id;
                    assert(p0[j].0 == p0[i as int].0);
                    assert(false);
                }
            }
            assert(bombs@ =~= map_transform_prefix(p0, b0, f, i as int + 1));
            assert forall|j: int| 0 <= j < n implies (#[trigger] bombs.pairs()[j]).0 == p0[j].0 by {
                if j < i {
                    assert(bombs.pairs()[j] == mid_pairs[j]);
                    assert(mid_pairs[j] == pre_pairs[j]);
                } else if j == i {
                } else {
                    assert(bombs.pairs()[j] == mid_pairs[j - 1]);
                    assert(mid_pairs[j - 1] == pre_pairs[j]);
                }
            }
            assert forall|j: int| i + 1 <= j < n implies (#[trigger] bombs.pairs()[j]).1
                == p0[j].1 by {
                assert(bombs.pairs()[j] == mid_pairs[j - 1]);
                assert(mid_pairs[j - 1] == pre_pairs[j]);
            }
        }
        i = i + 1;
    }
    es.restore_all_components_of_type(ComponentKind::BombThink, bombs);
    proof {
        lemma_map_transform_full(p0, b0, b0, f);
        assert(es.tmap(ComponentKind::BombThink) =~= bomb_step_map(b0, dt as u64));
    }
    Ok(None)
}

/// Whether a moveable intent means the entity is moving; no moveable means
/// standing still.
pub open spec fn is_moving(mo: Option<Moveable>) -> bool {
    match mo {
        Some(m) => m.dx != 0 || m.dy != 0,
        None => false,
    }
}

/// The animation variant an entity should play, from its facing and whether
/// it is moving; an entity with no facing keeps its selected variant.
pub open spec fn target_animation(cur: AnimationType, di: Option<Direction>, moving: bool) -> AnimationType {
    match di {
        None => cur,
        Some(Direction::Up) => if moving {
            AnimationType::WalkingUp
        } else {
            AnimationType::StandingUp
        },
        Some(Direction::Down) => if moving {
            AnimationType::WalkingDown
        } else {
            AnimationType::StandingDown
        },
        Some(Direction::Right) => if moving {
            AnimationType::WalkingRight
        } else {
            AnimationType::StandingRight
        },
        Some(Direction::Left) => if moving {
            AnimationType::WalkingLeft
        } else {
            AnimationType::StandingLeft
        },
    }
}

/// One animation tick for one entity. An empty or unknown selected variant
/// freezes the player. Otherwise the target variant is resolved; a change of
/// variant restarts at frame zero in the same tick. A positive playback rate
/// advances the frame index by the number of whole frame periods in the
/// accumulated time, wrapping modulo the frame count, and keeps the
/// sub-period remainder.
pub open spec fn anim_step(a: Animations, mo: Option<Moveable>, di: Option<Direction>, dt: nat) -> Animations {
    if a.current_animation == AnimationType::Empty {
        a
    } else if crate::components::spec_find_animation(a.animations@, a.current_animation) is None {
        a
    } else {
        let target = target_animation(a.current_animation, di, is_moving(mo));
        let cf0: int = if target != a.current_animation {
            0
        } else {
            a.current_frame as int
        };
        match crate::components::spec_find_animation(a.animations@, target) {
            None => Animations {
                animations: a.animations,
                current_animation: target,
                current_frame: 0,
                last_frame_time: a.last_frame_time,
            },
            Some(anim) => {
                if anim.fps > 0 && anim.frames@.len() > 0 {
                    let period = 1000int / (anim.fps as int);
                    let acc = a.last_frame_time + dt;
                    let steps = acc as int / period;
                    Animations {
                        animations: a.animations,
                        current_animation: target,
                        current_frame: ((cf0 + steps) % (anim.frames@.len() as int)) as usize,
                        last_frame_time: ((acc as int) % period) as u32,
                    }
                } else {
                    Animations {
                        animations: a.animations,
                        current_animation: target,
                        current_frame: cf0 as usize,
                        last_frame_time: a.last_frame_time,
                    }
                }
            },
        }
    }
}

/// The animation table after one tick, given the moveable and direction
/// tables (empty maps when those tables were never created).
pub open spec fn animation_step_map(
    an: Map<u64, Component>,
    mov: Map<u64, Component>,
    dir: Map<u64, Component>,
    dt: nat,
) -> Map<u64, Component> {
    map_transform(
        an,
        an,
        |id: u64, c: Component|
            Component::Animations(
                anim_step(
                    spec_animations(c),
                    if mov.contains_key(id) {
                        Some(spec_moveable(mov[id]))
                    } else {
                        None
                    },
                    if dir.contains_key(id) {
                        Some(spec_direction(dir[id]))
                    } else {
                        None
                    },
                    dt,
                ),
            ),
    )
}

/// The position of the first entry for a variant, if any.
#[verifier::loop_isolation(false)]
fn find_animation_index(list: &Vec<(AnimationType, Animation)>, t: AnimationType) -> (r: Option<
    usize,
>)
    ensures
        match r {
            Some(i) => i < list@.len() && list@[i as int].0 == t
                && crate::components::spec_find_animation(list@, t) == Some(list@[i as int].1),
            None => crate::components::spec_find_animation(list@, t) is None,
        },
{
    let n = list.len();
    let mut i: usize = 0;
    while i < n
        invariant
            i <= n,
            crate::components::find_animation_from(list@, t, 0)
                == crate::components::find_animation_from(list@, t, i as int),
        decreases n - i,
    {
        if list[i].0 == t {
            return Some(i);
        }
        i = i + 1;
    }
    None
}

/// One entity's animation update.
fn anim_step_exec(a: Animations, mo: Option<Moveable>, di: Option<Direction>, dt: u32) -> (r: Animations)
    requires
        crate::components::animations_wf(a),
    ensures
        r == anim_step(a, mo, di, dt as nat),
        crate::components::animations_wf(r),
{
    if matches!(a.current_animation, AnimationType::Empty) {
        return a;
    }
    match find_animation_index(&a.animations, a.current_animation) {
        None => {
            return a;
        },
        Some(_) => {},
    }
    let moving = match mo {
        Some(m) => m.dx != 0 || m.dy != 0,
        None => false,
    };
    let target = match di {
        None => a.current_animation,
        Some(Direction::Up) => if moving {
            AnimationType::WalkingUp
        } else {
            AnimationType::StandingUp
        },
        Some(Direction::Down) => if moving {
            AnimationType::WalkingDown
        } else {
            AnimationType::StandingDown
        },
        Some(Direction::Right) => if moving {
            AnimationType::WalkingRight
        } else {
            AnimationType::StandingRight
        },
        Some(Direction::Left) => if moving {
            AnimationType::WalkingLeft
        } else {
            AnimationType::StandingLeft
        },
    };
    let changed = target != a.current_animation;
    let cf0: usize = if changed {
        0
    } else {
        a.current_frame
    };
    match find_animation_index(&a.animations, target) {
        None => Animations {
            animations: a.animations,
            current_animation: target,
            current_frame: 0,
            last_frame_time: a.last_frame_time,
        },
        Some(ti) => {
            let fps = a.animations[ti].1.fps;
            let flen = a.animations[ti].1.frames.len();
            proof {
                assert(crate::components::animation_wf(a.animations@[ti as int].1));
            }
            if fps > 0 && flen > 0 {
                let period: u64 = 1000 / (fps as u64);
                assert(period >= 1) by (nonlinear_arith)
                    requires
                        period == 1000 as int / (fps as int),
                        1 <= fps,
                        fps <= 1000u32,
                ;
                let acc: u64 = (a.last_frame_time as u64) + (dt as u64);
                let steps: u64 = acc / period;
                proof {
                    assert(cf0 < flen);
                    assert(steps <= acc);
                }
                let newcf: usize = (((cf0 as u64) + steps) % (flen as u64)) as usize;
                let newlft: u32 = (acc % period) as u32;
                Animations {
                    animations: a.animations,
                    current_animation: target,
                    current_frame: newcf,
                    last_frame_time: newlft,
                }
            } else {
                Animations {
                    animations: a.animations,
                    current_animation: target,
                    current_frame: cf0,
                    last_frame_time: a.last_frame_time,
                }
            }
        },
    }
}

/// Animation system: each entity's animation player resolves its variant
/// from facing and movement, restarts on a variant change, and advances its
/// frame index by the elapsed time. Missing moveable or direction tables
/// read as empty; a missing animation table makes the tick a no-op.
#[verifier::rlimit(100)]
#[verifier::loop_isolation(false)]
pub fn system_animation(es: &mut EntitySystem, dt: u32) -> (r: Result<
    Option<Vec<Event>>,
    GameError,
>)
    requires
        old(es).wf(),
    ensures
        final(es).wf(),
        EntitySystem::same_entities(*old(es), *final(es)),
        EntitySystem::same_tables_except(*old(es), *final(es), ComponentKind::Animations),
        final(es).has_table(ComponentKind::Animations) == old(es).has_table(
            ComponentKind::Animations,
        ),
        r == Result::<Option<Vec<Event>>, GameError>::Ok(None),
        old(es).has_table(ComponentKind::Animations) ==> final(es).tmap(ComponentKind::Animations)
            == animation_step_map(
            old(es).tmap(ComponentKind::Animations),
            old(es).tmap(ComponentKind::Moveable),
            old(es).tmap(ComponentKind::Direction),
            dt as nat,
        ),
        !old(es).has_table(ComponentKind::Animations) ==> EntitySystem::same_tables(
            *old(es),
            *final(es),
        ),
{
    let mut anims = match es.borrow_all_components_of_type_mut(ComponentKind::Animations) {
        Ok(t) => t,
        Err(_) => {
            return Ok(None);
        },
    };
    let ghost an0 = anims@;
    let ghost p0 = anims.pairs();
    let ghost mov_m = es.tmap(ComponentKind::Moveable);
    let ghost dir_m = es.tmap(ComponentKind::Direction);
    proof {
        lemma_sorted_implies_distinct(p0);
        lemma_pairs_map(p0);
        assert(mov_m == old(es).tmap(ComponentKind::Moveable));
        assert(dir_m == old(es).tmap(ComponentKind::Direction));
    }
    let ghost f = |id: u64, c: Component|
        Component::Animations(
            anim_step(
                spec_animations(c),
                if mov_m.contains_key(id) {
                    Some(spec_moveable(mov_m[id]))
                } else {
                    None
                },
                if dir_m.contains_key(id) {
                    Some(spec_direction(dir_m[id]))
                } else {
                    None
                },
                dt as nat,
            ),
        );
    let n = anims.len();
    let mut i: usize = 0;
    while i < n
        invariant
            i <= n,
            anims.pairs().len() == n,
            forall|j: int| 0 <= j < n ==> (#[trigger] anims.pairs()[j]).0 == p0[j].0,
            forall|j: int| i <= j < n ==> (#[trigger] anims.pairs()[j]).1 == p0[j].1,
            anims.wf(),
            forall|id: u64| #[trigger] anims@.contains_key(id) ==> kind_of(anims@[id])
                == ComponentKind::Animations && component_wf(anims@[id]),
            anims@ == map_transform_prefix(p0, an0, f, i as int),
        decreases n - i,
    {
        proof {
            lemma_map_transform_prefix(p0, an0, f, i as int);
            lemma_map_transform_prefix(p0, an0, f, i as int + 1);
        }
        let ghost pre_pairs = anims.pairs();
        let (id, c) = anims.extract_at(i);
        proof {
            pre_pairs.remove_ensures(i as int);
            assert(pre_pairs[i as int] == p0[i as int]);
            assert(an0.contains_key(id) && an0[id] == p0[i as int].1) by {
                assert(p0[i as int].0 == id);
            }
            assert(c == an0[id]);
        }
        let mo: Option<Moveable> = match es.borrow_all_components_of_type(ComponentKind::Moveable) {
            Ok(t) => match t.get(id) {
                Some(mc) => Some(*as_moveable(mc)),
                None => None,
            },
            Err(_) => None,
        };
        let di: Option<Direction> = match es.borrow_all_components_of_type(
            ComponentKind::Direction,
        ) {
            Ok(t) => match t.get(id) {
                Some(dc) => Some(*crate::entity_system::as_direction(dc)),
                None => None,
            },
            Err(_) => None,
        };
        proof {
            assert(mo == if mov_m.contains_key(id) {
                Some(spec_moveable(mov_m[id]))
            } else {
                None::<Moveable>
            });
            assert(di == if dir_m.contains_key(id) {
                Some(spec_direction(dir_m[id]))
            } else {
                None::<Direction>
            });
        }
        let a = crate::entity_system::into_animations(c);
        let newa = anim_step_exec(a, mo, di, dt);
        let newc = Component::Animations(newa);
        proof {
            assert(newc == f(id, an0[id]));
            assert forall|j: int| 0 <= j < i implies (#[trigger] anims.pairs()[j]).0 < id by {
                assert(anims.pairs()[j].0 == p0[j].0);
                assert(p0[j].0 < p0[i as int].0);
            }
            assert forall|j: int| i <= j < anims.pairs().len() implies (
            #[trigger] anims.pairs()[j]).0 > id by {
                assert(anims.pairs()[j] == pre_pairs[j + 1]);
                assert(pre_pairs[j + 1].0 == p0[j + 1].0);
                assert(p0[i as int].0 < p0[j + 1].0);
            }
        }
        let ghost mid_pairs = anims.pairs();
        anims.insert_at(i, (id, newc));
        proof {
            mid_pairs.insert_ensures(i as int, (id, newc));
            let prev = map_transform_prefix(p0, an0, f, i as int);
            assert(prev[id] == an0[id]) by {
                if exists|j: int| 0 <= j < i && (#[trigger] p0[j]).0 == id {
                    let j = choose|j: int| 0 <= j < i && (#[trigger] p0[j]).0 == id;
                    assert(p0[j].0 == p0[i as int].0);
                    assert(false);
                }
            }
            assert(anims@ =~= map_transform_prefix(p0, an0, f, i as int + 1));
            assert forall|j: int| 0 <= j < n implies (#[trigger] anims.pairs()[j]).0 == p0[j].0
                by {
                if j < i {
                    assert(anims.pairs()[j] == mid_pairs[j]);
                    assert(mid_pairs[j] == pre_pairs[j]);
                } else if j == i {
                } else {
                    assert(anims.pairs()[j] == mid_pairs[j - 1]);
                    assert(mid_pairs[j - 1] == pre_pairs[j]);
                }
            }
            assert forall|j: int| i + 1 <= j < n implies (#[trigger] anims.pairs()[j]).1
                == p0[j].1 by {
                assert(anims.pairs()[j] == mid_pairs[j - 1]);
                assert(mid_pairs[j - 1] == pre_pairs[j]);
            }
        }
        i = i + 1;
    }
    es.restore_all_components_of_type(ComponentKind::Animations, anims);
    proof {
        lemma_map_transform_full(p0, an0, an0, f);
        assert(es.tmap(ComponentKind::Animations) =~= animation_step_map(
            an0,
            mov_m,
            dir_m,
            dt as nat,
        ));
    }
    Ok(None)
}

/// Pixel magnification applied when a sprite is copied to the screen.
pub const ZOOM: u64 = 2;

/// One draw operation: copy a source rectangle of the shared sprite sheet to
/// a zoomed rectangle centred on the entity, optionally flipped. Commands are
/// ordered by layer, then by world y, so later commands draw over earlier
/// ones.
#[derive(Clone, Copy, PartialEq, Eq, Structural, Debug)]
pub struct RenderCommand {
    pub id: u64,
    pub src_x: i32,
    pub src_y: i32,
    pub src_w: u32,
    pub src_h: u32,
    pub dest_center_x: i64,
    pub dest_center_y: i64,
    pub dest_w: u64,
    pub dest_h: u64,
    pub flip_horizontal: bool,
    pub flip_vertical: bool,
    pub layer: u32,
    pub sort_y: i64,
}

/// Draw order: ascending layer, then ascending world y within a layer.
pub open spec fn cmd_le(a: RenderCommand, b: RenderCommand) -> bool {
    a.layer < b.layer || (a.layer == b.layer && a.sort_y <= b.sort_y)
}

/// The command list is in draw order.
pub open spec fn sorted_cmds(s: Seq<RenderCommand>) -> bool {
    forall|i: int, j: int| 0 <= i < j < s.len() ==> cmd_le(s[i], s[j])
}

/// The draw command of a static sprite.
pub open spec fn drawable_command(id: u64, d: Drawable, p: Position) -> RenderCommand {
    RenderCommand {
        id,
        src_x: d.x,
        src_y: d.y,
        src_w: d.w,
        src_h: d.h,
        dest_center_x: crate::numeric::milli_to_px_spec(p.x as int) as i64,
        dest_center_y: crate::numeric::milli_to_px_spec(p.y as int) as i64,
        dest_w: ((ZOOM as int) * (d.w as int)) as u64,
        dest_h: ((ZOOM as int) * (d.h as int)) as u64,
        flip_horizontal: false,
        flip_vertical: false,
        layer: d.layer,
        sort_y: p.y,
    }
}

/// The draw command of an animated sprite's current frame.
pub open spec fn animation_command(id: u64, fr: Drawable, anim: Animation, p: Position) -> RenderCommand {
    RenderCommand {
        id,
        src_x: fr.x,
        src_y: fr.y,
        src_w: fr.w,
        src_h: fr.h,
        dest_center_x: crate::numeric::milli_to_px_spec(p.x as int) as i64,
        dest_center_y: crate::numeric::milli_to_px_spec(p.y as int) as i64,
        dest_w: ((ZOOM as int) * (fr.w as int)) as u64,
        dest_h: ((ZOOM as int) * (fr.h as int)) as u64,
        flip_horizontal: anim.flip_horizontal,
        flip_vertical: anim.flip_vertical,
        layer: fr.layer,
        sort_y: p.y,
    }
}

/// The selected animation and its current frame, when the player state
/// resolves to a drawable frame.
pub open spec fn anim_frame_of(a: Animations) -> Option<(Animation, Drawable)> {
    if a.current_animation == AnimationType::Empty {
        None
    } else {
        match crate::components::spec_find_animation(a.animations@, a.current_animation) {
            None => None,
            Some(anim) => if a.current_frame < anim.frames@.len() {
                Some((anim, anim.frames@[a.current_frame as int]))
            } else {
                None
            },
        }
    }
}

/// Commands collected from the first `n` drawable entries; entities without
/// a position contribute nothing here, the system rejects them instead.
pub open spec fn drawable_commands_prefix(
    dp: Seq<(u64, Component)>,
    pos: Map<u64, Component>,
    n: int,
) -> Seq<RenderCommand>
    decreases n,
{
    if n <= 0 {
        Seq::empty()
    } else {
        let pre = drawable_commands_prefix(dp, pos, n - 1);
        let pr = dp[n - 1];
        if pos.contains_key(pr.0) {
            pre.push(drawable_command(pr.0, spec_drawable(pr.1), spec_position(pos[pr.0])))
        } else {
            pre
        }
    }
}

/// Commands collected from the first `n` animation entries: every entity
/// whose selected variant is not Empty and resolves to a valid frame.
pub open spec fn animation_commands_prefix(
    ap: Seq<(u64, Component)>,
    pos: Map<u64, Component>,
    n: int,
) -> Seq<RenderCommand>
    decreases n,
{
    if n <= 0 {
        Seq::empty()
    } else {
        let pre = animation_commands_prefix(ap, pos, n - 1);
        let pr = ap[n - 1];
        let a = spec_animations(pr.1);
        if a.current_animation != AnimationType::Empty && pos.contains_key(pr.0) {
            match anim_frame_of(a) {
                Some((anim, fr)) => pre.push(animation_command(pr.0, fr, anim, spec_position(pos[pr.0]))),
                None => pre,
            }
        } else {
            pre
        }
    }
}

/// The unsorted draw commands of the whole store.
pub open spec fn render_commands(es: EntitySystem) -> Seq<RenderCommand> {
    drawable_commands_prefix(
        es.tpairs(ComponentKind::Drawable),
        es.tmap(ComponentKind::Position),
        es.tpairs(ComponentKind::Drawable).len() as int,
    ) + animation_commands_prefix(
        es.tpairs(ComponentKind::Animations),
        es.tmap(ComponentKind::Position),
        es.tpairs(ComponentKind::Animations).len() as int,
    )
}

/// Some drawable or visibly animated entity has no position: the render pass
/// must fail on it.
pub open spec fn render_blocked(es: EntitySystem) -> bool {
    ||| exists|j: int|
        0 <= j < es.tpairs(ComponentKind::Drawable).len() && !es.tmap(
            ComponentKind::Position,
        ).contains_key((#[trigger] es.tpairs(ComponentKind::Drawable)[j]).0)
    ||| exists|j: int|
        0 <= j < es.tpairs(ComponentKind::Animations).len() && spec_animations(
            (#[trigger] es.tpairs(ComponentKind::Animations)[j]).1,
        ).current_animation != AnimationType::Empty && !es.tmap(
            ComponentKind::Position,
        ).contains_key(es.tpairs(ComponentKind::Animations)[j].0)
}

/// Draw order as an executable comparison.
fn cmd_le_exec(a: &RenderCommand, b: &RenderCommand) -> (r: bool)
    ensures
        r == cmd_le(*a, *b),
{
    a.layer < b.layer || (a.layer == b.layer && a.sort_y <= b.sort_y)
}

/// The draw command of a static sprite.
fn make_drawable_command(id: u64, d: &Drawable, p: &Position) -> (r: RenderCommand)
    ensures
        r == drawable_command(id, *d, *p),
{
    RenderCommand {
        id,
        src_x: d.x,
        src_y: d.y,
        src_w: d.w,
        src_h: d.h,
        dest_center_x: crate::numeric::milli_to_px(p.x),
        dest_center_y: crate::numeric::milli_to_px(p.y),
        dest_w: ZOOM * (d.w as u64),
        dest_h: ZOOM * (d.h as u64),
        flip_horizontal: false,
        flip_vertical: false,
        layer: d.layer,
        sort_y: p.y,
    }
}

/// The draw command of an animated sprite's current frame.
fn make_animation_command(id: u64, fr: &Drawable, flip_horizontal: bool, flip_vertical: bool, p: &Position) -> (r: RenderCommand)
    ensures
        r == (RenderCommand {
            id,
            src_x: fr.x,
            src_y: fr.y,
            src_w: fr.w,
            src_h: fr.h,
            dest_center_x: crate::numeric::milli_to_px_spec(p.x as int) as i64,
            dest_center_y: crate::numeric::milli_to_px_spec(p.y as int) as i64,
            dest_w: ((ZOOM as int) * (fr.w as int)) as u64,
            dest_h: ((ZOOM as int) * (fr.h as int)) as u64,
            flip_horizontal,
            flip_vertical,
            layer: fr.layer,
            sort_y: p.y,
        }),
{
    RenderCommand {
        id,
        src_x: fr.x,
        src_y: fr.y,
        src_w: fr.w,
        src_h: fr.h,
        dest_center_x: crate::numeric::milli_to_px(p.x),
        dest_center_y: crate::numeric::milli_to_px(p.y),
        dest_w: ZOOM * (fr.w as u64),
        dest_h: ZOOM * (fr.h as u64),
        flip_horizontal,
        flip_vertical,
        layer: fr.layer,
        sort_y: p.y,
    }
}

/// Sort draw commands into draw order; stable up to equal keys, and a
/// permutation of its input.
#[verifier::loop_isolation(false)]
fn sort_commands(v: &mut Vec<RenderCommand>)
    ensures
        sorted_cmds(final(v)@),
        final(v)@.to_multiset() == old(v)@.to_multiset(),
{
    let n = v.len();
    let mut i: usize = 1;
    while i < n
        invariant
            1 <= i,
            v@.len() == n,
            forall|a: int, b: int| 0 <= a < b < i ==> cmd_le(#[trigger] v@[a], #[trigger] v@[b]),
            v@.to_multiset() == old(v)@.to_multiset(),
        decreases n - i,
    {
        let x = v[i];
        let mut j: usize = 0;
        while j < i && cmd_le_exec(&v[j], &x)
            invariant
                j <= i,
                forall|a: int| 0 <= a < j ==> cmd_le(#[trigger] v@[a], x),
            decreases i - j,
        {
            j = j + 1;
        }
        let ghost s0 = v@;
        v.remove(i);
        v.insert(j, x);
        proof {
            let s1 = s0.remove(i as int);
            let s2 = s1.insert(j as int, x);
            s0.remove_ensures(i as int);
            s1.insert_ensures(j as int, x);
            assert(v@ == s2);
            assert forall|a: int, b: int| 0 <= a < b < i + 1 implies cmd_le(
                #[trigger] s2[a],
                #[trigger] s2[b],
            ) by {
                if b < j {
                    assert(s2[a] == s0[a] && s2[b] == s0[b]);
                } else if b == j {
                    assert(s2[a] == s0[a] && s2[b] == x);
                } else {
                    assert(s2[b] == s0[b - 1]);
                    if a < j {
                        assert(s2[a] == s0[a]);
                        if b - 1 == a {
                            assert(cmd_le(s0[a], x));
                            assert(false);
                        }
                    } else if a == j {
                        assert(s2[a] == x);
                        assert(j < i);
                        assert(!cmd_le(s0[j as int], x));
                        assert(cmd_le(x, s0[j as int]));
                        if b - 1 > j {
                            assert(cmd_le(s0[j as int], s0[b - 1]));
                        }
                    } else {
                        assert(s2[a] == s0[a - 1]);
                    }
                }
            }
            s0.to_multiset_ensures();
            s1.to_multiset_ensures();
            assert(s1.to_multiset() =~= s0.to_multiset().remove(s0[i as int]));
            assert(s2.remove(j as int) =~= s1) by {
                s2.remove_ensures(j as int);
            }
            s2.to_multiset_ensures();
            assert(s2.remove(j as int).to_multiset() =~= s2.to_multiset().remove(s2[j as int]));
            assert(s2[j as int] == x);
            assert(s2.to_multiset() =~= s0.to_multiset()) by {
                broadcast use vstd::multiset::group_multiset_axioms;

                let m0 = s0.to_multiset();
                let m2 = s2.to_multiset();
                assert(s1.to_multiset() == m2.remove(x)) by {
                    assert(s2.remove(j as int).to_multiset() == s1.to_multiset());
                }
                assert(s0[i as int] == x);
                assert(s1.to_multiset() == m0.remove(x));
                assert(m0.count(x) >= 1) by {
                    assert(s0.contains(x));
                }
                assert(m2.count(x) >= 1) by {
                    assert(s2.contains(x));
                }
                assert forall|e: RenderCommand| m2.count(e) == m0.count(e) by {
                    if e == x {
                        assert(m0.remove(x).count(x) + 1 == m0.count(x));
                        assert(m2.remove(x).count(x) + 1 == m2.count(x));
                    } else {
                        assert(m0.remove(x).count(e) == m0.count(e));
                        assert(m2.remove(x).count(e) == m2.count(e));
                    }
                }
            }
        }
        i = i + 1;
    }
}

/// Render system: collect one draw command per drawable entity and per
/// visible animated entity, then order them by ascending layer and, within a
/// layer, ascending world y. A drawable or visibly animated entity without a
/// position is a per-frame error. The caller performs the actual drawing.
#[verifier::rlimit(100)]
#[verifier::loop_isolation(false)]
pub fn system_drawable(es: &EntitySystem, _dt: u32) -> (r: Result<Vec<RenderCommand>, GameError>)
    requires
        es.wf(),
    ensures
        r is Err <==> render_blocked(*es),
        r matches Err(e) ==> (match e {
            GameError::SystemsError(SystemsError::Position(id)) => {
                ||| (exists|j: int|
                    0 <= j < es.tpairs(ComponentKind::Drawable).len() && (
                    #[trigger] es.tpairs(ComponentKind::Drawable)[j]).0 == id) && !es.tmap(
                    ComponentKind::Position,
                ).contains_key(id)
                ||| (exists|j: int|
                    0 <= j < es.tpairs(ComponentKind::Animations).len() && (
                    #[trigger] es.tpairs(ComponentKind::Animations)[j]).0 == id && spec_animations(
                    es.tpairs(ComponentKind::Animations)[j].1,
                ).current_animation != AnimationType::Empty) && !es.tmap(
                    ComponentKind::Position,
                ).contains_key(id)
            },
            _ => false,
        }),
        r matches Ok(cmds) ==> sorted_cmds(cmds@) && cmds@.to_multiset() == render_commands(
            *es,
        ).to_multiset(),
{
    let ghost dp = es.tpairs(ComponentKind::Drawable);
    let ghost ap = es.tpairs(ComponentKind::Animations);
    let ghost posm = es.tmap(ComponentKind::Position);
    let positions = match es.borrow_all_components_of_type(ComponentKind::Position) {
        Ok(t) => Some(t),
        Err(_) => None,
    };
    let mut out: Vec<RenderCommand> = Vec::new();
    match es.borrow_all_components_of_type(ComponentKind::Drawable) {
        Err(_) => {
            proof {
                assert(dp == Seq::<(u64, Component)>::empty());
            }
        },
        Ok(dt) => {
            proof {
                lemma_sorted_implies_distinct(dt.pairs());
                lemma_pairs_map(dt.pairs());
            }
            let n = dt.len();
            let mut i: usize = 0;
            while i < n
                invariant
                    i <= n,
                    out@ == drawable_commands_prefix(dp, posm, i as int),
                    forall|j: int| 0 <= j < i ==> posm.contains_key((#[trigger] dp[j]).0),
                decreases n - i,
            {
                let id = dt.key_at(i);
                let d: Drawable = *crate::entity_system::as_drawable(dt.value_at(i));
                proof {
                    assert(dp[i as int].1 == dt@[id]);
                }
                let pc = match positions {
                    Some(pt) => pt.get(id),
                    None => None,
                };
                match pc {
                    Some(c) => {
                        let p: Position = *as_position(c);
                        let cmd = make_drawable_command(id, &d, &p);
                        out.push(cmd);
                        proof {
                            assert(out@ == drawable_commands_prefix(dp, posm, i as int + 1));
                        }
                    },
                    None => {
                        proof {
                            assert(!posm.contains_key(id));
                            assert(render_blocked(*es)) by {
                                assert(!posm.contains_key((dp[i as int]).0));
                            }
                        }
                        return Err(GameError::SystemsError(SystemsError::Position(id)));
                    },
                }
                i = i + 1;
            }
        },
    }
    let ghost drawable_cmds = out@;
    proof {
        assert(drawable_cmds == drawable_commands_prefix(dp, posm, dp.len() as int));
    }
    match es.borrow_all_components_of_type(ComponentKind::Animations) {
        Err(_) => {
            proof {
                assert(ap == Seq::<(u64, Component)>::empty());
            }
        },
        Ok(at) => {
            proof {
                lemma_sorted_implies_distinct(at.pairs());
                lemma_pairs_map(at.pairs());
            }
            let n = at.len();
            let mut i: usize = 0;
            while i < n
                invariant
                    i <= n,
                    out@ == drawable_cmds + animation_commands_prefix(ap, posm, i as int),
                    forall|j: int|
                        0 <= j < i && spec_animations(
                            (#[trigger] ap[j]).1,
                        ).current_animation != AnimationType::Empty ==> posm.contains_key(ap[j].0),
                decreases n - i,
            {
                let id = at.key_at(i);
                let ac = at.value_at(i);
                let a = crate::entity_system::as_animations(ac);
                proof {
                    assert(ap[i as int].1 == at@[id]);
                }
                if !matches!(a.current_animation, AnimationType::Empty) {
                    let pc = match positions {
                        Some(pt) => pt.get(id),
                        None => None,
                    };
                    match pc {
                        Some(c) => {
                            let p: Position = *as_position(c);
                            match find_animation_index(&a.animations, a.current_animation) {
                                Some(ti) => {
                                    if a.current_frame < a.animations[ti].1.frames.len() {
                                        let fr: Drawable =
                                            a.animations[ti].1.frames[a.current_frame];
                                        let cmd = make_animation_command(
                                            id,
                                            &fr,
                                            a.animations[ti].1.flip_horizontal,
                                            a.animations[ti].1.flip_vertical,
                                            &p,
                                        );
                                        out.push(cmd);
                                        proof {
                                            assert(anim_frame_of(*a) == Some(
                                                (
                                                    a.animations@[ti as int].1,
                                                    a.animations@[ti as int].1.frames@[a.current_frame as int],
                                                ),
                                            ));
                                            assert(out@ == drawable_cmds
                                                + animation_commands_prefix(
                                                ap,
                                                posm,
                                                i as int + 1,
                                            ));
                                        }
                                    } else {
                                        proof {
                                            assert(anim_frame_of(*a) is None);
                                            assert(out@ == drawable_cmds
                                                + animation_commands_prefix(
                                                ap,
                                                posm,
                                                i as int + 1,
                                            ));
                                        }
                                    }
                                },
                                None => {
                                    proof {
                                        assert(anim_frame_of(*a) is None);
                                        assert(out@ == drawable_cmds + animation_commands_prefix(
                                            ap,
                                            posm,
                                            i as int + 1,
                                        ));
                                    }
                                },
                            }
                        },
                        None => {
                            proof {
                                assert(!posm.contains_key(id));
                                assert(render_blocked(*es)) by {
                                    assert((ap[i as int]).0 == id);
                                    assert(spec_animations(
                                        (ap[i as int]).1,
                                    ).current_animation != AnimationType::Empty);
                                }
                            }
                            return Err(GameError::SystemsError(SystemsError::Position(id)));
                        },
                    }
                } else {
                    proof {
                        assert(out@ == drawable_cmds + animation_commands_prefix(
                            ap,
                            posm,
                            i as int + 1,
                        ));
                    }
                }
                i = i + 1;
            }
        },
    }
    proof {
        assert(out@ == render_commands(*es));
        assert(!render_blocked(*es)) by {
            if exists|j: int|
                0 <= j < dp.len() && !posm.contains_key((#[trigger] dp[j]).0) {
                let j = choose|j: int| 0 <= j < dp.len() && !posm.contains_key((#[trigger] dp[j]).0);
            }
            if exists|j: int|
                0 <= j < ap.len() && spec_animations(
                    (#[trigger] ap[j]).1,
                ).current_animation != AnimationType::Empty && !posm.contains_key(ap[j].0) {
                let j = choose|j: int|
                    0 <= j < ap.len() && spec_animations(
                        (#[trigger] ap[j]).1,
                    ).current_animation != AnimationType::Empty && !posm.contains_key(ap[j].0);
            }
        }
    }
    sort_commands(&mut out);
    Ok(out)
}

} // verus!
