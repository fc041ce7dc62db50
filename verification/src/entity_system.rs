//! The entity store: issues entity handles, keeps their display names, and
//! owns one component table per component kind.
//!
//! The component set is closed, so the registry is a fixed field per kind
//! rather than a type-erased map. Exclusive access to one kind's table is
//! modelled by moving the table out of the store and back; shared access
//! borrows it in place. Borrows of different kinds are fully independent.
use vstd::prelude::*;

use crate::components::AI;
use crate::components::Animations;
use crate::components::BombThink;
use crate::components::Collidable;
use crate::components::Direction;
use crate::components::Drawable;
use crate::components::Moveable;
use crate::components::Position;
use crate::components::animations_wf;
use crate::components::moveable_wf;
use crate::table::Table;
use vstd::pervasive::unreached;

verus! {

/// Failure of a store operation.
#[derive(Clone, Copy, PartialEq, Eq, Structural, Debug)]
pub enum EntitySystemError {
    /// The requested component table was never created: no entity has ever
    /// had a component of that kind.
    NoSuchComponent(ComponentKind),
    /// A stored component did not match its table's kind. The closed
    /// component registry makes this unreachable; the variant is kept so
    /// callers can match the full failure taxonomy.
    DowncastFailed(ComponentKind),
}

/// The closed set of component kinds the store can hold.
#[derive(Clone, Copy, PartialEq, Eq, Structural, Debug)]
pub enum ComponentKind {
    Position,
    Moveable,
    Collidable,
    Drawable,
    Animations,
    Direction,
    Ai,
    BombThink,
}

/// One component value, tagged with its kind.
#[derive(Clone, PartialEq, Eq, Debug)]
pub enum Component {
    Position(Position),
    Moveable(Moveable),
    Collidable(Collidable),
    Drawable(Drawable),
    Animations(Animations),
    Direction(Direction),
    Ai(AI),
    BombThink(BombThink),
}

/// The kind a component value belongs to.
pub open spec fn kind_of(c: Component) -> ComponentKind {
    match c {
        Component::Position(_) => ComponentKind::Position,
        Component::Moveable(_) => ComponentKind::Moveable,
        Component::Collidable(_) => ComponentKind::Collidable,
        Component::Drawable(_) => ComponentKind::Drawable,
        Component::Animations(_) => ComponentKind::Animations,
        Component::Direction(_) => ComponentKind::Direction,
        Component::Ai(_) => ComponentKind::Ai,
        Component::BombThink(_) => ComponentKind::BombThink,
    }
}

/// Well-formedness of one component value.
pub open spec fn component_wf(c: Component) -> bool {
    match c {
        Component::Moveable(m) => moveable_wf(m),
        Component::Animations(a) => animations_wf(a),
        _ => true,
    }
}

impl Component {
    /// The kind tag of this component.
    pub fn kind(&self) -> (k: ComponentKind)
        ensures
            k == kind_of(*self),
    {
        match self {
            Component::Position(_) => ComponentKind::Position,
            Component::Moveable(_) => ComponentKind::Moveable,
            Component::Collidable(_) => ComponentKind::Collidable,
            Component::Drawable(_) => ComponentKind::Drawable,
            Component::Animations(_) => ComponentKind::Animations,
            Component::Direction(_) => ComponentKind::Direction,
            Component::Ai(_) => ComponentKind::Ai,
            Component::BombThink(_) => ComponentKind::BombThink,
        }
    }
}

/// Read a component known to be a position.
pub fn as_position(c: &Component) -> (r: &Position)
    requires
        kind_of(*c) == ComponentKind::Position,
    ensures
        *c == Component::Position(*r),
{
    match c {
        Component::Position(p) => p,
        _ => unreached(),
    }
}

/// Read a component known to be a moveable.
pub fn as_moveable(c: &Component) -> (r: &Moveable)
    requires
        kind_of(*c) == ComponentKind::Moveable,
    ensures
        *c == Component::Moveable(*r),
{
    match c {
        Component::Moveable(m) => m,
        _ => unreached(),
    }
}

/// Read a component known to be a drawable.
pub fn as_drawable(c: &Component) -> (r: &Drawable)
    requires
        kind_of(*c) == ComponentKind::Drawable,
    ensures
        *c == Component::Drawable(*r),
{
    match c {
        Component::Drawable(d) => d,
        _ => unreached(),
    }
}

/// Read a component known to be animation-player state.
pub fn as_animations(c: &Component) -> (r: &Animations)
    requires
        kind_of(*c) == ComponentKind::Animations,
    ensures
        *c == Component::Animations(*r),
{
    match c {
        Component::Animations(a) => a,
        _ => unreached(),
    }
}

/// Take ownership of a component known to be animation-player state.
pub fn into_animations(c: Component) -> (r: Animations)
    requires
        kind_of(c) == ComponentKind::Animations,
    ensures
        c == Component::Animations(r),
{
    match c {
        Component::Animations(a) => a,
        _ => unreached(),
    }
}

/// Read a component known to be a direction.
pub fn as_direction(c: &Component) -> (r: &Direction)
    requires
        kind_of(*c) == ComponentKind::Direction,
    ensures
        *c == Component::Direction(*r),
{
    match c {
        Component::Direction(d) => d,
        _ => unreached(),
    }
}

/// Read a component known to be an AI timer.
pub fn as_ai(c: &Component) -> (r: &AI)
    requires
        kind_of(*c) == ComponentKind::Ai,
    ensures
        *c == Component::Ai(*r),
{
    match c {
        Component::Ai(a) => a,
        _ => unreached(),
    }
}

/// Read a component known to be a bomb state machine.
pub fn as_bomb_think(c: &Component) -> (r: &BombThink)
    requires
        kind_of(*c) == ComponentKind::BombThink,
    ensures
        *c == Component::BombThink(*r),
{
    match c {
        Component::BombThink(b) => b,
        _ => unreached(),
    }
}

/// An opaque, copyable entity handle; identity is the wrapped identifier.
#[derive(Clone, Copy, PartialEq, Eq, Structural, Debug)]
pub struct Entity {
    id: u64,
}

impl View for Entity {
    type V = u64;

    closed spec fn view(&self) -> u64 {
        self.id
    }
}

impl Entity {
    /// The wrapped identifier.
    pub fn id(&self) -> (r: u64)
        ensures
            r == self@,
    {
        self.id
    }
}

/// A table of one component kind is well formed when its identifiers are
/// ordered and every stored component carries that kind and is itself well
/// formed.
pub open spec fn table_wf(k: ComponentKind, t: Table<Component>) -> bool {
    &&& t.wf()
    &&& forall|id: u64|
        #[trigger] t@.contains_key(id) ==> kind_of(t@[id]) == k && component_wf(t@[id])
}

/// Well-formedness of one registry slot.
pub open spec fn table_opt_wf(k: ComponentKind, t: Option<Table<Component>>) -> bool {
    match t {
        Some(table) => table_wf(k, table),
        None => true,
    }
}

/// The entity store.
pub struct EntitySystem {
    next_id: u64,
    entities: Table<String>,
    positions: Option<Table<Component>>,
    moveables: Option<Table<Component>>,
    collidables: Option<Table<Component>>,
    drawables: Option<Table<Component>>,
    animations: Option<Table<Component>>,
    directions: Option<Table<Component>>,
    ais: Option<Table<Component>>,
    bomb_thinks: Option<Table<Component>>,
}

impl EntitySystem {
    /// The identifier the next created entity will get.
    pub closed spec fn spec_next_id(&self) -> u64 {
        self.next_id
    }

    /// The name bookkeeping table.
    pub closed spec fn names_table(&self) -> Table<String> {
        self.entities
    }

    /// Identifier-to-name map of the live entities, each name as its
    /// character sequence.
    pub open spec fn names(&self) -> Map<u64, Seq<char>> {
        self.names_table()@.map_values(|s: String| s@)
    }

    /// The registry slot of one component kind.
    pub closed spec fn table_opt(&self, k: ComponentKind) -> Option<Table<Component>> {
        match k {
            ComponentKind::Position => self.positions,
            ComponentKind::Moveable => self.moveables,
            ComponentKind::Collidable => self.collidables,
            ComponentKind::Drawable => self.drawables,
            ComponentKind::Animations => self.animations,
            ComponentKind::Direction => self.directions,
            ComponentKind::Ai => self.ais,
            ComponentKind::BombThink => self.bomb_thinks,
        }
    }

    /// Whether a table for the kind was ever created.
    pub open spec fn has_table(&self, k: ComponentKind) -> bool {
        self.table_opt(k) is Some
    }

    /// Map view of one kind's components; empty when the table was never
    /// created.
    pub open spec fn tmap(&self, k: ComponentKind) -> Map<u64, Component> {
        match self.table_opt(k) {
            Some(t) => t@,
            None => Map::empty(),
        }
    }

    /// Ordered pair view of one kind's components.
    pub open spec fn tpairs(&self, k: ComponentKind) -> Seq<(u64, Component)> {
        match self.table_opt(k) {
            Some(t) => t.pairs(),
            None => Seq::empty(),
        }
    }

    /// Store invariant: names are well kept and unique, identifiers are never
    /// reused, and each registry slot holds only well-formed components of
    /// its own kind.
    pub open spec fn wf(&self) -> bool {
        &&& self.names_table().wf()
        &&& forall|id: u64| #[trigger] self.names().contains_key(id) ==> id < self.spec_next_id()
        &&& forall|a: u64, b: u64|
            self.names().contains_key(a) && self.names().contains_key(b) && a != b ==> (
            #[trigger] self.names()[a]) != (#[trigger] self.names()[b])
        &&& forall|k: ComponentKind| table_opt_wf(k, #[trigger] self.table_opt(k))
    }

    /// The name maps are untouched and no entity was created or removed.
    pub open spec fn same_entities(pre: EntitySystem, post: EntitySystem) -> bool {
        &&& post.names_table() == pre.names_table()
        &&& post.spec_next_id() == pre.spec_next_id()
    }

    /// Every registry slot except `k` is untouched.
    pub open spec fn same_tables_except(pre: EntitySystem, post: EntitySystem, k: ComponentKind) -> bool {
        forall|k2: ComponentKind| k2 != k ==> post.table_opt(k2) == pre.table_opt(k2)
    }

    /// Every registry slot is untouched.
    pub open spec fn same_tables(pre: EntitySystem, post: EntitySystem) -> bool {
        forall|k2: ComponentKind| post.table_opt(k2) == pre.table_opt(k2)
    }

    /// A fresh store: no entities, no component tables.
    pub fn new() -> (r: EntitySystem)
        ensures
            r.wf(),
            r.spec_next_id() == 0,
            r.names() == Map::<u64, Seq<char>>::empty(),
            forall|k: ComponentKind| !r.has_table(k),
    {
        EntitySystem {
            next_id: 0,
            entities: Table::new(),
            positions: None,
            moveables: None,
            collidables: None,
            drawables: None,
            animations: None,
            directions: None,
            ais: None,
            bomb_thinks: None,
        }
    }

    /// Shared borrow of one registry slot.
    fn table_ref(&self, kind: ComponentKind) -> (r: &Option<Table<Component>>)
        ensures
            *r == self.table_opt(kind),
    {
        match kind {
            ComponentKind::Position => &self.positions,
            ComponentKind::Moveable => &self.moveables,
            ComponentKind::Collidable => &self.collidables,
            ComponentKind::Drawable => &self.drawables,
            ComponentKind::Animations => &self.animations,
            ComponentKind::Direction => &self.directions,
            ComponentKind::Ai => &self.ais,
            ComponentKind::BombThink => &self.bomb_thinks,
        }
    }

    /// Move one registry slot out of the store, leaving it empty.
    fn table_take(&mut self, kind: ComponentKind) -> (r: Option<Table<Component>>)
        ensures
            r == old(self).table_opt(kind),
            final(self).table_opt(kind) is None,
            Self::same_tables_except(*old(self), *final(self), kind),
            Self::same_entities(*old(self), *final(self)),
    {
        let mut t: Option<Table<Component>> = None;
        match kind {
            ComponentKind::Position => core::mem::swap(&mut self.positions, &mut t),
            ComponentKind::Moveable => core::mem::swap(&mut self.moveables, &mut t),
            ComponentKind::Collidable => core::mem::swap(&mut self.collidables, &mut t),
            ComponentKind::Drawable => core::mem::swap(&mut self.drawables, &mut t),
            ComponentKind::Animations => core::mem::swap(&mut self.animations, &mut t),
            ComponentKind::Direction => core::mem::swap(&mut self.directions, &mut t),
            ComponentKind::Ai => core::mem::swap(&mut self.ais, &mut t),
            ComponentKind::BombThink => core::mem::swap(&mut self.bomb_thinks, &mut t),
        }
        t
    }

    /// Write one registry slot.
    fn table_put(&mut self, kind: ComponentKind, t: Option<Table<Component>>)
        ensures
            final(self).table_opt(kind) == t,
            Self::same_tables_except(*old(self), *final(self), kind),
            Self::same_entities(*old(self), *final(self)),
    {
        match kind {
            ComponentKind::Position => {
                self.positions = t;
            },
            ComponentKind::Moveable => {
                self.moveables = t;
            },
            ComponentKind::Collidable => {
                self.collidables = t;
            },
            ComponentKind::Drawable => {
                self.drawables = t;
            },
            ComponentKind::Animations => {
                self.animations = t;
            },
            ComponentKind::Direction => {
                self.directions = t;
            },
            ComponentKind::Ai => {
                self.ais = t;
            },
            ComponentKind::BombThink => {
                self.bomb_thinks = t;
            },
        }
    }
}

/// Bindings of `m` except any whose name is `n`.
pub open spec fn names_unbound(m: Map<u64, Seq<char>>, n: Seq<char>) -> Map<u64, Seq<char>> {
    Map::new(|k: u64| m.contains_key(k) && m[k] != n, |k: u64| m[k])
}

/// A store whose registry differs from a well-formed one in a single slot,
/// itself well formed, is well formed.
proof fn lemma_wf_one_slot(pre: EntitySystem, post: EntitySystem, kind: ComponentKind)
    requires
        pre.wf(),
        EntitySystem::same_entities(pre, post),
        EntitySystem::same_tables_except(pre, post, kind),
        table_opt_wf(kind, post.table_opt(kind)),
    ensures
        post.wf(),
{
    assert(post.names_table() == pre.names_table());
    assert(post.names() == pre.names());
    assert(post.spec_next_id() == pre.spec_next_id());
    assert(post.names_table().wf());
    assert forall|id: u64| #[trigger] post.names().contains_key(id) implies id
        < post.spec_next_id() by {
        assert(pre.names().contains_key(id));
    }
    assert forall|a: u64, b: u64|
        post.names().contains_key(a) && post.names().contains_key(b) && a != b implies (
    #[trigger] post.names()[a]) != (#[trigger] post.names()[b]) by {
        assert(pre.names().contains_key(a) && pre.names().contains_key(b));
    }
    assert forall|k: ComponentKind| table_opt_wf(k, #[trigger] post.table_opt(k)) by {
        if k != kind {
            assert(post.table_opt(k) == pre.table_opt(k));
            assert(table_opt_wf(k, pre.table_opt(k)));
        }
    }
}

/// A table whose map is a single-key insert into a well-formed table of the
/// same kind stays well formed, provided the inserted component fits.
proof fn lemma_table_wf_insert(kind: ComponentKind, m0: Map<u64, Component>, t: Table<Component>, id: u64, c: Component)
    requires
        t.wf(),
        t@ == m0.insert(id, c),
        kind_of(c) == kind,
        component_wf(c),
        forall|k: u64| #[trigger] m0.contains_key(k) ==> kind_of(m0[k]) == kind && component_wf(m0[k]),
    ensures
        table_wf(kind, t),
{
    assert forall|k: u64| #[trigger] t@.contains_key(k) implies kind_of(t@[k]) == kind
        && component_wf(t@[k]) by {
        if k != id {
            assert(m0.contains_key(k));
            assert(t@[k] == m0[k]);
        }
    }
}

impl EntitySystem {
    /// Allocate the next identifier and record the name. A name binds one
    /// entity: if another entity already carried this name, that binding is
    /// dropped so the maps stay inverse to each other. Creation only fails
    /// fatally, on identifier exhaustion, which the caller rules out.
    #[verifier::loop_isolation(false)]
    pub fn new_entity_with_name(&mut self, name: String) -> (r: Result<Entity, String>)
        requires
            old(self).wf(),
            old(self).spec_next_id() < u64::MAX,
        ensures
            final(self).wf(),
            r is Ok,
            r matches Ok(e) ==> e@ == old(self).spec_next_id(),
            final(self).spec_next_id() == old(self).spec_next_id() + 1,
            Self::same_tables(*old(self), *final(self)),
            final(self).names() == names_unbound(old(self).names(), name@).insert(
                old(self).spec_next_id(),
                name@,
            ),
    {
        proof {
            crate::table::lemma_sorted_implies_distinct(self.entities.pairs());
            crate::table::lemma_pairs_map(self.entities.pairs());
        }
        let n = self.entities.len();
        let mut i: usize = 0;
        let mut dup: Option<u64> = None;
        while i < n
            invariant
                i <= n,
                match dup {
                    Some(d) => self.names().contains_key(d) && self.names()[d] == name@,
                    None => forall|j: int|
                        0 <= j < i ==> (#[trigger] self.entities.pairs()[j]).1@ != name@,
                },
            decreases n - i,
        {
            if *self.entities.value_at(i) == name {
                dup = Some(self.entities.key_at(i));
            }
            i = i + 1;
        }
        let ghost pre = *self;
        match dup {
            Some(d) => {
                self.entities.remove(d);
                proof {
                    assert forall|k: u64| #[trigger] self.names().contains_key(k) implies
                        names_unbound(pre.names(), name@).contains_key(k) && self.names()[k]
                        == names_unbound(pre.names(), name@)[k] by {
                        assert(pre.names().contains_key(k) && k != d);
                        assert(pre.names()[k] != pre.names()[d]);
                    }
                    assert(self.names() =~= names_unbound(pre.names(), name@));
                }
            },
            None => {
                proof {
                    assert forall|k: u64| #[trigger] pre.names().contains_key(k) implies
                        pre.names()[k] != name@ by {
                        let j = choose|j: int|
                            0 <= j < pre.entities.pairs().len() && (
                            #[trigger] pre.entities.pairs()[j]).0 == k;
                        assert(pre.entities@[k] == pre.entities.pairs()[j].1);
                    }
                    assert(self.names() =~= names_unbound(pre.names(), name@));
                }
            },
        }
        let ent = Entity { id: self.next_id };
        self.entities.insert(ent.id, name);
        self.next_id = self.next_id + 1;
        proof {
            let m = names_unbound(pre.names(), name@).insert(pre.spec_next_id(), name@);
            assert(self.names() =~= m);
            let nid = pre.spec_next_id();
            assert forall|id: u64| #[trigger] self.names().contains_key(id) implies id
                < self.spec_next_id() by {
                if id != nid {
                    assert(pre.names().contains_key(id));
                }
            }
            assert forall|a: u64, b: u64|
                self.names().contains_key(a) && self.names().contains_key(b) && a != b implies (
            #[trigger] self.names()[a]) != (#[trigger] self.names()[b]) by {
                if a == nid {
                    assert(self.names()[b] == pre.names()[b] && pre.names()[b] != name@);
                } else if b == nid {
                    assert(self.names()[a] == pre.names()[a] && pre.names()[a] != name@);
                } else {
                    assert(self.names()[a] == pre.names()[a] && self.names()[b] == pre.names()[b]);
                    assert(pre.names().contains_key(a) && pre.names().contains_key(b));
                }
            }
            assert forall|k: ComponentKind| table_opt_wf(k, #[trigger] self.table_opt(k)) by {
                assert(self.table_opt(k) == pre.table_opt(k));
                assert(table_opt_wf(k, pre.table_opt(k)));
            }
        }
        Ok(ent)
    }

    /// Allocate the next identifier under the placeholder name.
    pub fn new_entity(&mut self) -> (r: Result<Entity, String>)
        requires
            old(self).wf(),
            old(self).spec_next_id() < u64::MAX,
        ensures
            final(self).wf(),
            r is Ok,
            r matches Ok(e) ==> e@ == old(self).spec_next_id(),
            final(self).spec_next_id() == old(self).spec_next_id() + 1,
            Self::same_tables(*old(self), *final(self)),
            final(self).names() == names_unbound(old(self).names(), "Unknown"@).insert(
                old(self).spec_next_id(),
                "Unknown"@,
            ),
    {
        self.new_entity_with_name("Unknown".to_owned())
    }

    /// Look an entity up by its display name.
    #[verifier::loop_isolation(false)]
    pub fn get_entity_for_name(&self, name: String) -> (r: Result<Entity, String>)
        requires
            self.wf(),
        ensures
            match r {
                Ok(e) => self.names().contains_key(e@) && self.names()[e@] == name@,
                Err(_) => forall|id: u64|
                    #[trigger] self.names().contains_key(id) ==> self.names()[id] != name@,
            },
    {
        proof {
            crate::table::lemma_sorted_implies_distinct(self.entities.pairs());
            crate::table::lemma_pairs_map(self.entities.pairs());
        }
        let n = self.entities.len();
        let mut i: usize = 0;
        while i < n
            invariant
                i <= n,
                forall|j: int| 0 <= j < i ==> (#[trigger] self.entities.pairs()[j]).1@ != name@,
            decreases n - i,
        {
            if *self.entities.value_at(i) == name {
                return Ok(Entity { id: self.entities.key_at(i) });
            }
            i = i + 1;
        }
        assert forall|id: u64| #[trigger] self.names().contains_key(id) implies self.names()[id]
            != name@ by {
            let j = choose|j: int|
                0 <= j < self.entities.pairs().len() && (#[trigger] self.entities.pairs()[j]).0
                    == id;
            assert(self.entities@[id] == self.entities.pairs()[j].1);
        }
        Err("No such entity name".to_owned())
    }

    /// Drop one kind's entry for an identifier, if the slot holds a table.
    fn sweep(t: Option<Table<Component>>, id: u64) -> (r: Option<Table<Component>>)
        requires
            t matches Some(tab) ==> tab.wf(),
        ensures
            match (t, r) {
                (Some(t0), Some(t1)) => t1.wf() && t1@ == t0@.remove(id),
                (None, None) => true,
                _ => false,
            },
    {
        match t {
            Some(mut tab) => {
                tab.remove(id);
                Some(tab)
            },
            None => None,
        }
    }

    /// Remove an entity: drop its name bookkeeping and sweep its components
    /// out of every registered table.
    pub fn remove_entity(&mut self, ent: Entity) -> (r: Result<(), String>)
        requires
            old(self).wf(),
        ensures
            final(self).wf(),
            final(self).spec_next_id() == old(self).spec_next_id(),
            r is Ok <==> old(self).names().contains_key(ent@),
            r is Ok ==> final(self).names() == old(self).names().remove(ent@),
            r is Ok ==> forall|k: ComponentKind|
                final(self).has_table(k) == old(self).has_table(k) && #[trigger] final(self).tmap(
                    k,
                ) == old(self).tmap(k).remove(ent@),
            r is Err ==> final(self).names() == old(self).names() && Self::same_tables(
                *old(self),
                *final(self),
            ),
    {
        if !self.entities.contains(ent.id) {
            return Err("No such entity".to_owned());
        }
        self.entities.remove(ent.id);
        let ghost pre = *self;
        assert(Self::same_tables(*old(self), pre));
        self.sweep_slot(ComponentKind::Position, ent.id);
        self.sweep_slot(ComponentKind::Moveable, ent.id);
        self.sweep_slot(ComponentKind::Collidable, ent.id);
        self.sweep_slot(ComponentKind::Drawable, ent.id);
        self.sweep_slot(ComponentKind::Animations, ent.id);
        self.sweep_slot(ComponentKind::Direction, ent.id);
        self.sweep_slot(ComponentKind::Ai, ent.id);
        self.sweep_slot(ComponentKind::BombThink, ent.id);
        proof {
            assert forall|k: ComponentKind|
                self.has_table(k) == old(self).has_table(k) && #[trigger] self.tmap(k) == old(
                    self,
                ).tmap(k).remove(ent@) by {
                if k == ComponentKind::Position || k == ComponentKind::Moveable || k
                    == ComponentKind::Collidable || k == ComponentKind::Drawable || k
                    == ComponentKind::Animations || k == ComponentKind::Direction || k
                    == ComponentKind::Ai || k == ComponentKind::BombThink {
                }
            }
            assert forall|k: ComponentKind| table_opt_wf(k, #[trigger] self.table_opt(k)) by {
                if k == ComponentKind::Position || k == ComponentKind::Moveable || k
                    == ComponentKind::Collidable || k == ComponentKind::Drawable || k
                    == ComponentKind::Animations || k == ComponentKind::Direction || k
                    == ComponentKind::Ai || k == ComponentKind::BombThink {
                }
            }
            assert forall|id: u64| #[trigger] self.names().contains_key(id) implies id
                < self.spec_next_id() by {
                assert(old(self).names().contains_key(id));
            }
            assert forall|a: u64, b: u64|
                self.names().contains_key(a) && self.names().contains_key(b) && a != b implies (
            #[trigger] self.names()[a]) != (#[trigger] self.names()[b]) by {
                assert(old(self).names().contains_key(a) && old(self).names().contains_key(b));
                assert(self.names()[a] == old(self).names()[a]);
                assert(self.names()[b] == old(self).names()[b]);
            }
        }
        Ok(())
    }

    /// Drop one kind's entry for an identifier, keeping the slot's presence.
    fn sweep_slot(&mut self, kind: ComponentKind, id: u64)
        requires
            table_opt_wf(kind, old(self).table_opt(kind)),
        ensures
            Self::same_entities(*old(self), *final(self)),
            Self::same_tables_except(*old(self), *final(self), kind),
            table_opt_wf(kind, final(self).table_opt(kind)),
            final(self).has_table(kind) == old(self).has_table(kind),
            final(self).tmap(kind) == old(self).tmap(kind).remove(id),
    {
        let t = self.table_take(kind);
        let swept = Self::sweep_checked(t, id, kind);
        self.table_put(kind, swept);
        proof {
            if !old(self).has_table(kind) {
                assert(old(self).tmap(kind).remove(id) =~= old(self).tmap(kind));
            }
        }
    }

    /// `sweep` with its kind invariant carried along.
    fn sweep_checked(t: Option<Table<Component>>, id: u64, kind: ComponentKind) -> (r: Option<
        Table<Component>,
    >)
        requires
            table_opt_wf(kind, t),
        ensures
            table_opt_wf(kind, r),
            match (t, r) {
                (Some(t0), Some(t1)) => t1@ == t0@.remove(id),
                (None, None) => true,
                _ => false,
            },
    {
        let ghost gt = t;
        let r = Self::sweep(t, id);
        let ghost gr = r;
        proof {
            match (gt, gr) {
                (Some(t0), Some(t1)) => {
                    assert forall|k: u64| #[trigger] t1@.contains_key(k) implies kind_of(t1@[k])
                        == kind && component_wf(t1@[k]) by {
                        assert(t0@.contains_key(k) && t1@[k] == t0@[k]);
                    }
                },
                _ => {},
            }
        }
        r
    }

    /// Attach a component: the table for its kind is created on first use,
    /// and any previous component of that kind for the entity is replaced.
    pub fn add_component_to_entity(&mut self, ent: Entity, component: Component) -> (r: Result<
        (),
        String,
    >)
        requires
            old(self).wf(),
            component_wf(component),
        ensures
            final(self).wf(),
            r is Ok,
            Self::same_entities(*old(self), *final(self)),
            Self::same_tables_except(*old(self), *final(self), kind_of(component)),
            final(self).has_table(kind_of(component)),
            final(self).tmap(kind_of(component)) == old(self).tmap(kind_of(component)).insert(
                ent@,
                component,
            ),
    {
        let kind = component.kind();
        let t_opt = self.table_take(kind);
        let mut t = match t_opt {
            Some(t) => t,
            None => Table::new(),
        };
        t.insert(ent.id, component);
        let ghost gt = t;
        self.table_put(kind, Some(t));
        proof {
            lemma_table_wf_insert(kind, old(self).tmap(kind), gt, ent@, component);
            lemma_wf_one_slot(*old(self), *self, kind);
        }
        Ok(())
    }

    /// Detach a component of one kind from an entity.
    pub fn remove_component_from_entity(&mut self, ent: Entity, kind: ComponentKind) -> (r: Result<
        (),
        String,
    >)
        requires
            old(self).wf(),
        ensures
            final(self).wf(),
            Self::same_entities(*old(self), *final(self)),
            Self::same_tables_except(*old(self), *final(self), kind),
            r is Ok <==> old(self).has_table(kind) && old(self).tmap(kind).contains_key(ent@),
            final(self).has_table(kind) == old(self).has_table(kind),
            final(self).tmap(kind) == old(self).tmap(kind).remove(ent@),
    {
        let t_opt = self.table_take(kind);
        match t_opt {
            Some(mut t) => {
                let found = t.remove(ent.id);
                let ghost gt = t;
                self.table_put(kind, Some(t));
                proof {
                    assert forall|k: u64| #[trigger] gt@.contains_key(k) implies kind_of(gt@[k])
                        == kind && component_wf(gt@[k]) by {
                        assert(old(self).tmap(kind).contains_key(k));
                        assert(gt@[k] == old(self).tmap(kind)[k]);
                    }
                    lemma_wf_one_slot(*old(self), *self, kind);
                }
                if found {
                    Ok(())
                } else {
                    Err("No such component for entity".to_owned())
                }
            },
            None => {
                self.table_put(kind, None);
                proof {
                    assert(old(self).tmap(kind).remove(ent@) =~= old(self).tmap(kind));
                    lemma_wf_one_slot(*old(self), *self, kind);
                }
                Err("Unknown component type in store".to_owned())
            },
        }
    }

    /// Read one entity's component of one kind.
    pub fn component_for_entity(&self, ent: Entity, kind: ComponentKind) -> (r: Result<
        &Component,
        String,
    >)
        requires
            self.wf(),
        ensures
            match r {
                Ok(c) => self.has_table(kind) && self.tmap(kind).contains_key(ent@) && *c
                    == self.tmap(kind)[ent@],
                Err(_) => !(self.has_table(kind) && self.tmap(kind).contains_key(ent@)),
            },
    {
        match self.table_ref(kind).as_ref() {
            Some(t) => {
                assert(table_wf(kind, *t));
                match t.get(ent.id) {
                    Some(c) => Ok(c),
                    None => Err("No such component for entity".to_owned()),
                }
            },
            None => Err("Unknown component type in store".to_owned()),
        }
    }

    /// Write one entity's component back. Unlike attaching, this succeeds
    /// only when the entity already has a component of that kind.
    pub fn component_for_entity_mut(&mut self, ent: Entity, component: Component) -> (r: Result<
        (),
        String,
    >)
        requires
            old(self).wf(),
            component_wf(component),
        ensures
            final(self).wf(),
            Self::same_entities(*old(self), *final(self)),
            Self::same_tables_except(*old(self), *final(self), kind_of(component)),
            r is Ok <==> old(self).has_table(kind_of(component)) && old(self).tmap(
                kind_of(component),
            ).contains_key(ent@),
            r is Ok ==> final(self).tmap(kind_of(component)) == old(self).tmap(
                kind_of(component),
            ).insert(ent@, component),
            r is Err ==> Self::same_tables(*old(self), *final(self)),
    {
        let kind = component.kind();
        let t_opt = self.table_take(kind);
        match t_opt {
            Some(mut t) => {
                if t.contains(ent.id) {
                    t.insert(ent.id, component);
                    let ghost gt = t;
                    self.table_put(kind, Some(t));
                    proof {
                        lemma_table_wf_insert(kind, old(self).tmap(kind), gt, ent@, component);
                        lemma_wf_one_slot(*old(self), *self, kind);
                    }
                    Ok(())
                } else {
                    self.table_put(kind, Some(t));
                    proof {
                        lemma_wf_one_slot(*old(self), *self, kind);
                    }
                    Err("No such component for entity".to_owned())
                }
            },
            None => {
                self.table_put(kind, None);
                proof {
                    lemma_wf_one_slot(*old(self), *self, kind);
                }
                Err("Unknown component type in store".to_owned())
            },
        }
    }

    /// Shared view of all components of one kind. Fails with
    /// `NoSuchComponent` when no entity has ever had that kind attached;
    /// systems treat that as "zero entities", not as a hard error.
    pub fn borrow_all_components_of_type(&self, kind: ComponentKind) -> (r: Result<
        &Table<Component>,
        EntitySystemError,
    >)
        requires
            self.wf(),
        ensures
            match r {
                Ok(t) => self.has_table(kind) && *t == self.table_opt(kind)->Some_0 && table_wf(
                    kind,
                    *t,
                ),
                Err(e) => !self.has_table(kind) && e == EntitySystemError::NoSuchComponent(kind),
            },
    {
        match self.table_ref(kind).as_ref() {
            Some(t) => Ok(t),
            None => Err(EntitySystemError::NoSuchComponent(kind)),
        }
    }

    /// Exclusive view of all components of one kind: the table moves out of
    /// the store, which models the single live writer, and is handed back
    /// with `restore_all_components_of_type`. While it is out, the kind reads
    /// as never created.
    pub fn borrow_all_components_of_type_mut(&mut self, kind: ComponentKind) -> (r: Result<
        Table<Component>,
        EntitySystemError,
    >)
        requires
            old(self).wf(),
        ensures
            final(self).wf(),
            Self::same_entities(*old(self), *final(self)),
            Self::same_tables_except(*old(self), *final(self), kind),
            !final(self).has_table(kind),
            match r {
                Ok(t) => old(self).has_table(kind) && t == old(self).table_opt(kind)->Some_0
                    && table_wf(kind, t),
                Err(e) => !old(self).has_table(kind) && e == EntitySystemError::NoSuchComponent(
                    kind,
                ),
            },
    {
        let t_opt = self.table_take(kind);
        proof {
            lemma_wf_one_slot(*old(self), *self, kind);
        }
        match t_opt {
            Some(t) => Ok(t),
            None => Err(EntitySystemError::NoSuchComponent(kind)),
        }
    }

    /// Hand an exclusively borrowed table back to its registry slot.
    pub fn restore_all_components_of_type(&mut self, kind: ComponentKind, t: Table<Component>)
        requires
            old(self).wf(),
            !old(self).has_table(kind),
            table_wf(kind, t),
        ensures
            final(self).wf(),
            Self::same_entities(*old(self), *final(self)),
            Self::same_tables_except(*old(self), *final(self), kind),
            final(self).table_opt(kind) == Some(t),
            final(self).has_table(kind),
            final(self).tmap(kind) == t@,
            final(self).tpairs(kind) == t.pairs(),
    {
        self.table_put(kind, Some(t));
        proof {
            lemma_wf_one_slot(*old(self), *self, kind);
        }
    }
}

} // verus!
