//! The spatial index: which entities stand on which grid position, kept in both
//! directions, with the neighbourhood and proximity queries built on it.

use crate::coords::{
    chebyshev, has_margin, manhattan, points_around, CellKey, Coord2, Coord3, GridBounds,
    GridCoordinates,
};
use crate::seqs::{lemma_push_contains, lemma_push_distinct};
use crate::store::{
    cells_clear, cells_drop, cells_keys, cells_members, cells_new, cells_of, cells_put,
    cells_take, cells_vacant, home_at, homes_clear, homes_get, homes_len, homes_new, homes_of,
    homes_put, homes_take, members_at, Cells, Homes,
};
use bevy::ecs::entity::Entity;
use vstd::prelude::*;

verus! {

/// The position of an entity on the grid.
#[derive(Clone, Copy, Debug, PartialEq, Eq, Hash)]
pub struct GridPosition<T: GridCoordinates>(pub T);

impl<T: GridCoordinates> GridPosition<T> {
    /// The positions of `points`, in their order.
    fn wrap(points: Vec<T>) -> (out: Vec<Self>)
        ensures
            out@.len() == points@.len(),
            forall|i: int| 0 <= i < out@.len() ==> #[trigger] out@[i] == GridPosition(points@[i]),
    {
        let mut out: Vec<Self> = Vec::new();
        let mut i: usize = 0;
        while i < points.len()
            invariant
                i <= points.len(),
                out@.len() == i,
                forall|j: int| 0 <= j < i ==> #[trigger] out@[j] == GridPosition(points@[j]),
            decreases points.len() - i,
        {
            out.push(GridPosition(points[i]));
            i += 1;
        }
        out
    }

    /// The positions around this one, diagonals included: those of the Moore
    /// neighbourhood of its point.
    pub fn neighbors(&self) -> (out: Vec<Self>)
        requires
            has_margin(self.0.cell(), 1),
        ensures
            out@.len() == T::moore_count(),
            out@.no_duplicates(),
            !out@.contains(*self),
            forall|q: Self| #[trigger] out@.contains(q) <==> chebyshev(self.0.cell(), q.0.cell()) == 1,
    {
        let points = self.0.neighbors();
        let out = Self::wrap(points);
        proof {
            Self::lemma_wrapped(points@, out@);
        }
        out
    }

    /// The positions next to this one along one axis: those of the Von Neumann
    /// neighbourhood of its point.
    pub fn neighbors_orthogonal(&self) -> (out: Vec<Self>)
        requires
            has_margin(self.0.cell(), 1),
        ensures
            out@.len() == T::orthogonal_count(),
            out@.no_duplicates(),
            !out@.contains(*self),
            forall|q: Self| #[trigger] out@.contains(q) <==> manhattan(self.0.cell(), q.0.cell()) == 1,
    {
        let points = self.0.neighbors_orthogonal();
        let out = Self::wrap(points);
        proof {
            Self::lemma_wrapped(points@, out@);
        }
        out
    }

    /// Positions made of distinct points are distinct, and hold a position exactly
    /// where the points hold its point.
    proof fn lemma_wrapped(points: Seq<T>, out: Seq<Self>)
        requires
            out.len() == points.len(),
            forall|i: int| 0 <= i < out.len() ==> #[trigger] out[i] == GridPosition(points[i]),
        ensures
            points.no_duplicates() ==> out.no_duplicates(),
            forall|q: Self| #[trigger] out.contains(q) <==> points.contains(q.0),
    {
        assert forall|q: Self| #[trigger] out.contains(q) <==> points.contains(q.0) by {
            if out.contains(q) {
                let i = choose|i: int| 0 <= i < out.len() && out[i] == q;
                assert(points[i] == q.0);
            }
            if points.contains(q.0) {
                let i = choose|i: int| 0 <= i < points.len() && points[i] == q.0;
                assert(out[i] == q);
            }
        }
        if points.no_duplicates() {
            assert forall|i: int, j: int|
                0 <= i < out.len() && 0 <= j < out.len() && i != j implies out[i] != out[j] by {
                assert(out[i].0 == points[i] && out[j].0 == points[j]);
            }
        }
    }
}

impl GridPosition<Coord2> {
    /// The position with the given axis values.
    pub fn new(x: i32, y: i32) -> (p: Self)
        ensures
            p == GridPosition(Coord2 { x, y }),
    {
        GridPosition(Coord2 { x, y })
    }

    pub fn x(&self) -> (x: i32)
        ensures
            x == self.0.x,
    {
        self.0.x
    }

    pub fn y(&self) -> (y: i32)
        ensures
            y == self.0.y,
    {
        self.0.y
    }
}

impl GridPosition<Coord3> {
    /// The position with the given axis values.
    pub fn new(x: i32, y: i32, z: i32) -> (p: Self)
        ensures
            p == GridPosition(Coord3 { x, y, z }),
    {
        GridPosition(Coord3 { x, y, z })
    }

    pub fn x(&self) -> (x: i32)
        ensures
            x == self.0.x,
    {
        self.0.x
    }

    pub fn y(&self) -> (y: i32)
        ensures
            y == self.0.y,
    {
        self.0.y
    }

    pub fn z(&self) -> (z: i32)
        ensures
            z == self.0.z,
    {
        self.0.z
    }
}

/// A position on the plane.
pub type GridPosition2D = GridPosition<Coord2>;

/// A position in space.
pub type GridPosition3D = GridPosition<Coord3>;

/// Bounds on the plane.
pub type GridBounds2D = GridBounds<Coord2>;

/// Bounds in space.
pub type GridBounds3D = GridBounds<Coord3>;

/// An index of the entities on a plane.
pub type SpatialGrid2D = SpatialGrid<Coord2>;

/// An index of the entities in space.
pub type SpatialGrid3D = SpatialGrid<Coord3>;

/// A set that is not empty has a member.
proof fn lemma_member_of_nonempty<A>(s: Set<A>)
    requires
        !s.is_empty(),
    ensures
        exists|a: A| s.contains(a),
{
    if forall|a: A| !s.contains(a) {
        assert(s =~= Set::<A>::empty());
    }
}

/// An index of the entities on a grid, by position and by entity.
///
/// Its view is the map from each indexed entity to its position. Beside it the
/// index keeps, for each occupied position, the set of entities on it
/// ([`SpatialGrid::occupancy`]); [`SpatialGrid::wf`] says that the two agree.
pub struct SpatialGrid<T: GridCoordinates> {
    /// The entities on each occupied cell.
    position_to_entities: Cells,
    /// The cell of each indexed entity.
    entity_to_position: Homes,
    /// The bounds that positions are held to, if any.
    bounds: Option<GridBounds<T>>,
}

impl<T: GridCoordinates> View for SpatialGrid<T> {
    type V = Map<Entity, GridPosition<T>>;

    closed spec fn view(&self) -> Map<Entity, GridPosition<T>> {
        Map::new(
            |e: Entity| homes_of(self.entity_to_position).contains_key(e),
            |e: Entity| GridPosition(T::at(homes_of(self.entity_to_position)[e])),
        )
    }
}

impl<T: GridCoordinates> SpatialGrid<T> {
    /// The occupied positions, each with the entities on it.
    pub closed spec fn occupancy(&self) -> Map<GridPosition<T>, Set<Entity>> {
        Map::new(
            |p: GridPosition<T>| cells_of(self.position_to_entities).contains_key(p.0.cell()),
            |p: GridPosition<T>| cells_of(self.position_to_entities)[p.0.cell()],
        )
    }

    /// The bounds this index was made with.
    pub closed spec fn limits(&self) -> Option<GridBounds<T>> {
        self.bounds
    }

    /// Whether `position` satisfies the bounds of this index. Without bounds every
    /// position does.
    pub open spec fn admits(&self, position: GridPosition<T>) -> bool {
        match self.limits() {
            Some(b) => b.holds(position.0),
            None => true,
        }
    }

    /// Every indexed entity stands within the bounds.
    pub open spec fn confined(&self) -> bool {
        forall|e: Entity| #[trigger] self@.contains_key(e) ==> self.admits(self@[e])
    }

    /// The invariant of the index: both directions hold the same pairs, no position
    /// is kept with an empty set, and the bounds, if any, are valid.
    pub closed spec fn wf(&self) -> bool {
        let cells = cells_of(self.position_to_entities);
        let homes = homes_of(self.entity_to_position);
        &&& homes.dom().finite()
        &&& match self.bounds {
            Some(b) => b.valid(),
            None => true,
        }
        &&& forall|e: Entity| #[trigger]
            homes.contains_key(e) ==> T::on_lattice(homes[e]) && cells.contains_key(homes[e])
                && cells[homes[e]].contains(e)
        &&& forall|k: CellKey, e: Entity|
            cells.contains_key(k) && #[trigger] cells[k].contains(e) ==> homes.contains_key(e)
                && homes[e] == k
        &&& forall|k: CellKey| #[trigger] cells.contains_key(k) ==> !cells[k].is_empty()
    }

    /// What the invariant means for the two public views: an entity is in the set of
    /// a position exactly when it is indexed at that position, and every position
    /// that is kept holds at least one entity.
    pub proof fn lemma_index_consistent(&self)
        requires
            self.wf(),
        ensures
            forall|p: GridPosition<T>, e: Entity|
                (self.occupancy().contains_key(p) && #[trigger] self.occupancy()[p].contains(e))
                    <==> (self@.contains_key(e) && self@[e] == p),
            forall|p: GridPosition<T>| #[trigger]
                self.occupancy().contains_key(p) ==> !self.occupancy()[p].is_empty(),
            forall|p: GridPosition<T>|
                self.occupancy().contains_key(p) <==> exists|e: Entity| #[trigger]
                    self@.contains_key(e) && self@[e] == p,
            self@.dom().finite(),
            match self.limits() {
                Some(b) => b.valid(),
                None => true,
            },
    {
        let cells = cells_of(self.position_to_entities);
        let homes = homes_of(self.entity_to_position);
        assert forall|p: GridPosition<T>, e: Entity|
            (self.occupancy().contains_key(p) && #[trigger] self.occupancy()[p].contains(e))
                <==> (self@.contains_key(e) && self@[e] == p) by {
            self.lemma_stands_on(e, p);
        }
        assert forall|p: GridPosition<T>|
            self.occupancy().contains_key(p) <==> exists|e: Entity| #[trigger]
                self@.contains_key(e) && self@[e] == p by {
            if self.occupancy().contains_key(p) {
                lemma_member_of_nonempty(cells[p.0.cell()]);
                let e = choose|e: Entity| cells[p.0.cell()].contains(e);
                self.lemma_stands_on(e, p);
                assert(self@.contains_key(e) && self@[e] == p);
            }
            if exists|e: Entity| #[trigger] self@.contains_key(e) && self@[e] == p {
                let e = choose|e: Entity| #[trigger] self@.contains_key(e) && self@[e] == p;
                self.lemma_stands_on(e, p);
            }
        }
        assert(self@.dom() =~= homes.dom());
    }

    /// A position on which no entity stands is not kept: once the last entity has
    /// left it, it is gone from the occupied positions.
    pub proof fn lemma_vacated_position_dropped(&self, p: GridPosition<T>)
        requires
            self.wf(),
            forall|e: Entity| #[trigger] self@.contains_key(e) ==> self@[e] != p,
        ensures
            !self.occupancy().contains_key(p),
    {
        self.lemma_index_consistent();
    }

    /// Putting an entity on the position on which it stands changes nothing.
    pub proof fn lemma_insert_idempotent(
        index: Map<Entity, GridPosition<T>>,
        entity: Entity,
        position: GridPosition<T>,
    )
        ensures
            index.insert(entity, position).insert(entity, position) == index.insert(
                entity,
                position,
            ),
    {
        assert(index.insert(entity, position).insert(entity, position) =~= index.insert(
            entity,
            position,
        ));
    }

    /// An entity is among those kept under the cell of `p` exactly when the index
    /// maps it to `p`.
    proof fn lemma_stands_on(&self, e: Entity, p: GridPosition<T>)
        requires
            self.wf(),
        ensures
            members_at(cells_of(self.position_to_entities), p.0.cell()).contains(e) <==> (
            self@.contains_key(e) && self@[e] == p),
            (self@.contains_key(e) && self@[e] == p) <==> home_at(
                homes_of(self.entity_to_position),
                e,
            ) == Some(p.0.cell()),
    {
        let homes = homes_of(self.entity_to_position);
        T::lemma_cell_at(p.0);
        if homes.contains_key(e) {
            T::lemma_at_cell(homes[e]);
        }
    }

    /// An empty index, held to `bounds` if there are any.
    pub fn new(bounds: Option<GridBounds<T>>) -> (grid: Self)
        requires
            match bounds {
                Some(b) => b.valid(),
                None => true,
            },
        ensures
            grid.wf(),
            grid@ =~= Map::<Entity, GridPosition<T>>::empty(),
            grid.occupancy() =~= Map::<GridPosition<T>, Set<Entity>>::empty(),
            grid.limits() == bounds,
    {
        let grid = SpatialGrid {
            position_to_entities: cells_new(),
            entity_to_position: homes_new(),
            bounds,
        };
        assert(homes_of(grid.entity_to_position).dom() =~= Set::<Entity>::empty());
        grid
    }

    /// The bounds this index was made with.
    pub fn bounds(&self) -> (b: Option<GridBounds<T>>)
        ensures
            b == self.limits(),
    {
        self.bounds
    }

    /// Whether `position` is within the bounds of the index; always true without bounds.
    pub fn in_bounds(&self, position: GridPosition<T>) -> (b: bool)
        requires
            self.wf(),
        ensures
            b == self.admits(position),
    {
        match &self.bounds {
            Some(bounds) => position.0.in_bounds(bounds),
            None => true,
        }
    }

    /// Puts `entity` on `position`, taking it off the position it stood on before.
    pub fn insert_or_update(&mut self, entity: Entity, position: GridPosition<T>)
        requires
            old(self).wf(),
            old(self).admits(position),
        ensures
            final(self).wf(),
            final(self)@ =~= old(self)@.insert(entity, position),
            final(self).limits() == old(self).limits(),
            old(self).confined() ==> final(self).confined(),
    {
        self.remove(entity);
        let k = position.0.to_cell();
        let ghost cells = cells_of(self.position_to_entities);
        let ghost homes = homes_of(self.entity_to_position);
        let ghost before = self@;
        proof {
            T::lemma_cell_at(position.0);
            assert(!before.contains_key(entity));
            assert(!homes.contains_key(entity));
        }
        cells_put(&mut self.position_to_entities, k, entity);
        homes_put(&mut self.entity_to_position, entity, k);
        proof {
            let after = cells_of(self.position_to_entities);
            let placed = homes_of(self.entity_to_position);
            assert(after[k].contains(entity));
            assert forall|c: CellKey| #[trigger] after.contains_key(c) implies !after[c].is_empty() by {
                if c != k {
                    assert(cells.contains_key(c));
                }
            }
            assert forall|c: CellKey, e: Entity|
                after.contains_key(c) && #[trigger] after[c].contains(e) implies placed.contains_key(
                e,
            ) && placed[e] == c by {
                if e != entity {
                    assert(cells.contains_key(c) && cells[c].contains(e));
                } else if c != k {
                    assert(cells.contains_key(c) && cells[c].contains(e));
                }
            }
            assert forall|e: Entity| #[trigger] placed.contains_key(e) implies T::on_lattice(
                placed[e],
            ) && after.contains_key(placed[e]) && after[placed[e]].contains(e) by {
                if e != entity {
                    assert(homes.contains_key(e));
                    assert(cells[homes[e]].contains(e));
                }
            }
            assert(placed.dom() =~= homes.dom().insert(entity));
            assert forall|e: Entity| #[trigger] self@.contains_key(e) implies self@[e] == before.insert(
                entity,
                position,
            )[e] by {
                if e != entity {
                    assert(before.contains_key(e));
                }
            }
            assert(self@ =~= before.insert(entity, position));
            if old(self).confined() {
                assert forall|e: Entity| #[trigger] self@.contains_key(e) implies self.admits(
                    self@[e],
                ) by {
                    if e != entity {
                        assert(before.contains_key(e));
                        assert(old(self)@.contains_key(e));
                    }
                }
            }
        }
    }

    /// Takes `entity` out of the index and returns the position it stood on, or
    /// `None` if it was not indexed. A position that is left without entities is
    /// dropped from the index.
    pub fn remove(&mut self, entity: Entity) -> (was: Option<GridPosition<T>>)
        requires
            old(self).wf(),
        ensures
            final(self).wf(),
            final(self)@ =~= old(self)@.remove(entity),
            was == (if old(self)@.contains_key(entity) {
                Some(old(self)@[entity])
            } else {
                None
            }),
            final(self).limits() == old(self).limits(),
            old(self).confined() ==> final(self).confined(),
    {
        let ghost cells = cells_of(self.position_to_entities);
        let ghost homes = homes_of(self.entity_to_position);
        match homes_take(&mut self.entity_to_position, entity) {
            None => None,
            Some(k) => {
                cells_take(&mut self.position_to_entities, k, entity);
                let ghost thinned = cells_of(self.position_to_entities);
                if cells_vacant(&self.position_to_entities, k) {
                    cells_drop(&mut self.position_to_entities, k);
                }
                proof {
                    let after = cells_of(self.position_to_entities);
                    assert(thinned == cells.insert(k, cells[k].remove(entity)));
                    assert forall|c: CellKey, e: Entity|
                        after.contains_key(c) && #[trigger] after[c].contains(e) implies homes.remove(
                        entity,
                    ).contains_key(e) && homes.remove(entity)[e] == c by {
                        assert(cells.contains_key(c) && cells[c].contains(e));
                    }
                    assert forall|e: Entity| #[trigger]
                        homes.remove(entity).contains_key(e) implies after.contains_key(homes[e])
                        && after[homes[e]].contains(e) by {
                        assert(homes.contains_key(e));
                        assert(thinned[homes[e]].contains(e));
                    }
                    assert forall|c: CellKey| #[trigger] after.contains_key(c) implies !after[c].is_empty() by {
                        if c != k {
                            assert(cells.contains_key(c));
                        }
                    }
                }
                Some(GridPosition(T::from_cell(k)))
            },
        }
    }

    /// The entities on `position`, each once.
    pub fn entities_at(&self, position: &GridPosition<T>) -> (out: Vec<Entity>)
        requires
            self.wf(),
        ensures
            out@.no_duplicates(),
            forall|e: Entity| #[trigger]
                out@.contains(e) <==> (self@.contains_key(e) && self@[e] == *position),
    {
        let out = cells_members(&self.position_to_entities, position.0.to_cell());
        proof {
            assert forall|e: Entity| #[trigger]
                out@.contains(e) <==> (self@.contains_key(e) && self@[e] == *position) by {
                self.lemma_stands_on(e, *position);
            }
        }
        out
    }

    /// The position of `entity`, or `None` if it is not indexed.
    pub fn position_of(&self, entity: Entity) -> (at: Option<GridPosition<T>>)
        requires
            self.wf(),
        ensures
            at == (if self@.contains_key(entity) {
                Some(self@[entity])
            } else {
                None
            }),
    {
        match homes_get(&self.entity_to_position, entity) {
            Some(k) => Some(GridPosition(T::from_cell(k))),
            None => None,
        }
    }

    /// The indexed entities that stand on one of `places` and within the bounds.
    fn gather(&self, places: &Vec<T>) -> (out: Vec<Entity>)
        requires
            self.wf(),
            places@.no_duplicates(),
        ensures
            out@.no_duplicates(),
            forall|e: Entity| #[trigger]
                out@.contains(e) <==> (self@.contains_key(e) && places@.contains(self@[e].0)
                    && self.admits(self@[e])),
    {
        let mut out: Vec<Entity> = Vec::new();
        let mut i: usize = 0;
        while i < places.len()
            invariant
                self.wf(),
                places@.no_duplicates(),
                i <= places.len(),
                out@.no_duplicates(),
                forall|e: Entity| #[trigger]
                    out@.contains(e) <==> (self@.contains_key(e) && places@.take(i as int).contains(
                        self@[e].0,
                    ) && self.admits(self@[e])),
            decreases places.len() - i,
        {
            let place = GridPosition(places[i]);
            proof {
                assert(places@.take(i + 1) =~= places@.take(i as int).push(places@[i as int]));
                lemma_push_contains(places@.take(i as int), places@[i as int]);
                if places@.take(i as int).contains(place.0) {
                    let j = choose|j: int|
                        0 <= j < places@.take(i as int).len() && places@.take(i as int)[j]
                            == place.0;
                    assert(places@[j] == places@[i as int]);
                }
            }
            if self.in_bounds(place) {
                let found = self.entities_at(&place);
                let mut j: usize = 0;
                while j < found.len()
                    invariant
                        j <= found.len(),
                        found@.no_duplicates(),
                        out@.no_duplicates(),
                        forall|e: Entity| #[trigger]
                            found@.contains(e) <==> (self@.contains_key(e) && self@[e] == place),
                        self.admits(place),
                        !places@.take(i as int).contains(place.0),
                        forall|e: Entity| #[trigger]
                            out@.contains(e) <==> (self@.contains_key(e) && self.admits(self@[e])
                                && (places@.take(i as int).contains(self@[e].0) || (self@[e]
                                == place && found@.take(j as int).contains(e)))),
                    decreases found.len() - j,
                {
                    let e = found[j];
                    proof {
                        assert(found@.take(j + 1) =~= found@.take(j as int).push(e));
                        lemma_push_contains(found@.take(j as int), e);
                        lemma_push_contains(out@, e);
                        assert(found@.contains(e));
                        if found@.take(j as int).contains(e) {
                            let a = choose|a: int|
                                0 <= a < found@.take(j as int).len() && found@.take(j as int)[a]
                                    == e;
                            assert(found@[a] == found@[j as int]);
                        }
                        lemma_push_distinct(out@, e);
                    }
                    out.push(e);
                    j += 1;
                }
                proof {
                    assert(found@.take(found@.len() as int) =~= found@);
                }
            }
            i += 1;
        }
        proof {
            assert(places@.take(places@.len() as int) =~= places@);
        }
        out
    }

    /// The entities in the Moore neighbourhood of `position`, each once. Neighbour
    /// positions outside the bounds contribute nothing, whatever the index holds.
    pub fn neighbors_of(&self, position: &GridPosition<T>) -> (out: Vec<Entity>)
        requires
            self.wf(),
        ensures
            out@.no_duplicates(),
            forall|e: Entity| #[trigger]
                out@.contains(e) <==> (self@.contains_key(e) && chebyshev(
                    position.0.cell(),
                    self@[e].0.cell(),
                ) == 1 && self.admits(self@[e])),
    {
        let around = points_around(&position.0, false);
        self.gather(&around)
    }

    /// The entities in the Von Neumann neighbourhood of `position`, each once.
    /// Neighbour positions outside the bounds contribute nothing, whatever the index
    /// holds.
    pub fn orthogonal_neighbors_of(&self, position: &GridPosition<T>) -> (out: Vec<Entity>)
        requires
            self.wf(),
        ensures
            out@.no_duplicates(),
            forall|e: Entity| #[trigger]
                out@.contains(e) <==> (self@.contains_key(e) && manhattan(
                    position.0.cell(),
                    self@[e].0.cell(),
                ) == 1 && self.admits(self@[e])),
    {
        let around = points_around(&position.0, true);
        self.gather(&around)
    }

    /// The entities whose position is within the bounds and at Manhattan distance
    /// `d` or less from `center`, each once.
    pub fn entities_within_distance(&self, center: &GridPosition<T>, d: u32) -> (out: Vec<Entity>)
        requires
            self.wf(),
            has_margin(center.0.cell(), d as int),
        ensures
            out@.no_duplicates(),
            forall|e: Entity| #[trigger]
                out@.contains(e) <==> (self@.contains_key(e) && manhattan(
                    center.0.cell(),
                    self@[e].0.cell(),
                ) <= d && self.admits(self@[e])),
    {
        let ball = center.0.coordinates_within_distance(d);
        self.gather(&ball)
    }

    /// Whether no entity stands on `position`.
    pub fn is_empty(&self, position: &GridPosition<T>) -> (b: bool)
        requires
            self.wf(),
        ensures
            b <==> forall|e: Entity| #[trigger] self@.contains_key(e) ==> self@[e] != *position,
    {
        let b = cells_vacant(&self.position_to_entities, position.0.to_cell());
        proof {
            let here = members_at(cells_of(self.position_to_entities), position.0.cell());
            if b {
                assert forall|e: Entity| #[trigger] self@.contains_key(e) implies self@[e]
                    != *position by {
                    self.lemma_stands_on(e, *position);
                }
            } else {
                lemma_member_of_nonempty(here);
                let e = choose|e: Entity| here.contains(e);
                self.lemma_stands_on(e, *position);
                assert(self@.contains_key(e) && self@[e] == *position);
            }
        }
        b
    }

    /// The number of indexed entities.
    pub fn num_entities(&self) -> (n: usize)
        requires
            self.wf(),
        ensures
            n == self@.dom().len(),
    {
        assert(self@.dom() =~= homes_of(self.entity_to_position).dom());
        homes_len(&self.entity_to_position)
    }

    /// The occupied positions, each once.
    pub fn occupied_positions(&self) -> (out: Vec<GridPosition<T>>)
        requires
            self.wf(),
        ensures
            out@.no_duplicates(),
            forall|p: GridPosition<T>| #[trigger]
                out@.contains(p) <==> self.occupancy().contains_key(p),
    {
        let keys = cells_keys(&self.position_to_entities);
        let ghost cells = cells_of(self.position_to_entities);
        let mut out: Vec<GridPosition<T>> = Vec::new();
        let mut i: usize = 0;
        while i < keys.len()
            invariant
                self.wf(),
                cells == cells_of(self.position_to_entities),
                i <= keys.len(),
                keys@.no_duplicates(),
                forall|k: CellKey| #[trigger] keys@.contains(k) <==> cells.contains_key(k),
                out@.len() == i,
                forall|j: int| 0 <= j < i ==> (#[trigger] out@[j]).0.cell() == keys@[j],
            decreases keys.len() - i,
        {
            let k = keys[i];
            proof {
                assert(keys@.contains(k));
                lemma_member_of_nonempty(cells[k]);
                T::lemma_at_cell(k);
            }
            out.push(GridPosition(T::from_cell(k)));
            i += 1;
        }
        proof {
            assert forall|p: GridPosition<T>| #[trigger]
                out@.contains(p) <==> self.occupancy().contains_key(p) by {
                if out@.contains(p) {
                    let j = choose|j: int| 0 <= j < out@.len() && out@[j] == p;
                    assert(keys@.contains(keys@[j]));
                }
                if self.occupancy().contains_key(p) {
                    assert(keys@.contains(p.0.cell()));
                    let j = choose|j: int| 0 <= j < keys@.len() && keys@[j] == p.0.cell();
                    T::lemma_cell_at(p.0);
                    T::lemma_cell_at(out@[j].0);
                    assert(out@[j] == p);
                }
            }
        }
        out
    }

    /// The index `index` after the entities of `changed` were put on their
    /// positions, one after the other.
    pub open spec fn after_updates(
        index: Map<Entity, GridPosition<T>>,
        changed: Seq<(Entity, GridPosition<T>)>,
    ) -> Map<Entity, GridPosition<T>>
        decreases changed.len(),
    {
        if changed.len() == 0 {
            index
        } else {
            Self::after_updates(index, changed.drop_last()).insert(
                changed.last().0,
                changed.last().1,
            )
        }
    }

    /// Applies a batch of position changes: each entity of `changed` is put on the
    /// position that comes with it, in the order of the batch.
    pub fn apply_updates(&mut self, changed: &[(Entity, GridPosition<T>)])
        requires
            old(self).wf(),
            forall|i: int| 0 <= i < changed@.len() ==> old(self).admits((#[trigger] changed@[i]).1),
        ensures
            final(self).wf(),
            final(self)@ =~= Self::after_updates(old(self)@, changed@),
            final(self).limits() == old(self).limits(),
            old(self).confined() ==> final(self).confined(),
    {
        let mut i: usize = 0;
        assert(changed@.take(0) =~= Seq::<(Entity, GridPosition<T>)>::empty());
        while i < changed.len()
            invariant
                i <= changed@.len(),
                self.wf(),
                self.limits() == old(self).limits(),
                forall|j: int|
                    0 <= j < changed@.len() ==> old(self).admits((#[trigger] changed@[j]).1),
                self@ =~= Self::after_updates(old(self)@, changed@.take(i as int)),
                old(self).confined() ==> self.confined(),
            decreases changed@.len() - i,
        {
            let (entity, position) = changed[i];
            proof {
                assert(changed@.take(i + 1).drop_last() =~= changed@.take(i as int));
                assert(old(self).admits(changed@[i as int].1));
            }
            self.insert_or_update(entity, position);
            i += 1;
        }
        proof {
            assert(changed@.take(i as int) =~= changed@);
        }
    }

    /// Applies a batch of removals: every entity of `removed` leaves the index.
    pub fn apply_removals(&mut self, removed: &[Entity])
        requires
            old(self).wf(),
        ensures
            final(self).wf(),
            final(self)@ =~= old(self)@.remove_keys(removed@.to_set()),
            final(self).limits() == old(self).limits(),
            old(self).confined() ==> final(self).confined(),
    {
        let mut i: usize = 0;
        while i < removed.len()
            invariant
                i <= removed@.len(),
                self.wf(),
                self.limits() == old(self).limits(),
                self@ =~= old(self)@.remove_keys(removed@.take(i as int).to_set()),
                old(self).confined() ==> self.confined(),
            decreases removed@.len() - i,
        {
            proof {
                assert(removed@.take(i + 1) =~= removed@.take(i as int).push(removed@[i as int]));
                lemma_push_contains(removed@.take(i as int), removed@[i as int]);
                assert(removed@.take(i + 1).to_set() =~= removed@.take(i as int).to_set().insert(
                    removed@[i as int],
                ));
            }
            self.remove(removed[i]);
            i += 1;
        }
        proof {
            assert(removed@.take(i as int) =~= removed@);
        }
    }

    /// Empties the index. The bounds stay.
    pub fn clear(&mut self)
        requires
            old(self).wf(),
        ensures
            final(self).wf(),
            final(self)@ =~= Map::<Entity, GridPosition<T>>::empty(),
            final(self).occupancy() =~= Map::<GridPosition<T>, Set<Entity>>::empty(),
            final(self).limits() == old(self).limits(),
            final(self).confined(),
    {
        cells_clear(&mut self.position_to_entities);
        homes_clear(&mut self.entity_to_position);
        assert(homes_of(self.entity_to_position).dom() =~= Set::<Entity>::empty());
    }
}

} // verus!
