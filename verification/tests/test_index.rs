use bevy::ecs::entity::Entity;
use incerto::prelude::{
    Coord2, Coord3, GridBounds2D, GridBounds3D, GridCoordinates, GridPosition2D, GridPosition3D,
    SpatialGrid2D, SpatialGrid3D,
};

fn entity(n: u32) -> Entity {
    Entity::from_raw(n)
}

/// Checks both directions of a plane index against each other.
fn assert_consistent(grid: &SpatialGrid2D, known: &[Entity]) {
    let occupied = grid.occupied_positions();
    let mut counted = 0;
    for position in &occupied {
        let here = grid.entities_at(position);
        assert!(!here.is_empty(), "a position without entities is kept: {:?}", position);
        assert!(!grid.is_empty(position));
        for e in &here {
            assert_eq!(grid.position_of(*e), Some(*position));
        }
        counted += here.len();
    }
    assert_eq!(counted, grid.num_entities());
    for e in known {
        if let Some(position) = grid.position_of(*e) {
            assert!(grid.entities_at(&position).contains(e));
            assert!(occupied.contains(&position));
        }
    }
}

#[test]
fn test_index_stays_consistent() {
    let known: Vec<Entity> = (0..6).map(entity).collect();
    let mut grid = SpatialGrid2D::new(None);
    assert_consistent(&grid, &known);

    grid.insert_or_update(known[0], GridPosition2D::new(0, 0));
    assert_consistent(&grid, &known);
    grid.insert_or_update(known[1], GridPosition2D::new(0, 0));
    assert_consistent(&grid, &known);
    grid.insert_or_update(known[2], GridPosition2D::new(3, -4));
    assert_consistent(&grid, &known);
    // a move
    grid.insert_or_update(known[0], GridPosition2D::new(3, -4));
    assert_consistent(&grid, &known);
    assert_eq!(grid.position_of(known[0]), Some(GridPosition2D::new(3, -4)));
    assert_eq!(grid.entities_at(&GridPosition2D::new(0, 0)), vec![known[1]]);
    // the same position again
    grid.insert_or_update(known[0], GridPosition2D::new(3, -4));
    assert_consistent(&grid, &known);
    assert_eq!(grid.num_entities(), 3);
    // removals, one of an entity that is not indexed
    assert_eq!(grid.remove(known[5]), None);
    assert_consistent(&grid, &known);
    assert_eq!(grid.remove(known[1]), Some(GridPosition2D::new(0, 0)));
    assert_consistent(&grid, &known);
    assert_eq!(grid.remove(known[1]), None);
    assert_eq!(grid.num_entities(), 2);
    assert_eq!(grid.position_of(known[1]), None);
    assert_eq!(grid.remove(known[2]), Some(GridPosition2D::new(3, -4)));
    assert_eq!(grid.remove(known[0]), Some(GridPosition2D::new(3, -4)));
    assert_consistent(&grid, &known);
    assert_eq!(grid.num_entities(), 0);
    assert!(grid.occupied_positions().is_empty());
}

#[test]
fn test_no_empty_position_is_kept() {
    let mut grid = SpatialGrid2D::new(None);
    let here = GridPosition2D::new(7, 7);
    let there = GridPosition2D::new(8, 7);
    grid.insert_or_update(entity(1), here);
    grid.insert_or_update(entity(2), here);
    grid.insert_or_update(entity(3), there);
    assert_eq!(grid.occupied_positions().len(), 2);

    // one of two leaves: the position stays
    grid.remove(entity(1));
    assert_eq!(grid.entities_at(&here), vec![entity(2)]);
    assert!(!grid.is_empty(&here));
    assert!(grid.occupied_positions().contains(&here));

    // the last one leaves: the position goes
    grid.remove(entity(2));
    assert!(grid.entities_at(&here).is_empty());
    assert!(grid.is_empty(&here));
    assert_eq!(grid.occupied_positions(), vec![there]);

    // a move empties a position as a removal does
    grid.insert_or_update(entity(3), here);
    assert!(grid.is_empty(&there));
    assert_eq!(grid.occupied_positions(), vec![here]);
}

#[test]
fn test_entities_at_lists_each_entity_once() {
    let mut grid = SpatialGrid3D::new(None);
    let p = GridPosition3D::new(1, 2, 3);
    for n in 0..20 {
        grid.insert_or_update(entity(n), p);
    }
    let mut here = grid.entities_at(&p);
    here.sort();
    let expected: Vec<Entity> = (0..20).map(entity).collect();
    assert_eq!(here, expected);
    assert!(grid.entities_at(&GridPosition3D::new(3, 2, 1)).is_empty());
    assert!(grid.is_empty(&GridPosition3D::new(3, 2, 1)));
}

#[test]
fn test_clear() {
    let bounds = GridBounds2D { min: Coord2::new(0, 0), max: Coord2::new(4, 4) };
    let mut grid = SpatialGrid2D::new(Some(bounds));
    grid.insert_or_update(entity(1), GridPosition2D::new(1, 1));
    grid.insert_or_update(entity(2), GridPosition2D::new(2, 2));
    grid.clear();
    assert_eq!(grid.num_entities(), 0);
    assert_eq!(grid.position_of(entity(1)), None);
    assert!(grid.entities_at(&GridPosition2D::new(1, 1)).is_empty());
    assert!(grid.occupied_positions().is_empty());
    assert_eq!(grid.bounds(), Some(bounds));
    // the index works on after it was emptied
    grid.insert_or_update(entity(1), GridPosition2D::new(4, 4));
    assert_eq!(grid.num_entities(), 1);
}

#[test]
fn test_neighbor_counts() {
    for (x, y) in [(0, 0), (1, 1), (-5, 17), (i32::MAX - 1, i32::MIN + 1)] {
        let p = Coord2::new(x, y);
        let around = p.neighbors();
        assert_eq!(around.len(), 8);
        assert!(!around.contains(&p));
        assert_eq!(p.neighbors_orthogonal().len(), 4);
        assert!(!p.neighbors_orthogonal().contains(&p));
    }
    for (x, y, z) in [(0, 0, 0), (1, 1, 1), (-5, 17, 2), (i32::MAX - 1, i32::MIN + 1, 0)] {
        let p = Coord3::new(x, y, z);
        let around = p.neighbors();
        assert_eq!(around.len(), 26);
        assert!(!around.contains(&p));
        assert_eq!(p.neighbors_orthogonal().len(), 6);
        assert!(!p.neighbors_orthogonal().contains(&p));
    }
}

#[test]
fn test_neighbor_order() {
    let around = Coord2::new(10, 20).neighbors();
    let expected: Vec<Coord2> =
        [(9, 19), (10, 19), (11, 19), (9, 20), (11, 20), (9, 21), (10, 21), (11, 21)]
            .into_iter()
            .map(|(x, y)| Coord2::new(x, y))
            .collect();
    assert_eq!(around, expected);
    let around = Coord3::new(0, 0, 0).neighbors();
    assert_eq!(around[0], Coord3::new(-1, -1, -1));
    assert_eq!(around[12], Coord3::new(0, 0, -1));
    assert_eq!(around[13], Coord3::new(0, 0, 1));
    assert_eq!(around[25], Coord3::new(1, 1, 1));
}

#[test]
fn test_neighbors_of() {
    let mut grid = SpatialGrid2D::new(None);
    grid.insert_or_update(entity(0), GridPosition2D::new(5, 5)); // the centre itself
    grid.insert_or_update(entity(1), GridPosition2D::new(4, 4)); // diagonal
    grid.insert_or_update(entity(2), GridPosition2D::new(5, 6)); // orthogonal
    grid.insert_or_update(entity(3), GridPosition2D::new(5, 6)); // orthogonal, same cell
    grid.insert_or_update(entity(4), GridPosition2D::new(7, 5)); // two away

    let mut moore = grid.neighbors_of(&GridPosition2D::new(5, 5));
    moore.sort();
    assert_eq!(moore, vec![entity(1), entity(2), entity(3)]);

    let mut von_neumann = grid.orthogonal_neighbors_of(&GridPosition2D::new(5, 5));
    von_neumann.sort();
    assert_eq!(von_neumann, vec![entity(2), entity(3)]);
}

#[test]
fn test_neighbors_outside_bounds_are_left_out() {
    let bounds = GridBounds2D { min: Coord2::new(0, 0), max: Coord2::new(4, 4) };
    let mut grid = SpatialGrid2D::new(Some(bounds));
    grid.insert_or_update(entity(1), GridPosition2D::new(0, 1));
    grid.insert_or_update(entity(2), GridPosition2D::new(1, 1));
    assert!(!grid.in_bounds(GridPosition2D::new(-1, 0)));
    assert!(grid.in_bounds(GridPosition2D::new(4, 4)));

    // A neighbour outside the bounds is no error, and gives nothing.
    let mut around = grid.neighbors_of(&GridPosition2D::new(0, 0));
    around.sort();
    assert_eq!(around, vec![entity(1), entity(2)]);
    assert_eq!(grid.orthogonal_neighbors_of(&GridPosition2D::new(0, 0)), vec![entity(1)]);

    // The same holds of an entry that the index should never have been given.
    grid.insert_or_update(entity(3), GridPosition2D::new(-1, 0));
    assert_eq!(grid.position_of(entity(3)), Some(GridPosition2D::new(-1, 0)));
    let mut around = grid.neighbors_of(&GridPosition2D::new(0, 0));
    around.sort();
    assert_eq!(around, vec![entity(1), entity(2)]);
    assert_eq!(grid.orthogonal_neighbors_of(&GridPosition2D::new(0, 0)), vec![entity(1)]);
    assert!(grid.entities_within_distance(&GridPosition2D::new(0, 0), 1) == vec![entity(1)]);

    // Without bounds the same entity is a neighbour.
    let mut open = SpatialGrid2D::new(None);
    open.insert_or_update(entity(3), GridPosition2D::new(-1, 0));
    assert_eq!(open.neighbors_of(&GridPosition2D::new(0, 0)), vec![entity(3)]);
    assert!(open.in_bounds(GridPosition2D::new(i32::MIN, i32::MAX)));
}

#[test]
fn test_neighbors_at_the_end_of_the_range() {
    let corner = GridPosition2D::new(i32::MAX, i32::MIN);
    let mut grid = SpatialGrid2D::new(None);
    grid.insert_or_update(entity(1), GridPosition2D::new(i32::MAX - 1, i32::MIN));
    grid.insert_or_update(entity(2), GridPosition2D::new(i32::MAX - 1, i32::MIN + 1));
    grid.insert_or_update(entity(3), GridPosition2D::new(i32::MAX, i32::MIN + 2));
    grid.insert_or_update(entity(4), corner);
    let mut around = grid.neighbors_of(&corner);
    around.sort();
    assert_eq!(around, vec![entity(1), entity(2)]);
    assert_eq!(grid.orthogonal_neighbors_of(&corner), vec![entity(1)]);

    // the neighbours that exist, of a corner of the plane and of space
    assert_eq!(incerto::prelude::points_around(&corner.0, false).len(), 3);
    assert_eq!(incerto::prelude::points_around(&corner.0, true).len(), 2);
    let corner = Coord3::new(i32::MIN, i32::MIN, i32::MAX);
    assert_eq!(incerto::prelude::points_around(&corner, false).len(), 7);
    assert_eq!(incerto::prelude::points_around(&corner, true).len(), 3);
    let inner = Coord3::new(0, 0, 0);
    assert_eq!(incerto::prelude::points_around(&inner, false).len(), 26);
    assert_eq!(incerto::prelude::points_around(&inner, true).len(), 6);
    assert_eq!(incerto::prelude::points_around(&Coord2::new(0, 0), false).len(), 8);
    assert_eq!(incerto::prelude::points_around(&Coord2::new(0, 0), true).len(), 4);
}

#[test]
fn test_entities_within_distance_in_bounded_space() {
    let bounds = GridBounds3D { min: Coord3::new(0, 0, 0), max: Coord3::new(4, 4, 4) };
    let mut grid = SpatialGrid3D::new(Some(bounds));
    grid.insert_or_update(entity(0), GridPosition3D::new(0, 0, 0));
    grid.insert_or_update(entity(1), GridPosition3D::new(2, 2, 2));
    grid.insert_or_update(entity(2), GridPosition3D::new(4, 4, 4));
    grid.insert_or_update(entity(3), GridPosition3D::new(1, 2, 3));

    let mut near = grid.entities_within_distance(&GridPosition3D::new(2, 2, 2), 2);
    near.sort();
    assert_eq!(near, vec![entity(1), entity(3)]);

    assert_eq!(grid.entities_within_distance(&GridPosition3D::new(2, 2, 2), 0), vec![entity(1)]);
    assert_eq!(grid.entities_within_distance(&GridPosition3D::new(2, 2, 2), 1), vec![entity(1)]);
    let mut all = grid.entities_within_distance(&GridPosition3D::new(2, 2, 2), 6);
    all.sort();
    assert_eq!(all, vec![entity(0), entity(1), entity(2), entity(3)]);
}

#[test]
fn test_coordinates_within_distance() {
    let c = Coord2::new(3, -3);
    assert_eq!(c.coordinates_within_distance(0), vec![c]);
    let ball = c.coordinates_within_distance(2);
    assert_eq!(ball.len(), 13);
    for p in &ball {
        assert!(incerto::prelude::manhattan_distance(&c, p) <= 2);
    }
    assert!(ball.contains(&Coord2::new(5, -3)));
    assert!(ball.contains(&Coord2::new(2, -4)));
    assert!(!ball.contains(&Coord2::new(5, -4)));

    let c = Coord3::new(0, 0, 0);
    assert_eq!(c.coordinates_within_distance(1).len(), 7);
    let ball = c.coordinates_within_distance(2);
    assert_eq!(ball.len(), 25);
    let mut seen = ball.clone();
    seen.sort_by_key(|p| (p.x, p.y, p.z));
    seen.dedup();
    assert_eq!(seen.len(), 25);
    assert!(ball.contains(&Coord3::new(-1, 0, 1)));
    assert!(!ball.contains(&Coord3::new(-1, 1, 1)));
    assert_eq!(c.coordinates_within_distance(3).len(), 63);
}

#[test]
fn test_batches() {
    let mut grid = SpatialGrid2D::new(None);
    grid.apply_updates(&[
        (entity(1), GridPosition2D::new(1, 1)),
        (entity(2), GridPosition2D::new(2, 2)),
        (entity(1), GridPosition2D::new(3, 3)),
    ]);
    assert_eq!(grid.num_entities(), 2);
    // of two changes of one entity the later one stands
    assert_eq!(grid.position_of(entity(1)), Some(GridPosition2D::new(3, 3)));
    assert!(grid.is_empty(&GridPosition2D::new(1, 1)));

    grid.apply_removals(&[entity(2), entity(9), entity(2)]);
    assert_eq!(grid.num_entities(), 1);
    assert_eq!(grid.position_of(entity(2)), None);
    assert_eq!(grid.occupied_positions(), vec![GridPosition2D::new(3, 3)]);
}

#[test]
fn test_bounds_validity() {
    assert!(GridBounds2D { min: Coord2::new(0, 0), max: Coord2::new(0, 0) }.is_valid());
    assert!(!GridBounds2D { min: Coord2::new(1, 0), max: Coord2::new(0, 5) }.is_valid());
    assert!(!GridBounds3D { min: Coord3::new(0, 0, 1), max: Coord3::new(5, 5, 0) }.is_valid());
    let p = Coord3::new(1, 2, 3);
    assert_eq!(p.to_cell(), (1, 2, 3));
    assert_eq!(Coord3::from_cell((1, 2, 3)), p);
    assert_eq!(Coord2::new(4, 5).to_cell(), (4, 5, 0));
    assert_eq!(Coord2::from_cell((4, 5, 0)), Coord2::new(4, 5));
    assert!(Coord2::is_on_lattice((4, 5, 0)));
    assert!(!Coord2::is_on_lattice((4, 5, 1)));
    assert!(Coord3::is_on_lattice((4, 5, 1)));
    let bounds = GridBounds3D { min: Coord3::new(0, 0, 0), max: Coord3::new(4, 4, 4) };
    assert!(p.in_bounds(&bounds));
    assert!(!Coord3::new(1, 2, 5).in_bounds(&bounds));
}

#[test]
fn test_distance_of_far_points() {
    let a = Coord3::new(i32::MIN, i32::MIN, i32::MIN);
    let b = Coord3::new(i32::MAX, i32::MAX, i32::MAX);
    assert_eq!(incerto::prelude::manhattan_distance(&a, &b), 3 * (u32::MAX as u64));
    assert_eq!(incerto::prelude::manhattan_distance(&b, &a), 3 * (u32::MAX as u64));
    assert_eq!(incerto::prelude::manhattan_distance(&a, &a), 0);
}
