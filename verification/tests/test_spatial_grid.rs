use bevy::ecs::entity::Entity;
use incerto::prelude::{
    manhattan_distance, Coord2, Coord3, GridBounds2D, GridBounds3D, GridPosition2D,
    GridPosition3D, SpatialGrid3D, SpatialGrid2D,
};

#[test]
fn test_grid_position_neighbors() {
    let pos = GridPosition2D::new(1, 1);

    let neighbors: Vec<GridPosition2D> = pos.neighbors();
    assert_eq!(neighbors.len(), 8);

    // Check all 8 neighbors are present
    let expected_neighbors = [
        GridPosition2D::new(0, 0),
        GridPosition2D::new(1, 0),
        GridPosition2D::new(2, 0),
        GridPosition2D::new(0, 1),
        GridPosition2D::new(2, 1),
        GridPosition2D::new(0, 2),
        GridPosition2D::new(1, 2),
        GridPosition2D::new(2, 2),
    ];

    for expected in expected_neighbors {
        assert!(neighbors.contains(&expected), "Missing neighbor: {:?}", expected);
    }
}

#[test]
fn test_grid_position_orthogonal_neighbors() {
    let pos = GridPosition2D::new(1, 1);

    let neighbors: Vec<GridPosition2D> = pos.neighbors_orthogonal();
    assert_eq!(neighbors.len(), 4);

    let expected_neighbors = [
        GridPosition2D::new(1, 0), // top
        GridPosition2D::new(0, 1), // left
        GridPosition2D::new(2, 1), // right
        GridPosition2D::new(1, 2), // bottom
    ];

    for expected in expected_neighbors {
        assert!(neighbors.contains(&expected), "Missing orthogonal neighbor: {:?}", expected);
    }
}

#[test]
fn test_grid_position_distances() {
    let pos1 = GridPosition2D::new(0, 0);
    let pos2 = GridPosition2D::new(3, 4);

    // Test Manhattan distance
    assert_eq!(manhattan_distance(&pos2.0, &pos1.0), 7);

    let pos3 = GridPosition2D::new(1, 1);
    assert_eq!(manhattan_distance(&pos3.0, &pos1.0), 2);
}

#[test]
fn test_grid_bounds() {
    let bounds = GridBounds2D { min: Coord2::new(0, 0), max: Coord2::new(9, 9) };

    assert!(bounds.contains(&GridPosition2D::new(0, 0).0));
    assert!(bounds.contains(&GridPosition2D::new(9, 9).0));
    assert!(bounds.contains(&GridPosition2D::new(5, 5).0));

    assert!(!bounds.contains(&GridPosition2D::new(-1, 0).0));
    assert!(!bounds.contains(&GridPosition2D::new(0, -1).0));
    assert!(!bounds.contains(&GridPosition2D::new(10, 5).0));
    assert!(!bounds.contains(&GridPosition2D::new(5, 10).0));
}

#[test]
fn test_3d_grid_position_neighbors() {
    let pos = GridPosition3D::new(1, 1, 1);

    let neighbors: Vec<GridPosition3D> = pos.neighbors();
    assert_eq!(neighbors.len(), 26); // 3x3x3 cube minus center = 26 neighbors

    // Check that center position is not included
    assert!(!neighbors.contains(&pos));

    // Check some specific 3D neighbors
    assert!(neighbors.contains(&GridPosition3D::new(0, 0, 0))); // corner
    assert!(neighbors.contains(&GridPosition3D::new(2, 2, 2))); // opposite corner
    assert!(neighbors.contains(&GridPosition3D::new(1, 1, 0))); // directly below
    assert!(neighbors.contains(&GridPosition3D::new(1, 1, 2))); // directly above
}

#[test]
fn test_3d_grid_position_orthogonal_neighbors() {
    let pos = GridPosition3D::new(1, 1, 1);

    let neighbors: Vec<GridPosition3D> = pos.neighbors_orthogonal();
    assert_eq!(neighbors.len(), 6); // 6 orthogonal directions in 3D

    let expected_neighbors = [
        GridPosition3D::new(0, 1, 1), // -x
        GridPosition3D::new(2, 1, 1), // +x
        GridPosition3D::new(1, 0, 1), // -y
        GridPosition3D::new(1, 2, 1), // +y
        GridPosition3D::new(1, 1, 0), // -z
        GridPosition3D::new(1, 1, 2), // +z
    ];

    for expected in expected_neighbors {
        assert!(neighbors.contains(&expected), "Missing 3D orthogonal neighbor: {:?}", expected);
    }
}

#[test]
fn test_3d_grid_position_distances() {
    let pos1 = GridPosition3D::new(0, 0, 0);
    let pos2 = GridPosition3D::new(3, 4, 5);

    // Test 3D Manhattan distance
    assert_eq!(manhattan_distance(&pos2.0, &pos1.0), 12); // 3 + 4 + 5 = 12

    let pos3 = GridPosition3D::new(1, 1, 1);
    assert_eq!(manhattan_distance(&pos3.0, &pos1.0), 3); // 1 + 1 + 1 = 3
}

#[test]
fn test_3d_grid_bounds() {
    let bounds = GridBounds3D { min: Coord3::new(0, 0, 0), max: Coord3::new(9, 9, 9) };

    assert!(bounds.contains(&GridPosition3D::new(0, 0, 0).0));
    assert!(bounds.contains(&GridPosition3D::new(9, 9, 9).0));
    assert!(bounds.contains(&GridPosition3D::new(5, 5, 5).0));

    assert!(!bounds.contains(&GridPosition3D::new(-1, 0, 0).0));
    assert!(!bounds.contains(&GridPosition3D::new(0, -1, 0).0));
    assert!(!bounds.contains(&GridPosition3D::new(0, 0, -1).0));
    assert!(!bounds.contains(&GridPosition3D::new(10, 5, 5).0));
    assert!(!bounds.contains(&GridPosition3D::new(5, 10, 5).0));
    assert!(!bounds.contains(&GridPosition3D::new(5, 5, 10).0));
}

#[test]
fn test_3d_spatial_grid_integration() {
    let bounds = GridBounds3D { min: Coord3::new(0, 0, 0), max: Coord3::new(4, 4, 4) };

    // Entities at different 3D positions, each with the value it carries
    let spawned = [
        (Entity::from_raw(0), GridPosition3D::new(0, 0, 0), 1),
        (Entity::from_raw(1), GridPosition3D::new(2, 2, 2), 2),
        (Entity::from_raw(2), GridPosition3D::new(4, 4, 4), 3),
        (Entity::from_raw(3), GridPosition3D::new(1, 2, 3), 4),
    ];
    let mut spatial_grid = SpatialGrid3D::new(Some(bounds));
    for (entity, position, _) in spawned {
        assert!(spatial_grid.in_bounds(position));
        spatial_grid.insert_or_update(entity, position);
    }

    // Test 3D spatial queries
    let center_pos = GridPosition3D::new(2, 2, 2);

    // Find entities within distance 2 in 3D space using neighbor-based approach
    let mut nearby_entities = Vec::new();
    let center_coord = center_pos.0;

    // Check all positions within Manhattan distance of 2
    for dx in -2i32..=2i32 {
        for dy in -2i32..=2i32 {
            for dz in -2i32..=2i32 {
                let manhattan_distance = dx.abs() + dy.abs() + dz.abs();
                if manhattan_distance <= 2 {
                    let check_pos = GridPosition3D::new(
                        center_coord.x + dx,
                        center_coord.y + dy,
                        center_coord.z + dz,
                    );
                    nearby_entities.extend(spatial_grid.entities_at(&check_pos));
                }
            }
        }
    }

    assert!(!nearby_entities.is_empty(), "Should find nearby entities in 3D");

    // Verify all positions are valid 3D coordinates
    for (entity, _, value) in spawned {
        let position = spatial_grid.position_of(entity).expect("every entity is indexed");
        assert!(value > 0);
        assert!(position.x() >= 0 && position.x() <= 4);
        assert!(position.y() >= 0 && position.y() <= 4);
        assert!(position.z() >= 0 && position.z() <= 4);
    }

    // Verify all entities were created
    let entity_count = spatial_grid.num_entities();
    assert_eq!(entity_count, 4);
}

#[test]
fn test_spatial_grid_reset_functionality() {
    let bounds = GridBounds2D { min: Coord2::new(0, 0), max: Coord2::new(4, 4) };

    let spawned = [
        (Entity::from_raw(0), GridPosition2D::new(0, 0)),
        (Entity::from_raw(1), GridPosition2D::new(2, 2)),
        (Entity::from_raw(2), GridPosition2D::new(4, 4)),
    ];
    let mut spatial_grid = SpatialGrid2D::new(Some(bounds));

    // Two steps: the positions are written to the index in each
    for _ in 0..2 {
        for (entity, position) in spawned {
            spatial_grid.insert_or_update(entity, position);
        }
    }

    // Verify entities are tracked
    let entity_count = spatial_grid.num_entities();
    assert_eq!(entity_count, 3);
}
