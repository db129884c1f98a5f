use runen_spatial::{
    ChunkCoord3, ChunkId, ClipmapConfig, ClipmapCoord3, ClipmapLevel, ClipmapWindow, GridLevel,
    GridPartitionConfig, HierarchicalChunkId, HierarchicalGridConfig, RegionCoord3,
    RingBufferConfig, RingSlot3, SpatialMathError, WorldId, clipmap_window_for_center,
    ring_slot_for_coord,
};

#[test]
fn partition_uses_checked_floor_conversion_and_negative_division() {
    let partition = GridPartitionConfig::try_new([8, 8, 8]).unwrap();
    let chunk = ChunkCoord3 {
        x: -1,
        y: -8,
        z: -9,
    };
    let region = partition.region_coord_from_chunk_coord(chunk);
    assert_eq!(region.z, -2);
    let region_id = partition.region_id_from_chunk_id(ChunkId::new(WorldId(3), chunk));
    assert_eq!(region_id.world_id, WorldId(3));
    assert_eq!(region_id.coord, region);
    assert!(matches!(
        GridPartitionConfig::try_new([0, 1, 1]),
        Err(SpatialMathError::ZeroDimension { .. })
    ));
}

#[test]
fn hierarchy_is_finest_to_coarsest_with_checked_bounds() {
    let config = HierarchicalGridConfig::try_new(3, 2).unwrap();
    assert_eq!(
        config.parent_level(GridLevel(0)).unwrap(),
        Some(GridLevel(1))
    );
    assert_eq!(config.child_level(GridLevel(0)).unwrap(), None);
    assert_eq!(
        config
            .parent_coord(GridLevel(2), ChunkCoord3::default())
            .unwrap(),
        None
    );
    assert_eq!(
        config
            .first_child_coord(GridLevel(0), ChunkCoord3::default())
            .unwrap(),
        None
    );
    assert_eq!(
        config
            .child_coord_bounds(GridLevel(0), ChunkCoord3::default())
            .unwrap(),
        None
    );
    assert_eq!(
        config
            .parent_coord(GridLevel(0), ChunkCoord3 { x: -1, y: 3, z: 0 })
            .unwrap(),
        Some(ChunkCoord3 { x: -1, y: 1, z: 0 })
    );
    assert_eq!(
        config
            .child_coord_bounds(GridLevel(1), ChunkCoord3 { x: -1, y: 0, z: 1 })
            .unwrap(),
        Some((
            ChunkCoord3 { x: -2, y: 0, z: 2 },
            ChunkCoord3 { x: -1, y: 1, z: 3 }
        ))
    );
    assert_eq!(
        HierarchicalChunkId::new(WorldId(1), GridLevel(2), ChunkCoord3::default())
            .parent(&config)
            .unwrap(),
        None
    );
    assert!(matches!(
        config.first_child_coord(
            GridLevel(1),
            ChunkCoord3 {
                x: i64::MAX,
                y: 0,
                z: 0
            }
        ),
        Err(SpatialMathError::ArithmeticOverflow { .. })
    ));
    assert!(matches!(
        HierarchicalGridConfig::try_new(0, 2),
        Err(SpatialMathError::LevelCountZero)
    ));
    assert!(matches!(
        config.parent_coord(GridLevel(3), ChunkCoord3::default()),
        Err(SpatialMathError::LevelOutOfRange { .. })
    ));
    assert!(matches!(
        config.first_child_coord(GridLevel(3), ChunkCoord3::default()),
        Err(SpatialMathError::LevelOutOfRange { .. })
    ));
}

#[test]
fn hierarchy_child_bounds_cover_each_parent_without_overlap() {
    for scale in [2, 3, 4] {
        let config = HierarchicalGridConfig::try_new(3, scale).unwrap();
        for x in -17..=17 {
            for y in -17..=17 {
                for z in -17..=17 {
                    let parent = ChunkCoord3 { x, y, z };
                    let (minimum, maximum) = config
                        .child_coord_bounds(GridLevel(1), parent)
                        .unwrap()
                        .unwrap();
                    let mut count = 0_u32;
                    for child_x in minimum.x..=maximum.x {
                        for child_y in minimum.y..=maximum.y {
                            for child_z in minimum.z..=maximum.z {
                                count += 1;
                                assert_eq!(
                                    config
                                        .parent_coord(
                                            GridLevel(0),
                                            ChunkCoord3 {
                                                x: child_x,
                                                y: child_y,
                                                z: child_z,
                                            },
                                        )
                                        .unwrap(),
                                    Some(parent)
                                );
                            }
                        }
                    }
                    assert_eq!(count, scale.pow(3));
                    let next_parent = ChunkCoord3 { x: x + 1, y, z };
                    let (next_minimum, _) = config
                        .child_coord_bounds(GridLevel(1), next_parent)
                        .unwrap()
                        .unwrap();
                    assert!(maximum.x < next_minimum.x);
                }
            }
        }
    }
}

#[test]
fn clipmap_and_ring_are_checked_mapping_primitives() {
    let clipmap = ClipmapConfig::try_new(2, 2, [3, 3, 3]).unwrap();
    assert_eq!(clipmap.validate_level(ClipmapLevel(1)), Ok(()));
    assert_eq!(
        clipmap.validate_level(ClipmapLevel(2)).unwrap_err(),
        SpatialMathError::LevelOutOfRange {
            level: 2,
            level_count: 2,
        }
    );
    assert!(matches!(
        clipmap_window_for_center(
            &clipmap,
            ClipmapLevel(0),
            ClipmapCoord3 {
                x: i64::MAX,
                y: 0,
                z: 0
            }
        ),
        Err(SpatialMathError::ArithmeticOverflow { .. })
    ));
    assert!(matches!(
        ClipmapConfig::try_new(1, 2, [2, 3, 3]),
        Err(SpatialMathError::EvenWindowDimension { .. })
    ));
    let ring = RingBufferConfig::try_new([17, 5, 17]).unwrap();
    let anchor = ClipmapCoord3 {
        x: i64::MIN,
        y: i64::MAX,
        z: 0,
    };
    let slot = ring_slot_for_coord(
        anchor,
        ClipmapCoord3 {
            x: i64::MAX,
            y: i64::MIN,
            z: -1,
        },
        &ring,
    );
    assert_eq!(
        slot,
        ring_slot_for_coord(
            anchor,
            ClipmapCoord3 {
                x: i64::MAX - 17,
                y: i64::MIN + 5,
                z: 16
            },
            &ring
        )
    );
    assert!(matches!(
        RingBufferConfig::try_new([0, 1, 1]),
        Err(SpatialMathError::ZeroDimension { .. })
    ));
}

#[test]
fn region_division_rounds_toward_negative_infinity() {
    let partition = GridPartitionConfig::try_new([8, 4, 3]).unwrap();
    assert_eq!(
        partition.region_coord_from_chunk_coord(ChunkCoord3 { x: 7, y: -1, z: -3 }),
        RegionCoord3 { x: 0, y: -1, z: -1 }
    );
    assert_eq!(
        partition.region_coord_from_chunk_coord(ChunkCoord3 { x: 8, y: -4, z: -4 }),
        RegionCoord3 { x: 1, y: -1, z: -2 }
    );
    assert_eq!(
        partition.region_coord_from_chunk_coord(ChunkCoord3 {
            x: i64::MIN,
            y: i64::MAX,
            z: 0
        }),
        RegionCoord3 {
            x: i64::MIN / 8,
            y: i64::MAX / 4,
            z: 0
        }
    );
    assert_eq!(GridPartitionConfig::default().region_chunk_dims(), [8, 8, 8]);
    assert_eq!(
        GridPartitionConfig::try_new([1, 0, 1]),
        Err(SpatialMathError::ZeroDimension { axis: 1 })
    );
    assert_eq!(
        GridPartitionConfig::try_new([1, 1, 0]),
        Err(SpatialMathError::ZeroDimension { axis: 2 })
    );
}

#[test]
fn hierarchy_rejects_small_scales_and_walks_up_to_the_top_level() {
    assert_eq!(
        HierarchicalGridConfig::try_new(2, 1),
        Err(SpatialMathError::ScaleFactorTooSmall { scale_factor: 1 })
    );
    let config = HierarchicalGridConfig::try_new(3, 4).unwrap();
    assert_eq!(config.level_count(), 3);
    assert_eq!(config.level_scale_factor(), 4);
    assert_eq!(config.child_level(GridLevel(2)).unwrap(), Some(GridLevel(1)));
    assert_eq!(config.parent_level(GridLevel(2)).unwrap(), None);
    let cell = HierarchicalChunkId::new(WorldId(5), GridLevel(0), ChunkCoord3 { x: -17, y: 16, z: 3 });
    let parent = cell.parent(&config).unwrap().unwrap();
    assert_eq!(
        parent,
        HierarchicalChunkId::new(WorldId(5), GridLevel(1), ChunkCoord3 { x: -5, y: 4, z: 0 })
    );
    let grandparent = parent.parent(&config).unwrap().unwrap();
    assert_eq!(grandparent.coord, ChunkCoord3 { x: -2, y: 1, z: 0 });
    assert_eq!(grandparent.parent(&config).unwrap(), None);
    assert_eq!(
        HierarchicalChunkId::new(WorldId(5), GridLevel(3), ChunkCoord3::default()).parent(&config),
        Err(SpatialMathError::LevelOutOfRange { level: 3, level_count: 3 })
    );
    let top = HierarchicalGridConfig::default();
    assert_eq!(top.level_count(), 1);
    assert_eq!(top.level_scale_factor(), 2);
    let thirds = HierarchicalGridConfig::try_new(2, 3).unwrap();
    assert_eq!(
        thirds.child_coord_bounds(
            GridLevel(1),
            ChunkCoord3 {
                x: i64::MAX / 3,
                y: 0,
                z: 0
            }
        ),
        Err(SpatialMathError::ArithmeticOverflow {
            operation: "last child coordinate"
        })
    );
}

#[test]
fn clipmap_window_is_centered_and_rejects_each_invalid_setting() {
    let clipmap = ClipmapConfig::default();
    assert_eq!(clipmap.level_count(), 4);
    assert_eq!(clipmap.level_scale_factor(), 2);
    assert_eq!(clipmap.window_dims(), [17, 5, 17]);
    let center = ClipmapCoord3 { x: -3, y: 10, z: 0 };
    assert_eq!(
        clipmap_window_for_center(&clipmap, ClipmapLevel(3), center),
        Ok(ClipmapWindow {
            level: ClipmapLevel(3),
            center,
            min: ClipmapCoord3 { x: -11, y: 8, z: -8 },
            max: ClipmapCoord3 { x: 5, y: 12, z: 8 },
        })
    );
    assert_eq!(
        clipmap_window_for_center(&clipmap, ClipmapLevel(4), center),
        Err(SpatialMathError::LevelOutOfRange { level: 4, level_count: 4 })
    );
    assert_eq!(
        clipmap_window_for_center(
            &clipmap,
            ClipmapLevel(0),
            ClipmapCoord3 { x: 0, y: i64::MIN + 1, z: 0 }
        ),
        Err(SpatialMathError::ArithmeticOverflow {
            operation: "clipmap window minimum"
        })
    );
    assert_eq!(
        clipmap_window_for_center(
            &clipmap,
            ClipmapLevel(0),
            ClipmapCoord3 { x: 0, y: 0, z: i64::MAX }
        ),
        Err(SpatialMathError::ArithmeticOverflow {
            operation: "clipmap window maximum"
        })
    );
    assert_eq!(ClipmapConfig::try_new(0, 2, [3, 3, 3]), Err(SpatialMathError::LevelCountZero));
    assert_eq!(
        ClipmapConfig::try_new(1, 1, [3, 3, 3]),
        Err(SpatialMathError::ScaleFactorTooSmall { scale_factor: 1 })
    );
    assert_eq!(
        ClipmapConfig::try_new(1, 2, [3, 0, 2]),
        Err(SpatialMathError::ZeroDimension { axis: 1 })
    );
    assert_eq!(
        ClipmapConfig::try_new(1, 2, [3, 3, 4]),
        Err(SpatialMathError::EvenWindowDimension { axis: 2 })
    );
}

#[test]
fn ring_slots_repeat_with_the_ring_size() {
    let ring = RingBufferConfig::try_new([4, 3, 5]).unwrap();
    assert_eq!(ring.dims(), [4, 3, 5]);
    assert_eq!(RingBufferConfig::default().dims(), [17, 5, 17]);
    let anchor = ClipmapCoord3 { x: 10, y: -7, z: 0 };
    assert_eq!(ring_slot_for_coord(anchor, anchor, &ring), RingSlot3 { x: 0, y: 0, z: 0 });
    assert_eq!(
        ring_slot_for_coord(anchor, ClipmapCoord3 { x: 9, y: -5, z: -1 }, &ring),
        RingSlot3 { x: 3, y: 2, z: 4 }
    );
    assert_eq!(
        ring_slot_for_coord(anchor, ClipmapCoord3 { x: 9 + 4 * 7, y: -5 - 3, z: -1 + 5 }, &ring),
        RingSlot3 { x: 3, y: 2, z: 4 }
    );
    assert_eq!(
        RingBufferConfig::try_new([1, 1, 0]),
        Err(SpatialMathError::ZeroDimension { axis: 2 })
    );
}

#[test]
fn errors_describe_themselves() {
    assert_eq!(
        SpatialMathError::LevelCountZero.describe(),
        "spatial math error: LevelCountZero"
    );
    assert_eq!(
        SpatialMathError::ZeroDimension { axis: 1 }.describe(),
        "spatial math error: ZeroDimension { axis: 1 }"
    );
    assert_eq!(
        SpatialMathError::WorldMismatch {
            expected: WorldId(3),
            actual: WorldId(12),
        }
        .describe(),
        "spatial math error: WorldMismatch { expected: WorldId(3), actual: WorldId(12) }"
    );
}
