use runen_spatial::demand::geometry::chunk_box;
use runen_spatial::{
    ChunkCoord3, ChunkId, DemandClass, DemandFocus, DemandLimits, DemandSourceChange,
    DemandSourceId, DemandSourceSnapshot, GridPartitionConfig, SpatialDemandError,
    SpatialDemandPlanner, SpatialMathError, WorldId,
};

fn planner(limits: DemandLimits) -> SpatialDemandPlanner {
    let partition = GridPartitionConfig::try_new([8, 8, 8]).unwrap();
    SpatialDemandPlanner::new(WorldId(7), partition, limits)
}

fn chunk(x: i64) -> ChunkId {
    ChunkId::new(WorldId(7), ChunkCoord3 { x, y: 0, z: 0 })
}

fn source(id: u64, focus_x: Option<i64>, radius: u32, pins: Vec<ChunkId>) -> DemandSourceChange {
    let focus = focus_x.map(|x| DemandFocus::try_new(chunk(x), radius, radius, 0, 0).unwrap());
    DemandSourceChange::Replace {
        source_id: DemandSourceId::new(id),
        snapshot: DemandSourceSnapshot::try_new(focus, pins).unwrap(),
    }
}

#[test]
fn pressure_counters_describe_the_selection() {
    let mut planner = planner(DemandLimits::try_new(2, 1, 2, 1).unwrap());
    planner
        .apply_changes(vec![source(2, Some(1), 0, vec![]), source(1, Some(0), 0, vec![])])
        .unwrap();
    let snapshot = planner.effective_snapshot();
    let pressure = snapshot.pressure();
    assert_eq!(pressure.candidate_effective_chunks(), 2);
    assert_eq!(pressure.selected_effective_chunks(), 1);
    assert_eq!(pressure.selected_effective_chunks(), snapshot.len());
    assert_eq!(
        pressure.suppressed_effective_chunks(),
        pressure.candidate_effective_chunks() - pressure.selected_effective_chunks()
    );
    assert_eq!(pressure.unique_pinned_effective_chunks(), 0);
    assert_eq!(pressure.source_count(), 2);
    assert_eq!(snapshot.chunks()[0].chunk_id(), chunk(0));
}

#[test]
fn a_chunk_pinned_by_two_sources_counts_once() {
    let mut planner = planner(DemandLimits::try_new(4, 8, 16, 2).unwrap());
    planner
        .apply_changes(vec![
            source(1, None, 0, vec![chunk(5)]),
            source(2, None, 0, vec![chunk(5), chunk(6)]),
        ])
        .unwrap();
    let snapshot = planner.effective_snapshot();
    assert_eq!(snapshot.pressure().unique_pinned_effective_chunks(), 2);
    let pinned = snapshot
        .chunks()
        .iter()
        .filter(|c| c.class() == DemandClass::Pinned)
        .count();
    assert_eq!(pinned, 2);

    assert_eq!(
        planner.apply_changes(vec![source(3, None, 0, vec![chunk(7)])]),
        Err(SpatialDemandError::PinnedCapacityExceeded { limit: 2, pinned: 3 })
    );
    assert_eq!(planner.effective_snapshot().pressure().source_count(), 2);
}

#[test]
fn effective_demand_lists_pins_then_desired_chunks_by_rank() {
    let mut planner = planner(DemandLimits::try_new(4, 16, 32, 16).unwrap());
    planner
        .apply_changes(vec![source(1, Some(0), 1, vec![chunk(9)])])
        .unwrap();
    let chunks = planner.effective_snapshot().chunks();
    assert_eq!(chunks.len(), 10);
    assert_eq!(chunks[0].chunk_id(), chunk(9));
    assert_eq!(chunks[0].class(), DemandClass::Pinned);
    for (position, entry) in chunks.iter().enumerate() {
        assert_eq!(entry.rank().get() as usize, position);
        assert_eq!(entry.chunk_id().world_id, WorldId(7));
        if position > 0 {
            assert_eq!(entry.class(), DemandClass::Desired);
        }
    }
}

#[test]
fn delta_entries_are_the_snapshot_entries_in_rank_order() {
    let mut planner = planner(DemandLimits::default());
    planner
        .apply_changes(vec![source(1, Some(0), 1, vec![])])
        .unwrap();
    let before = planner.effective_snapshot().clone();
    let delta = planner
        .apply_changes(vec![source(1, Some(2), 1, vec![])])
        .unwrap();
    let after = planner.effective_snapshot();
    assert!(!delta.entered().is_empty());
    assert!(!delta.exited().is_empty());
    for entry in delta.entered().iter().chain(delta.updated()) {
        assert_eq!(after.get(entry.chunk_id()), Some(entry));
    }
    for entry in delta.exited() {
        assert_eq!(before.get(entry.chunk_id()), Some(entry));
        assert_eq!(after.get(entry.chunk_id()), None);
    }
    for list in [delta.entered(), delta.updated(), delta.exited()] {
        for pair in list.windows(2) {
            assert!(pair[0].rank().get() < pair[1].rank().get());
        }
    }
    assert_eq!(delta.pressure(), after.pressure());
}

#[test]
fn chunk_box_lists_each_chunk_once_or_reports_overflow() {
    let center = ChunkCoord3 { x: 0, y: 0, z: 0 };
    let chunks = chunk_box(center, 1, 1).unwrap();
    assert_eq!(chunks.len(), 27);
    assert_eq!(chunks[0], ChunkCoord3 { x: -1, y: -1, z: -1 });
    assert_eq!(chunks[26], ChunkCoord3 { x: 1, y: 1, z: 1 });
    for pair in chunks.windows(2) {
        assert!((pair[0].x, pair[0].y, pair[0].z) < (pair[1].x, pair[1].y, pair[1].z));
    }
    assert_eq!(
        chunk_box(ChunkCoord3 { x: i64::MAX, y: 0, z: 0 }, 1, 0),
        Err(SpatialDemandError::SpatialMath(SpatialMathError::ArithmeticOverflow {
            operation: "demand chunk range"
        }))
    );
    assert_eq!(
        chunk_box(ChunkCoord3 { x: 0, y: i64::MIN, z: 0 }, 0, 1),
        Err(SpatialDemandError::SpatialMath(SpatialMathError::ArithmeticOverflow {
            operation: "demand chunk range"
        }))
    );
}

#[test]
fn source_count_never_exceeds_its_limit() {
    let mut planner = planner(DemandLimits::try_new(2, 8, 16, 8).unwrap());
    planner
        .apply_changes(vec![source(1, Some(0), 0, vec![]), source(2, Some(3), 0, vec![])])
        .unwrap();
    assert_eq!(planner.source_count(), 2);
    assert_eq!(
        planner.apply_changes(vec![source(3, Some(6), 0, vec![])]),
        Err(SpatialDemandError::SourceLimitExceeded { limit: 2, candidate: 3 })
    );
    assert_eq!(planner.source_count(), 2);
}
