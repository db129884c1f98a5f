use runen_spatial::adapter::{
    adapter_streaming_capacity_exec, chunk_id_to_xyz, controller_has_runtime_records,
    demand_changes_from_node_values,
    node_focus_source, request_id_to_i64, requested_budgets, requested_radii,
    requested_region_dims, requested_world_id, streaming_config_from_values,
};
use runen_spatial::{
    ChunkCoord3, ChunkId, DemandAxis, DemandFocus, DemandLimits, DemandSourceChange,
    DemandSourceId, DemandSourceSnapshot, GridPartitionConfig, ProviderEvent, ProviderEventKind,
    SpatialDemandError, SpatialMathError, StreamRequest, StreamRequestId, StreamRequestKind,
    StreamingBudgets, StreamingCapacity, StreamingTick, WorldId, WorldStreamingConfig,
    WorldStreamingController,
    chunk_coord_from_xyz, chunk_id_from_xyz, provider_event_from_godot,
};

#[test]
fn provider_event_rejects_nonpositive_request_ids() {
    for request_id in [-1, 0] {
        assert!(
            provider_event_from_godot(7, request_id, 1, 2, 3, ProviderEventKind::Completed,)
                .is_none()
        );
    }
}

#[test]
fn provider_event_preserves_positive_request_ids_exactly() {
    let event =
        provider_event_from_godot(7, i64::MAX, 1, 2, 3, ProviderEventKind::Completed).unwrap();
    assert_eq!(event.request_id.get(), i64::MAX as u64);
}

#[test]
fn world_id_rejects_out_of_range_values_without_repair() {
    assert_eq!(requested_world_id(0), Ok(0));
    assert_eq!(requested_world_id(i32::from(u16::MAX)), Ok(u16::MAX));
    for value in [-1, i32::from(u16::MAX) + 1, i32::MAX] {
        assert_eq!(
            requested_world_id(value),
            Err(SpatialMathError::CoordinateOutOfRange {
                operation: "Godot world_id"
            })
        );
    }
}

#[test]
fn requested_region_dimensions_reject_nonpositive_values() {
    for dimensions in [[0, 8, 8], [-1, 8, 8], [8, 0, 8], [8, 8, -1]] {
        assert!(matches!(
            requested_region_dims(dimensions),
            Err(SpatialMathError::NonPositiveValue { .. })
        ));
    }
}

#[test]
fn valid_partition_update_builds_the_requested_configuration() {
    let config = GridPartitionConfig::try_new(requested_region_dims([3, 4, 5]).unwrap()).unwrap();
    assert_eq!(config.region_chunk_dims(), [3, 4, 5]);
}

#[test]
fn demand_radii_reject_every_invalid_field_without_repair() {
    for radii in [[-1, 0, 0, 0], [0, -1, 0, 0], [0, 0, -1, 0], [0, 0, 0, -1]] {
        assert!(matches!(
            requested_radii(radii),
            Err(SpatialDemandError::CountOverflow {
                operation: "Godot demand radius"
            })
        ));
    }
    assert_eq!(
        requested_radii([2, 1, 0, 0]),
        Err(SpatialDemandError::RetainRadiusBelowDesired {
            axis: DemandAxis::Horizontal,
            desired: 2,
            retain: 1,
        })
    );
    assert_eq!(
        requested_radii([0, 0, 2, 1]),
        Err(SpatialDemandError::RetainRadiusBelowDesired {
            axis: DemandAxis::Vertical,
            desired: 2,
            retain: 1,
        })
    );
    assert_eq!(requested_radii([2, 3, 4, 5]), Ok([2, 3, 4, 5]));
}

#[test]
fn request_budgets_reject_negative_values_and_preserve_zero() {
    assert_eq!(
        requested_budgets([0, 3]),
        Ok(StreamingBudgets {
            max_load_requests_per_tick: 0,
            max_unload_requests_per_tick: 3,
        })
    );
    assert_eq!(
        requested_budgets([-1, 3]),
        Err("max_load_requests_per_tick must be non-negative")
    );
    assert_eq!(
        requested_budgets([3, -1]),
        Err("max_unload_requests_per_tick must be non-negative")
    );
}

#[test]
fn adapter_transaction_is_a_complete_stable_source_replacement() {
    let center = ChunkId::new(WorldId::new(23), ChunkCoord3 { x: 0, y: 0, z: -1 });
    let changes = demand_changes_from_node_values(center, [2, 3, 4, 5]).unwrap();
    let changes = changes.iter().collect::<Vec<_>>();
    assert_eq!(changes.len(), 1);
    match changes[0] {
        DemandSourceChange::Replace {
            source_id,
            snapshot,
        } => {
            assert_eq!(*source_id, node_focus_source());
            let focus = snapshot.focus().unwrap();
            assert_eq!(focus.center(), center);
            assert_eq!(focus.horizontal_desired_radius(), 2);
            assert_eq!(focus.horizontal_retain_radius(), 3);
            assert_eq!(focus.vertical_desired_radius(), 4);
            assert_eq!(focus.vertical_retain_radius(), 5);
            assert_eq!(snapshot.pins().len(), 0);
        }
        DemandSourceChange::Remove { .. } => panic!("adapter must publish a replacement"),
    }
}

#[test]
fn structural_rebuild_gate_blocks_every_runtime_record_kind() {
    let (active, request) = controller_with_load_request(StreamingCapacity::new(8, 1, 1));
    assert!(controller_has_runtime_records(Some(&active)));

    let (mut resident, resident_request) = controller_with_load_request(StreamingCapacity::new(8, 1, 1));
    resident
        .accept_provider_event(provider_event(resident_request, ProviderEventKind::Completed))
        .unwrap();
    assert!(controller_has_runtime_records(Some(&resident)));

    let (mut failed, failed_request) = controller_with_load_request(StreamingCapacity::new(8, 1, 1));
    failed
        .accept_provider_event(provider_event(failed_request, ProviderEventKind::Failed))
        .unwrap();
    assert!(controller_has_runtime_records(Some(&failed)));

    assert_eq!(active.pending_requests().len(), 1);
    assert_eq!(request.kind, StreamRequestKind::Load);
}

#[test]
fn adapter_streaming_capacity_is_explicit() {
    let capacity = adapter_streaming_capacity_exec();
    assert_eq!(capacity.max_tracked_records(), 1024);
    assert_eq!(capacity.max_in_flight_loads(), 4);
    assert_eq!(capacity.max_in_flight_unloads(), 4);
}

#[test]
fn planner_only_demand_does_not_block_structural_rebuild() {
    let capacity = StreamingCapacity::new(0, 0, 0);
    let partition = GridPartitionConfig::try_new([8, 8, 8]).unwrap();
    let mut config = WorldStreamingConfig::new(WorldId::new(7), partition, DemandLimits::default());
    config.capacity = capacity;
    let mut controller = WorldStreamingController::new(config);
    let focus = DemandFocus::try_new(ChunkId::new(WorldId::new(7), ChunkCoord3::default()), 0, 0, 0, 0)
        .unwrap();
    let snapshot = DemandSourceSnapshot::try_new(Some(focus), vec![]).unwrap();
    let output = controller
        .tick(StreamingTick::from_demand_changes(vec![
            DemandSourceChange::Replace {
                source_id: DemandSourceId::new(0),
                snapshot,
            },
        ]))
        .unwrap();

    assert!(output.requests.is_empty());
    assert_eq!(controller.effective_demand().len(), 1);
    assert!(!controller_has_runtime_records(Some(&controller)));
}

#[test]
fn request_id_translation_is_exact_and_fallible() {
    let godot_max = u64::try_from(i64::MAX).unwrap();
    let maximum = StreamRequestId::try_new(godot_max).unwrap();
    assert_eq!(request_id_to_i64(maximum), Some(i64::MAX));

    let too_large = StreamRequestId::try_new(godot_max + 1).unwrap();
    assert_eq!(request_id_to_i64(too_large), None);
}

#[test]
fn host_values_translate_to_chunk_ids_and_back() {
    assert_eq!(chunk_coord_from_xyz(1, -2, 3), ChunkCoord3 { x: 1, y: -2, z: 3 });
    let id = chunk_id_from_xyz(9, i64::MIN, 0, i64::MAX);
    assert_eq!(id.world_id, WorldId(9));
    assert_eq!(chunk_id_to_xyz(id), (i64::MIN, 0, i64::MAX));
    let event = provider_event_from_godot(4, 12, -1, -2, -3, ProviderEventKind::Failed).unwrap();
    assert_eq!(
        event,
        ProviderEvent {
            request_id: StreamRequestId::try_new(12).unwrap(),
            chunk_id: chunk_id_from_xyz(4, -1, -2, -3),
            kind: ProviderEventKind::Failed,
        }
    );
    assert!(provider_event_from_godot(4, i64::MIN, 0, 0, 0, ProviderEventKind::Started).is_none());
}

#[test]
fn node_configuration_is_checked_before_a_controller_is_built() {
    let budgets = StreamingBudgets {
        max_load_requests_per_tick: 2,
        max_unload_requests_per_tick: 0,
    };
    let config = streaming_config_from_values(11, [3, 4, 5], [1, 2, 0, 0], budgets).unwrap();
    assert_eq!(config.world_id, WorldId(11));
    assert_eq!(config.partition.region_chunk_dims(), [3, 4, 5]);
    assert_eq!(config.budgets, budgets);
    assert_eq!(config.demand_limits, DemandLimits::default());
    assert_eq!(config.capacity, StreamingCapacity::new(1024, 4, 4));
    assert!(matches!(
        streaming_config_from_values(11, [3, 0, 5], [1, 2, 0, 0], budgets),
        Err(SpatialDemandError::SpatialMath(SpatialMathError::ZeroDimension { axis: 1 }))
    ));
    assert!(matches!(
        streaming_config_from_values(11, [3, 4, 5], [3, 2, 0, 0], budgets),
        Err(SpatialDemandError::RetainRadiusBelowDesired { .. })
    ));
    assert!(!controller_has_runtime_records(None));
    let fresh = WorldStreamingController::new(config);
    assert!(!controller_has_runtime_records(Some(&fresh)));
    assert!(matches!(
        demand_changes_from_node_values(ChunkId::default(), [0, 0, -1, 0]),
        Err(SpatialDemandError::CountOverflow { .. })
    ));
}

fn controller_with_load_request(
    capacity: StreamingCapacity,
) -> (WorldStreamingController, StreamRequest) {
    let partition = GridPartitionConfig::try_new([8, 8, 8]).unwrap();
    let mut config =
        WorldStreamingConfig::new(WorldId::new(7), partition, DemandLimits::default());
    config.capacity = capacity;
    config.budgets = StreamingBudgets {
        max_load_requests_per_tick: 1,
        max_unload_requests_per_tick: 1,
    };
    let mut controller = WorldStreamingController::new(config);
    let focus = DemandFocus::try_new(ChunkId::new(WorldId::new(7), ChunkCoord3::default()), 0, 0, 0, 0)
        .unwrap();
    let snapshot = DemandSourceSnapshot::try_new(Some(focus), vec![]).unwrap();
    let request = controller
        .tick(StreamingTick::from_demand_changes(vec![
            DemandSourceChange::Replace {
                source_id: DemandSourceId::new(0),
                snapshot,
            },
        ]))
        .unwrap()
        .requests[0];
    (controller, request)
}

fn provider_event(request: StreamRequest, kind: ProviderEventKind) -> ProviderEvent {
    ProviderEvent {
        request_id: request.request_id,
        chunk_id: request.chunk_id,
        kind,
    }
}

#[test]
fn demand_errors_describe_themselves() {
    assert_eq!(SpatialDemandError::EmptySourceSnapshot.describe(), "EmptySourceSnapshot");
    assert_eq!(
        SpatialDemandError::CountOverflow { operation: "x" }.describe(),
        "CountOverflow { operation: \"x\" }"
    );
    assert_eq!(
        SpatialDemandError::SpatialMath(SpatialMathError::LevelCountZero).describe(),
        "SpatialMath(LevelCountZero)"
    );
    assert_eq!(
        SpatialDemandError::PerSourceContributionLimitExceeded {
            source_id: DemandSourceId::new(42),
            limit: 1000,
            candidate: 1234,
        }
        .describe(),
        "PerSourceContributionLimitExceeded { source_id: DemandSourceId(42), limit: 1000, candidate: 1234 }"
    );
}
