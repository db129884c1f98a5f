use runen_spatial::{
    ChunkAvailability, ChunkCoord3, ChunkId, DemandFocus, DemandLimits, DemandSourceChange,
    DemandSourceId, DemandSourceSnapshot, GridPartitionConfig, ProviderEvent, ProviderEventKind,
    StreamRequestKind, StreamingBudgets, StreamingTick, WorldId, WorldStreamingConfig,
    WorldStreamingController,
};

fn controller(loads: usize, unloads: usize) -> WorldStreamingController {
    let partition = GridPartitionConfig::try_new([8, 8, 8]).unwrap();
    let mut config = WorldStreamingConfig::new(WorldId(3), partition, DemandLimits::default());
    config.budgets = StreamingBudgets {
        max_load_requests_per_tick: loads,
        max_unload_requests_per_tick: unloads,
    };
    WorldStreamingController::new(config)
}

fn focus_tick(x: i64, radius: u32) -> StreamingTick {
    let focus = DemandFocus::try_new(
        ChunkId::new(WorldId(3), ChunkCoord3 { x, y: 0, z: 0 }),
        radius,
        radius,
        0,
        0,
    )
    .unwrap();
    StreamingTick::from_demand_changes(vec![DemandSourceChange::Replace {
        source_id: DemandSourceId::new(1),
        snapshot: DemandSourceSnapshot::try_new(Some(focus), vec![]).unwrap(),
    }])
}

fn availability(controller: &WorldStreamingController, chunk: ChunkId) -> ChunkAvailability {
    controller
        .record(chunk)
        .map_or(ChunkAvailability::Absent, |record| record.availability())
}

#[test]
fn ticks_issue_loads_before_unloads_within_budget() {
    let mut controller = controller(3, 2);
    let first = controller.tick(focus_tick(0, 2)).unwrap();
    assert_eq!(first.requests.len(), 3);
    assert!(first.requests.iter().all(|r| r.kind == StreamRequestKind::Load));
    for request in &first.requests {
        controller
            .accept_provider_event(ProviderEvent {
                request_id: request.request_id,
                chunk_id: request.chunk_id,
                kind: ProviderEventKind::Completed,
            })
            .unwrap();
    }
    let moved = controller.tick(focus_tick(100, 0)).unwrap();
    let loads = moved.requests.iter().take_while(|r| r.kind == StreamRequestKind::Load).count();
    assert!(loads <= 3);
    assert!(moved.requests.len() - loads <= 2);
    assert!(moved.requests[loads..].iter().all(|r| r.kind == StreamRequestKind::Unload));
    assert_eq!(moved.requests.len() - loads, 2);
}

#[test]
fn only_completions_change_availability() {
    let mut controller = controller(1, 1);
    let request = controller.tick(focus_tick(0, 0)).unwrap().requests[0];
    let chunk = request.chunk_id;
    assert_eq!(availability(&controller, chunk), ChunkAvailability::Absent);
    controller
        .accept_provider_event(ProviderEvent {
            request_id: request.request_id,
            chunk_id: chunk,
            kind: ProviderEventKind::Started,
        })
        .unwrap();
    assert_eq!(availability(&controller, chunk), ChunkAvailability::Absent);
    controller
        .accept_provider_event(ProviderEvent {
            request_id: request.request_id,
            chunk_id: chunk,
            kind: ProviderEventKind::Completed,
        })
        .unwrap();
    assert_eq!(availability(&controller, chunk), ChunkAvailability::Resident);
    let unload = controller.tick(focus_tick(50, 0)).unwrap();
    let unload_request = unload
        .requests
        .iter()
        .find(|r| r.kind == StreamRequestKind::Unload)
        .copied()
        .unwrap();
    assert_eq!(availability(&controller, chunk), ChunkAvailability::Resident);
    controller
        .accept_provider_event(ProviderEvent {
            request_id: unload_request.request_id,
            chunk_id: chunk,
            kind: ProviderEventKind::Failed,
        })
        .unwrap();
    assert_eq!(availability(&controller, chunk), ChunkAvailability::Resident);
}
