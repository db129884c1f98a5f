use runen_spatial::{
    ChunkAvailability, ChunkCoord3, ChunkId, ChunkRuntimeRecord, DemandFocus, DemandLimits,
    DemandSourceChange, DemandSourceId, DemandSourceSnapshot, EffectiveDemandSnapshot,
    GridPartitionConfig, ProviderEvent, ProviderEventKind, StreamRequest, StreamRequestKind,
    StreamingBudgets, StreamingCapacity, StreamingTick, StreamingTickOutput, WorldId,
    WorldStreamingConfig, WorldStreamingController, WorldStreamingEvent,
};

const EDGE: f64 = 16.0;

#[derive(Debug, PartialEq, Eq)]
struct ReplayObservation {
    tick_outputs: Vec<StreamingTickOutput>,
    provider_events: Vec<Vec<WorldStreamingEvent>>,
    effective_demand: EffectiveDemandSnapshot,
    records: Vec<ChunkRuntimeRecord>,
    pending_requests: Vec<StreamRequest>,
}

fn chunk(x: i64) -> ChunkId {
    ChunkId::new(WorldId::new(7), ChunkCoord3 { x, y: 0, z: 0 })
}

fn source_focus(source_id: u64, x: f64) -> DemandSourceChange {
    let focus = DemandFocus::try_new(chunk((x / EDGE).floor() as i64), 0, 0, 0, 0).unwrap();
    DemandSourceChange::Replace {
        source_id: DemandSourceId::new(source_id),
        snapshot: DemandSourceSnapshot::try_new(Some(focus), vec![]).unwrap(),
    }
}

fn provider_event(request: StreamRequest, kind: ProviderEventKind) -> ProviderEvent {
    ProviderEvent {
        request_id: request.request_id,
        chunk_id: request.chunk_id,
        kind,
    }
}

fn run_replay() -> ReplayObservation {
    let mut config = WorldStreamingConfig::new(
        WorldId::new(7),
        GridPartitionConfig::try_new([8, 8, 8]).unwrap(),
        DemandLimits::default(),
    );
    config.capacity = StreamingCapacity::new(2, 1, 1);
    config.budgets = StreamingBudgets {
        max_load_requests_per_tick: 2,
        max_unload_requests_per_tick: 1,
    };
    let mut controller = WorldStreamingController::new(config);
    let mut tick_outputs = Vec::new();
    let mut provider_events = Vec::new();

    let initial = controller
        .tick(StreamingTick::from_demand_changes(vec![
            source_focus(1, 0.0),
            source_focus(2, 16.0),
        ]))
        .unwrap();
    assert_eq!(initial.requests.len(), 1);
    assert_eq!(initial.requests[0].kind, StreamRequestKind::Load);
    assert_eq!(initial.requests[0].chunk_id, chunk(0));
    assert_eq!(initial.pressure.deferred_loads(), 1);
    let first_load = initial.requests[0];
    tick_outputs.push(initial);

    provider_events.push(
        controller
            .accept_provider_event(provider_event(first_load, ProviderEventKind::Started))
            .unwrap(),
    );
    provider_events.push(
        controller
            .accept_provider_event(provider_event(first_load, ProviderEventKind::Completed))
            .unwrap(),
    );

    let second = controller
        .tick(StreamingTick::without_demand_changes())
        .unwrap();
    assert_eq!(second.requests.len(), 1);
    assert_eq!(second.requests[0].kind, StreamRequestKind::Load);
    assert_eq!(second.requests[0].chunk_id, chunk(1));
    let second_load = second.requests[0];
    tick_outputs.push(second);

    provider_events.push(
        controller
            .accept_provider_event(provider_event(second_load, ProviderEventKind::Started))
            .unwrap(),
    );

    let removal = controller
        .tick(StreamingTick::from_demand_changes(vec![
            DemandSourceChange::Remove {
                source_id: DemandSourceId::new(1),
            },
        ]))
        .unwrap();
    assert_eq!(removal.requests.len(), 1);
    assert_eq!(removal.requests[0].kind, StreamRequestKind::Unload);
    assert_eq!(removal.requests[0].chunk_id, chunk(0));
    assert_eq!(removal.pressure.in_flight_loads(), 1);
    assert_eq!(removal.pressure.in_flight_unloads(), 1);
    let first_unload = removal.requests[0];
    tick_outputs.push(removal);

    provider_events.push(
        controller
            .accept_provider_event(provider_event(second_load, ProviderEventKind::Completed))
            .unwrap(),
    );
    provider_events.push(
        controller
            .accept_provider_event(provider_event(first_unload, ProviderEventKind::Started))
            .unwrap(),
    );
    provider_events.push(
        controller
            .accept_provider_event(provider_event(first_unload, ProviderEventKind::Completed))
            .unwrap(),
    );

    let settled = controller
        .tick(StreamingTick::without_demand_changes())
        .unwrap();
    assert!(settled.requests.is_empty());
    tick_outputs.push(settled);

    let effective_demand = controller.effective_demand().clone();
    let records = controller.records();
    let pending_requests = controller.pending_requests();

    assert_eq!(effective_demand.chunks().len(), 1);
    assert_eq!(effective_demand.chunks()[0].chunk_id(), chunk(1));
    assert_eq!(records.len(), 1);
    assert_eq!(records[0].chunk_id(), chunk(1));
    assert_eq!(records[0].availability(), ChunkAvailability::Resident);
    assert!(pending_requests.is_empty());

    ReplayObservation {
        tick_outputs,
        provider_events,
        effective_demand,
        records,
        pending_requests,
    }
}

#[test]
fn public_api_replay_is_deterministic_across_fresh_controllers() {
    assert_eq!(run_replay(), run_replay());
}

#[test]
fn tracked_records_wait_for_room() {
    let mut config = WorldStreamingConfig::new(
        WorldId::new(7),
        GridPartitionConfig::try_new([8, 8, 8]).unwrap(),
        DemandLimits::default(),
    );
    config.capacity = StreamingCapacity::new(1, 4, 4);
    let mut controller = WorldStreamingController::new(config);
    let first = controller
        .tick(StreamingTick::from_demand_changes(vec![
            source_focus(1, 0.0),
            source_focus(2, 16.0),
        ]))
        .unwrap();
    assert_eq!(first.pressure.tracked_records(), 1);
    assert_eq!(first.requests.len(), 1);
    assert_eq!(first.requests[0].chunk_id, chunk(0));
    assert_eq!(controller.records().len(), 1);
    assert!(controller.record(chunk(1)).is_none());

    controller
        .accept_provider_event(provider_event(first.requests[0], ProviderEventKind::Completed))
        .unwrap();
    let removal = controller
        .tick(StreamingTick::from_demand_changes(vec![DemandSourceChange::Remove {
            source_id: DemandSourceId::new(1),
        }]))
        .unwrap();
    assert_eq!(removal.requests.len(), 1);
    assert_eq!(removal.requests[0].kind, StreamRequestKind::Unload);
    controller
        .accept_provider_event(provider_event(removal.requests[0], ProviderEventKind::Completed))
        .unwrap();

    let later = controller
        .tick(StreamingTick::without_demand_changes())
        .unwrap();
    assert_eq!(later.requests.len(), 1);
    assert_eq!(later.requests[0].chunk_id, chunk(1));
    assert_eq!(later.pressure.tracked_records(), 1);
    assert_eq!(later.pressure.in_flight_loads(), 1);
}
