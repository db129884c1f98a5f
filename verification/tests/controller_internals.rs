use runen_spatial::{
    ChunkCoord3, ChunkId, ChunkOperation, DemandFocus, DemandLimits, DemandSourceChange,
    DemandSourceId, DemandSourceSnapshot, GridPartitionConfig, StreamRequestId, StreamingBudgets,
    StreamingTick, WorldId, WorldStreamingConfig, WorldStreamingController, reserve_request_ids,
};

fn controller() -> WorldStreamingController {
    let partition = GridPartitionConfig::try_new([8, 8, 8]).unwrap();
    let mut config = WorldStreamingConfig::new(WorldId(7), partition, DemandLimits::default());
    config.budgets = StreamingBudgets {
        max_load_requests_per_tick: 2,
        max_unload_requests_per_tick: 0,
    };
    WorldStreamingController::new(config)
}

#[test]
fn request_id_reservation_never_reuses_the_terminal_identity() {
    let next = StreamRequestId::try_new(u64::MAX);

    let (terminal, after) = reserve_request_ids(next, 1).unwrap();
    assert_eq!(terminal[0].get(), u64::MAX);
    assert!(after.is_none());
    assert!(reserve_request_ids(after, 1).is_none());
}

#[test]
fn exhausted_batch_issues_nothing_and_preserves_queued_operations() {
    let mut controller = controller();
    controller.set_budgets(StreamingBudgets {
        max_load_requests_per_tick: 0,
        max_unload_requests_per_tick: 0,
    });
    let changes = [0_i64, 1]
        .into_iter()
        .map(|x| {
            let focus = DemandFocus::try_new(
                ChunkId::new(WorldId(7), ChunkCoord3 { x, y: 0, z: 0 }),
                0,
                0,
                0,
                0,
            )
            .unwrap();
            DemandSourceChange::Replace {
                source_id: DemandSourceId::new(x as u64),
                snapshot: DemandSourceSnapshot::try_new(Some(focus), vec![]).unwrap(),
            }
        })
        .collect::<Vec<_>>();
    controller
        .tick(StreamingTick::from_demand_changes(changes))
        .unwrap();
    assert!(
        controller
            .records()
            .iter()
            .all(|record| record.desired() && record.operation() == ChunkOperation::LoadQueued)
    );
    controller.set_budgets(StreamingBudgets {
        max_load_requests_per_tick: 2,
        max_unload_requests_per_tick: 0,
    });
    assert!(controller.set_next_request_id(StreamRequestId::try_new(u64::MAX)));

    let output = controller
        .tick(StreamingTick::without_demand_changes())
        .unwrap();

    assert!(output.request_id_exhausted);
    assert!(output.requests.is_empty());
    assert!(controller.pending_requests().is_empty());
    assert_eq!(controller.next_request_id().unwrap().get(), u64::MAX);
    assert_eq!(controller.records().len(), 2);
    assert!(
        controller
            .records()
            .iter()
            .all(|record| record.operation() == ChunkOperation::LoadQueued)
    );
}

#[test]
fn request_numbering_resumes_only_above_every_pending_request() {
    let mut controller = controller();
    let focus = DemandFocus::try_new(ChunkId::new(WorldId(7), ChunkCoord3 { x: 0, y: 0, z: 0 }), 0, 0, 0, 0)
        .unwrap();
    let change = DemandSourceChange::Replace {
        source_id: DemandSourceId::new(1),
        snapshot: DemandSourceSnapshot::try_new(Some(focus), vec![]).unwrap(),
    };
    let output = controller
        .tick(StreamingTick::from_demand_changes(vec![change]))
        .unwrap();
    assert_eq!(output.requests.len(), 1);
    let issued = output.requests[0].request_id.get();
    let next = controller.next_request_id();

    assert!(!controller.set_next_request_id(StreamRequestId::try_new(issued)));
    assert_eq!(controller.next_request_id(), next);

    assert!(controller.set_next_request_id(StreamRequestId::try_new(issued + 10)));
    assert_eq!(controller.next_request_id().unwrap().get(), issued + 10);
}

#[test]
fn request_numbering_never_comes_back_once_exhausted() {
    let mut controller = controller();
    assert!(controller.set_next_request_id(None));
    assert!(!controller.set_next_request_id(StreamRequestId::try_new(5)));
    assert!(controller.next_request_id().is_none());
}
