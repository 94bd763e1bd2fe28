use smolvm::daemon::caches::{
    cached_module_blob, retain_host_snapshot, BlobEntry, Retention, SnapshotCache,
};
use smolvm::daemon::descriptors::{worker_moves, WorkerSources};
use smolvm::daemon::freeze::{allocs_addressable, Freeze, FreezeJob, FreezeStep};
use smolvm::daemon::layout::{clone_layout_reservation_envelopes, parse_layout};
use smolvm::daemon::layout_text::write_layout;
use smolvm::daemon::lifecycle::{
    chunk_verified, cleanup_private_mps_paths, has_argument, launch_flags, mps_plan, orphan_worker, transfer_at,
    transfer_step, AttachListener, AttachStep, LaunchStep, MpsPlan, StageCall, Staging, Transfer,
};
use smolvm::daemon::memory::{
    advance_map, call_of_map, guarded, misplaced, ordinary_plan, retries_map, staging_place,
    start_map, DriverCall, ExactReserve, MapStep, OrdinaryPlan, ReserveStep,
};
use smolvm::daemon::modules::HandoffReadError;
use smolvm::daemon::ordinary::{retries_ordinary, OrdinaryRestore, OrdinaryStep};
use smolvm::daemon::preamble::{
    attach_refusal, peek_preamble, AttachError, Looking, PeekStep, ServeOptions, PEEK_ATTEMPTS,
    TOKEN_BYTES,
};
use smolvm::daemon::restore::{restored_total, RangesRestore};
use smolvm::daemon::restore_text::{map_failure, ordinary_failure, stage_failure};
use smolvm::daemon::registry::{GoldenConnection, GoldenRegistry, WorkerEntry, WorkerRegistry};
use smolvm::daemon::route::{
    route_clone_connection, route_token, route_tokenless, warm_route, CloneMark, Route, WarmRoute,
};
use smolvm::daemon::startup::{DaemonStart, DaemonStep};
use smolvm::daemon::status::{
    clone_worker_status_dir_for, prune_dead_clone_worker_statuses, socket_path, status_wait_end, status_wait_step, ClosingAction,
    CloneWorkerReadiness, StatusAction, StatusEntry, WaitEnd, WaitStep,
};
use smolvm::daemon::tensor::{
    consume_request, publish_ack, publish_header, read_consume_header, read_publish_ack,
    read_publish_header, read_response_header, TensorMessageError,
};
use smolvm::daemon::worker::{
    alloc_regions, mappable_handoff, place_in_host, region_granularity, retries_driver_call,
    share_verdict, sharing_active, signed_text, snapshot_required, takes_host_snapshot, worker_env,
    worker_setup, worker_slots, ChunkPlan, GoldenChunk, LayoutBuilder, ModuleSource, ShareVerdict,
    WorkerSetupError, WorkerTask, WorkerVars,
};
use smolvm::daemon::worker_start::{StartStep, WorkerStart};
use smolvm::machine::layers::init_layer_cache_dir;
use smolvm::db::connections::{Checkout, ConnPool};

fn chunk(va: u64, size: u64, handle: u64) -> GoldenChunk {
    GoldenChunk { va, size, handle }
}

#[test]
fn layout_of_a_worker_comes_back_as_it_was_written() {
    let mut b = LayoutBuilder::new(true, true);
    assert_eq!(b.plan(true, false), ChunkPlan::Copy);
    b.copied(&chunk(0x1000, 0x100, 7));
    assert_eq!(b.plan(true, true), ChunkPlan::Export);
    b.exported(&chunk(0x2000, 0x200, 8), true);
    assert!(b.complete);
    let regions = alloc_regions(&[(0x3_0010, 0x20)], 0x1_0000);
    assert_eq!(regions, vec![(0x3_0000, 0x1_0000, 0)]);
    let allocs = place_in_host(&[(0x3_0010, 0x20)], b.offset);
    assert_eq!(allocs, vec![(0x3_0010, 0x20, Some(0x100))]);
    let layout = b.finish_with_host(vec![(0x1000, 0x2000)], regions, allocs);
    let text = write_layout(&layout);
    let read = parse_layout(&text);
    assert_eq!(read.reservations, layout.reservations);
    assert_eq!(read.maps, layout.maps);
    assert_eq!(read.host, Some(0));
    assert_eq!(read.regions, layout.regions);
    assert_eq!(read.allocs, layout.allocs);
}

#[test]
fn snapshot_that_misses_a_range_is_not_complete() {
    let mut b = LayoutBuilder::new(true, false);
    assert!(!b.complete);
    assert_eq!(b.plan(false, true), ChunkPlan::Export);
    b.exported(&chunk(0x1000, 0x100, 7), true);
    let mut c = LayoutBuilder::new(true, true);
    assert_eq!(c.plan(false, true), ChunkPlan::Copy);
    c.copy_failed();
    c.exported(&chunk(0x1000, 0x100, 7), false);
    assert!(!c.complete);
    assert_eq!(c.maps[0].index, 1);
}

#[test]
fn sharing_is_decided_per_range() {
    assert_eq!(share_verdict(false, Some(true)), ShareVerdict::Known(false));
    assert_eq!(share_verdict(true, Some(true)), ShareVerdict::Known(true));
    assert_eq!(share_verdict(true, None), ShareVerdict::Compare);
    assert!(sharing_active(true, None));
    assert!(!sharing_active(true, Some("off")));
    let chunks = [chunk(0, 10, 1), chunk(0, 20, 2)];
    assert_eq!(
        snapshot_required(&chunks, &[true, false], true, &[(0, 5)]),
        25
    );
    assert_eq!(
        snapshot_required(&chunks, &[true, false], false, &[(0, u64::MAX)]),
        u64::MAX
    );
    assert!(takes_host_snapshot(true, 1, 0, true));
    assert!(!takes_host_snapshot(true, 0, 0, true));
    assert_eq!(region_granularity(None), 0x20_0000);
    assert_eq!(region_granularity(Some(1)), 0x1_0000);
}

#[test]
fn slots_follow_the_memory_in_a_row() {
    let s = worker_slots(3, true, false, true);
    assert_eq!(s.control, 7);
    assert_eq!(s.publish, Some(8));
    assert_eq!(s.module, None);
    assert_eq!(s.images, Some(9));
    assert_eq!(s.source_minimum, 10);
}

#[test]
fn worker_is_told_and_reads_the_same() {
    let task = WorkerTask {
        layout: "resv=|maps=",
        device: -1,
        slots: worker_slots(1, true, true, false),
        preload_modules: true,
        options: ServeOptions {
            vram_limit_bytes: Some(1024),
            fork_pool_size: Some(2),
            fork_clone: true,
        },
        procmem: Some((42, vec![(0, 1, 2)])),
        ring_dir: Some("/ring"),
        share_weights: true,
        configured_sharing: None,
    };
    let env = worker_env(&task);
    let get = |name: &str| {
        env.iter()
            .find(|(k, _)| k == &format!("SMOLVM_CUDA_{name}"))
            .map(|(_, v)| v.clone())
    };
    assert_eq!(get("FORK_SHARE_WEIGHTS").as_deref(), Some("1"));
    assert_eq!(get("VRAM_LIMIT_BYTES").as_deref(), Some("1024"));
    assert_eq!(get("CLONE_MODULE_IMAGES_FD"), None);
    let setup = worker_setup(&WorkerVars {
        layout: get("CLONE_LAYOUT"),
        device: get("CLONE_DEVICE"),
        control: get("CLONE_CTRL"),
        publish: get("CLONE_PUBLISH_CTRL"),
        procmem: get("CLONE_PROCMEM"),
        ring_dir: get("CLONE_RING_DIR"),
        modules_fd: get("CLONE_MODULES_FD"),
        module_images_fd: get("CLONE_MODULE_IMAGES_FD"),
        modules_path: None,
    })
    .unwrap();
    assert_eq!(setup.layout.as_deref(), Some("resv=|maps="));
    assert_eq!(setup.device, -1);
    assert_eq!(setup.control, Some(5));
    assert_eq!(setup.publish, Some(6));
    assert_eq!(setup.procmem, Some((42, vec![(0, 1, 2)])));
    assert_eq!(setup.ring_dir.as_deref(), Some("/ring"));
    assert_eq!(setup.modules, ModuleSource::Descriptor(7));
    assert_eq!(setup.module_images, None);
}

#[test]
fn worker_with_a_broken_handoff_does_not_start() {
    let vars = |fd: Option<&str>, images: Option<&str>| WorkerVars {
        layout: None,
        device: Some("nonsense".to_string()),
        control: None,
        publish: None,
        procmem: None,
        ring_dir: None,
        modules_fd: fd.map(String::from),
        module_images_fd: images.map(String::from),
        modules_path: Some("/modules".to_string()),
    };
    assert_eq!(
        worker_setup(&vars(Some("x"), Some("y"))).err(),
        Some(WorkerSetupError::ModulesFd)
    );
    assert_eq!(
        worker_setup(&vars(None, Some("y"))).err(),
        Some(WorkerSetupError::ModuleImagesFd)
    );
    let ok = worker_setup(&vars(None, None)).unwrap();
    assert_eq!(ok.device, 0);
    assert_eq!(ok.modules, ModuleSource::File("/modules".to_string()));
    assert_eq!(signed_text(i32::MIN), "-2147483648");
    assert!(retries_driver_call(3) && !retries_driver_call(4));
    assert!(mappable_handoff(true, 1) && !mappable_handoff(true, 0) && !mappable_handoff(false, 1));
}

#[test]
fn worker_is_ready_only_when_rebuilt() {
    let steps = |layout: bool, modules: bool, failing: Option<StartStep>| {
        let mut s = WorkerStart::start(layout, modules, true);
        let mut steps = vec![s.step];
        while let Some(next) = s.advance(Some(s.step) != failing) {
            s = next;
            steps.push(s.step);
        }
        steps
    };
    assert_eq!(
        steps(true, true, None),
        vec![
            StartStep::Reserve,
            StartStep::Context,
            StartStep::Memory,
            StartStep::Modules,
            StartStep::Listen,
            StartStep::Ready,
            StartStep::Serve,
        ]
    );
    assert_eq!(
        steps(false, false, None),
        vec![
            StartStep::Context,
            StartStep::Listen,
            StartStep::Ready,
            StartStep::Serve,
        ]
    );
    assert_eq!(
        steps(true, true, Some(StartStep::Modules)).last(),
        Some(&StartStep::Failed)
    );
}

#[test]
fn shared_memory_is_mapped_read_only() {
    let entry = parse_layout("resv=|maps=1000:100:0:1:7").maps.pop();
    let Some(entry) = entry else {
        panic!("expected a range");
    };
    let mut step = start_map(&entry, true);
    let mut calls = Vec::new();
    while let Some(call) = call_of_map(&entry, step) {
        calls.push(call);
        step = advance_map(&entry, step, Some(0x77));
    }
    assert!(calls.contains(&DriverCall::AccessReadOnly {
        va: 0x1000,
        size: 0x100,
    }));
    assert!(!calls.contains(&DriverCall::Access {
        va: 0x1000,
        size: 0x100,
    }));
    assert!(matches!(step, MapStep::Shared { .. }));
}

#[test]
fn reservation_that_moves_is_undone() {
    let layout = "resv=20000:10000|maps=";
    let mut r = ExactReserve::start(layout, Some(0x1_0000));
    assert_eq!(r.step(), ReserveStep::Reserve(0x2_0000, 0x1_0000, 0x1_0000));
    // One that was moved is given back, and the next attempt is coarser.
    assert_eq!(r.outcome(layout, Some(0x9_0000)), vec![(0x9_0000, 0x1_0000)]);
    assert_eq!(r.step(), ReserveStep::Reserve(0x2_0000, 0x2_0000, 0x2_0000));
    assert!(r.outcome(layout, None).is_empty());
    assert_eq!(r.step(), ReserveStep::Reserve(0, 0x4_0000, 0x4_0000));
    assert!(r.outcome(layout, Some(0)).is_empty());
    assert_eq!(r.step(), ReserveStep::Complete);
    assert_eq!(r.envelopes, vec![(0, 0x4_0000)]);
}

#[test]
fn ordinary_memory_is_refused_without_its_addresses() {
    let l = parse_layout("resv=|maps=|astage=3|aregions=20000:10000:0,|allocs=20000:10,");
    assert_eq!(
        ordinary_plan(&l, &[(0x20000, 0x10000)]),
        OrdinaryPlan::InPlaceFromStage(3)
    );
    assert_eq!(ordinary_plan(&l, &[]), OrdinaryPlan::TranslatedFromStage(3));
    assert_eq!(guarded(&l, &[]), vec![(0x20000, 0x10000)]);
    assert!(guarded(&l, &[(0x20000, 0x10000)]).is_empty());
    let h = parse_layout("resv=|maps=|ahost=0|aregions=20000:10000:0,|allocs=20000:10:5,");
    assert_eq!(ordinary_plan(&h, &[]), OrdinaryPlan::Refused);
    assert_eq!(
        ordinary_plan(&h, &[(0x10000, 0x20000)]),
        OrdinaryPlan::InPlaceFromHost(0)
    );
    let n = parse_layout("resv=|maps=|astage=3|aregions=|allocs=20000:10,");
    assert_eq!(ordinary_plan(&n, &[]), OrdinaryPlan::Nothing);
    assert_eq!(misplaced(0x1000, Some(0x1000)), None);
    assert_eq!(misplaced(0x1000, Some(0x2000)), Some(0x2000));
    assert_eq!(misplaced(0x1000, None), None);
    assert_eq!(staging_place(&[(0x20000, 0x10000, 7)], 0x20010), Some((7, 0x10)));
    assert_eq!(staging_place(&[(0x20000, 0x10000, 7)], 0x30000), None);
}

#[test]
fn connection_is_routed_by_its_mark() {
    let mut reg = WorkerRegistry::new();
    let mut options = ServeOptions {
        vram_limit_bytes: None,
        fork_pool_size: None,
        fork_clone: false,
    };
    assert_eq!(
        route_clone_connection(None, true, true, &reg, &[], &mut options),
        Some(Route::Serve)
    );
    assert!(!options.fork_clone);
    let mark = CloneMark {
        clone_id: 7,
        flags: 1,
    };
    assert!(mark.shares_weights() && !mark.preloads_modules());
    assert_eq!(
        route_token(&mut reg, 10, 7, false, &[], &[]).0,
        Route::Spawn { token: 10 }
    );
    reg.register(WorkerEntry {
        token: 10,
        clone_id: 7,
        pid: 101,
        control: 201,
    });
    assert_eq!(
        route_token(&mut reg, 10, 7, false, &[101], &[]).0,
        Route::Attach { control: 201 }
    );
    assert_eq!(
        route_token(&mut reg, 20, 7, false, &[101], &[(10, 20)]).0,
        Route::AttachOrSpawn {
            control: 201,
            token: 20,
        }
    );
    assert_eq!(
        route_token(&mut reg, 10, 7, true, &[101], &[]),
        (Route::Spawn { token: 10 }, Some(201))
    );
    assert_eq!(
        route_tokenless(Ok(Some((101, 201)))),
        Route::Attach { control: 201 }
    );
    assert_eq!(route_tokenless(Err(2)), Route::Drop);
    assert_eq!(warm_route(&[10], &[false]), WarmRoute::Spawn { token: 10 });
}

#[test]
fn daemon_is_started_once_and_waited_for() {
    let mut step = LaunchStep::Look;
    let mut polls = 0;
    loop {
        if let LaunchStep::Poll { .. } = step {
            polls += 1;
        }
        let ok = matches!(step, LaunchStep::Lock | LaunchStep::Spawn);
        step = step.advance(ok);
        if matches!(
            step,
            LaunchStep::Running | LaunchStep::Failed | LaunchStep::TimedOut
        ) {
            break;
        }
    }
    assert_eq!(step, LaunchStep::TimedOut);
    assert_eq!(polls, 200);
    assert_eq!(LaunchStep::Look.advance(true), LaunchStep::Running);
    assert_eq!(
        launch_flags(true, true, false),
        vec!["SMOLVM_CUDA_FORK_ISOLATE".to_string()]
    );
    assert!(launch_flags(false, false, false).is_empty());
}

#[test]
fn workers_left_behind_are_known_by_their_arguments() {
    let line = b"/usr/bin/smolvm\0_cuda-clone-worker\0";
    assert_eq!(orphan_worker("42", 7, line), Some(42));
    assert_eq!(orphan_worker("42", 42, line), None);
    assert_eq!(orphan_worker("self", 7, line), None);
    assert_eq!(orphan_worker("42", 7, b"smolvm\0_cuda-clone-worker2\0"), None);
    assert!(has_argument(b"a\0b", b"b"));
    assert!(!has_argument(b"ab\0", b"b"));
}

#[test]
fn device_service_is_private_unless_someone_else_runs_it() {
    assert_eq!(
        mps_plan(Some("off"), true, false, "/run/d.sock", "/tmp", 1, 2),
        MpsPlan::Off
    );
    assert_eq!(
        mps_plan(None, true, true, "/run/d.sock", "/tmp", 1, 2),
        MpsPlan::External
    );
    assert_eq!(
        mps_plan(None, true, false, "/run/smolvm/d.sock", "/tmp", 1, 2),
        MpsPlan::Private {
            pipe: "/tmp/smolvm-mps-1-2".to_string(),
            log_root: "/run/smolvm/cuda-mps-logs".to_string(),
            logs: "/run/smolvm/cuda-mps-logs/2".to_string(),
        }
    );
}

#[test]
fn worker_waits_for_every_channel_before_it_ends() {
    let mut l = AttachListener { idle_since: 0 };
    assert_eq!(l.look(2, None, 1_000, 0), AttachStep::Poll);
    assert_eq!(l.look(1, None, 2_000, 0), AttachStep::Poll);
    assert_eq!(l.look(0, None, 2_100, 0), AttachStep::End);
    assert_eq!(l.look(0, Some(true), 900_000, 0), AttachStep::Poll);
    assert_eq!(l.look(0, Some(false), 904_999, 0), AttachStep::Poll);
    assert_eq!(l.look(0, Some(false), 905_000, 0), AttachStep::End);
    assert_eq!(AttachListener::polled(0, false), AttachStep::Again);
    assert_eq!(AttachListener::polled(-1, true), AttachStep::Again);
    assert_eq!(AttachListener::polled(-1, false), AttachStep::End);
    assert_eq!(AttachListener::polled(1, false), AttachStep::Receive);
}

#[test]
fn snapshot_transfers_go_on_until_done() {
    assert_eq!(transfer_step(0, 10, 4, false), Transfer::Done(4));
    assert_eq!(transfer_step(4, 10, 0, false), Transfer::Short);
    assert_eq!(transfer_step(4, 10, -1, true), Transfer::Again);
    assert_eq!(transfer_step(4, 10, -1, false), Transfer::Failed);
    assert_eq!(transfer_at(5, 6), 11);
    assert_eq!(transfer_at(u64::MAX, 6), i64::MAX);
    assert!(chunk_verified(&[(0, 4, 9)], 4, &[9]));
    assert!(!chunk_verified(&[(0, 5, 9)], 4, &[9]));
    assert!(!chunk_verified(&[(0, 4, 0)], 4, &[0]));
}

#[test]
fn staging_is_undone_whatever_fails() {
    let run = |failing: Option<StageCall>| {
        let mut s = Staging::start(2);
        let mut calls = vec![s.call];
        while let Some(next) = s.advance(Some(s.call) != failing) {
            s = next;
            calls.push(s.call);
        }
        (calls, s.failed)
    };
    let (calls, failed) = run(None);
    assert!(!failed);
    assert_eq!(calls.len(), 11);
    assert!(calls.contains(&StageCall::Export));
    let (calls, failed) = run(Some(StageCall::Copy(1)));
    assert!(failed);
    assert!(!calls.contains(&StageCall::Export));
    assert_eq!(calls.last(), Some(&StageCall::Release));
    assert_eq!(run(Some(StageCall::Create)).0, vec![StageCall::Create]);
}

#[test]
fn readiness_is_awaited_and_closed() {
    assert_eq!(status_wait_step(Some("42 ready\n"), 42), WaitStep::Ready);
    assert_eq!(status_wait_step(Some("42 failed\n"), 42), WaitStep::Failed);
    assert_eq!(status_wait_step(None, 42), WaitStep::Pending);
    assert_eq!(status_wait_end(false, 0, 10), WaitEnd::VmExited);
    assert_eq!(status_wait_end(true, 10, 10), WaitEnd::TimedOut);
    assert_eq!(status_wait_end(true, 9, 10), WaitEnd::Again);
    let mut r = CloneWorkerReadiness::new(Some(42));
    assert_eq!(r.closing_action(false, true), ClosingAction::PublishFailed);
    r.publish_ready(true);
    assert_eq!(r.closing_action(false, true), ClosingAction::Nothing);
    assert_eq!(r.closing_action(true, false), ClosingAction::Remove);
    assert_eq!(r.closing_action(true, true), ClosingAction::PublishFailed);
    let actions = prune_dead_clone_worker_statuses(&[StatusEntry {
        name: "nonsense".to_string(),
        age_secs: None,
        content: None,
    }]);
    assert_eq!(actions.len(), 1);
    assert_ne!(actions[0], StatusAction::KeepIfAlive(0, 0));
}

#[test]
fn tensor_messages_come_back_as_they_were_sent() {
    let header = publish_header(10, 4096);
    assert_eq!(read_publish_header(&header), Some((10, 4096)));
    let request = consume_request(b"token").unwrap();
    assert_eq!(read_consume_header(&request[..6]), Ok(5));
    assert_eq!(&request[6..], b"token");
    assert_eq!(consume_request(b""), None);
    assert_eq!(consume_request(&[0u8; 257]), None);
    assert_eq!(read_publish_ack(&publish_ack(0, b"token")), Ok(5));
    assert_eq!(read_publish_ack(&publish_ack(2, b"")), Err(2));
}

#[test]
fn pool_opens_up_to_its_limit_and_reuses() {
    let mut pool: ConnPool<u32> = ConnPool::new();
    for _ in 0..8 {
        assert!(matches!(pool.checkout(), Checkout::Open));
    }
    assert!(matches!(pool.checkout(), Checkout::Wait));
    pool.checkin(1);
    pool.checkin(2);
    assert!(matches!(pool.checkout(), Checkout::Use(2)));
    pool.discard();
    assert!(matches!(pool.checkout(), Checkout::Use(1)));
    assert!(matches!(pool.checkout(), Checkout::Open));
    assert!(matches!(pool.checkout(), Checkout::Wait));
}

#[test]
fn private_memory_is_filled_before_it_is_used() {
    let Some(entry) = parse_layout("resv=|maps=1000:100:0:0:7").maps.pop() else {
        panic!("expected a range");
    };
    let mut step = start_map(&entry, false);
    let mut calls = Vec::new();
    while let Some(call) = call_of_map(&entry, step) {
        calls.push(call);
        step = advance_map(&entry, step, Some(0x77));
    }
    assert!(calls.contains(&DriverCall::Create { size: 0x100 }));
    assert!(calls
        .iter()
        .any(|c| matches!(c, DriverCall::Copy { to: 0x1000, .. })));
    assert_eq!(step, MapStep::Private { own: 0x77 });
    // Without memory of its own the range is not rebuilt.
    let failed = advance_map(&entry, start_map(&entry, false), None);
    assert_eq!(failed, MapStep::Failed);
}

#[test]
fn staged_copies_lie_apart() {
    let allocs = [(0x1_0000, 0x100), (0x1_0100, 0x100), (0x9_0000, 0x100)];
    let regions = alloc_regions(&allocs, 0x1_0000);
    assert_eq!(
        regions,
        vec![(0x1_0000, 0x1_0000, 0), (0x9_0000, 0x1_0000, 0x1_0000)]
    );
    let places: Vec<u64> = allocs
        .iter()
        .map(|a| {
            let (offset, at) = staging_place(&regions, a.0).unwrap();
            offset + at
        })
        .collect();
    assert_eq!(places, vec![0, 0x100, 0x1_0000]);
    assert_eq!(
        place_in_host(&allocs, 7),
        vec![
            (0x1_0000, 0x100, Some(7)),
            (0x1_0100, 0x100, Some(0x107)),
            (0x9_0000, 0x100, Some(0x207)),
        ]
    );
}

/// The calls of a restoration whose calls give the numbers from one on, but for those
/// that fail.
fn restore(
    text: &str,
    reserved: &[(u64, u64)],
    fails: impl Fn(&DriverCall) -> bool,
) -> (Vec<DriverCall>, OrdinaryRestore) {
    let l = parse_layout(text);
    let mut r = OrdinaryRestore::start(&l, reserved);
    let mut calls = Vec::new();
    while let Some(call) = r.call(&l) {
        let result = if fails(&call) {
            None
        } else {
            Some(calls.len() as u64 + 1)
        };
        calls.push(call);
        assert!(OrdinaryRestore::stage_fits(&l, 100));
        r.advance(&l, result);
    }
    (calls, r)
}

#[test]
fn ordinary_memory_comes_from_the_host_snapshot() {
    let text = "resv=|maps=|ahost=2|aregions=20000:10000:0,|allocs=20010:20:5,20080:8:25,";
    let (calls, r) = restore(text, &[(0x20000, 0x10000)], |_| false);
    assert_eq!(
        calls,
        vec![
            DriverCall::Create { size: 0x10000 },
            DriverCall::MapAt {
                va: 0x20000,
                size: 0x10000,
                handle: 1,
            },
            DriverCall::Access {
                va: 0x20000,
                size: 0x10000,
            },
            DriverCall::Release { handle: 1 },
            DriverCall::RestoreHost {
                index: 2,
                offset: 5,
                va: 0x20010,
                size: 0x20,
            },
            DriverCall::RestoreHost {
                index: 2,
                offset: 0x25,
                va: 0x20080,
                size: 8,
            },
            DriverCall::Synchronize,
        ]
    );
    assert_eq!(r.step, OrdinaryStep::InPlace);
    assert_eq!(
        r.translations,
        vec![(0x20010, 0x20, 0x20010), (0x20080, 8, 0x20080)]
    );
    // Without a place in the snapshot an allocation cannot be filled.
    let text = "resv=|maps=|ahost=2|aregions=20000:10000:0,|allocs=20010:20:5,20080:8,";
    let (_, r) = restore(text, &[(0x20000, 0x10000)], |_| false);
    assert_eq!(r.step, OrdinaryStep::Unplaced { i: 1 });
    assert!(r.translations.is_empty());
    assert_eq!(
        ordinary_failure(&parse_layout(text), r.step, "").as_deref(),
        Some("missing host snapshot offset for CUDA allocation 0x20080")
    );
}

#[test]
fn ordinary_memory_is_copied_from_the_staging_area() {
    let text = "resv=|maps=|astage=1|aregions=20000:1000:0,40000:1000:1000,|allocs=20000:10,";
    let reserved = [(0x20000, 0x1000), (0x40000, 0x1000)];
    let (calls, r) = restore(text, &reserved, |_| false);
    assert_eq!(r.step, OrdinaryStep::InPlace);
    assert_eq!(calls[8], DriverCall::Import { index: 1 });
    assert_eq!(calls[9], DriverCall::Reserve { size: 0x2000 });
    assert_eq!(
        calls[10],
        DriverCall::MapAt {
            va: 10,
            size: 0x2000,
            handle: 9,
        }
    );
    assert_eq!(
        calls[12],
        DriverCall::Copy {
            to: 0x20000,
            from: 10,
            size: 0x1000,
        }
    );
    assert_eq!(
        calls[13],
        DriverCall::Copy {
            to: 0x40000,
            from: 0x100a,
            size: 0x1000,
        }
    );
    assert_eq!(calls[14], DriverCall::Synchronize);
    assert_eq!(calls.len(), 19);
    // All of it is restored, or none.
    let copy = |c: &DriverCall| matches!(c, DriverCall::Copy { to: 0x40000, .. });
    let (_, r) = restore(text, &reserved, copy);
    assert_eq!(r.step, OrdinaryStep::Failed);
    assert_eq!(
        ordinary_failure(
            &parse_layout(text),
            OrdinaryStep::CopyRegion {
                source: 9,
                at: 10,
                i: 1,
            },
            "700",
        )
        .as_deref(),
        Some("address-preserving CUDA copy failed for 0x40000: 700")
    );
}

#[test]
fn displaced_memory_is_translated() {
    let text = "resv=|maps=|astage=1|aregions=20000:1000:0,\
                |allocs=20010:10,90000:10,20030:8,20040:4,";
    let fails = |c: &DriverCall| matches!(c, DriverCall::Allocate { size: 8 });
    let (calls, r) = restore(text, &[], fails);
    assert_eq!(r.step, OrdinaryStep::Translated);
    // One that no region holds and one without memory are left out.
    assert_eq!(r.translations, vec![(0x20010, 0x10, 5), (0x20040, 4, 8)]);
    assert_eq!(
        calls[5],
        DriverCall::Copy {
            to: 5,
            from: 0x12,
            size: 0x10,
        }
    );
    assert_eq!(
        calls.last(),
        Some(&DriverCall::Release { handle: 1 })
    );
    // Without the staging area there is nothing to translate to.
    let (calls, r) = restore(text, &[], |c| matches!(c, DriverCall::MapAt { .. }));
    assert_eq!(r.step, OrdinaryStep::Translated);
    assert!(r.translations.is_empty());
    assert_eq!(
        calls[3..],
        [
            DriverCall::Free {
                va: 2,
                size: 0x1000,
            },
            DriverCall::Release { handle: 1 },
        ]
    );
}

#[test]
fn failures_of_memory_say_where() {
    let Some(entry) = parse_layout("resv=|maps=1000:100:-3:0:7").maps.pop() else {
        panic!("expected a range");
    };
    assert_eq!(
        map_failure(&entry, MapStep::Create, "2").as_deref(),
        Some("private CUDA snapshot allocation failed at 0x1000: 2")
    );
    assert_eq!(
        map_failure(&entry, MapStep::ImportSource { own: 1 }, "999").as_deref(),
        Some("private CUDA snapshot import failed for range -3: 999")
    );
    assert_eq!(map_failure(&entry, MapStep::ShareImport, "999"), None);
    assert_eq!(
        stage_failure(StageCall::Copy(1), &[(1, 2), (0xab, 2)], "1").as_deref(),
        Some("stage dtod 0xab: 1")
    );
    assert_eq!(stage_failure(StageCall::Synchronize, &[], "1"), None);
    assert!(retries_map(MapStep::ShareImport) && !retries_map(MapStep::MapPrivate { own: 1 }));
    assert!(retries_ordinary(OrdinaryStep::ImportCopies));
    assert!(!retries_ordinary(OrdinaryStep::MapCopies { source: 1, at: 2 }));
}

#[test]
fn refused_messages_say_why() {
    assert_eq!(
        read_consume_header(b"TBX1\x05\x00"),
        Err(TensorMessageError::Request)
    );
    let short = read_consume_header(b"TBC1\x00\x00");
    assert_eq!(short, Err(TensorMessageError::TokenLength));
    assert_eq!(
        TensorMessageError::TokenLength.text(),
        "invalid tensor-bundle token length"
    );
    let mut header = b"TBR1".to_vec();
    header.extend([0; 12]);
    assert_eq!(
        read_response_header(&header),
        Err(TensorMessageError::Dimensions)
    );
    header[0] = b'X';
    assert_eq!(
        read_response_header(&header),
        Err(TensorMessageError::Response)
    );
    assert_eq!(
        attach_refusal(b"PMX1\x0a", AttachError::Invalid),
        "invalid clone attach metadata (len=5, head=[50, 4d, 58, 31, 0a])"
    );
    assert_eq!(
        attach_refusal(&[], AttachError::Invalid),
        "invalid clone attach metadata (len=0, head=[])"
    );
    assert_eq!(
        HandoffReadError::Truncated.text(),
        "CUDA module handoff is truncated"
    );
    assert_eq!(
        WorkerSetupError::ModulesFd.text(),
        "CUDA module handoff fd is invalid"
    );
}

#[test]
fn only_what_the_service_leaves_is_removed() {
    let plan: Vec<(bool, String)> = cleanup_private_mps_paths(Some("/t/p"), Some("/l/1/"))
        .into_iter()
        .map(|r| (r.directory, r.path))
        .collect();
    let shown: Vec<(bool, &str)> = plan.iter().map(|(d, p)| (*d, p.as_str())).collect();
    assert_eq!(
        shown,
        vec![
            (false, "/t/p/control"),
            (false, "/t/p/control_privileged"),
            (false, "/t/p/control_lock"),
            (false, "/t/p/log"),
            (false, "/t/p/nvidia-cuda-mps-control.pid"),
            (true, "/t/p"),
            (false, "/l/1/control.log"),
            (false, "/l/1/server.log"),
            (true, "/l/1/"),
        ]
    );
    assert!(cleanup_private_mps_paths(None, None).is_empty());
}

#[test]
fn handoffs_are_found_by_process() {
    let entry = |token| BlobEntry {
        token,
        revision: 1,
        bytes: 10,
        image_bytes: 0,
    };
    let all = [entry(7), entry(8)];
    assert_eq!(cached_module_blob(&all, 8, &[(7, 8)]), Some(1));
    assert_eq!(cached_module_blob(&all, 9, &[(8, 9)]), Some(1));
    assert_eq!(cached_module_blob(&all, 9, &[]), None);
}

#[test]
fn snapshot_without_an_owner_is_forgotten() {
    let mut cache = SnapshotCache::new();
    assert!(cache.retain(7, 100, &[]));
    assert!(cache.retain(8, 100, &[]));
    cache.forget(7);
    assert_eq!(cache.find(7, &[]), None);
    assert_eq!(cache.find(8, &[]), Some(0));
}

#[test]
fn snapshot_is_kept_for_its_owner() {
    let mut cache = SnapshotCache::new();
    let mut goldens = GoldenRegistry::new();
    // Nobody is connected, so nobody is known to own it.
    assert_eq!(
        retain_host_snapshot(&mut cache, &mut goldens, 7, 100, &[], true),
        Retention::Ambiguous
    );
    assert!(cache.entries.is_empty());
    goldens.register(GoldenConnection {
        pid: 41,
        id: 1,
        token: 7,
        fd: 3,
    });
    assert_eq!(
        retain_host_snapshot(&mut cache, &mut goldens, 7, 100, &[], false),
        Retention::Gone
    );
    assert_eq!(
        retain_host_snapshot(&mut cache, &mut goldens, 7, 100, &[], true),
        Retention::Bound(41)
    );
    // It stays as it is, under another token of the process too.
    assert_eq!(
        retain_host_snapshot(&mut cache, &mut goldens, 9, 5, &[(7, 9)], false),
        Retention::Bound(41)
    );
    assert_eq!(cache.entries.len(), 1);
    assert_eq!(cache.entries[0].golden_pid, 41);
    assert_eq!(cache.entries[0].host_bytes, 100);
}

#[test]
fn snapshot_stands_for_the_golden_only_if_it_is_whole() {
    let mut whole = LayoutBuilder::new(true, true);
    assert!(whole.takes_ordinary());
    assert!(whole.stands_for_golden(false, true));
    assert!(!whole.stands_for_golden(true, true));
    assert!(!whole.stands_for_golden(false, false));
    whole.copy_failed();
    // Ordinary allocations still go to the snapshot.
    assert!(whole.takes_ordinary());
    assert!(!whole.stands_for_golden(false, true));
    assert!(!LayoutBuilder::new(true, false).takes_ordinary());
}

#[test]
fn readiness_lies_beside_the_socket() {
    for (socket, dir) in [
        ("/run/smolvm/cuda.sock", "/run/smolvm/cuda.sock.workers"),
        ("/cuda.sock", "/cuda.sock.workers"),
        ("run/cuda.sock", "run/cuda.sock.workers"),
        ("cuda.sock", "cuda.sock.workers"),
        ("/run/..", "/run/cuda-daemon.sock.workers"),
        ("/", "./cuda-daemon.sock.workers"),
        ("", "./cuda-daemon.sock.workers"),
    ] {
        assert_eq!(clone_worker_status_dir_for(socket), dir);
    }
    assert_eq!(init_layer_cache_dir("/c/smolvm/vms"), "/c/smolvm/init-layers");
    assert_eq!(init_layer_cache_dir("/"), "/tmp/smolvm-init-layers");
}

#[test]
fn socket_lies_in_the_data_directory() {
    assert_eq!(socket_path(Some("/d"), "/tmp"), "/d/cuda-daemon.sock");
    assert_eq!(socket_path(None, "/tmp"), "/tmp/smolvm/cuda-daemon.sock");
}

const ROOM: &str = "MemTotal: 9 kB\nMemAvailable: 8388608 kB\n";

fn two_ranges(requested: bool, meminfo: Option<&str>) -> FreezeJob {
    FreezeJob::plan(
        vec![chunk(0x1000, 0x100, 7), chunk(0x2000, 0x200, 8)],
        vec![true, false],
        true,
        vec![(0x3_0010, 0x20), (0x3_0040, 0x8)],
        requested,
        meminfo,
    )
}

fn freeze(job: &FreezeJob, fails: impl Fn(FreezeStep) -> bool) -> (Vec<FreezeStep>, Freeze) {
    let mut f = Freeze::start(job);
    let mut steps = Vec::new();
    while f.step != FreezeStep::Done && f.step != FreezeStep::Failed {
        steps.push(f.step);
        let ok = !fails(f.step);
        f.advance(job, ok);
    }
    (steps, f)
}

#[test]
fn golden_is_taken_to_a_snapshot() {
    let job = two_ranges(true, Some(ROOM));
    assert!(job.snapshot);
    let (steps, f) = freeze(&job, |_| false);
    assert_eq!(
        steps,
        vec![
            FreezeStep::Create,
            FreezeStep::Export { i: 0 },
            FreezeStep::Copy { i: 1 },
            FreezeStep::CopyOrdinary { i: 0, at: 0x200 },
            FreezeStep::CopyOrdinary { i: 1, at: 0x220 },
            FreezeStep::Seal,
        ]
    );
    assert_eq!(f.host_bytes(&job), Some(0x228));
    let layout = f.finish(&job, vec![(0x1000, 0x2000)], 0x1_0000);
    assert_eq!(
        write_layout(&layout),
        "resv=1000:2000,|maps=1000:100:1:1:7,2000:200:0:0:8:0,\
         |ahost=0|aregions=30000:10000:0,|allocs=30010:20:200,30040:8:220,"
    );
}

#[test]
fn snapshot_that_misses_something_stands_for_nothing() {
    let job = two_ranges(true, Some(ROOM));
    // A range that cannot be copied is exported.
    let (steps, f) = freeze(&job, |s| s == FreezeStep::Copy { i: 1 });
    assert!(steps.contains(&FreezeStep::Export { i: 1 }));
    assert!(steps.contains(&FreezeStep::CopyOrdinary { i: 0, at: 0 }));
    assert!(!steps.contains(&FreezeStep::Seal));
    assert_eq!(f.host_bytes(&job), None);
    // Ordinary allocations that cannot be copied are staged.
    let (steps, f) = freeze(&job, |s| matches!(s, FreezeStep::CopyOrdinary { i: 1, .. }));
    assert_eq!(steps.last(), Some(&FreezeStep::Stage));
    assert!(f.staged && f.host_bytes(&job).is_none());
    let layout = f.finish(&job, Vec::new(), 0x1_0000);
    assert_eq!(layout.stage, Some(2));
    assert_eq!(layout.allocs, vec![(0x3_0010, 0x20, None), (0x3_0040, 8, None)]);
    // Without the file everything is handed over.
    let (steps, f) = freeze(&job, |s| s == FreezeStep::Create);
    assert_eq!(
        steps[1..],
        [
            FreezeStep::Export { i: 0 },
            FreezeStep::Export { i: 1 },
            FreezeStep::Stage,
        ]
    );
    assert_eq!(f.host_bytes(&job), None);
    // A snapshot that cannot be sealed is not kept, and a range must get across.
    let (_, f) = freeze(&job, |s| s == FreezeStep::Seal);
    assert_eq!((f.step, f.host_bytes(&job)), (FreezeStep::Done, None));
    let (_, f) = freeze(&job, |s| s == FreezeStep::Export { i: 0 });
    assert_eq!(f.step, FreezeStep::Failed);
}

#[test]
fn snapshot_needs_a_request_and_room() {
    assert!(!two_ranges(false, Some(ROOM)).snapshot);
    assert!(!two_ranges(true, None).snapshot);
    assert!(!two_ranges(true, Some("MemAvailable: 1024 kB\n")).snapshot);
    let (steps, f) = freeze(&two_ranges(false, Some(ROOM)), |_| false);
    assert_eq!(
        steps,
        vec![
            FreezeStep::Export { i: 0 },
            FreezeStep::Export { i: 1 },
            FreezeStep::Stage,
        ]
    );
    assert!(!f.retained);
    assert!(allocs_addressable(&[(0, 10)], 0x1_0000));
    assert!(!allocs_addressable(&[(u64::MAX - 5, 10)], 0x1_0000));
}

#[test]
fn descriptors_move_to_their_slots() {
    let sources = WorkerSources {
        connection: 5,
        exports: vec![20, 21],
        control: 22,
        publish: None,
        module: Some(23),
        images: Some(24),
    };
    let moves = worker_moves(&sources);
    assert_eq!(moves, vec![(5, 3), (20, 4), (21, 5), (22, 6), (23, 7), (24, 8)]);
    for (i, a) in moves.iter().enumerate() {
        assert!(moves[i + 1..].iter().all(|b| a.1 != b.0 && a.1 < b.1));
    }
}

#[test]
fn all_ranges_are_restored_and_counted() {
    let text = "resv=|maps=1000:100:0:1:7,2000:100:1:0:8,3000:100:2:1,\
                |ahost=2|aregions=20000:10000:0,|allocs=20010:20:5,20080:8:25,";
    let maps = parse_layout(text).maps;
    let mut r = RangesRestore::start(&maps, true);
    while r.call(&maps).is_some() {
        r.advance(&maps, true, Some(0x77));
    }
    assert_eq!(r.i, 3);
    assert_eq!(r.tally.count, 3);
    assert_eq!(r.tally.handles, vec![(7, 0x77), (8, 0x77)]);
    assert_eq!(r.tally.shared, vec![(0x1000, 0x100), (0x3000, 0x100)]);
    let (_, ordinary) = restore(text, &[(0x20000, 0x10000)], |_| false);
    assert_eq!(restored_total(&r.tally, &ordinary), 5);
    // A range that cannot be restored ends it.
    let mut r = RangesRestore::start(&maps, false);
    while let Some(call) = r.call(&maps) {
        let fails = matches!(call, DriverCall::MapAt { va: 0x2000, .. });
        r.advance(&maps, false, if fails { None } else { Some(1) });
    }
    assert_eq!((r.i, r.step), (1, MapStep::Failed));
    assert_eq!(r.tally.handles, vec![(7, 1)]);
    assert!(r.tally.shared.is_empty());
}

#[test]
fn first_bytes_are_looked_at_until_they_are_whole() {
    let mut looking = Looking::start();
    for _ in 1..PEEK_ATTEMPTS {
        looking = looking.advance(PeekStep::Again);
        assert!(matches!(looking, Looking::Look { .. }));
    }
    assert_eq!(looking.advance(PeekStep::Present), Looking::Found);
    assert_eq!(looking.advance(PeekStep::Again), Looking::Absent);
    assert_eq!(Looking::start().advance(PeekStep::NotOurs), Looking::Absent);
    // A first request needs no magic.
    assert_eq!(peek_preamble(Some(&[0; 20]), &[], TOKEN_BYTES), PeekStep::Again);
    assert_eq!(peek_preamble(Some(&[0; 21]), &[], TOKEN_BYTES), PeekStep::Present);
    assert_eq!(peek_preamble(Some(&[]), &[], TOKEN_BYTES), PeekStep::Closed);
    assert_eq!(peek_preamble(None, &[], TOKEN_BYTES), PeekStep::Again);
}

#[test]
fn envelopes_reach_the_end_of_the_addresses() {
    let layout = "resv=ffffffffffff0000:1,1234:10|maps=";
    assert_eq!(
        clone_layout_reservation_envelopes(layout, 0x1000),
        vec![(0x1000, 0x1000), (0xffff_ffff_ffff_0000, 0x1000)]
    );
    assert!(allocs_addressable(&[(u64::MAX - 0x1_0009, 10)], 0x1_0000));
    assert!(!allocs_addressable(&[(u64::MAX - 0x1_0008, 10)], 0x1_0000));
}

fn daemon_steps(network: bool, idles: bool, ok: impl Fn(DaemonStep) -> bool) -> Vec<DaemonStep> {
    let mut start = DaemonStart::start(network, idles);
    let mut steps = vec![start.step];
    loop {
        let next = start.advance(ok(start.step));
        if next.step == start.step {
            return steps;
        }
        start = next;
        steps.push(start.step);
    }
}

#[test]
fn daemon_starts_in_order() {
    assert_eq!(
        daemon_steps(false, true, |s| s != DaemonStep::Probe),
        vec![
            DaemonStep::Probe,
            DaemonStep::Reap,
            DaemonStep::Unlink,
            DaemonStep::Arm,
            DaemonStep::Bind,
            DaemonStep::Publish,
            DaemonStep::Tensors,
            DaemonStep::Mps,
            DaemonStep::Watch,
            DaemonStep::Sweep,
            DaemonStep::Accept,
        ]
    );
    // One that answers is left alone.
    assert_eq!(
        daemon_steps(false, true, |_| true),
        vec![DaemonStep::Probe, DaemonStep::Occupied]
    );
    let failed = |at: DaemonStep| {
        let steps = daemon_steps(false, true, |s| s != DaemonStep::Probe && s != at);
        steps[steps.len() - 2..].to_vec()
    };
    assert_eq!(failed(DaemonStep::Bind), vec![DaemonStep::Bind, DaemonStep::Failed]);
    assert_eq!(
        failed(DaemonStep::Publish),
        vec![DaemonStep::Withdraw, DaemonStep::Failed]
    );
    assert_eq!(
        failed(DaemonStep::Tensors),
        vec![DaemonStep::Sweep, DaemonStep::Accept]
    );
    // A daemon for the network is not watched.
    let remote = daemon_steps(true, true, |_| false);
    assert!(!remote.contains(&DaemonStep::Watch));
    let remote = daemon_steps(true, true, |s| s != DaemonStep::Probe);
    assert!(remote.contains(&DaemonStep::Network) && !remote.contains(&DaemonStep::Watch));
}
