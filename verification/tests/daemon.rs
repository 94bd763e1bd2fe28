use smolvm::daemon::caches::{
    capture_step, keeps_blob, metadata_layout_waiters, prune_module_blob_cache, BlobEntry,
    CaptureStep, LayoutWaiter, SnapshotCache,
};
use smolvm::daemon::layout::{
    clone_layout_reservation_envelopes, clone_layout_reservations, ordinary_regions_are_reserved,
    parse_layout, range_is_reserved,
};
use smolvm::daemon::memory::MAX_CLONE_RESERVATION_GRANULARITY;
use smolvm::daemon::modules::{
    write_module_handoff, FuncMeta, GraphKernelNode, GraphOplog, GraphSer, HandoffError,
    HandoffReadError, ImageStore, LibHandle, ModuleHandoff,
};
use smolvm::daemon::modules_read::{read_module_handoff, recreated};
use smolvm::daemon::policy::{
    clone_worker_idle_expired, clone_worker_idle_timeout_from, clone_worker_share_env,
    clone_worker_spawn_pace, daemon_has_live_cuda_clients, daemon_socket_access,
    disabled_worker_route, fork_snapshot_enabled, golden_eviction_enabled, host_snapshot_fits,
    host_snapshot_reconstructable, mps_enabled, tensor_bundle_ttl_from,
    DEFAULT_TENSOR_BUNDLE_TTL_SECS,
};
use smolvm::daemon::preamble::{
    consume_policy_preamble, consume_procmem_preamble, consume_ring_dir_preamble,
    decode_attach_procmem, encode_attach_procmem, procmem_from_env, procmem_to_env,
};
use smolvm::daemon::registry::{select_golden_owner, WorkerEntry, WorkerRegistry};
use smolvm::daemon::status::{
    clone_worker_capability_path, clone_worker_status_dir_for, clone_worker_status_path,
    decode_clone_worker_capability, decode_clone_worker_status, encode_clone_worker_capability,
    encode_clone_worker_status, local_cuda_daemon_socket, CloneWorkerStatus,
};
use smolvm::daemon::tensor::{
    encode_tensor_bundle_metadata, tensor_bundle_socket_path, validate_tensor_bundle_metadata,
    TensorRange, TensorStore,
};

const PROTOCOL: u64 = 0x1234_5678_9abc_def0;

#[test]
fn daemon_socket_is_private_or_limited_to_the_vmm_group() {
    assert_eq!(daemon_socket_access(1000, None).unwrap(), (0o600, None));
    assert_eq!(
        daemon_socket_access(0, Some(123)).unwrap(),
        (0o660, Some(123))
    );
    assert!(daemon_socket_access(0, None).is_none());
}

#[test]
fn high_fanout_clone_workers_keep_a_bounded_spawn_interval() {
    assert_eq!(clone_worker_spawn_pace(None, true), 0);
    assert_eq!(clone_worker_spawn_pace(Some(4), true), 0);
    assert_eq!(clone_worker_spawn_pace(Some(5), true), 20);
    assert_eq!(clone_worker_spawn_pace(Some(64), true), 20);
    assert_eq!(clone_worker_spawn_pace(Some(5), false), 0);
    assert_eq!(clone_worker_spawn_pace(Some(64), false), 0);
}

#[test]
fn parsed_module_images_keep_the_mapped_blob_alive() {
    let image = b"mapped-cubin";
    let mut blob = Vec::new();
    blob.extend_from_slice(&1_u32.to_le_bytes());
    blob.extend_from_slice(&0x1234_u64.to_le_bytes());
    blob.extend_from_slice(&(image.len() as u32).to_le_bytes());
    blob.extend_from_slice(image);
    blob.extend_from_slice(&0_u32.to_le_bytes());
    blob.extend_from_slice(&0_u32.to_le_bytes());
    blob.extend_from_slice(&0_u32.to_le_bytes());

    let got = read_module_handoff(&blob, None).unwrap();
    assert!(!got.external);
    assert_eq!(got.images.len(), 1);
    assert_eq!(got.images[0].handle, 0x1234);
    let from = got.images[0].offset as usize;
    let to = from + got.images[0].len as usize;
    assert_eq!(&blob[from..to], image);
    assert!(got.funcs.is_empty());
    assert!(got.streams.is_empty());
    assert!(got.events.is_empty());
    assert!(got.graphs.is_empty());
    assert!(got.libs.is_empty());
}

#[test]
fn external_module_image_store_keeps_handoff_metadata_small() {
    let image = b"external-module-image".to_vec();
    let handoff = ModuleHandoff {
        modules: vec![(0x1234, image.clone())],
        funcs: Vec::new(),
        streams: Vec::new(),
        events: Vec::new(),
        graphs: Vec::new(),
        libs: Vec::new(),
        oplogs: Vec::new(),
    };
    let store = ImageStore {
        ranges: vec![(0x1234, 0, image.len() as u64)],
        bytes: image.len() as u64,
    };
    let metadata = write_module_handoff(&handoff, Some(&store)).unwrap();
    assert!(metadata.starts_with(b"MHI2"));
    assert!(!metadata.windows(image.len()).any(|window| window == image));

    assert_eq!(
        read_module_handoff(&metadata, None).err(),
        Some(HandoffReadError::MissingStore)
    );
    let mut invalid_range = metadata.clone();
    invalid_range[16..24].copy_from_slice(&1_u64.to_le_bytes());
    assert_eq!(
        read_module_handoff(&invalid_range, Some(image.len() as u64)).err(),
        Some(HandoffReadError::OutsideStore)
    );
    let got = read_module_handoff(&metadata, Some(image.len() as u64)).unwrap();
    assert!(got.external);
    assert_eq!(got.images.len(), 1);
    assert_eq!(got.images[0].handle, 0x1234);
    let from = got.images[0].offset as usize;
    let to = from + got.images[0].len as usize;
    assert_eq!(&image[from..to], image.as_slice());
    assert!(got.funcs.is_empty());
    assert!(got.streams.is_empty());
    assert!(got.events.is_empty());
    assert!(got.graphs.is_empty());
    assert!(got.libs.is_empty());
}

#[test]
fn truncated_module_handoff_fails_closed() {
    assert_eq!(
        read_module_handoff(&[1, 0, 0], None).err(),
        Some(HandoffReadError::Truncated)
    );
}

#[test]
fn dead_lineages_do_not_retain_module_blobs() {
    let token = u64::MAX - 91;
    let blob = BlobEntry {
        token,
        revision: 0,
        bytes: 24,
        image_bytes: 0,
    };
    assert!(!keeps_blob(&[], &blob, &[]));
    assert!(prune_module_blob_cache(&[blob], &[]).is_empty());
}

#[test]
fn streamed_module_handoff_preserves_the_wire_format() {
    let handoff = ModuleHandoff {
        modules: vec![(0x10, b"module-image".to_vec())],
        funcs: vec![FuncMeta {
            handle: 0x20,
            module: 0x10,
            name: "kernel".to_owned(),
            attrs: vec![(8, 49_152), (-1, -2)],
        }],
        streams: vec![(0x30, 1)],
        events: vec![(0x40, 2)],
        graphs: vec![GraphSer {
            graph: 0x50,
            instance: 0x51,
            nodes: vec![GraphKernelNode {
                func: 0x20,
                grid: (2, 3, 4),
                block: (5, 6, 7),
                shared_mem: 8,
                params: vec![vec![1, 2], vec![3, 4, 5]],
            }],
            edges: vec![(0, 0)],
        }],
        libs: vec![LibHandle {
            library: 3,
            function: 0x1234,
            handle: 0x60,
            args: vec![9, 8],
        }],
        oplogs: vec![GraphOplog {
            graph: 0x50,
            instance: 0x51,
            ops: vec![vec![7, 6, 5]],
        }],
    };
    let actual = write_module_handoff(&handoff, None).unwrap();

    fn u16_field(output: &mut Vec<u8>, value: u16) {
        output.extend_from_slice(&value.to_le_bytes());
    }
    fn u32_field(output: &mut Vec<u8>, value: u32) {
        output.extend_from_slice(&value.to_le_bytes());
    }
    fn i32_field(output: &mut Vec<u8>, value: i32) {
        output.extend_from_slice(&value.to_le_bytes());
    }
    fn u64_field(output: &mut Vec<u8>, value: u64) {
        output.extend_from_slice(&value.to_le_bytes());
    }
    fn bytes_field(output: &mut Vec<u8>, value: &[u8]) {
        u32_field(output, value.len() as u32);
        output.extend_from_slice(value);
    }

    let mut expected = Vec::new();
    u32_field(&mut expected, 1);
    u64_field(&mut expected, 0x10);
    bytes_field(&mut expected, b"module-image");
    u32_field(&mut expected, 1);
    u64_field(&mut expected, 0x20);
    u64_field(&mut expected, 0x10);
    bytes_field(&mut expected, b"kernel");
    u32_field(&mut expected, 2);
    i32_field(&mut expected, 8);
    i32_field(&mut expected, 49_152);
    i32_field(&mut expected, -1);
    i32_field(&mut expected, -2);
    u32_field(&mut expected, 1);
    u64_field(&mut expected, 0x30);
    u32_field(&mut expected, 1);
    u32_field(&mut expected, 1);
    u64_field(&mut expected, 0x40);
    u32_field(&mut expected, 2);
    u32_field(&mut expected, 1);
    u64_field(&mut expected, 0x50);
    u64_field(&mut expected, 0x51);
    u32_field(&mut expected, 1);
    u64_field(&mut expected, 0x20);
    for value in [2, 3, 4, 5, 6, 7, 8] {
        u32_field(&mut expected, value);
    }
    u32_field(&mut expected, 2);
    bytes_field(&mut expected, &[1, 2]);
    bytes_field(&mut expected, &[3, 4, 5]);
    u32_field(&mut expected, 1);
    u32_field(&mut expected, 0);
    u32_field(&mut expected, 0);
    u32_field(&mut expected, 1);
    expected.push(3);
    u16_field(&mut expected, 0x1234);
    u64_field(&mut expected, 0x60);
    bytes_field(&mut expected, &[9, 8]);
    u32_field(&mut expected, 1);
    u64_field(&mut expected, 0x50);
    u64_field(&mut expected, 0x51);
    u32_field(&mut expected, 1);
    bytes_field(&mut expected, &[7, 6, 5]);

    assert_eq!(actual, expected);

    let token = u64::MAX - 92;
    let blob = BlobEntry {
        token,
        revision: 0,
        bytes: expected.len() as u64,
        image_bytes: 0,
    };
    assert!(!keeps_blob(&[], &blob, &[]));

    // What is read back is what was written.
    let got = read_module_handoff(&actual, None).unwrap();
    assert_eq!(got.funcs, handoff.funcs);
    assert_eq!(got.streams, handoff.streams);
    assert_eq!(got.events, handoff.events);
    assert_eq!(got.graphs, handoff.graphs);
    assert_eq!(got.libs, handoff.libs);
    assert_eq!(got.oplogs, handoff.oplogs);
}

#[test]
fn capacity_policy_preamble_roundtrips() {
    let mut bytes = [0u8; 24];
    bytes[..8].copy_from_slice(b"SMVCPOL1");
    bytes[8..16].copy_from_slice(&(10_u64 * 1024 * 1024 * 1024).to_le_bytes());
    bytes[16..20].copy_from_slice(&2_u32.to_le_bytes());

    let policy = consume_policy_preamble(&bytes);
    assert_eq!(policy.vram_limit_bytes, Some(10_u64 * 1024 * 1024 * 1024));
    assert_eq!(policy.fork_pool_size, Some(2));
    assert!(!policy.fork_clone);
}

#[test]
fn zero_region_procmem_preamble_carries_clone_lifetime() {
    let mut bytes = [0u8; 20];
    bytes[..8].copy_from_slice(b"SMVGPVM1");
    bytes[8..12].copy_from_slice(&4242_u32.to_le_bytes());
    assert_eq!(consume_procmem_preamble(&bytes), Some((4242, Vec::new())));
}

#[test]
fn ring_directory_must_be_text() {
    let mut bytes = Vec::new();
    bytes.extend_from_slice(b"SMVRDIR1");
    bytes.extend_from_slice(&5_u16.to_le_bytes());
    bytes.extend_from_slice("/ring".as_bytes());
    assert_eq!(consume_ring_dir_preamble(&bytes), Some("/ring".to_string()));
    bytes[10] = 0xff;
    assert_eq!(consume_ring_dir_preamble(&bytes), None);
}

#[test]
fn clone_worker_idle_grace_has_bounded_default_and_override() {
    assert_eq!(clone_worker_idle_timeout_from(None), 300);
    assert_eq!(clone_worker_idle_timeout_from(Some(" 7 ")), 7);
    assert_eq!(clone_worker_idle_timeout_from(Some("invalid")), 300);
}

#[test]
fn tensor_bundle_lifetime_covers_delayed_cohort_consumers() {
    assert_eq!(tensor_bundle_ttl_from(None), 300);
    assert_eq!(tensor_bundle_ttl_from(Some(" 600 ")), 600);
    assert_eq!(
        tensor_bundle_ttl_from(Some("0")),
        DEFAULT_TENSOR_BUNDLE_TTL_SECS
    );
    assert_eq!(
        tensor_bundle_ttl_from(Some("3601")),
        DEFAULT_TENSOR_BUNDLE_TTL_SECS
    );
    assert_eq!(
        tensor_bundle_ttl_from(Some("invalid")),
        DEFAULT_TENSOR_BUNDLE_TTL_SECS
    );
}

#[test]
fn daemon_idle_watchdog_counts_routed_clone_workers() {
    assert!(!daemon_has_live_cuda_clients(0, 0, 0));
    assert!(daemon_has_live_cuda_clients(1, 0, 0));
    assert!(daemon_has_live_cuda_clients(0, 1, 0));
    assert!(daemon_has_live_cuda_clients(0, 0, 1));
}

#[test]
fn golden_eviction_is_automatic_for_fork_pools_with_a_kill_switch() {
    assert!(golden_eviction_enabled(None, Some(4)));
    assert!(golden_eviction_enabled(Some("on"), Some(4)));
    assert!(!golden_eviction_enabled(Some("off"), Some(4)));
    assert!(!golden_eviction_enabled(None, None));
    assert!(!golden_eviction_enabled(Some("force"), None));
}

#[test]
fn shared_forks_retain_one_reusable_snapshot_without_requiring_a_pool() {
    assert!(fork_snapshot_enabled(false, true));
    assert!(fork_snapshot_enabled(true, false));
    assert!(!fork_snapshot_enabled(false, false));
}

#[test]
fn golden_eviction_requires_one_unambiguous_vm_owner() {
    assert_eq!(select_golden_owner(vec![7], None, &[7, 8]), Some(7));
    assert_eq!(select_golden_owner(Vec::new(), Some(8), &[7, 8]), Some(8));
    assert_eq!(select_golden_owner(Vec::new(), None, &[7]), Some(7));
    assert_eq!(select_golden_owner(vec![7, 8], None, &[7, 8]), None);
    assert_eq!(select_golden_owner(Vec::new(), None, &[7, 8]), None);
}

#[test]
fn host_snapshot_capacity_preserves_a_host_reserve() {
    let eight_gib_kib = 8 * 1024 * 1024;
    let meminfo =
        format!("MemTotal:       {eight_gib_kib} kB\nMemAvailable:   {eight_gib_kib} kB\n");
    assert!(host_snapshot_fits(2 << 30, &meminfo));
    assert!(!host_snapshot_fits(7 << 30, &meminfo));
    assert!(!host_snapshot_fits(1, "MemTotal: 8192 kB\n"));
}

#[test]
fn host_snapshot_requires_address_preserved_device_memory() {
    assert!(!host_snapshot_reconstructable(0, 0));
    assert!(host_snapshot_reconstructable(1, 0));
    assert!(host_snapshot_reconstructable(0, 1));
}

#[test]
fn frozen_memory_layout_is_not_reclassified_as_metadata_only() {
    let token = u64::MAX - 41;
    let mut cache = SnapshotCache::new();
    assert!(cache.retain(token, 1, &[]));
    let mut waiters = metadata_layout_waiters();
    let has_snapshot = cache.find(token, &[]).is_some();
    assert!(!waiters.retain_metadata_layout_for_clone(
        LayoutWaiter {
            token,
            clone_id: 7,
            vm_pid: 11,
        },
        has_snapshot,
        true,
    ));
    assert!(!waiters.waits_for(token));
}

#[test]
fn dead_golden_snapshot_is_released_without_the_idle_watchdog() {
    let token = u64::MAX - 42;
    let mut cache = SnapshotCache::new();
    assert!(cache.retain(token, 1, &[]));
    cache.bind_host_snapshot_owner(token, 4242, &[]);
    let (live, released) = cache.live_host_snapshot_count(&[], &[], &[]);
    assert_eq!(live, 0);
    assert_eq!(released.len(), 1);
    assert_eq!(released[0].token, token);
    assert!(cache.find(token, &[]).is_none());
}

#[test]
fn live_clone_vm_prevents_worker_idle_expiry() {
    let elapsed = 600_000;
    let fallback = 300_000;
    assert!(!clone_worker_idle_expired(0, Some(true), elapsed, fallback));
    assert!(!clone_worker_idle_expired(
        1,
        Some(false),
        elapsed,
        fallback
    ));
    assert!(clone_worker_idle_expired(0, Some(false), 5_000, fallback));
    assert!(clone_worker_idle_expired(0, None, elapsed, fallback));
}

#[test]
fn clone_attach_procmem_metadata_roundtrips() {
    let advert = (
        4242,
        vec![
            (0, 0x7f00_0000, 0x1000),
            (0x1_0000_0000, 0x7f10_0000, 0x20_0000),
        ],
    );
    assert_eq!(
        decode_attach_procmem(&encode_attach_procmem(Some(&advert))).unwrap(),
        Some(advert)
    );
    assert_eq!(
        decode_attach_procmem(&encode_attach_procmem(None)).unwrap(),
        None
    );
    assert!(decode_attach_procmem(b"bad").is_err());
}

#[test]
fn procmem_survives_the_environment() {
    let regions = vec![(0, 0x7f00_0000, 0x1000), (1, u64::MAX, 2)];
    let text = procmem_to_env(4242, &regions);
    assert_eq!(procmem_from_env(&text), Some((4242, regions)));
    assert_eq!(procmem_from_env("nonsense"), None);
}

#[test]
fn tensor_bundle_metadata_rejects_ranges_outside_the_export() {
    let mut metadata = Vec::new();
    metadata.extend_from_slice(&2u32.to_le_bytes());
    metadata.extend_from_slice(&2u32.to_le_bytes());
    metadata.extend_from_slice(b"{}");
    metadata.extend_from_slice(&0u64.to_le_bytes());
    metadata.extend_from_slice(&64u64.to_le_bytes());
    metadata.extend_from_slice(&64u64.to_le_bytes());
    metadata.extend_from_slice(&32u64.to_le_bytes());
    validate_tensor_bundle_metadata(&metadata, 128).unwrap();

    metadata[26..34].copy_from_slice(&96u64.to_le_bytes());
    assert!(validate_tensor_bundle_metadata(&metadata, 128).is_err());
}

#[test]
fn tensor_bundle_token_transfers_one_fd_once() {
    let metadata = encode_tensor_bundle_metadata(
        br#"{"name":"adapter"}"#,
        &[
            TensorRange {
                offset: 0,
                size: 64,
            },
            TensorRange {
                offset: 64,
                size: 32,
            },
        ],
    );
    let mut store = TensorStore::new();
    let candidate = vec![9u8; 32];
    let (status, token, _) =
        store.take_in(11, 4096, metadata.clone(), &vec![candidate.clone()], 0, 300);
    assert_eq!(status, 0);
    assert_eq!(token.len(), 32);
    assert_eq!(token, candidate);

    let (redeemed, _) = store.redeem(&token, 1, 300);
    let redeemed = redeemed.unwrap();
    assert_eq!(redeemed.allocation, 11);
    assert_eq!(redeemed.allocation_size, 4096);
    validate_tensor_bundle_metadata(&redeemed.metadata, redeemed.allocation_size).unwrap();

    assert!(store.redeem(&token, 1, 300).0.is_none());
}

#[test]
fn published_tensor_bundle_outlives_its_clone_worker_channel() {
    let metadata = encode_tensor_bundle_metadata(
        br#"{"name":"adapter"}"#,
        &[TensorRange {
            offset: 0,
            size: 64,
        }],
    );
    let mut store = TensorStore::new();
    let (status, token, _) = store.take_in(5, 4096, metadata, &vec![vec![1u8; 32]], 0, 300);
    assert_eq!(status, 0);
    let (redeemed, _) = store.redeem(&token, 299, 300);
    assert_eq!(redeemed.unwrap().allocation_size, 4096);
}

#[test]
fn expired_tensor_bundle_cannot_be_redeemed() {
    let metadata = encode_tensor_bundle_metadata(
        b"{}",
        &[TensorRange {
            offset: 0,
            size: 64,
        }],
    );
    let mut store = TensorStore::new();
    let (status, token, _) = store.take_in(5, 4096, metadata, &vec![vec![1u8; 32]], 0, 300);
    assert_eq!(status, 0);
    let (redeemed, expired) = store.redeem(&token, 301, 300);
    assert!(redeemed.is_none());
    assert_eq!(expired.len(), 1);
    assert_eq!(expired[0].allocation, 5);
}

#[test]
fn tokenless_clone_worker_selection_fails_closed_when_ambiguous() {
    let mut workers = WorkerRegistry::new();
    workers.register(WorkerEntry {
        token: 10,
        clone_id: 7,
        pid: 101,
        control: 201,
    });
    workers.register(WorkerEntry {
        token: 20,
        clone_id: 8,
        pid: 102,
        control: 202,
    });

    assert_eq!(workers.unique_live_clone_worker(9, |_| true), Ok(None));
    assert_eq!(
        workers.unique_live_clone_worker(7, |_| true),
        Ok(Some((101, 201)))
    );

    workers.register(WorkerEntry {
        token: 30,
        clone_id: 7,
        pid: 103,
        control: 203,
    });
    assert_eq!(workers.unique_live_clone_worker(7, |_| true), Err(2));
    assert_eq!(
        workers.unique_live_clone_worker(7, |pid| pid == 103),
        Ok(Some((103, 203)))
    );
}

#[test]
fn clone_share_kill_switch_overrides_fork_request() {
    assert_eq!(clone_worker_share_env(true, None), Some("1"));
    assert_eq!(clone_worker_share_env(true, Some("0")), Some("0"));
    assert_eq!(clone_worker_share_env(true, Some("false")), Some("0"));
    assert_eq!(clone_worker_share_env(true, Some("off")), Some("0"));
    assert_eq!(clone_worker_share_env(false, None), None);
}

#[test]
fn clone_worker_status_round_trips_and_rejects_ambiguous_records() {
    for status in [CloneWorkerStatus::Ready, CloneWorkerStatus::Failed] {
        let encoded = encode_clone_worker_status(42, status);
        assert_eq!(decode_clone_worker_status(&encoded), Some((42, status)));
    }
    assert_eq!(decode_clone_worker_status("42 ready trailing"), None);
    assert_eq!(decode_clone_worker_status("42 unknown"), None);
    assert_eq!(decode_clone_worker_status("ready"), None);
}

#[test]
fn explicit_daemon_readiness_uses_a_socket_scoped_directory() {
    let socket = "/run/smolvm/custom.sock";
    assert_eq!(
        clone_worker_status_dir_for(socket),
        "/run/smolvm/custom.sock.workers"
    );
    assert_eq!(
        local_cuda_daemon_socket(Some("/run/smolvm/custom.sock"), "/default.sock"),
        Some(socket.to_string())
    );
    assert_eq!(
        local_cuda_daemon_socket(Some("gpu.example:7001"), "/default.sock"),
        None
    );
    assert_eq!(
        local_cuda_daemon_socket(Some("relative.sock"), "/default.sock"),
        None
    );
    assert_eq!(
        local_cuda_daemon_socket(None, "/default.sock"),
        Some("/default.sock".to_string())
    );
}

#[test]
fn readiness_files_lie_in_the_sockets_directory() {
    let dir = clone_worker_status_dir_for("/run/smolvm/custom.sock");
    assert!(clone_worker_status_path("/run/smolvm/custom.sock", 42).starts_with(&dir));
    assert!(clone_worker_capability_path("/run/smolvm/custom.sock").starts_with(&dir));
    assert!(tensor_bundle_socket_path("/run/smolvm/custom.sock").starts_with("/run/smolvm/"));
    assert_ne!(
        tensor_bundle_socket_path("/run/smolvm/custom.sock"),
        "/run/smolvm/custom.sock"
    );
}

#[test]
fn readiness_capability_is_protocol_bound_and_unambiguous() {
    let encoded = encode_clone_worker_capability(42, 99, PROTOCOL);
    assert_eq!(
        decode_clone_worker_capability(&encoded, PROTOCOL),
        Some((42, 99))
    );
    assert_eq!(
        decode_clone_worker_capability("1 42 99 0000000000000000\n", PROTOCOL),
        None
    );
    assert_eq!(
        decode_clone_worker_capability(&format!("{} trailing", encoded.trim_end()), PROTOCOL),
        None
    );
}

#[test]
fn disabled_worker_mode_consumes_only_warm_dials() {
    assert_eq!(disabled_worker_route(1, false, true), Some(false));
    assert_eq!(disabled_worker_route(3, false, true), Some(true));
    assert_eq!(disabled_worker_route(3, true, false), Some(true));
    assert_eq!(disabled_worker_route(3, true, true), None);
}

#[test]
fn clone_address_envelopes_align_merge_and_cover_original_ranges() {
    let layout = format!(
        "{}{}",
        "resv=312400000:200000,314000000:1400000,|maps=|",
        "aregions=7a5ed2400000:200000:0,7a5ed2600000:200000:200000,"
    );
    let ranges = clone_layout_reservation_envelopes(&layout, 0x2000000);

    assert_eq!(
        ranges,
        vec![(0x312000000, 0x4000000), (0x7a5ed2000000, 0x2000000)]
    );
    assert!(range_is_reserved(&ranges, 0x312400000, 0x200000));
    assert!(range_is_reserved(&ranges, 0x314000000, 0x1400000));
    assert!(range_is_reserved(&ranges, 0x7a5ed2600000, 0x200000));
    assert!(!range_is_reserved(&ranges, 0x316000000, 0x200000));

    let fallback = clone_layout_reservation_envelopes(&layout, MAX_CLONE_RESERVATION_GRANULARITY);
    for (base, size) in clone_layout_reservations(&layout) {
        assert!(range_is_reserved(&fallback, base, size));
    }
}

#[test]
fn layout_with_nonsense_keeps_what_can_be_read() {
    let l = parse_layout("resv=zz:1,10:20,|maps=");
    assert_eq!(l.reservations, vec![(0x10, 0x20)]);
    assert!(l.maps.is_empty());
}

#[test]
fn ordinary_restore_requires_every_region_to_keep_its_golden_address() {
    let reserved = vec![(0x1000, 0x4000), (0x8000, 0x2000)];
    assert!(ordinary_regions_are_reserved(
        &[(0x1000, 0x2000, 0), (0x8000, 0x1000, 0x2000)],
        &reserved,
    ));
    assert!(!ordinary_regions_are_reserved(
        &[(0x1000, 0x2000, 0), (0xa000, 0x1000, 0x2000)],
        &reserved,
    ));
}

#[test]
fn mps_defaults_to_fork_worker_pools() {
    assert!(mps_enabled(None, true));
    assert!(!mps_enabled(None, false));
}

#[test]
fn explicit_mps_mode_overrides_pool_default() {
    for off in ["0", "off", "FALSE", " no "] {
        assert!(!mps_enabled(Some(off), true), "{off}");
    }
    for on in ["1", "on", "TRUE", " yes ", "force"] {
        assert!(mps_enabled(Some(on), false), "{on}");
    }
}

#[test]
fn handoff_without_a_stored_image_is_refused() {
    let handoff = ModuleHandoff {
        modules: vec![(1, vec![1, 2, 3])],
        funcs: Vec::new(),
        streams: Vec::new(),
        events: Vec::new(),
        graphs: Vec::new(),
        libs: Vec::new(),
        oplogs: Vec::new(),
    };
    let empty = ImageStore {
        ranges: Vec::new(),
        bytes: 0,
    };
    assert_eq!(
        write_module_handoff(&handoff, Some(&empty)),
        Err(HandoffError::MissingImage)
    );
    let wrong = ImageStore {
        ranges: vec![(1, 0, 2)],
        bytes: 2,
    };
    assert_eq!(
        write_module_handoff(&handoff, Some(&wrong)),
        Err(HandoffError::ImageMismatch)
    );
}

#[test]
fn names_that_are_no_utf8_are_read_lossily() {
    let mut blob = Vec::new();
    blob.extend_from_slice(&0_u32.to_le_bytes());
    blob.extend_from_slice(&1_u32.to_le_bytes());
    blob.extend_from_slice(&0x20_u64.to_le_bytes());
    blob.extend_from_slice(&0x10_u64.to_le_bytes());
    blob.extend_from_slice(&2_u32.to_le_bytes());
    blob.extend_from_slice(&[b'k', 0xff]);
    blob.extend_from_slice(&0_u32.to_le_bytes());
    blob.extend_from_slice(&0_u32.to_le_bytes());
    blob.extend_from_slice(&0_u32.to_le_bytes());
    let got = read_module_handoff(&blob, None).unwrap();
    assert_eq!(got.funcs[0].name, "k\u{fffd}");
}

#[test]
fn streams_that_could_not_be_made_have_no_translation() {
    assert_eq!(
        recreated(&[(1, 0), (2, 0), (3, 1)], &[Some(10), None, Some(30)]),
        vec![(1, 10), (3, 30)]
    );
}

#[test]
fn capture_is_repeated_while_modules_change() {
    assert_eq!(capture_step(3, Some(3), 1), CaptureStep::Done);
    assert_eq!(capture_step(3, Some(4), 1), CaptureStep::Again);
    assert_eq!(capture_step(3, Some(4), 3), CaptureStep::GiveUp);
}

#[test]
fn layouts_are_released_when_nobody_waits_for_them() {
    let mut waiters = metadata_layout_waiters();
    for clone_id in [1, 2] {
        assert!(waiters.retain_metadata_layout_for_clone(
            LayoutWaiter {
                token: 10,
                clone_id,
                vm_pid: 100 + clone_id as u32,
            },
            false,
            true,
        ));
    }
    assert!(waiters.complete(10, 1, &[]).is_empty());
    assert!(waiters.waits_for(10));
    assert_eq!(waiters.prune(&[]), vec![10]);
    assert!(!waiters.waits_for(10));
}

#[test]
fn module_cache_keeps_within_its_limits() {
    let blob = |token: u64, bytes: u64| BlobEntry {
        token,
        revision: 1,
        bytes,
        image_bytes: 0,
    };
    let current: Vec<(u64, u64)> = (0..40).map(|t| (t, 1)).collect();
    let many: Vec<BlobEntry> = (0..32).map(|t| blob(t, 1)).collect();
    assert!(!keeps_blob(&many, &blob(33, 1), &current));
    assert!(keeps_blob(&many[..31], &blob(33, 1), &current));
    assert!(!keeps_blob(&[blob(0, 32 << 30)], &blob(33, 1), &current));
    assert!(!keeps_blob(&[], &blob(33, 1), &[(33, 2)]));
}
