use smolvm::db::{
    targets_workspace_tree, ClaimForkPoolSlot, DbError, ForkPoolSlotClaim, SmolvmDb,
};
use smolvm::records::{
    ForkLeaseState, ForkPoolAdmissionLimit, ForkPoolRecord, ForkPoolSlotState, RecordState,
    RetainedForkSnapshot, VmRecord,
};

/// A database with the rows of another, as if they had been stored and read back.
fn reopen(db: &SmolvmDb) -> SmolvmDb {
    let mut copy = SmolvmDb::new();
    for (name, record) in db.list_vms() {
        copy.insert_vm(&name, &record);
    }
    for (key, value) in db.list_config() {
        copy.set_config(&key, &value);
    }
    for (name, reservation) in db.list_reservations() {
        copy.restore_reservation(&name, reservation);
    }
    for pool in db.list_fork_pools() {
        assert!(copy.insert_fork_pool_if_not_exists(&pool));
    }
    for (golden, snapshot) in db.list_retained_fork_snapshots() {
        copy.set_retained_fork_snapshot(&golden, &snapshot);
    }
    for slot in db.list_all_slots() {
        copy.restore_slot(slot);
    }
    for lease in db.list_all_leases() {
        assert!(copy.restore_lease(lease));
    }
    copy
}

fn test_pool(name: &str, desired_ready: u32) -> ForkPoolRecord {
    ForkPoolRecord {
        name: name.into(),
        golden: "golden".into(),
        desired_ready,
        max_active: None,
        auto_admission: false,
        cuda_device_ordinal: Some(0),
        share_weights: true,
        ready_timeout_secs: 30,
        lease_ttl_secs: 60,
        created_at: 100,
        deleting: false,
    }
}

fn insert_ready_pool_slot(db: &mut SmolvmDb, pool: &str, machine: &str) {
    let mut vm = VmRecord::new(machine.into(), 2, 1024, vec![], vec![], false);
    vm.golden = Some("golden".into());
    vm.forkpoint_held = true;
    vm.fork_env = vec![("BASE".into(), "1".into())];
    db.insert_vm(machine, &vm);
    assert!(db.reserve_fork_pool_slot(pool, machine, 101));
    assert!(db.mark_fork_pool_slot_ready(machine, 102));
}

fn claim_of<'a>(pool: &'a str, lease: &'a str, key: &'a str, now: u64) -> ForkPoolSlotClaim<'a> {
    ForkPoolSlotClaim {
        pool_name: pool,
        lease_id: lease,
        idempotency_key: key,
        assignment: &[],
        payload_sha256: None,
        require_private_workspace: false,
        admission_limit: None,
        ttl_secs: 60,
        now,
    }
}

#[test]
fn test_db_crud_operations() {
    let mut db = SmolvmDb::new();

    let record = VmRecord::new(
        "test-vm".to_string(),
        2,
        1024,
        vec![("/host".to_string(), "/guest".to_string(), false)],
        vec![(8080, 80)],
        false,
    );

    db.insert_vm("test-vm", &record);

    let retrieved = db.get_vm("test-vm").unwrap();
    assert_eq!(retrieved.name, "test-vm");
    assert_eq!(retrieved.cpus, 2);
    assert_eq!(retrieved.mem, 1024);

    let updated = db
        .update_vm("test-vm", |r| {
            r.state = RecordState::Running;
            r.pid = Some(12345);
        })
        .unwrap();
    assert_eq!(updated.state, RecordState::Running);
    assert_eq!(updated.pid, Some(12345));

    let vms = db.list_vms();
    assert_eq!(vms.len(), 1);
    assert_eq!(vms[0].0, "test-vm");

    let removed = db.remove_vm("test-vm").unwrap();
    assert_eq!(removed.name, "test-vm");

    assert!(db.get_vm("test-vm").is_none());
}

#[test]
fn test_db_concurrent_access() {
    let mut db = SmolvmDb::new();

    for i in 0..10 {
        let name = format!("vm-{}", i);
        let record = VmRecord::new(name.clone(), 1, 512, vec![], vec![], false);
        db.insert_vm(&name, &record);
    }

    let vms = db.list_vms();
    assert_eq!(vms.len(), 10);
}

#[test]
fn test_config_settings() {
    let mut db = SmolvmDb::new();

    db.set_config("test_key", "test_value");

    let value = db.get_config("test_key").unwrap();
    assert_eq!(value, "test_value");

    assert!(db.get_config("nonexistent").is_none());
}

#[test]
fn fork_pool_snapshot_survives_database_reopen_and_can_be_removed() {
    let mut db = SmolvmDb::new();
    let snapshot = RetainedForkSnapshot {
        path: "/golden/s/12345678".to_string(),
        golden_pid: 123,
        golden_pid_start_time: 456,
    };
    db.set_retained_fork_snapshot("golden", &snapshot);

    let mut reopened = reopen(&db);
    assert_eq!(
        reopened.list_retained_fork_snapshots(),
        vec![("golden".to_string(), snapshot.clone())]
    );
    assert_eq!(
        reopened.retained_fork_snapshot("golden").as_ref(),
        Some(&snapshot)
    );
    assert!(reopened.retained_fork_snapshot("other").is_none());
    assert!(reopened.remove_retained_fork_snapshot("golden"));
    assert!(reopened.list_retained_fork_snapshots().is_empty());
    assert!(!reopened.remove_retained_fork_snapshot("golden"));
}

/// A retained checkpoint restores RAM from one specific golden process, so it
/// must not outlive that golden's record — otherwise a later machine reusing
/// the name would inherit a checkpoint that belongs to a dead VM.
#[test]
fn removing_a_golden_also_drops_its_retained_fork_snapshot() {
    let mut db = SmolvmDb::new();
    db.insert_vm(
        "golden",
        &VmRecord::new("golden".to_string(), 1, 256, vec![], vec![], true),
    );
    db.set_retained_fork_snapshot(
        "golden",
        &RetainedForkSnapshot {
            path: "/golden/s/12345678".to_string(),
            golden_pid: 123,
            golden_pid_start_time: 456,
        },
    );

    assert!(db.remove_vm("golden").is_some());
    assert!(db.retained_fork_snapshot("golden").is_none());
}

#[test]
fn test_update_nonexistent_vm() {
    let mut db = SmolvmDb::new();

    let result = db.update_vm("nonexistent", |_| {});
    assert!(result.is_none());
}

#[test]
fn test_remove_nonexistent_vm() {
    let mut db = SmolvmDb::new();

    let result = db.remove_vm("nonexistent");
    assert!(result.is_none());
}

#[test]
fn test_insert_vm_if_not_exists() {
    let mut db = SmolvmDb::new();

    let record = VmRecord::new("test-vm".to_string(), 1, 512, vec![], vec![], false);

    let inserted = db.insert_vm_if_not_exists("test-vm", &record);
    assert!(inserted, "first insert should succeed");

    let inserted = db.insert_vm_if_not_exists("test-vm", &record);
    assert!(!inserted, "second insert should fail (already exists)");

    let vms = db.list_vms();
    assert_eq!(vms.len(), 1);

    let record2 = VmRecord::new("test-vm2".to_string(), 2, 1024, vec![], vec![], false);
    let inserted = db.insert_vm_if_not_exists("test-vm2", &record2);
    assert!(inserted, "different name should succeed");

    let vms = db.list_vms();
    assert_eq!(vms.len(), 2);
}

#[test]
fn test_create_reservation_blocks_unreserved_insert() {
    let mut db = SmolvmDb::new();
    let token = SmolvmDb::create_reservation_token(7, 1000, 1_000_000_001);
    let record = VmRecord::new("reserved-vm".to_string(), 1, 512, vec![], vec![], false);

    assert!(db.reserve_vm_create("reserved-vm", &token, 7, true, 1000));
    assert!(
        !db.insert_vm_if_not_exists("reserved-vm", &record),
        "legacy unreserved insert must not publish a reserved name"
    );
    assert!(
        db.get_vm("reserved-vm").is_none(),
        "reservation must not create a visible VM row"
    );

    assert!(db
        .commit_reserved_vm("reserved-vm", &token, &record));
    assert!(db.get_vm("reserved-vm").is_some());
}

#[test]
fn test_create_reservation_is_exclusive_and_releasable() {
    let mut db = SmolvmDb::new();
    let first = SmolvmDb::create_reservation_token(7, 1000, 1_000_000_001);
    let second = SmolvmDb::create_reservation_token(7, 1000, 1_000_000_002);

    assert!(db.reserve_vm_create("contested", &first, 7, true, 1000));
    assert!(
        !db.reserve_vm_create("contested", &second, 7, true, 1000),
        "second live creator must not reserve the same name"
    );

    db.release_vm_create_reservation("contested", &first);
    assert!(
        db.reserve_vm_create("contested", &second, 7, true, 1000),
        "released reservation should make the name available"
    );
}

#[test]
fn test_insert_vm_if_not_exists_concurrent() {
    let mut db = SmolvmDb::new();

    let results: Vec<bool> = (0..10)
        .map(|_| {
            let record = VmRecord::new("contested-name".to_string(), 1, 512, vec![], vec![], false);
            db.insert_vm_if_not_exists("contested-name", &record)
        })
        .collect();

    let success_count = results.iter().filter(|&&r| r).count();
    assert_eq!(success_count, 1, "exactly one insert should succeed");

    let vms = db.list_vms();
    assert_eq!(vms.len(), 1);
}

#[test]
fn fork_pool_reservation_honors_desired_ready() {
    let mut db = SmolvmDb::new();
    assert!(db
        .insert_fork_pool_if_not_exists(&test_pool("rollouts", 2)));
    assert!(!db
        .insert_fork_pool_if_not_exists(&test_pool("rollouts", 2)));
    assert!(db.reserve_fork_pool_slot("rollouts", "slot-1", 1));
    assert!(db.reserve_fork_pool_slot("rollouts", "slot-2", 1));
    assert!(!db.reserve_fork_pool_slot("rollouts", "slot-3", 1));
    assert_eq!(db.list_fork_pool_slots("rollouts").len(), 2);
}

#[test]
fn shrinking_fork_pool_retires_surplus_ready_workers() {
    let mut db = SmolvmDb::new();
    db.insert_fork_pool_if_not_exists(&test_pool("rollouts", 3));
    for machine in ["slot-1", "slot-2", "slot-3"] {
        insert_ready_pool_slot(&mut db, "rollouts", machine);
    }
    let resized = db.resize_fork_pool("rollouts", 1, 200).unwrap();
    assert_eq!(resized.desired_ready, 1);
    let slots = db.list_fork_pool_slots("rollouts");
    assert_eq!(
        slots
            .iter()
            .filter(|slot| slot.state == ForkPoolSlotState::Ready)
            .count(),
        1
    );
    assert_eq!(
        slots
            .iter()
            .filter(|slot| slot.state == ForkPoolSlotState::Retiring)
            .count(),
        2
    );
}

#[test]
fn fork_pool_claim_is_idempotent_and_consumes_vm_atomically() {
    let mut db = SmolvmDb::new();
    db.insert_fork_pool_if_not_exists(&test_pool("rollouts", 1));
    insert_ready_pool_slot(&mut db, "rollouts", "slot-1");
    let assignment = vec![("EPISODE".into(), "42".into())];
    let payload_sha256 = "payload-digest";

    let first = db
        .claim_fork_pool_slot(ForkPoolSlotClaim {
            pool_name: "rollouts",
            lease_id: "lease-a",
            idempotency_key: "request-a",
            assignment: &assignment,
            payload_sha256: Some(payload_sha256),
            require_private_workspace: true,
            admission_limit: None,
            ttl_secs: 60,
            now: 200,
        })
        .unwrap();
    let lease = match first {
        ClaimForkPoolSlot::Claimed(lease) => lease,
        other => panic!("unexpected claim result: {other:?}"),
    };
    assert_eq!(lease.machine_name, "slot-1");
    assert_eq!(lease.payload_sha256.as_deref(), Some(payload_sha256));
    let vm = db.get_vm("slot-1").unwrap();
    assert!(!vm.forkpoint_held);
    assert!(vm
        .fork_env
        .iter()
        .any(|(key, value)| key == "EPISODE" && value == "42"));

    let retry = db
        .claim_fork_pool_slot(ForkPoolSlotClaim {
            pool_name: "rollouts",
            lease_id: "unused-new-id",
            idempotency_key: "request-a",
            assignment: &assignment,
            payload_sha256: Some(payload_sha256),
            require_private_workspace: true,
            admission_limit: None,
            ttl_secs: 60,
            now: 201,
        })
        .unwrap();
    assert!(matches!(
        retry,
        ClaimForkPoolSlot::Existing(ref existing)
            if existing.id == "lease-a"
                && existing.payload_sha256.as_deref() == Some(payload_sha256)
    ));
    let second_request = db
        .claim_fork_pool_slot(ForkPoolSlotClaim {
            pool_name: "rollouts",
            lease_id: "lease-b",
            idempotency_key: "request-b",
            assignment: &assignment,
            payload_sha256: None,
            require_private_workspace: false,
            admission_limit: None,
            ttl_secs: 60,
            now: 201,
        })
        .unwrap();
    assert_eq!(second_request, ClaimForkPoolSlot::NoReadySlot);
}

#[test]
fn fork_pool_refill_waits_for_guest_activation() {
    let mut db = SmolvmDb::new();
    db.insert_fork_pool_if_not_exists(&test_pool("rollouts", 2));
    insert_ready_pool_slot(&mut db, "rollouts", "slot-1");
    insert_ready_pool_slot(&mut db, "rollouts", "slot-2");

    let claim = db
        .claim_fork_pool_slot(ForkPoolSlotClaim {
            pool_name: "rollouts",
            lease_id: "lease-a",
            idempotency_key: "request-a",
            assignment: &[],
            payload_sha256: None,
            require_private_workspace: false,
            admission_limit: None,
            ttl_secs: 60,
            now: 200,
        })
        .unwrap();
    assert!(matches!(claim, ClaimForkPoolSlot::Claimed(_)));
    assert_eq!(db.fork_pool_ready_deficit("rollouts"), 0);
    assert!(!db
        .reserve_fork_pool_slot("rollouts", "replacement", 201));

    db.mark_fork_lease_active("lease-a", 202);
    assert_eq!(db.fork_pool_ready_deficit("rollouts"), 1);
    assert!(db
        .reserve_fork_pool_slot("rollouts", "replacement", 203));
}

#[test]
fn payload_claim_rejects_external_workspace_without_consuming_slot() {
    let mut db = SmolvmDb::new();
    db.insert_fork_pool_if_not_exists(&test_pool("rollouts", 1));
    insert_ready_pool_slot(&mut db, "rollouts", "slot-1");
    db.update_vm("slot-1", |vm| {
        vm.mounts
            .push(("/host/jobs".into(), "/workspace/jobs".into(), false));
    });

    let rejected = db
        .claim_fork_pool_slot(ForkPoolSlotClaim {
            pool_name: "rollouts",
            lease_id: "lease-a",
            idempotency_key: "request-a",
            assignment: &[],
            payload_sha256: Some("payload-digest"),
            require_private_workspace: true,
            admission_limit: None,
            ttl_secs: 60,
            now: 200,
        })
        .unwrap();
    assert_eq!(rejected, ClaimForkPoolSlot::WorkspaceExternallyMounted);
    assert_eq!(
        db.get_fork_pool_slot("slot-1").unwrap().state,
        ForkPoolSlotState::Ready
    );
    assert!(db.get_vm("slot-1").unwrap().forkpoint_held);

    let env_only = db
        .claim_fork_pool_slot(ForkPoolSlotClaim {
            pool_name: "rollouts",
            lease_id: "lease-b",
            idempotency_key: "request-b",
            assignment: &[],
            payload_sha256: None,
            require_private_workspace: false,
            admission_limit: None,
            ttl_secs: 60,
            now: 201,
        })
        .unwrap();
    assert!(matches!(env_only, ClaimForkPoolSlot::Claimed(_)));
}

#[test]
fn workspace_mount_targets_are_normalized_component_wise() {
    for target in [
        "/workspace",
        "/workspace/",
        "/workspace/jobs",
        "/workspace/./jobs",
        "/tmp/../workspace/jobs",
        "workspace/jobs",
    ] {
        assert!(targets_workspace_tree(target), "{target}");
    }
    for target in ["/data", "/workspace2", "/tmp/workspace", "/workspace/.."] {
        assert!(!targets_workspace_tree(target), "{target}");
    }
}

#[test]
fn concurrent_idempotent_claims_return_one_lease() {
    let mut db = SmolvmDb::new();
    db.insert_fork_pool_if_not_exists(&test_pool("rollouts", 1));
    insert_ready_pool_slot(&mut db, "rollouts", "slot-1");
    let results: Vec<_> = ["lease-a", "lease-b"]
        .into_iter()
        .map(|lease_id| {
            db.claim_fork_pool_slot(ForkPoolSlotClaim {
                pool_name: "rollouts",
                lease_id,
                idempotency_key: "same-request",
                assignment: &[("EPISODE".into(), "42".into())],
                payload_sha256: None,
                require_private_workspace: false,
                admission_limit: None,
                ttl_secs: 60,
                now: 200,
            })
            .unwrap()
        })
        .collect();
    assert_eq!(
        results
            .iter()
            .filter(|result| matches!(result, ClaimForkPoolSlot::Claimed(_)))
            .count(),
        1
    );
    assert_eq!(
        results
            .iter()
            .filter(|result| matches!(result, ClaimForkPoolSlot::Existing(_)))
            .count(),
        1
    );
    let ids: Vec<_> = results
        .iter()
        .map(|result| match result {
            ClaimForkPoolSlot::Claimed(lease) | ClaimForkPoolSlot::Existing(lease) => {
                lease.id.as_str()
            }
            other => panic!("unexpected result: {other:?}"),
        })
        .collect();
    assert_eq!(ids[0], ids[1]);
}

#[test]
fn fork_pool_max_active_preserves_ready_capacity() {
    let mut db = SmolvmDb::new();
    let mut pool = test_pool("rollouts", 2);
    pool.max_active = Some(1);
    db.insert_fork_pool_if_not_exists(&pool);
    insert_ready_pool_slot(&mut db, "rollouts", "slot-1");
    insert_ready_pool_slot(&mut db, "rollouts", "slot-2");
    db.claim_fork_pool_slot(ForkPoolSlotClaim {
        pool_name: "rollouts",
        lease_id: "lease-1",
        idempotency_key: "request-1",
        assignment: &[],
        payload_sha256: None,
        require_private_workspace: false,
        admission_limit: None,
        ttl_secs: 60,
        now: 200,
    })
    .unwrap();
    db.mark_fork_lease_active("lease-1", 201);

    assert_eq!(
        db.claim_fork_pool_slot(ForkPoolSlotClaim {
            pool_name: "rollouts",
            lease_id: "lease-2",
            idempotency_key: "request-2",
            assignment: &[],
            payload_sha256: None,
            require_private_workspace: false,
            admission_limit: None,
            ttl_secs: 60,
            now: 202,
        })
        .unwrap(),
        ClaimForkPoolSlot::AtCapacity
    );
    assert_eq!(
        db.list_fork_pool_slots("rollouts")
            .into_iter()
            .filter(|slot| slot.state == ForkPoolSlotState::Ready)
            .count(),
        1,
        "capacity rejection must not consume a clean worker"
    );
    assert!(matches!(
        db.claim_fork_pool_slot(ForkPoolSlotClaim {
            pool_name: "rollouts",
            lease_id: "ignored",
            idempotency_key: "request-1",
            assignment: &[],
            payload_sha256: None,
            require_private_workspace: false,
            admission_limit: None,
            ttl_secs: 60,
            now: 203,
        })
            .unwrap(),
        ClaimForkPoolSlot::Existing(lease) if lease.id == "lease-1"
    ));
}

#[test]
fn adaptive_limit_is_atomic_and_never_loosens_static_limit() {
    let mut db = SmolvmDb::new();
    let mut pool = test_pool("rollouts", 3);
    pool.max_active = Some(2);
    db.insert_fork_pool_if_not_exists(&pool);
    for machine in ["slot-1", "slot-2", "slot-3"] {
        insert_ready_pool_slot(&mut db, "rollouts", machine);
    }

    let mut claim = |lease_id: &str, request: &str, admission_limit: Option<u32>| {
        db.claim_fork_pool_slot(ForkPoolSlotClaim {
            pool_name: "rollouts",
            lease_id,
            idempotency_key: request,
            assignment: &[],
            payload_sha256: None,
            require_private_workspace: false,
            admission_limit: admission_limit
                .map(|pool| ForkPoolAdmissionLimit { pool, device: 3 }),
            ttl_secs: 60,
            now: 200,
        })
        .unwrap()
    };

    assert!(matches!(
        claim("lease-1", "request-1", Some(1)),
        ClaimForkPoolSlot::Claimed(_)
    ));
    assert_eq!(
        claim("lease-2", "request-2", Some(1)),
        ClaimForkPoolSlot::AtCapacity
    );
    assert!(matches!(
        claim("lease-2", "request-2", Some(3)),
        ClaimForkPoolSlot::Claimed(_)
    ));
    assert_eq!(
        claim("lease-3", "request-3", Some(3)),
        ClaimForkPoolSlot::AtCapacity,
        "dynamic admission may not exceed maxActive"
    );
}

#[test]
fn device_limit_is_shared_across_pools_but_not_across_devices() {
    let mut db = SmolvmDb::new();
    let mut first = test_pool("first", 1);
    first.auto_admission = true;
    let mut second = test_pool("second", 1);
    second.auto_admission = true;
    db.insert_fork_pool_if_not_exists(&first);
    db.insert_fork_pool_if_not_exists(&second);
    insert_ready_pool_slot(&mut db, "first", "first-slot");
    insert_ready_pool_slot(&mut db, "second", "second-slot");
    let limit = Some(ForkPoolAdmissionLimit { pool: 1, device: 1 });

    assert!(matches!(
        db.claim_fork_pool_slot(ForkPoolSlotClaim {
            pool_name: "first",
            lease_id: "first-lease",
            idempotency_key: "first-request",
            assignment: &[],
            payload_sha256: None,
            require_private_workspace: false,
            admission_limit: limit,
            ttl_secs: 60,
            now: 200,
        })
        .unwrap(),
        ClaimForkPoolSlot::Claimed(_)
    ));
    assert_eq!(
        db.claim_fork_pool_slot(ForkPoolSlotClaim {
            pool_name: "second",
            lease_id: "second-lease",
            idempotency_key: "second-request",
            assignment: &[],
            payload_sha256: None,
            require_private_workspace: false,
            admission_limit: limit,
            ttl_secs: 60,
            now: 201,
        })
        .unwrap(),
        ClaimForkPoolSlot::AtCapacity
    );

    let mut other_db = SmolvmDb::new();
    second.cuda_device_ordinal = Some(1);
    other_db.insert_fork_pool_if_not_exists(&first);
    other_db.insert_fork_pool_if_not_exists(&second);
    insert_ready_pool_slot(&mut other_db, "first", "other-first-slot");
    insert_ready_pool_slot(&mut other_db, "second", "other-second-slot");
    for (pool, machine, lease) in [
        ("first", "other-first-slot", "other-first-lease"),
        ("second", "other-second-slot", "other-second-lease"),
    ] {
        assert!(matches!(
            other_db
                .claim_fork_pool_slot(ForkPoolSlotClaim {
                    pool_name: pool,
                    lease_id: lease,
                    idempotency_key: lease,
                    assignment: &[],
                    payload_sha256: None,
                    require_private_workspace: false,
                    admission_limit: limit,
                    ttl_secs: 60,
                    now: 202,
                })
                .unwrap(),
            ClaimForkPoolSlot::Claimed(_)
        ));
        assert_eq!(
            other_db
                .get_fork_pool_slot(machine)
                .unwrap()
                .lease_id,
            Some(lease.into())
        );
    }
}

#[test]
fn concurrent_cross_pool_claims_cannot_cross_device_limit() {
    let mut db = SmolvmDb::new();
    let mut first = test_pool("first", 1);
    first.auto_admission = true;
    let mut second = test_pool("second", 1);
    second.auto_admission = true;
    db.insert_fork_pool_if_not_exists(&first);
    db.insert_fork_pool_if_not_exists(&second);
    insert_ready_pool_slot(&mut db, "first", "first-slot");
    insert_ready_pool_slot(&mut db, "second", "second-slot");

    for order in [[0, 1], [1, 0]] {
        let mut db = reopen(&db);
        let pairs = [("first", "first-slot"), ("second", "second-slot")];
        let mut outcomes = Vec::new();
        for at in order {
            let (pool, slot) = pairs[at];
            outcomes.push(
                db.claim_fork_pool_slot(ForkPoolSlotClaim {
                    pool_name: pool,
                    lease_id: slot,
                    idempotency_key: slot,
                    assignment: &[],
                    payload_sha256: None,
                    require_private_workspace: false,
                    admission_limit: Some(ForkPoolAdmissionLimit { pool: 1, device: 1 }),
                    ttl_secs: 60,
                    now: 200,
                })
                .unwrap(),
            );
        }
        assert_eq!(
            outcomes
                .iter()
                .filter(|outcome| matches!(outcome, ClaimForkPoolSlot::Claimed(_)))
                .count(),
            1
        );
        assert_eq!(
            outcomes
                .iter()
                .filter(|outcome| matches!(outcome, ClaimForkPoolSlot::AtCapacity))
                .count(),
            1
        );
    }
}

#[test]
fn fork_lease_heartbeat_completion_and_expiry_retire_workers() {
    let mut db = SmolvmDb::new();
    db.insert_fork_pool_if_not_exists(&test_pool("rollouts", 2));
    insert_ready_pool_slot(&mut db, "rollouts", "slot-complete");
    insert_ready_pool_slot(&mut db, "rollouts", "slot-expire");

    for (machine, lease, request) in [
        ("slot-complete", "lease-complete", "req-complete"),
        ("slot-expire", "lease-expire", "req-expire"),
    ] {
        let claimed = db
            .claim_fork_pool_slot(ForkPoolSlotClaim {
                pool_name: "rollouts",
                lease_id: lease,
                idempotency_key: request,
                assignment: &[],
                payload_sha256: None,
                require_private_workspace: false,
                admission_limit: None,
                ttl_secs: 10,
                now: 200,
            })
            .unwrap();
        assert!(
            matches!(claimed, ClaimForkPoolSlot::Claimed(ref l) if l.machine_name == machine)
        );
        let active = db.mark_fork_lease_active(lease, 201).unwrap();
        assert_eq!(active.state, ForkLeaseState::Active);
    }

    let heartbeat = db
        .heartbeat_fork_lease("rollouts", "lease-complete", 205)
        .unwrap();
    assert_eq!(heartbeat.expires_at, 215);
    let completed = db
        .complete_fork_lease("rollouts", "lease-complete", 206)
        .unwrap();
    assert_eq!(completed.state, ForkLeaseState::Completed);

    let expired = db.expire_fork_leases(211);
    assert_eq!(expired.len(), 1);
    assert_eq!(expired[0].id, "lease-expire");
    assert_eq!(expired[0].state, ForkLeaseState::Expired);
    let retiring = db.list_retiring_fork_pool_slots();
    assert_eq!(retiring.len(), 2);
}

#[test]
fn fork_lease_ttl_starts_after_activation_completes() {
    let mut db = SmolvmDb::new();
    db.insert_fork_pool_if_not_exists(&test_pool("rollouts", 1));
    insert_ready_pool_slot(&mut db, "rollouts", "slot-delayed");
    let claimed = db
        .claim_fork_pool_slot(ForkPoolSlotClaim {
            pool_name: "rollouts",
            lease_id: "lease-delayed",
            idempotency_key: "req-delayed",
            assignment: &[],
            payload_sha256: None,
            require_private_workspace: false,
            admission_limit: None,
            ttl_secs: 30,
            now: 200,
        })
        .unwrap();
    let ClaimForkPoolSlot::Claimed(claimed) = claimed else {
        panic!("expected claimed lease");
    };
    assert_eq!(claimed.expires_at, 500);

    let active = db
        .mark_fork_lease_active("lease-delayed", 231)
        .unwrap();
    assert_eq!(active.expires_at, 261);
    assert!(db.expire_fork_leases(260).is_empty());
    assert_eq!(db.expire_fork_leases(261).len(), 1);
}

#[test]
fn fork_pool_state_survives_database_reopen() {
    let mut db = SmolvmDb::new();
    db.insert_fork_pool_if_not_exists(&test_pool("durable", 1));
    insert_ready_pool_slot(&mut db, "durable", "slot-durable");

    let reopened = reopen(&db);
    let pool = reopened.get_fork_pool("durable").unwrap();
    assert_eq!(pool.desired_ready, 1);
    let slots = reopened.list_fork_pool_slots("durable");
    assert_eq!(slots[0].state, ForkPoolSlotState::Ready);
}

#[test]
fn fork_pool_delete_refuses_active_lease_without_force() {
    let mut db = SmolvmDb::new();
    db.insert_fork_pool_if_not_exists(&test_pool("rollouts", 1));
    insert_ready_pool_slot(&mut db, "rollouts", "slot-1");
    db.claim_fork_pool_slot(ForkPoolSlotClaim {
        pool_name: "rollouts",
        lease_id: "lease-1",
        idempotency_key: "request-1",
        assignment: &[],
        payload_sha256: None,
        require_private_workspace: false,
        admission_limit: None,
        ttl_secs: 60,
        now: 200,
    })
    .unwrap();
    db.mark_fork_lease_active("lease-1", 201);

    assert_eq!(
        db.begin_delete_fork_pool("rollouts", false, 202),
        Some(false)
    );
    assert_eq!(
        db.begin_delete_fork_pool("rollouts", true, 203),
        Some(true)
    );
    let lease = db.get_fork_lease("rollouts", "lease-1").unwrap();
    assert_eq!(lease.state, ForkLeaseState::Cancelled);
    assert_eq!(
        db.list_fork_pool_slots("rollouts")[0].state,
        ForkPoolSlotState::Retiring
    );
}

#[test]
fn dead_active_worker_failure_is_terminal_and_retired() {
    let mut db = SmolvmDb::new();
    db.insert_fork_pool_if_not_exists(&test_pool("rollouts", 1));
    insert_ready_pool_slot(&mut db, "rollouts", "slot-1");
    db.claim_fork_pool_slot(ForkPoolSlotClaim {
        pool_name: "rollouts",
        lease_id: "lease-1",
        idempotency_key: "request-1",
        assignment: &[],
        payload_sha256: None,
        require_private_workspace: false,
        admission_limit: None,
        ttl_secs: 60,
        now: 200,
    })
    .unwrap();
    db.mark_fork_lease_active("lease-1", 201);

    let failed = db
        .fail_active_fork_lease("lease-1", 202, "worker exited".into())
        .unwrap();
    assert_eq!(failed.state, ForkLeaseState::Failed);
    assert_eq!(failed.last_error.as_deref(), Some("worker exited"));
    assert!(db.list_active_fork_leases().is_empty());
    assert_eq!(
        db.get_fork_pool_slot("slot-1").unwrap().state,
        ForkPoolSlotState::Retiring
    );
}

#[test]
fn lease_identifier_cannot_be_used_twice() {
    let mut db = SmolvmDb::new();
    db.insert_fork_pool_if_not_exists(&test_pool("rollouts", 2));
    insert_ready_pool_slot(&mut db, "rollouts", "slot-1");
    insert_ready_pool_slot(&mut db, "rollouts", "slot-2");
    assert!(matches!(
        db.claim_fork_pool_slot(claim_of("rollouts", "lease", "a", 200)),
        Ok(ClaimForkPoolSlot::Claimed(_))
    ));
    assert_eq!(
        db.claim_fork_pool_slot(claim_of("rollouts", "lease", "b", 200)),
        Err(DbError::DuplicateLease)
    );
}

#[test]
fn claim_on_an_unknown_or_deleting_pool_is_refused() {
    let mut db = SmolvmDb::new();
    assert_eq!(
        db.claim_fork_pool_slot(claim_of("rollouts", "lease", "a", 200)),
        Ok(ClaimForkPoolSlot::PoolNotFound)
    );
    db.insert_fork_pool_if_not_exists(&test_pool("rollouts", 1));
    insert_ready_pool_slot(&mut db, "rollouts", "slot-1");
    assert_eq!(db.begin_delete_fork_pool("rollouts", false, 201), Some(true));
    assert_eq!(
        db.claim_fork_pool_slot(claim_of("rollouts", "lease", "a", 202)),
        Ok(ClaimForkPoolSlot::PoolDeleting)
    );
    assert!(db.finalize_deleted_fork_pools().is_empty());
    assert!(db.remove_fork_pool_slot("slot-1"));
    assert_eq!(db.finalize_deleted_fork_pools(), vec!["rollouts".to_string()]);
    assert!(db.get_fork_pool("rollouts").is_none());
}

#[test]
fn claim_takes_the_first_ready_worker_by_name() {
    let mut db = SmolvmDb::new();
    db.insert_fork_pool_if_not_exists(&test_pool("rollouts", 2));
    insert_ready_pool_slot(&mut db, "rollouts", "slot-b");
    insert_ready_pool_slot(&mut db, "rollouts", "slot-a");
    let first = db
        .claim_fork_pool_slot(claim_of("rollouts", "lease", "a", 200))
        .unwrap();
    assert!(
        matches!(first, ClaimForkPoolSlot::Claimed(ref l) if l.machine_name == "slot-a"),
        "{first:?}"
    );
}

#[test]
fn reservation_of_a_dead_creator_is_dropped() {
    let mut db = SmolvmDb::new();
    assert!(db.reserve_vm_create("name", "first", 7, true, 1000));
    assert_eq!(db.reservation_owner("name"), Some(7));
    assert!(!db.reserve_vm_create("name", "second", 8, true, 1001));
    assert!(db.reserve_vm_create("name", "second", 8, false, 1001));
    assert_eq!(db.reservation_owner("name"), Some(8));
    // A live creator that takes too long loses the name, too.
    assert!(!db.reserve_vm_create("name", "third", 9, true, 1001 + 3599));
    assert!(db.reserve_vm_create("name", "third", 9, true, 1001 + 3600));
}

#[test]
fn token_names_its_process_and_time() {
    assert_eq!(
        SmolvmDb::create_reservation_token(42, 1000, 1_000_000_001),
        "42-1000-1000000001"
    );
}

#[test]
fn lease_with_a_taken_retry_key_is_not_put_back() {
    let mut db = SmolvmDb::new();
    db.insert_fork_pool_if_not_exists(&test_pool("rollouts", 1));
    insert_ready_pool_slot(&mut db, "rollouts", "slot-1");
    let ClaimForkPoolSlot::Claimed(lease) = db
        .claim_fork_pool_slot(claim_of("rollouts", "lease", "a", 200))
        .unwrap()
    else {
        panic!("expected a lease");
    };
    let mut other = lease.clone();
    other.id = "other".to_string();
    assert!(!db.restore_lease(other.clone()));
    other.idempotency_key = "b".to_string();
    assert!(db.restore_lease(other));
    assert!(db.restore_lease(lease));
    assert_eq!(db.list_all_leases().len(), 2);
}

#[test]
fn clones_of_a_golden_are_found() {
    let mut db = SmolvmDb::new();
    let mut clone = VmRecord::new("clone".into(), 1, 256, vec![], vec![], false);
    clone.golden = Some("golden".into());
    db.insert_vm("clone", &clone);
    db.insert_vm(
        "golden",
        &VmRecord::new("golden".into(), 1, 256, vec![], vec![], false),
    );
    assert_eq!(db.dependent_clones("golden"), vec!["clone".to_string()]);
    assert!(db.dependent_clones("clone").is_empty());
}

#[test]
fn settings_are_saved_and_listed_together() {
    let mut db = SmolvmDb::new();
    db.save_config(&[("b", "2"), ("a", "1"), ("b", "3")]);
    let mut listed = db.list_config();
    listed.sort();
    assert_eq!(
        listed,
        vec![
            ("a".to_string(), "1".to_string()),
            ("b".to_string(), "3".to_string()),
        ]
    );
    let (config, vms) = db.load_all();
    assert_eq!(config.len(), 2);
    assert!(vms.is_empty());
}

#[test]
fn admission_counts_live_and_completed_leases() {
    let mut db = SmolvmDb::new();
    let mut pool = test_pool("rollouts", 2);
    pool.auto_admission = true;
    db.insert_fork_pool_if_not_exists(&pool);
    insert_ready_pool_slot(&mut db, "rollouts", "slot-1");
    insert_ready_pool_slot(&mut db, "rollouts", "slot-2");
    assert_eq!(db.fork_pool_admission_counts("rollouts"), Ok((0, 0)));
    db.claim_fork_pool_slot(claim_of("rollouts", "lease", "a", 200))
        .unwrap();
    assert_eq!(db.fork_pool_admission_counts("rollouts"), Ok((1, 0)));
    db.mark_fork_lease_active("lease", 201).unwrap();
    assert_eq!(db.fork_pool_admission_counts("rollouts"), Ok((1, 0)));
    db.complete_fork_lease("rollouts", "lease", 202).unwrap();
    assert_eq!(db.fork_pool_admission_counts("rollouts"), Ok((0, 1)));
}

#[test]
fn failed_activation_retires_the_worker() {
    let mut db = SmolvmDb::new();
    db.insert_fork_pool_if_not_exists(&test_pool("rollouts", 1));
    insert_ready_pool_slot(&mut db, "rollouts", "slot-1");
    db.claim_fork_pool_slot(claim_of("rollouts", "lease", "a", 200))
        .unwrap();
    assert_eq!(
        db.get_fork_lease_by_id("lease").unwrap().state,
        ForkLeaseState::Activating
    );
    // Only an active lease fails as an active one.
    let unchanged = db
        .fail_active_fork_lease("lease", 201, "early".into())
        .unwrap();
    assert_eq!(unchanged.state, ForkLeaseState::Activating);
    let failed = db.fail_fork_lease("lease", 202, "late".into()).unwrap();
    assert_eq!(failed.state, ForkLeaseState::Failed);
    assert_eq!(
        db.get_fork_pool_slot("slot-1").unwrap().state,
        ForkPoolSlotState::Retiring
    );
    assert!(db.get_fork_lease_by_id("other").is_none());
}

#[test]
fn worker_can_be_retired_with_a_reason() {
    let mut db = SmolvmDb::new();
    db.insert_fork_pool_if_not_exists(&test_pool("rollouts", 1));
    insert_ready_pool_slot(&mut db, "rollouts", "slot-1");
    assert!(db.mark_fork_pool_slot_retiring("slot-1", 300, Some("broken".into())));
    let slot = db.get_fork_pool_slot("slot-1").unwrap();
    assert_eq!(slot.state, ForkPoolSlotState::Retiring);
    assert_eq!(slot.last_error.as_deref(), Some("broken"));
    assert!(!db.mark_fork_pool_slot_retiring("other", 300, None));
    assert_eq!(db.load_all_vms().len(), 1);
}

#[test]
fn ended_lease_stays_as_it_is() {
    let mut db = SmolvmDb::new();
    db.insert_fork_pool_if_not_exists(&test_pool("rollouts", 1));
    insert_ready_pool_slot(&mut db, "rollouts", "slot-1");
    db.claim_fork_pool_slot(claim_of("rollouts", "lease", "a", 200))
        .unwrap();
    db.mark_fork_lease_active("lease", 201).unwrap();
    let done = db.complete_fork_lease("rollouts", "lease", 202).unwrap();
    assert_eq!(
        db.heartbeat_fork_lease("rollouts", "lease", 203).unwrap(),
        done
    );
    assert_eq!(db.mark_fork_lease_active("lease", 204).unwrap(), done);
    assert!(db.expire_fork_leases(10_000).is_empty());
    assert_eq!(db.get_fork_lease("rollouts", "lease").unwrap(), done);
    // The retry key of a lease that ended still gives that lease.
    assert_eq!(
        db.claim_fork_pool_slot(claim_of("rollouts", "other", "a", 205)),
        Ok(ClaimForkPoolSlot::Existing(done))
    );
}

#[test]
fn leases_expire_once() {
    let mut db = SmolvmDb::new();
    db.insert_fork_pool_if_not_exists(&test_pool("rollouts", 1));
    insert_ready_pool_slot(&mut db, "rollouts", "slot-1");
    db.claim_fork_pool_slot(claim_of("rollouts", "lease", "a", 200))
        .unwrap();
    db.mark_fork_lease_active("lease", 201).unwrap();
    assert_eq!(db.expire_fork_leases(261).len(), 1);
    assert!(db.expire_fork_leases(261).is_empty());
}
