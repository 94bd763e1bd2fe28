use smolvm::machine::bake::{
    bake_command, bake_create_args, bake_failure, dotted_text, layer_notice, layer_step, Bake,
    BakeStep, LayerStep,
};
use smolvm::machine::commands::{
    overlay_id, CpCmd, DataDirCmd, DeleteCmd, ForkLaunch, ForkReleaseCmd, MachineCmd, NetworkTestCmd,
    ResizeCmd, StartCmd, StatusCmd, StatusForm, StopCmd, StopTarget,
};
use smolvm::machine::create::{finish_create, CreateCmd, PackCreate, PackCreateStep, PackManifest};
use smolvm::machine::errors::{config_error, ConfigError};
use smolvm::machine::exec::{
    ExecCmd, ExecEvent, ExecEventPrinter, ExecMode, ExecOutput, ShellCmd,
};
use smolvm::machine::flags::{
    is_likely_image_ref, parse_cli_secret_refs, parse_duration, parse_port_mapping,
    parse_published_sockets, resolve_egress_flags, SocketDirection,
};
use smolvm::machine::fork::{
    fork_batch_id, forkpoint_timeout, render_indexed_fork_env, ForkBatchIdentity, ForkCmd,
};
use smolvm::machine::layers::{
    bake_gc_secs, bake_machine_name, gc_stale_bake_machines, image_bakeable, init_cache_max_bytes,
    init_layer_cache_dir, init_layer_key, is_layer_file, layer_file_name, CachePrune, ImageSource, LayerEntry,
};
use smolvm::machine::listing::{
    collection, image_label, image_row, prune_opening, prune_report, CachedImage, ImagesCmd, PruneAccess,
    PruneCmd, PrunePlan,
};
use smolvm::machine::monitor::{
    note_death, CheckOutcome, MonitorAction, MonitorCmd, MonitorState,
};
use smolvm::machine::params::{
    duplicate_port, merge_flags, parse_env_list, resources, CreateVmParams, Site,
};
use smolvm::machine::run::{
    bare_record, check_run, cleanup_args, detached_notice, exec_failure, extra_disks, image_record,
    is_idle, name_taken, name_warning, pack_image_run, pull_failure, run_command, run_env, run_mode, run_pull,
    run_platform, run_resources, ssh_agent_socket, uses_cached_layer, ContainerDefaults,
    ImageCommand, RunCmd, RunMode, RunTarget,
};
use smolvm::machine::run_prep::{PrepOutcome, PrepStep, RunPrep};
use smolvm::machine::run_steps::{RunProgress, RunStep};
use smolvm::machine::update::{
    removal_source, update_notice, UpdateCmd, UpdateError, VolumeRemoval,
};
use smolvm::records::{RecordState, RestartPolicy, VmRecord};
use smolvm::split::split_lines;
use smolvm::table::Table;

const MAX_SOCKETS: usize = 8;

fn texts(v: &[&str]) -> Vec<String> {
    v.iter().map(|s| s.to_string()).collect()
}

fn site() -> Site {
    Site {
        default_cpus: 4,
        default_mem: 8192,
        idle_cmd: texts(&["sleep", "infinity"]),
        shell_cmd: "/bin/sh".to_string(),
        graph_env: texts(&["GRAPH=1"]),
    }
}

fn params() -> CreateVmParams {
    CreateVmParams {
        name: "vm".to_string(),
        image: None,
        entrypoint: vec![],
        cmd: vec![],
        cpus: 4,
        mem: 8192,
        volume: vec![],
        port: vec![],
        net: false,
        network_backend: None,
        dns: None,
        init: vec![],
        env: vec![],
        workdir: None,
        storage_gb: None,
        overlay_gb: None,
        allowed_cidrs: None,
        restart_policy: None,
        restart_max_retries: None,
        restart_max_backoff_secs: None,
        health_cmd: None,
        health_interval_secs: None,
        health_timeout_secs: None,
        health_retries: None,
        health_startup_grace_secs: None,
        ssh_agent: false,
        cuda: false,
        docker_socket: false,
        dns_filter_hosts: None,
        published_sockets: vec![],
        gpu: false,
        gpu_vram_mib: None,
        rosetta: false,
        secret_refs: Table::new(),
        source_smolmachine: None,
    }
}

fn run_cmd() -> RunCmd {
    RunCmd {
        image: None,
        max_image_size: None,
        from: None,
        name: None,
        command: vec![],
        detach: false,
        interactive: false,
        tty: false,
        timeout: None,
        workdir: None,
        env: vec![],
        oci_platform: None,
        volume: vec![],
        port: vec![],
        net: false,
        net_backend: None,
        dns: None,
        allow_cidr: vec![],
        allow_host: vec![],
        outbound_localhost_only: false,
        gpu: false,
        gpu_vram_mib: None,
        rosetta: false,
        cpus: 4,
        mem: 8192,
        storage: None,
        overlay: None,
        smolfile: None,
        ssh_agent: false,
        cuda: false,
        auto_graph: false,
        docker_socket: false,
        docker_config: false,
        secret_env: vec![],
        secret_file: vec![],
        no_init_cache: false,
        rebuild_init_cache: false,
        oci_cache: false,
        unprivileged: false,
        proxy: None,
        no_proxy: None,
    }
}

fn create_cmd() -> CreateCmd {
    CreateCmd {
        name: None,
        image: None,
        max_image_size: None,
        cpus: 4,
        mem: 8192,
        storage: None,
        overlay: None,
        volume: vec![],
        port: vec![],
        net: false,
        net_backend: None,
        dns: None,
        allow_cidr: vec![],
        allow_host: vec![],
        outbound_localhost_only: false,
        gpu: false,
        gpu_vram_mib: None,
        rosetta: false,
        expose_socket: vec![],
        mount_socket: vec![],
        init: vec![],
        env: vec![],
        workdir: None,
        ssh_agent: false,
        cuda: false,
        auto_graph: false,
        docker_socket: false,
        secret_env: vec![],
        secret_file: vec![],
        smolfile: None,
        from: None,
        command: vec![],
    }
}

fn fork_cmd() -> ForkCmd {
    ForkCmd {
        golden: "base".to_string(),
        clone: None,
        count: 1,
        name_prefix: None,
        parallel: 4,
        wait_ready: false,
        hold: false,
        ready_timeout: 600_000,
        forkable: false,
        port: vec![],
        share_weights: false,
        env: vec![],
        secret_env: vec![],
        secret_file: vec![],
    }
}

fn update_cmd() -> UpdateCmd {
    UpdateCmd {
        name: "vm".to_string(),
        volume: vec![],
        remove_volume: vec![],
        port: vec![],
        remove_port: vec![],
        cpus: None,
        mem: None,
        net: false,
        no_net: false,
        env: vec![],
        remove_env: vec![],
        workdir: None,
        gpu: false,
        no_gpu: false,
        rosetta: false,
        no_rosetta: false,
        storage: None,
        overlay: None,
    }
}

fn record() -> VmRecord {
    VmRecord::new(
        "vm".to_string(),
        2,
        1024,
        vec![("/src".to_string(), "/app".to_string(), false)],
        vec![(8080, 80)],
        false,
    )
}

// Images and flags.

#[test]
fn is_likely_image_ref_classifies_correctly() {
    // Unambiguous image references
    assert!(is_likely_image_ref("ubuntu:22.04"));
    assert!(is_likely_image_ref("ghcr.io/org/image"));
    assert!(is_likely_image_ref("library/alpine"));

    // Bare names are not flagged
    assert!(!is_likely_image_ref("alpine"));
    assert!(!is_likely_image_ref("bash"));

    // Absolute and relative paths are always commands
    assert!(!is_likely_image_ref("/bin/sh"));
    assert!(!is_likely_image_ref("./script.sh"));
}

#[test]
fn parse_published_sockets_both_directions() {
    let out = parse_published_sockets(
        &[
            "/var/run/app.sock".to_string(),
            "/run/svc.sock:/tmp/pinned.sock".to_string(),
        ],
        &["/run/host.sock:/run/guest.sock".to_string()],
        MAX_SOCKETS,
    )
    .unwrap();
    assert_eq!(out.len(), 3);
    assert_eq!(out[0].direction, SocketDirection::Expose);
    assert_eq!(out[0].guest_path, "/var/run/app.sock");
    assert_eq!(out[0].host_path, None);
    assert_eq!(out[1].host_path.as_deref(), Some("/tmp/pinned.sock"));
    assert_eq!(out[2].direction, SocketDirection::Mount);
    assert_eq!(out[2].guest_path, "/run/guest.sock");
    assert_eq!(out[2].host_path.as_deref(), Some("/run/host.sock"));
}

#[test]
fn parse_published_sockets_rejects_bad_specs() {
    assert!(parse_published_sockets(&[], &["/only-host".to_string()], MAX_SOCKETS).is_err());
    assert!(parse_published_sockets(&[":/tmp/h.sock".to_string()], &[], MAX_SOCKETS).is_err());
    assert!(parse_published_sockets(&["/run/a;b.sock".to_string()], &[], MAX_SOCKETS).is_err());
}

#[test]
fn published_sockets_errors_name_what_is_wrong() {
    let e = parse_published_sockets(&texts(&["/a", "/b"]), &[], 1).unwrap_err();
    assert_eq!(e.what, "publish-socket");
    assert_eq!(e.reason, "too many published sockets (2); max is 1");
    let e = parse_published_sockets(&[], &texts(&[":/g"]), 1).unwrap_err();
    assert_eq!(e.what, "mount-socket");
    assert_eq!(
        e.reason,
        "both HOST_PATH and GUEST_PATH are required in ':/g'"
    );
    let e = parse_published_sockets(&texts(&[""]), &[], 1).unwrap_err();
    assert_eq!(e.reason, "empty guest path in ''");
    let e = parse_published_sockets(&texts(&["/a|b"]), &[], 1).unwrap_err();
    assert_eq!(
        e.reason,
        "guest path '/a|b' contains an unsupported character (';' or '|')"
    );
    let ok = parse_published_sockets(&texts(&["/a:"]), &[], 1).unwrap();
    assert_eq!(ok[0].host_path, None);
}

#[test]
fn parse_cli_secret_refs_builds_env_and_file_refs() {
    let refs = parse_cli_secret_refs(
        &["GUEST_TOKEN=HOST_TOKEN".to_string()],
        &["GUEST_KEY=/abs/key".to_string()],
    )
    .unwrap();
    assert_eq!(
        refs.get("GUEST_TOKEN").unwrap().from_env.as_deref(),
        Some("HOST_TOKEN")
    );
    assert_eq!(
        refs.get("GUEST_KEY").unwrap().from_file.as_deref(),
        Some("/abs/key")
    );
}

#[test]
fn parse_cli_secret_refs_rejects_bad_specs() {
    // Missing '='.
    assert!(parse_cli_secret_refs(&["NO_EQUALS".to_string()], &[]).is_err());
    // Empty key.
    assert!(parse_cli_secret_refs(&["=HOST".to_string()], &[]).is_err());
    // Relative from_file path.
    assert!(parse_cli_secret_refs(&[], &["K=relative/path".to_string()]).is_err());
    // Duplicate key across the two flags.
    assert!(
        parse_cli_secret_refs(&["DUP=HOST".to_string()], &["DUP=/abs/path".to_string()]).is_err()
    );
}

#[test]
fn egress_flags_add_up_and_fail_hard() {
    let ok = resolve_egress_flags(
        texts(&["10.0.0.0/8"]),
        texts(&["example.org"]),
        &[Ok(texts(&["1.2.3.4/32"]))],
        true,
        false,
    )
    .unwrap();
    assert_eq!(
        ok.cidrs,
        texts(&["10.0.0.0/8", "1.2.3.4/32", "127.0.0.0/8", "::1/128"])
    );
    assert!(ok.net);
    assert_eq!(ok.hosts, Some(texts(&["example.org"])));

    let none = resolve_egress_flags(vec![], vec![], &[], false, false).unwrap();
    assert!(none.cidrs.is_empty());
    assert!(!none.net);
    assert_eq!(none.hosts, None);

    let e = resolve_egress_flags(
        vec![],
        texts(&["a", "b"]),
        &[Ok(texts(&["1.1.1.1/32"])), Err("no such host".to_string())],
        false,
        false,
    )
    .unwrap_err();
    assert_eq!(e, config_error("--allow-host", "no such host".to_string()));
}

// Cached layers.

#[test]
fn init_layer_key_pins_the_resolved_digest() {
    let init: Vec<String> = vec![];
    let env: Vec<String> = vec![];
    let untagged = init_layer_key(Some("alpine:latest"), &init, &env, None);
    let first = init_layer_key(Some("alpine:latest"), &init, &env, Some("sha256:aaa"));
    let moved = init_layer_key(Some("alpine:latest"), &init, &env, Some("sha256:bbb"));

    assert_ne!(
        first, moved,
        "the same tag at a NEW digest must be a new cache entry"
    );
    assert_eq!(
        first,
        init_layer_key(Some("alpine:latest"), &init, &env, Some("sha256:aaa")),
        "the same tag at the same digest still hits"
    );
    assert_ne!(
        untagged, first,
        "supplying a digest changes the key (no collision with the un-pinned path)"
    );
}

#[test]
fn init_layer_key_is_stable_and_input_sensitive() {
    let init = vec!["apt-get install -y jq".to_string()];
    let env = vec!["FOO=bar".to_string()];
    let base = init_layer_key(Some("ubuntu:noble"), &init, &env, None);
    // Deterministic for identical inputs.
    assert_eq!(
        base,
        init_layer_key(Some("ubuntu:noble"), &init, &env, None)
    );
    assert_eq!(base.len(), 16);
    // Sensitive to each input: image, init, env.
    assert_ne!(
        base,
        init_layer_key(Some("ubuntu:jammy"), &init, &env, None)
    );
    assert_ne!(
        base,
        init_layer_key(Some("ubuntu:noble"), &["other".to_string()], &env, None)
    );
    assert_ne!(
        base,
        init_layer_key(Some("ubuntu:noble"), &init, &["FOO=baz".to_string()], None)
    );
    // Order of init steps matters (different layer).
    let init_rev = vec!["b".to_string(), "a".to_string()];
    let init_fwd = vec!["a".to_string(), "b".to_string()];
    assert_ne!(
        init_layer_key(Some("x"), &init_fwd, &[], None),
        init_layer_key(Some("x"), &init_rev, &[], None)
    );
}

#[test]
fn init_layer_key_is_a_sha256_in_hex() {
    // The SHA-256 digest of four zero bytes.
    assert_eq!(init_layer_key(None, &[], &[], None), "df3f619804a92fdb");
    let texts = |v: &[&str]| v.iter().map(|s| s.to_string()).collect::<Vec<_>>();
    assert_eq!(
        init_layer_key(Some("a"), &texts(&["b"]), &texts(&["C=d"]), Some("e")),
        "e1c4037c2208224e"
    );
}

#[test]
fn layer_key_tells_all_inputs_apart() {
    let texts = |v: &[&str]| v.iter().map(|s| s.to_string()).collect::<Vec<_>>();
    let keys = [
        init_layer_key(None, &[], &[], None),
        init_layer_key(Some(""), &[], &[], None),
        init_layer_key(None, &[], &[], Some("")),
        init_layer_key(None, &texts(&[""]), &[], None),
        init_layer_key(None, &[], &texts(&[""]), None),
        init_layer_key(None, &texts(&["a", "", "b"]), &[], None),
        init_layer_key(None, &texts(&["a"]), &texts(&["b", ""]), None),
        init_layer_key(None, &texts(&["a\0b"]), &[], None),
        init_layer_key(None, &texts(&["a", "b"]), &[], None),
    ];
    for (i, a) in keys.iter().enumerate() {
        assert!(a.len() == 16 && a.bytes().all(|c| matches!(c, b'0'..=b'9' | b'a'..=b'f')));
        assert!(keys[..i].iter().all(|b| a != b));
    }
}

#[test]
fn prune_evicts_oldest_and_a_touch_saves_a_hot_entry() {
    let entry = |path: &str, modified: u64| LayerEntry {
        path: path.to_string(),
        modified,
        size: 4096,
    };
    // `cold` is the oldest until it is touched, which makes it the newest.
    let layers = [
        entry("cold.smolmachine", 1_000),
        entry("mid.smolmachine", 100),
        entry("hot.smolmachine", 200),
    ];
    let mut left: Vec<&str> = layers.iter().map(|l| l.path.as_str()).collect();
    let mut prune = CachePrune::start(&layers, 8192, "hot.smolmachine");
    while let Some(path) = prune.next() {
        left.retain(|p| *p != path);
        prune.settle(true);
    }
    assert!(
        left.contains(&"hot.smolmachine"),
        "the just-baked entry is always kept"
    );
    assert!(
        left.contains(&"cold.smolmachine"),
        "a touched (recently-used) entry survives"
    );
    assert!(
        !left.contains(&"mid.smolmachine"),
        "the least-recently-used entry is evicted"
    );
}

#[test]
fn prune_goes_on_past_what_cannot_be_removed_and_spares_the_kept() {
    let entry = |path: &str, modified: u64| LayerEntry {
        path: path.to_string(),
        modified,
        size: 10,
    };
    let layers = [entry("keep", 1), entry("b", 2), entry("c", 3), entry("d", 3)];
    let mut prune = CachePrune::start(&layers, 20, "keep");
    assert_eq!(prune.next().as_deref(), Some("b"));
    prune.settle(false);
    assert_eq!(prune.next().as_deref(), Some("c"));
    prune.settle(true);
    assert_eq!(prune.next().as_deref(), Some("d"));
    prune.settle(true);
    assert_eq!(prune.next(), None);
    let mut within = CachePrune::start(&layers, 40, "keep");
    assert_eq!(within.next(), None);
}

#[test]
fn cache_settings_and_names() {
    assert_eq!(init_cache_max_bytes(None), 10 * 1024 * 1024 * 1024);
    assert_eq!(init_cache_max_bytes(Some(" 7 ")), 7);
    assert_eq!(init_cache_max_bytes(Some("0")), 10 * 1024 * 1024 * 1024);
    assert_eq!(bake_gc_secs(None), 1800);
    assert_eq!(bake_gc_secs(Some("0")), 0);
    assert_eq!(
        init_layer_cache_dir("/home/u/.cache/smolvm/vms"),
        "/home/u/.cache/smolvm/init-layers"
    );
    assert_eq!(init_layer_cache_dir("/"), "/tmp/smolvm-init-layers");
    assert_eq!(layer_file_name("abc"), "abc.smolmachine");
    assert!(is_layer_file("abc.smolmachine"));
    assert!(!is_layer_file(".smolmachine"));
    assert!(!is_layer_file("abc.tar"));
    assert_eq!(bake_machine_name("abc", 42), "init-bake-abc-42");
    assert!(image_bakeable(Some(ImageSource::Registry)));
    assert!(!image_bakeable(Some(ImageSource::Archive)));
    assert!(!image_bakeable(None));
    let vms = vec![
        ("init-bake-a".to_string(), 0),
        ("init-bake-b".to_string(), 900),
        ("other".to_string(), 0),
    ];
    assert_eq!(
        gc_stale_bake_machines(&vms, 1800, 1800),
        texts(&["init-bake-a"])
    );
}

#[test]
fn bake_publishes_only_a_whole_layer() {
    let mut bake = Bake::start();
    let mut steps = vec![bake.step];
    while let Some(next) = bake.advance(true) {
        bake = next;
        steps.push(bake.step);
    }
    assert_eq!(
        steps,
        vec![
            BakeStep::Create,
            BakeStep::Start,
            BakeStep::Stop,
            BakeStep::Pack,
            BakeStep::Check,
            BakeStep::Delete,
            BakeStep::Publish,
        ]
    );
    let failed = Bake::start().advance(true).unwrap().advance(false).unwrap();
    assert_eq!(failed.step, BakeStep::Delete);
    assert_eq!(failed.advance(true).unwrap().step, BakeStep::Abandon);
}

#[test]
fn bake_commands_carry_the_resolved_settings() {
    let mut p = params();
    p.image = Some("alpine".to_string());
    p.env = texts(&["A=1", "B=2"]);
    p.net = true;
    p.dns = Some(0x0808_0404);
    p.allowed_cidrs = Some(texts(&["10.0.0.0/8"]));
    p.dns_filter_hosts = Some(texts(&["example.org"]));
    let create = bake_create_args("tmp", Some("Smolfile"), &p);
    assert_eq!(
        create,
        texts(&[
            "machine", "create", "--name", "tmp", "--smolfile", "Smolfile", "--image", "alpine",
            "-e", "A=1", "-e", "B=2", "--net", "--dns", "8.8.4.4", "--allow-cidr", "10.0.0.0/8",
            "--allow-host", "example.org", "--", "/bin/true",
        ])
    );
    assert_eq!(
        bake_command(BakeStep::Pack, &create, "tmp", "/out"),
        texts(&["pack", "create", "--from-vm", "tmp", "-o", "/out"])
    );
    assert_eq!(dotted_text(0x7f00_0001), "127.0.0.1");
    assert_eq!(layer_step(true, false, 0, false), Ok(LayerStep::UseCached));
    assert_eq!(layer_step(true, true, 1, true), Ok(LayerStep::Bake));
    assert!(layer_step(false, false, 1, false).is_err());
    assert_eq!(
        layer_notice(LayerStep::Bake, "abc", 2),
        "Baking init layer (one-time; reused on later runs) [abc, 2 init step(s)]"
    );
    assert_eq!(
        layer_notice(LayerStep::UseCached, "abc", 0),
        "Using cached image abc (host cache hit; no pull)"
    );
}

#[test]
fn bake_failure_shows_the_last_lines() {
    let mut stderr = String::new();
    for i in 0..20 {
        stderr.push_str(&format!("line {i}\n\n"));
    }
    let e = bake_failure(&texts(&["machine", "start"]), "exit status: 1", &stderr);
    assert_eq!(e.what, "init-layer bake");
    let mut want = "`smolvm machine start` failed (exit status: 1):".to_string();
    for i in 8..20 {
        want.push_str(&format!("\nline {i}"));
    }
    assert_eq!(e.reason, want);
    // A carriage return goes with the line feed behind it, and stays without one.
    let e = bake_failure(&texts(&["x"]), "1", "first\r\n\r\nlast\r");
    assert_eq!(e.reason, "`smolvm x` failed (1):\nfirst\nlast\r");
    let lines = |s: &str| -> Vec<String> {
        let chars: Vec<char> = s.chars().collect();
        split_lines(&chars).iter().map(|l| l.iter().collect()).collect()
    };
    for s in ["", "a", "a\r", "\r", "a\n", "a\r\n", "a\r\r\n", "\n\n", "a\nb\r", "\r\nb\n\r"] {
        assert_eq!(lines(s), s.lines().collect::<Vec<_>>());
    }
}

// Running.

#[test]
fn run_of_an_artifact_goes_past_the_machine() {
    let mut cmd = run_cmd();
    cmd.from = Some("/tmp/a.smolmachine".to_string());
    cmd.cpus = 2;
    cmd.auto_graph = true;
    cmd.env = texts(&["A=1"]);
    match cmd.run("generated", &site()) {
        RunTarget::Pack(p) => {
            assert_eq!(p.sidecar, "/tmp/a.smolmachine");
            assert_eq!(p.cpus, Some(2));
            assert_eq!(p.mem, None);
            assert_eq!(p.env, texts(&["A=1", "GRAPH=1"]));
        }
        other => panic!("unexpected target: {other:?}"),
    }
}

#[test]
fn run_names_only_detached_machines() {
    let mut cmd = run_cmd();
    cmd.name = Some("mine".to_string());
    assert!(matches!(
        cmd.run("generated", &site()),
        RunTarget::Machine { ref name, fresh: false } if name == "generated"
    ));
    cmd.detach = true;
    assert!(matches!(
        cmd.run("generated", &site()),
        RunTarget::Machine { ref name, fresh: true } if name == "mine"
    ));
    cmd.name = None;
    assert!(matches!(
        cmd.run("generated", &site()),
        RunTarget::Machine { ref name, fresh: false } if name == "default"
    ));
    assert!(name_taken("mine").reason.contains("machine start --name mine"));
}

#[test]
fn run_refuses_what_cannot_be_meant() {
    let e = check_run(&run_cmd(), &params()).unwrap_err();
    assert!(e.reason.starts_with("no command specified."));

    let mut cmd = run_cmd();
    cmd.image = Some("-".to_string());
    cmd.interactive = true;
    let e = check_run(&cmd, &params()).unwrap_err();
    assert!(e.reason.starts_with("`--image -` reads the image archive"));

    let mut cmd = run_cmd();
    cmd.command = texts(&["ubuntu:22.04", "--", "bash"]);
    let e = check_run(&cmd, &params()).unwrap_err();
    assert_eq!(
        e.reason,
        "'ubuntu:22.04' looks like a container image reference, not a command.\n\
         To run a container, use --image:\n  \
         smolvm machine run --image ubuntu:22.04 -- bash"
    );
    cmd.image = Some("alpine".to_string());
    assert_eq!(check_run(&cmd, &params()), Ok(()));
}

#[test]
fn run_uses_a_cached_layer_only_where_it_can() {
    let mut cmd = run_cmd();
    let mut p = params();
    p.init = texts(&["apt install"]);
    assert_eq!(
        uses_cached_layer(&cmd, &p, Some(ImageSource::Registry)),
        Ok(true)
    );
    assert_eq!(
        uses_cached_layer(&cmd, &p, Some(ImageSource::Archive)),
        Ok(false)
    );
    cmd.detach = true;
    assert_eq!(
        uses_cached_layer(&cmd, &p, Some(ImageSource::Registry)),
        Ok(false)
    );
    let mut cmd = run_cmd();
    cmd.oci_cache = true;
    assert!(uses_cached_layer(&cmd, &params(), Some(ImageSource::Registry)).is_err());
    cmd.command = texts(&["true"]);
    assert_eq!(
        uses_cached_layer(&cmd, &params(), Some(ImageSource::Registry)),
        Ok(true)
    );
}

#[test]
fn packed_image_cannot_be_detached() {
    let mut cmd = run_cmd();
    let mut p = params();
    p.entrypoint = texts(&["/entry"]);
    p.cmd = texts(&["arg"]);
    let run = pack_image_run(&cmd, &p, "img", "/side", &site()).unwrap();
    assert_eq!(run.command, texts(&["/entry", "arg"]));
    cmd.detach = true;
    assert!(pack_image_run(&cmd, &p, "img", "/side", &site()).is_err());
}

#[test]
fn run_command_prefers_flags_then_file_then_image() {
    let mut cmd = run_cmd();
    let mut p = params();
    let image = Some(ImageCommand {
        entrypoint: texts(&["/image"]),
        cmd: vec![],
    });
    assert_eq!(run_command(&cmd, &p, &None, &site()), texts(&["/bin/sh"]));
    assert_eq!(run_command(&cmd, &p, &image, &site()), texts(&["/image"]));
    p.cmd = texts(&["file"]);
    assert_eq!(run_command(&cmd, &p, &image, &site()), texts(&["file"]));
    cmd.command = texts(&["flag"]);
    assert_eq!(run_command(&cmd, &p, &image, &site()), texts(&["flag"]));
    let mut idle = run_cmd();
    idle.detach = true;
    let waiting = run_command(&idle, &params(), &None, &site());
    assert!(is_idle(&waiting, &site()));
    assert!(!is_idle(&texts(&["sleep", "1"]), &site()));
    assert_eq!(run_mode(&idle), RunMode::Detached);
    assert_eq!(run_mode(&run_cmd()), RunMode::Captured);
}

#[test]
fn run_settings_follow_the_flags() {
    let mut cmd = run_cmd();
    let mut p = params();
    cmd.gpu = true;
    p.gpu_vram_mib = Some(512);
    p.rosetta = true;
    let r = run_resources(&cmd, &p);
    assert!(r.gpu && r.rosetta && !r.cuda);
    assert_eq!(r.gpu_vram_mib, Some(512));
    assert!(!resources(&p).gpu);
    assert_eq!(run_platform(&cmd, &p).as_deref(), Some("linux/amd64"));
    cmd.oci_platform = Some("linux/arm64".to_string());
    assert_eq!(run_platform(&cmd, &p).as_deref(), Some("linux/arm64"));
    assert_eq!(ssh_agent_socket(false, None), Ok(None));
    assert_eq!(
        ssh_agent_socket(true, Some("/agent")),
        Ok(Some("/agent".to_string()))
    );
    assert_eq!(ssh_agent_socket(true, None).unwrap_err().what, "--ssh-agent");
    assert_eq!(
        extra_disks(Some("/a,,/b:ro,")),
        vec![("/a".to_string(), false), ("/b".to_string(), true)]
    );
    assert!(extra_disks(None).is_empty());
}

#[test]
fn failures_are_reported_with_hints() {
    assert_eq!(pull_failure(true, "denied", "img"), "denied");
    assert_eq!(
        pull_failure(false, "denied", "img"),
        "denied\n\nHint: networking is disabled. Add --net to enable image pulls:\n  \
         smolvm machine run --net --image img ..."
    );
    assert_eq!(
        exec_failure("spawn: No such file or directory", &texts(&["alpine"])),
        "spawn: No such file or directory\n\nNote: 'alpine' was not found in the VM. \
         If you meant to run a container image, use --image:\n  \
         smolvm machine run --image alpine -- <command>"
    );
    assert_eq!(exec_failure("os error 2", &texts(&["/bin/x"])), "os error 2");
    assert_eq!(exec_failure("other", &texts(&["x"])), "other");
}

#[test]
fn record_of_a_detached_machine_holds_no_secret_value() {
    let mut p = params();
    p.secret_refs = parse_cli_secret_refs(&texts(&["TOKEN=HOST_TOKEN"]), &[]).unwrap();
    p.env = texts(&["A=1"]);
    let secrets = vec![("TOKEN".to_string(), "plain".to_string())];
    let env = run_env(&p, &secrets);
    assert_eq!(env.len(), 2);
    let defaults = ContainerDefaults {
        env,
        workdir: Some("/w".to_string()),
        user: None,
    };
    let mut cmd = run_cmd();
    cmd.rosetta = true;
    let kept = image_record(&cmd, &p, &[], "img", &defaults, &texts(&["run"]));
    assert_eq!(kept.env, vec![("A".to_string(), "1".to_string())]);
    assert!(kept.secret_refs.contains("TOKEN"));
    assert!(kept.resources.rosetta);
    assert_eq!(kept.cmd, texts(&["run"]));
    let bare = bare_record(&cmd, &p, &[]);
    assert_eq!(bare.env, vec![("A".to_string(), "1".to_string())]);
    assert!(!bare.resources.rosetta);
    assert_eq!(bare.image, None);
}

#[test]
fn cleanup_needs_a_process_known_for_certain() {
    assert_eq!(
        cleanup_args("vm", 42, Some(7)),
        Some(texts(&["_cleanup-ephemeral", "vm", "42", "7"]))
    );
    assert_eq!(cleanup_args("vm", 42, None), None);
    assert_eq!(cleanup_args("vm", 0, Some(7)), None);
}

#[test]
fn detached_machine_is_announced() {
    assert_eq!(
        detached_notice("default", None),
        texts(&[
            "Machine running in background",
            "\nTo interact:",
            "  smolvm machine exec -- <command>",
            "\nTo stop:",
            "  smolvm machine stop",
        ])
    );
    assert_eq!(
        detached_notice("mine", Some(42))[0],
        "Machine 'mine' running (PID: 42)"
    );
    assert_eq!(
        detached_notice("mine", Some(42))[4],
        "  smolvm machine stop --name mine"
    );
}

#[test]
fn machine_is_started_after_every_check() {
    let mut run = RunPrep::start(true);
    let mut steps = vec![run.step];
    while run.step != PrepStep::Boot {
        run = run.with_image(true).advance(PrepOutcome::Done);
        steps.push(run.step);
    }
    assert_eq!(steps.len(), 13);
    assert_eq!(steps[0], PrepStep::Name);
    assert_eq!(steps[4], PrepStep::Probe);
    assert_eq!(steps[8], PrepStep::Check);
    let probing = RunPrep {
        step: PrepStep::Probe,
        has_image: true,
    };
    assert_eq!(
        probing.advance(PrepOutcome::Packed).step,
        PrepStep::RunPacked
    );
    let refused = RunPrep::start(false).advance(PrepOutcome::Refused);
    assert_eq!(refused.step, PrepStep::Refused);
    assert_eq!(refused.advance(PrepOutcome::Done).step, PrepStep::Refused);
}

#[test]
fn record_is_written_after_the_workload() {
    let mut run = RunProgress::start(true, true, false, true);
    let mut steps = vec![run.step];
    while let Some(next) = run.advance(true) {
        run = next;
        steps.push(run.step);
    }
    assert_eq!(
        steps,
        vec![
            RunStep::Boot,
            RunStep::Connect,
            RunStep::Pull,
            RunStep::Secrets,
            RunStep::Init,
            RunStep::Workload,
            RunStep::Persist,
            RunStep::Announce,
        ]
    );
    let failing = RunProgress {
        step: RunStep::Init,
        ..RunProgress::start(false, false, false, true)
    };
    assert_eq!(failing.advance(false).unwrap().step, RunStep::Discard);
    let warm = RunProgress {
        step: RunStep::Secrets,
        ..RunProgress::start(false, false, false, true)
    }
    .booted(false);
    assert_eq!(warm.advance(true).unwrap().step, RunStep::Workload);
}

// Creating.

#[test]
fn flags_are_merged_over_the_file() {
    let mut p = params();
    p.dns_filter_hosts = Some(texts(&["file.example"]));
    p.secret_refs = parse_cli_secret_refs(&texts(&["A=FILE", "B=FILE"]), &[]).unwrap();
    let flags = parse_cli_secret_refs(&texts(&["A=FLAG"]), &[]).unwrap();
    let merged = merge_flags(
        p,
        true,
        true,
        &site(),
        Some(texts(&["flag.example"])),
        &flags,
    );
    assert_eq!(
        merged.dns_filter_hosts,
        Some(texts(&["file.example", "flag.example"]))
    );
    assert!(merged.cuda && merged.net);
    assert_eq!(merged.env, texts(&["GRAPH=1"]));
    assert_eq!(
        merged.secret_refs.get("A").unwrap().from_env.as_deref(),
        Some("FLAG")
    );
    assert_eq!(
        merged.secret_refs.get("B").unwrap().from_env.as_deref(),
        Some("FILE")
    );
}

fn manifest() -> PackManifest {
    PackManifest {
        vm_mode: false,
        image: "img".to_string(),
        entrypoint: texts(&["/entry"]),
        cmd: texts(&["arg"]),
        cpus: 2,
        mem: 512,
        network: true,
        env: texts(&["A=1"]),
        workdir: Some("/w".to_string()),
        gpu: true,
        secret_refs: Table::new(),
        overlay_template: None,
        storage_template: None,
        overlay_logical_size: None,
    }
}

#[test]
fn machine_from_an_artifact_takes_its_settings() {
    let mut cmd = create_cmd();
    cmd.env = texts(&["B=2"]);
    let p = cmd
        .run_from_smolmachine(&manifest(), "vm", "/a.smolmachine", &[], &site(), MAX_SOCKETS)
        .unwrap();
    assert_eq!(p.cpus, 2);
    assert_eq!(p.mem, 512);
    assert!(p.net && p.gpu);
    assert_eq!(p.env, texts(&["A=1", "B=2"]));
    assert_eq!(p.image.as_deref(), Some("img"));
    assert_eq!(p.entrypoint, texts(&["/entry"]));
    assert_eq!(p.source_smolmachine.as_deref(), Some("/a.smolmachine"));

    cmd.command = texts(&["own"]);
    cmd.cpus = 8;
    let mut vm = manifest();
    vm.vm_mode = true;
    let p = cmd
        .run_from_smolmachine(&vm, "vm", "/a.smolmachine", &[], &site(), MAX_SOCKETS)
        .unwrap();
    assert_eq!(p.cpus, 8);
    assert_eq!(p.image, None);
    assert!(p.entrypoint.is_empty());
    assert_eq!(p.cmd, texts(&["own"]));
}

#[test]
fn flags_limit_a_machine_from_an_artifact() {
    let mut closed = manifest();
    closed.network = false;
    closed.gpu = false;
    let make = |cmd: &CreateCmd, answers: &[Result<Vec<String>, String>]| {
        cmd.run_from_smolmachine(&closed, "vm", "/a", answers, &site(), MAX_SOCKETS)
    };
    let p = make(&create_cmd(), &[]).unwrap();
    assert!(!p.net && p.allowed_cidrs.is_none() && p.dns_filter_hosts.is_none());
    let mut cmd = create_cmd();
    cmd.allow_cidr = texts(&["10.0.0.0/8"]);
    let p = make(&cmd, &[]).unwrap();
    assert!(p.net);
    assert_eq!(p.allowed_cidrs, Some(texts(&["10.0.0.0/8"])));
    cmd.allow_host = texts(&["example.com"]);
    cmd.outbound_localhost_only = true;
    let p = make(&cmd, &[Ok(texts(&["1.2.3.4/32"]))]).unwrap();
    assert_eq!(
        p.allowed_cidrs,
        Some(texts(&["10.0.0.0/8", "1.2.3.4/32", "127.0.0.0/8", "::1/128"]))
    );
    assert_eq!(p.dns_filter_hosts, Some(texts(&["example.com"])));
    let e = make(&cmd, &[Err("no such host".to_string())]).unwrap_err();
    assert_eq!(e, config_error("--allow-host", "no such host".to_string()));
    let mut cmd = create_cmd();
    cmd.dns = Some(0x0101_0101);
    cmd.gpu = true;
    cmd.gpu_vram_mib = Some(64);
    cmd.rosetta = true;
    cmd.workdir = Some("/own".to_string());
    cmd.secret_env = texts(&["A=HOST"]);
    let p = make(&cmd, &[]).unwrap();
    assert!(p.net && p.gpu && p.rosetta && p.allowed_cidrs.is_none());
    assert_eq!((p.dns, p.gpu_vram_mib), (Some(0x0101_0101), Some(64)));
    assert_eq!(p.workdir.as_deref(), Some("/own"));
    assert_eq!(p.secret_refs.len(), 1);
    cmd.secret_env = texts(&["bad"]);
    assert_eq!(make(&cmd, &[]).unwrap_err().what, "--secret-env");
}

#[test]
fn image_is_pulled_through_the_proxy() {
    let mut cmd = run_cmd();
    cmd.proxy = Some("http://proxy:3128".to_string());
    cmd.no_proxy = Some("localhost".to_string());
    cmd.rosetta = true;
    let plan = run_pull(&cmd, &params(), Some("alpine"), false).unwrap();
    assert_eq!(plan.image, "alpine");
    assert_eq!(plan.platform.as_deref(), Some("linux/amd64"));
    assert_eq!(plan.proxy.as_deref(), Some("http://proxy:3128"));
    assert_eq!(plan.no_proxy.as_deref(), Some("localhost"));
    assert!(run_pull(&cmd, &params(), Some("local:x"), true).is_none());
    assert!(run_pull(&cmd, &params(), None, false).is_none());
}

#[test]
fn name_of_a_run_is_for_a_detached_machine() {
    let mut cmd = run_cmd();
    assert_eq!(name_warning(&cmd), None);
    cmd.name = Some("box".to_string());
    assert_eq!(
        name_warning(&cmd).as_deref(),
        Some("warning: --name is ignored without -d")
    );
    cmd.detach = true;
    assert_eq!(name_warning(&cmd), None);
}

#[test]
fn image_brings_the_command_of_a_run() {
    let mut cmd = run_cmd();
    cmd.image = Some("alpine".to_string());
    assert_eq!(check_run(&cmd, &params()), Ok(()));
    let of_image = Some(ImageCommand {
        entrypoint: texts(&["/entry"]),
        cmd: texts(&["arg"]),
    });
    assert_eq!(
        run_command(&cmd, &params(), &of_image, &site()),
        texts(&["/entry", "arg"])
    );
    assert_eq!(
        run_command(&cmd, &params(), &None, &site()),
        texts(&["/bin/sh"])
    );
    let mut p = params();
    p.allowed_cidrs = Some(texts(&["10.0.0.0/8"]));
    p.dns_filter_hosts = Some(texts(&["example.com"]));
    let run = pack_image_run(&cmd, &p, "alpine", "/side", &site()).unwrap();
    assert_eq!(run.allowed_cidrs, p.allowed_cidrs);
    assert_eq!(run.dns_filter_hosts, p.dns_filter_hosts);
}

#[test]
fn artifact_that_names_secrets_is_refused() {
    let mut m = manifest();
    m.secret_refs = parse_cli_secret_refs(&texts(&["Z=HOST", "A=HOST"]), &[]).unwrap();
    let e = create_cmd()
        .run_from_smolmachine(&m, "vm", "/a", &[], &site(), MAX_SOCKETS)
        .unwrap_err();
    assert_eq!(e.what, "create from .smolmachine");
    assert!(e.reason.starts_with("secret 'A': "));
    assert!(e.reason.ends_with("(packs may not carry secret refs)"));
}

#[test]
fn create_reads_sockets_before_secrets_and_sets_switches() {
    let mut cmd = create_cmd();
    cmd.expose_socket = texts(&[":bad"]);
    cmd.secret_env = texts(&["bad"]);
    let e = cmd
        .run(params(), None, &site(), MAX_SOCKETS)
        .unwrap_err();
    assert_eq!(e.what, "expose-socket");
    cmd.expose_socket = texts(&["/run/a.sock"]);
    let e = cmd
        .run(params(), None, &site(), MAX_SOCKETS)
        .unwrap_err();
    assert_eq!(e.what, "--secret-env");
    cmd.secret_env = vec![];
    cmd.gpu = true;
    cmd.gpu_vram_mib = Some(64);
    let p = cmd.run(params(), None, &site(), MAX_SOCKETS).unwrap();
    assert_eq!(p.published_sockets.len(), 1);
    assert!(!resources(&p).gpu);
    let p = finish_create(&cmd, p).unwrap();
    assert!(p.gpu);
    assert_eq!(p.gpu_vram_mib, Some(64));
    let mut twice = params();
    twice.port = vec![(80, 1), (80, 2)];
    let e = finish_create(&cmd, twice).unwrap_err();
    assert_eq!(
        e.reason,
        "duplicate host port: 80 is specified more than once"
    );
    assert_eq!(create_cmd().artifact(Some("/p")), None);
    cmd.image = Some("img".to_string());
    assert_eq!(cmd.artifact(Some("/p")).as_deref(), Some("/p"));
}

#[test]
fn half_made_machine_is_cleaned_up() {
    let mut create = PackCreate::start(true);
    let mut steps = vec![create.step];
    while let Some(next) = create.advance(true) {
        create = next;
        steps.push(create.step);
    }
    assert_eq!(
        steps,
        vec![
            PackCreateStep::Reserve,
            PackCreateStep::Open,
            PackCreateStep::Clear,
            PackCreateStep::Extract,
            PackCreateStep::Detach,
            PackCreateStep::Seed,
            PackCreateStep::Commit,
        ]
    );
    assert_eq!(PackCreate::start(true).advance(false), None);
    let extracting = PackCreate {
        step: PackCreateStep::Extract,
        seeds: false,
        failed: false,
    };
    let detaching = extracting.advance(false).unwrap();
    assert_eq!(detaching.step, PackCreateStep::Detach);
    assert_eq!(
        detaching.advance(true).unwrap().step,
        PackCreateStep::CleanUp
    );
}

#[test]
fn env_lists_and_ports_are_read() {
    assert_eq!(
        parse_env_list(&texts(&["A=1=2", "nonsense", "=x", "B="])),
        vec![
            ("A".to_string(), "1=2".to_string()),
            ("B".to_string(), "".to_string()),
        ]
    );
    assert_eq!(parse_port_mapping("8080:80"), Some((8080, 80)));
    assert_eq!(parse_port_mapping("8080"), None);
    assert_eq!(parse_port_mapping("70000:80"), None);
    assert_eq!(parse_duration("30s"), Some(30_000));
    assert_eq!(parse_duration("2m"), Some(120_000));
    assert_eq!(parse_duration("1h"), Some(3_600_000));
    assert_eq!(parse_duration("30"), None);
    assert_eq!(parse_duration(""), None);
    assert_eq!(duplicate_port(&[(80, 1), (81, 1)]), None);
    assert_eq!(duplicate_port(&[(80, 1), (81, 1), (80, 2)]), Some(2));
}

// Forking.

#[test]
fn indexed_fork_env_renders_each_clone() {
    let specs = vec![
        "TRIAL={index}".to_string(),
        "OUTPUT=/runs/{name}".to_string(),
        "SMOLVM_FORK_INDEX=wrong".to_string(),
        "SMOLVM_FORK_BATCH_ID=wrong".to_string(),
        "SMOLVM_FORK_BATCH_SIZE=999".to_string(),
    ];
    assert_eq!(
        render_indexed_fork_env(
            &specs,
            3,
            "worker-3",
            true,
            &Some(ForkBatchIdentity {
                id: "batch-1".to_string(),
                size: 8,
            }),
        ),
        vec![
            ("TRIAL".to_string(), "3".to_string()),
            ("OUTPUT".to_string(), "/runs/worker-3".to_string()),
            ("SMOLVM_FORK_INDEX".to_string(), "3".to_string()),
            ("SMOLVM_FORK_NAME".to_string(), "worker-3".to_string()),
            ("SMOLVM_FORK_BATCH_ID".to_string(), "batch-1".to_string()),
            ("SMOLVM_FORK_BATCH_SIZE".to_string(), "8".to_string()),
        ]
    );
    assert_eq!(
        render_indexed_fork_env(&specs, 3, "worker-3", true, &None),
        vec![
            ("TRIAL".to_string(), "3".to_string()),
            ("OUTPUT".to_string(), "/runs/worker-3".to_string()),
            ("SMOLVM_FORK_INDEX".to_string(), "3".to_string()),
            ("SMOLVM_FORK_NAME".to_string(), "worker-3".to_string()),
        ]
    );
}

#[test]
fn fork_accepts_single_and_batch_plans() {
    let mut single = fork_cmd();
    single.clone = Some("worker".to_string());
    let plan = single.run(1, 2).unwrap();
    assert_eq!(plan.clones.len(), 1);
    assert_eq!(plan.clones[0].0, "worker");
    assert!(!plan.batch);
    assert_eq!(plan.wait_ready, None);

    let mut batch = fork_cmd();
    batch.count = 8;
    batch.name_prefix = Some("worker".to_string());
    batch.ready_timeout = 120_000;
    let plan = batch.run(1, 2).unwrap();
    assert_eq!(plan.clones.len(), 8);
    assert_eq!(plan.clones[7].0, "worker-7");
    assert!(plan.batch);
    assert_eq!(plan.wait_ready, Some(120_000));
    let id = fork_batch_id("base", "worker", 1, 2);
    assert_eq!(id.len(), 32);
    assert!(plan.clones[3]
        .1
        .contains(&("SMOLVM_FORK_BATCH_ID".to_string(), id)));

    assert_eq!(forkpoint_timeout(8, false, false, 120), Some(120));
    assert_eq!(forkpoint_timeout(1, false, false, 120), None);
    assert_eq!(forkpoint_timeout(1, false, true, 120), Some(120));
}

#[test]
fn batch_id_is_a_digest_of_its_origin() {
    assert_eq!(
        fork_batch_id("g", "p", 1, 2),
        "c41eb5c8a60ca55b86e2a570ab36ce5d"
    );
}

#[test]
fn fork_refuses_what_does_not_fit_together() {
    let reason = |cmd: ForkCmd| cmd.run(1, 2).unwrap_err().reason;
    let mut cmd = fork_cmd();
    cmd.count = 1025;
    assert_eq!(reason(cmd), "--count cannot exceed 1024 clones per batch");
    let mut cmd = fork_cmd();
    cmd.hold = true;
    cmd.forkable = true;
    assert!(reason(cmd).starts_with("--hold cannot be combined"));
    assert!(reason(fork_cmd()).starts_with("--name is required for one clone"));
    let mut cmd = fork_cmd();
    cmd.clone = Some("a".to_string());
    cmd.name_prefix = Some("b".to_string());
    assert!(reason(cmd).starts_with("use either --name"));
    let mut cmd = fork_cmd();
    cmd.count = 2;
    assert!(reason(cmd).starts_with("--name-prefix is required"));
    let mut cmd = fork_cmd();
    cmd.count = 2;
    cmd.clone = Some("a".to_string());
    assert!(reason(cmd).starts_with("--name cannot be used"));
    let mut cmd = fork_cmd();
    cmd.count = 2;
    cmd.name_prefix = Some("b".to_string());
    cmd.forkable = true;
    assert!(reason(cmd).starts_with("--forkable is not supported"));
    let mut cmd = fork_cmd();
    cmd.count = 2;
    cmd.name_prefix = Some("b".to_string());
    cmd.port = vec![(80, 80)];
    assert!(reason(cmd).starts_with("pinned --port mappings"));
    let mut cmd = fork_cmd();
    cmd.name_prefix = Some("b".to_string());
    assert_eq!(cmd.run(1, 2).unwrap().clones[0].0, "b-0");
}

// Updating.

#[test]
fn update_changes_what_it_names() {
    let mut cmd = update_cmd();
    cmd.remove_port = vec![(8080, 80)];
    cmd.port = vec![(9090, 90)];
    cmd.cpus = Some(4);
    cmd.mem = Some(2048);
    cmd.no_net = true;
    cmd.env = texts(&["A=2"]);
    cmd.remove_env = texts(&["GONE"]);
    cmd.workdir = Some("/w".to_string());
    cmd.gpu = true;
    cmd.no_rosetta = true;
    cmd.storage = Some(50);
    assert_eq!(removal_source("./src:/data:ro").as_deref(), Some("./src"));
    assert_eq!(removal_source("src"), None);
    let removals = vec![VolumeRemoval {
        given: "./src:/app".to_string(),
        source: "/src".to_string(),
    }];
    let new = vec![("/data".to_string(), "/d".to_string(), true)];
    let mut r = record();
    r.env = vec![
        ("A".to_string(), "1".to_string()),
        ("GONE".to_string(), "x".to_string()),
    ];
    r.allowed_cidrs = Some(texts(&["10.0.0.0/8"]));
    let mut changes = texts(&["disk"]);
    cmd.run(&removals, &new, &mut r, &mut changes);
    assert_eq!(r.mounts, new);
    assert_eq!(r.ports, vec![(9090, 90)]);
    assert_eq!(r.cpus, 4);
    assert_eq!(r.mem, 2048);
    assert_eq!(r.env, vec![("A".to_string(), "2".to_string())]);
    assert_eq!(r.allowed_cidrs, None);
    assert_eq!(r.workdir.as_deref(), Some("/w"));
    assert_eq!(r.gpu, Some(true));
    assert_eq!(r.rosetta, Some(false));
    assert_eq!(r.storage_gb, Some(50));
    assert_eq!(
        changes,
        texts(&[
            "disk",
            "  removed volume: ./src:/app",
            "  added volume: /data:/d:ro",
            "  removed port: 8080:80",
            "  added port: 9090:90",
            "  cpus: 2 → 4",
            "  memory: 1024 MiB → 2048 MiB",
            "  network: disabled",
            "  cleared allow_cidrs",
            "  removed env: GONE",
            "  env: A=2",
            "  workdir: /w",
            "  gpu: enabled",
            "  rosetta: disabled",
        ])
    );
    assert_eq!(
        update_notice("vm", &texts(&["x"])),
        texts(&[
            "Updated machine 'vm':",
            "x",
            "\nStart with: smolvm machine start --name vm",
        ])
    );
    assert_eq!(update_notice("vm", &[]), texts(&["No changes specified."]));
}

#[test]
fn update_is_refused_in_order() {
    let cmd = update_cmd();
    let none: Result<Vec<(String, String, bool)>, ConfigError> = Ok(vec![]);
    let bad_mounts = || Err(config_error("mounts", "gone".to_string()));
    let bad_size = || Err(config_error("cpus", "zero".to_string()));
    let there = Some(record());
    assert_eq!(
        cmd.check(&None, RecordState::Running, &bad_size(), &bad_mounts(), &[]),
        Err(UpdateError::Config(config_error(
            "update",
            "machine 'vm' not found".to_string()
        )))
    );
    assert_eq!(
        cmd.check(&there, RecordState::Running, &bad_size(), &bad_mounts(), &[]),
        Err(UpdateError::State(RecordState::Running))
    );
    assert_eq!(
        cmd.check(&there, RecordState::Stopped, &bad_size(), &bad_mounts(), &[]),
        Err(UpdateError::Config(bad_size().unwrap_err()))
    );
    let mut bad_env = update_cmd();
    bad_env.env = texts(&["A=1", "=x"]);
    assert_eq!(
        bad_env.check(&there, RecordState::Created, &Ok(()), &bad_mounts(), &[]),
        Err(UpdateError::Config(config_error(
            "update",
            "invalid env format '=x': expected KEY=VALUE".to_string()
        )))
    );
    assert_eq!(
        cmd.check(&there, RecordState::Created, &Ok(()), &bad_mounts(), &[]),
        Err(UpdateError::Config(bad_mounts().unwrap_err()))
    );
    let mut ports = update_cmd();
    ports.port = vec![(8080, 81)];
    assert_eq!(
        ports.check(&there, RecordState::Created, &Ok(()), &none, &[]),
        Err(UpdateError::Config(config_error(
            "update",
            "duplicate host port: 8080 is specified more than once".to_string()
        )))
    );
    let twice = Ok(vec![("/other".to_string(), "/app".to_string(), false)]);
    assert_eq!(
        cmd.check(&there, RecordState::Created, &Ok(()), &twice, &[]),
        Err(UpdateError::Config(config_error(
            "update",
            "duplicate mount target: /app is specified more than once".to_string()
        )))
    );
    assert_eq!(
        cmd.check(&there, RecordState::Created, &Ok(()), &none, &[]),
        Ok(())
    );
}

// Monitoring.

fn monitor_cmd() -> MonitorCmd {
    MonitorCmd {
        name: None,
        restart: None,
        health_cmd: None,
        health_timeout: 5,
        interval: 5,
        health_retries: 3,
    }
}

#[test]
fn monitor_settings_prefer_the_record_but_not_its_policy() {
    let mut cmd = monitor_cmd();
    cmd.restart = Some("on-failure".to_string());
    cmd.health_cmd = Some("true".to_string());
    let mut r = record();
    r.health_interval_secs = Some(30);
    r.health_cmd = Some(texts(&["check"]));
    let m = cmd.run(&r).unwrap();
    assert_eq!(m.restart.policy, RestartPolicy::OnFailure);
    assert_eq!(m.health_cmd, Some(texts(&["sh", "-c", "true"])));
    assert_eq!(m.interval, 30);
    assert_eq!(m.health_timeout, 5);
    assert_eq!(m.startup_grace, 0);
    cmd.restart = Some("sometimes".to_string());
    assert_eq!(cmd.run(&r).unwrap_err().what, "--restart");
}

#[test]
fn monitor_stops_a_machine_after_its_retries() {
    let r = record();
    let mut s = MonitorState::start(r.restart, 0);
    assert_eq!(s.waited(5, 5_000, false).0, MonitorAction::Probe);
    assert_eq!(s.found_alive(true, 0, 5_000), MonitorAction::Check);
    let failed = || CheckOutcome::Exit(1, b" bad \xff\n".to_vec());
    let (action, told) = s.checked(3, failed());
    assert_eq!(action, MonitorAction::Wait);
    assert_eq!(
        told,
        texts(&["  health check failed (exit 1, 1/3): bad \u{fffd}"])
    );
    assert_eq!(
        s.checked(3, CheckOutcome::Error("timeout".to_string())),
        (
            MonitorAction::Wait,
            texts(&["  health check error (2/3): timeout"])
        )
    );
    assert_eq!(
        s.checked(3, CheckOutcome::Unreachable),
        (
            MonitorAction::Wait,
            texts(&["  cannot connect to agent (3/3)"])
        )
    );
    assert_eq!(s.checked(3, failed()).0, MonitorAction::StopMachine);
    assert_eq!(
        s.checked(3, CheckOutcome::Exit(0, vec![])),
        (
            MonitorAction::Wait,
            texts(&["  health check passed (recovered)"])
        )
    );
    assert_eq!(s.failures, 0);
}

#[test]
fn monitor_forgives_a_suspend_and_a_fresh_start() {
    let r = record();
    let mut s = MonitorState::start(r.restart, 0);
    s.failures = 2;
    let (action, told) = s.waited(5, 20_000, false);
    assert_eq!(action, MonitorAction::Wait);
    assert_eq!(
        told.as_deref(),
        Some("  detected suspend (~15s) — skipping health check for recovery")
    );
    assert_eq!(s.failures, 0);
    assert_eq!(s.waited(5, 35_000, false).0, MonitorAction::Probe);
    assert_eq!(s.waited(5, 35_000, true).0, MonitorAction::Quit);
    assert_eq!(s.started(true, 40_000), MonitorAction::Wait);
    assert_eq!(s.found_alive(true, 60, 50_000), MonitorAction::Wait);
    assert_eq!(s.found_alive(true, 60, 100_000), MonitorAction::Check);
}

#[test]
fn monitor_restarts_as_the_policy_says() {
    let mut r = record();
    let mut s = MonitorState::start(r.restart, 0);
    let (action, told) = s.found_dead(Some(-9), true, 4);
    assert_eq!(action, MonitorAction::Restart { backoff_secs: 4 });
    assert_eq!(
        told,
        texts(&[
            "  machine exited (exit code: -9)",
            "  restarting (attempt 1, backoff 4s)...",
        ])
    );
    assert_eq!(s.paused(false), MonitorAction::Start);
    assert_eq!(s.paused(true), MonitorAction::Quit);
    let (action, told) = s.found_dead(None, false, 0);
    assert_eq!(action, MonitorAction::Quit);
    assert_eq!(told[0], "  machine exited (exit code: unknown)");
    assert!(told[1].starts_with("  not restarting (policy: "));
    assert!(told[1].ends_with(", count: 1/unlimited)"));
    note_death(&mut r, Some(3));
    assert_eq!(r.state, RecordState::Stopped);
    assert_eq!(r.last_exit_code, Some(3));
}

// Executing, listing, copying.

#[test]
fn shell_is_an_interactive_exec() {
    let cmd = ShellCmd {
        name: Some("vm".to_string()),
    }
    .run();
    assert_eq!(cmd.command, texts(&["/bin/sh"]));
    assert!(cmd.interactive && cmd.tty);
    let plan = cmd.run(&None, &[], &[]);
    assert_eq!(plan.machine, "vm");
    assert_eq!(plan.mode, ExecMode::Interactive { tty: true });
}

#[test]
fn exec_layers_its_variables() {
    let mut r = record();
    r.workdir = Some("/record".to_string());
    r.image = Some("img".to_string());
    let cmd = ExecCmd {
        command: texts(&["env"]),
        name: None,
        workdir: None,
        env: texts(&["A=flag"]),
        secret_env: vec![],
        secret_file: vec![],
        timeout: None,
        interactive: false,
        tty: false,
        stream: true,
        detach: false,
    };
    let base = vec![
        ("A".to_string(), "record".to_string()),
        ("B".to_string(), "record".to_string()),
    ];
    let secrets = vec![("S".to_string(), "secret".to_string())];
    let plan = cmd.run(&Some(r), &base, &secrets);
    assert_eq!(plan.machine, "default");
    assert_eq!(plan.image.as_deref(), Some("img"));
    assert_eq!(plan.workdir.as_deref(), Some("/record"));
    assert_eq!(plan.mode, ExecMode::Stream);
    assert_eq!(
        plan.env,
        vec![
            ("B".to_string(), "record".to_string()),
            ("S".to_string(), "secret".to_string()),
            ("A".to_string(), "flag".to_string()),
        ]
    );
}

#[test]
fn streamed_exec_keeps_the_last_status() {
    let mut printer = ExecEventPrinter::new();
    assert_eq!(
        printer.handle(ExecEvent::Stdout(b"x".to_vec())),
        ExecOutput::Stdout(b"x".to_vec())
    );
    assert_eq!(printer.exit_code, 0);
    assert_eq!(printer.handle(ExecEvent::Exit(7)), ExecOutput::Nothing);
    assert_eq!(printer.exit_code, 7);
    assert_eq!(
        printer.handle(ExecEvent::Error("lost".to_string())),
        ExecOutput::Message("error: lost".to_string())
    );
    assert_eq!(printer.exit_code, 1);
}

#[test]
fn image_list_is_laid_out_in_columns() {
    let long = "registry.example.com/organisation/image:latest";
    assert_eq!(image_label(long), "registry.example.com/organisation/i...");
    assert_eq!(image_label("alpine"), "alpine");
    assert_eq!(
        image_row("alpine", "7.5 MiB", "1"),
        format!("{:<40} {:>10} {:>8}", "alpine", "7.5 MiB", 1)
    );
    let cmd = ImagesCmd {
        name: "vm".to_string(),
        json: false,
    };
    let lines = cmd.run(
        "1 GiB",
        "7.5 MiB",
        1,
        &[CachedImage {
            reference: long.to_string(),
            size: "7.5 MiB".to_string(),
            layers: 1,
        }],
    );
    assert_eq!(lines.len(), 11);
    assert_eq!(lines[1], "  Total:  1 GiB");
    assert_eq!(lines[6], format!("{:<40} {:>10} {:>8}", "IMAGE", "SIZE", "LAYERS"));
    assert_eq!(lines[7], "-".repeat(60));
    assert_eq!(lines[10], "Total: 1 images");
    let empty = cmd.run("1 GiB", "0 B", 0, &[]);
    assert_eq!(empty[5], "No cached images.");
}

#[test]
fn prune_keeps_what_a_machine_needs() {
    let cmd = |dry_run: bool, all: bool| PruneCmd {
        name: "vm".to_string(),
        dry_run,
        all,
    };
    assert_eq!(cmd(false, false).access(true), Ok(PruneAccess::Running));
    assert_eq!(cmd(false, true).access(false), Ok(PruneAccess::StartFirst));
    assert!(cmd(false, true).access(true).is_err());
    assert_eq!(cmd(false, true).run(0, true), PrunePlan::NoImages);
    assert_eq!(cmd(false, true).run(2, true), PrunePlan::KeepImages);
    assert_eq!(cmd(true, true).run(2, false), PrunePlan::ListImages);
    assert_eq!(cmd(false, true).run(2, false), PrunePlan::RemoveImages);
    assert_eq!(cmd(true, false).run(2, true), PrunePlan::Layers);
    assert_eq!(collection(PrunePlan::RemoveImages, false), Some((false, true)));
    assert_eq!(collection(PrunePlan::KeepImages, true), Some((true, false)));
    assert_eq!(collection(PrunePlan::ListImages, true), None);
    assert_eq!(prune_opening(PrunePlan::KeepImages, false), None);
    assert_eq!(
        prune_opening(PrunePlan::Layers, true).as_deref(),
        Some("Scanning for unreferenced layers...")
    );
    assert_eq!(
        prune_report(PrunePlan::Layers, false, "vm", 0, "", 0, "0 B"),
        "No unreferenced layers to remove."
    );
    assert_eq!(
        prune_report(PrunePlan::KeepImages, false, "vm", 2, "9 MiB", 5, "5 B"),
        "Kept 2 cached image(s) in use by machine 'vm'; freed 5 B of unreferenced layers."
    );
}

#[test]
fn copy_goes_where_the_machine_is_named() {
    let plan = |src: &str, dst: &str| {
        CpCmd {
            src: src.to_string(),
            dst: dst.to_string(),
        }
        .run()
    };
    let down = plan("vm:/out", "./out").unwrap();
    assert!(!down.upload);
    assert_eq!(down.machine, "vm");
    assert_eq!(down.guest_path, "/out");
    assert_eq!(down.local_path, "./out");
    assert!(plan("./in", "vm:/in").unwrap().upload);
    assert!(plan("./in", "./out").is_err());
    assert_eq!(overlay_id("vm"), "persistent-vm");
}

#[test]
fn small_commands_decide() {
    let start = |forkable: bool, pool: Option<u32>| StartCmd {
        name: None,
        forkable,
        fork_pool_size: pool,
        cuda_vram_limit_mib: Some(10240),
        proxy: Some("http://proxy:3128".to_string()),
        no_proxy: Some("localhost".to_string()),
    };
    let plan = start(false, Some(4)).run();
    assert_eq!(plan.name, "default");
    assert_eq!(plan.proxy.as_deref(), Some("http://proxy:3128"));
    assert_eq!(plan.no_proxy.as_deref(), Some("localhost"));
    assert_eq!(
        plan.fork,
        ForkLaunch {
            forkable: true,
            pool_size: Some(4),
            vram_limit_mib: Some(10240),
        }
    );
    assert!(!start(false, None).run().fork.forkable);
    assert!(start(false, None).falls_back(true));
    let delete = DeleteCmd {
        name: "vm".to_string(),
        force: true,
        cascade: true,
    };
    assert!(delete.run().stop_if_running && delete.run().cascade);
    let status = StatusCmd {
        name: None,
        json: true,
    };
    assert_eq!(status.run(), StatusForm::Json);
    let stop = StopCmd { name: None };
    assert_eq!(stop.run(None), StopTarget::Default);
    assert_eq!(
        stop.run(Some("vm".to_string())),
        StopTarget::Named("vm".to_string())
    );
    let resize = ResizeCmd {
        name: None,
        storage: Some(50),
        overlay: None,
    };
    assert_eq!(
        resize.run(&None, config_error("x", "y".to_string()), true).reason,
        "VM 'default' is running. Stop it first with: smolvm machine stop --name default"
    );
    let named = Some("box".to_string());
    assert_eq!(
        resize.run(&named, config_error("x", "y".to_string()), true).reason,
        "VM 'box' is running. Stop it first with: smolvm machine stop --name box"
    );
    assert_eq!(
        resize.run(&None, config_error("x", "y".to_string()), false),
        config_error("x", "y".to_string())
    );
    let dir = DataDirCmd {
        name: "vm".to_string(),
    };
    assert_eq!(dir.run(&None, "/d"), None);
    assert_eq!(dir.run(&Some(record()), "/d").as_deref(), Some("/d"));
    let test = NetworkTestCmd {
        name: None,
        url: "http://1.1.1.1".to_string(),
    };
    assert!(test.run(false).start_first && !test.run(false).leave_running);
    let release = ForkReleaseCmd {
        name: "worker-0".to_string(),
        env: texts(&["LR=3e-4"]),
    };
    assert_eq!(
        release.run(),
        vec![("LR".to_string(), "3e-4".to_string())]
    );
    assert_eq!(MachineCmd::Run(run_cmd()).run(), Some(8));
    assert_eq!(MachineCmd::ForkRelease(release).run(), None);
}
