use preload_supervisor::child::{ChildProcessState, WaitOutcome};
use preload_supervisor::envp::{Argv, Envp};
use preload_supervisor::settings::{RemoteSettings, SettingsStore};
use preload_supervisor::supervisor::{
    fd_path, is_reentry, plan_remote_cycle, python_version_parts, split_nanos, ChildEnv, OVERRIDE_POLL_NANOS,
};

fn entries(e: &Envp) -> Vec<String> {
    e.as_ptr_vec().into_iter().flatten().map(|s| s.to_string()).collect()
}

#[test]
fn natural_exit_after_spawn() {
    let s = ChildProcessState::idle();
    assert!(!s.is_supervising());
    let s = s.spawned(100);
    assert_eq!(s.pid, Some(100));
    assert!(!s.restarting);
    assert_eq!(s.wait_completed(100), WaitOutcome::NaturalExit);
}

#[test]
fn restart_sets_flag_then_records_new_pid() {
    let s = ChildProcessState::idle().spawned(100);
    let (s, target) = s.request_restart();
    assert!(s.restarting);
    assert_eq!(target, Some(100));
    assert_eq!(s.wait_completed(100), WaitOutcome::Restart);
    let s = s.spawned(200);
    assert_eq!(s.pid, Some(200));
    assert_ne!(s.pid, Some(100));
    assert!(!s.restarting);
    assert_eq!(s.wait_completed(100), WaitOutcome::Restart);
    assert_eq!(s.wait_completed(200), WaitOutcome::NaturalExit);
}

#[test]
fn raw_cells_round_trip() {
    let s = ChildProcessState::from_raw(0, false);
    assert_eq!(s.pid, None);
    assert_eq!(s.raw_pid(), 0);
    let s = ChildProcessState::from_raw(42, true);
    assert_eq!(s.pid, Some(42));
    assert_eq!(s.raw_pid(), 42);
    assert!(s.restarting);
}

#[test]
fn override_file_merges_over_seed() {
    let seed = ChildEnv::initial(
        Envp::from_entries(vec!["FOO=seed".into(), "HOME=/root".into()]),
        Argv::new(),
        7,
    );
    let ce = seed.with_overrides("FOO=bar\nBAZ=qux");
    assert_eq!(ce.env.get_value("FOO"), Some("bar".to_string()));
    assert_eq!(ce.env.get_value("BAZ"), Some("qux".to_string()));
    assert_eq!(ce.env.get_value("HOME"), Some("/root".to_string()));
    assert_eq!(seed.env.get_value("FOO"), Some("seed".to_string()));
}

#[test]
fn initial_env_sets_guard_and_pipe() {
    let mut argv = Argv::new();
    argv.push(b"java".to_vec());
    let inherited = Envp::from_entries(vec!["PATH=/bin".into()]);
    assert!(!is_reentry(&inherited));
    let ce = ChildEnv::initial(inherited, argv, 12);
    assert_eq!(
        entries(&ce.env),
        vec!["PATH=/bin", "_GUARD_PRELOAD_DD_HACKATHON=1", "HACKATHON_TELEMETRY_PIPE=/proc/self/fd/12"]
    );
    assert_eq!(ce.path, b"/proc/self/exe".to_vec());
    assert!(ce.fds_to_drop_in_parent.is_empty());
    assert!(is_reentry(&ce.env));
}

#[test]
fn reentry_needs_the_guard_key_itself() {
    let e = Envp::from_entries(vec!["_GUARD_PRELOAD_DD_HACKATHON_X=1".into()]);
    assert!(!is_reentry(&e));
}

#[test]
fn attach_agent_adds_paths_and_fd() {
    let mut ce = ChildEnv::initial(Envp::new(), Argv::new(), 3);
    ce.attach_agent(41);
    assert_eq!(ce.env.get_value("JAVA_AGENT_FD"), Some("/proc/self/fd/41".to_string()));
    assert_eq!(
        ce.env.get_value("JAVA_TOOL_OPTIONS"),
        Some("-javaagent:/proc/self/fd/41".to_string())
    );
    assert_eq!(ce.fds_to_drop_in_parent, vec![41]);
}

#[test]
fn settings_pairs_merge_over_seed() {
    let seed = ChildEnv::initial(Envp::from_entries(vec!["A=0".into()]), Argv::new(), 3);
    let s = RemoteSettings::new(2, None, vec![("A".into(), "1".into()), ("B".into(), "2".into())])
        .unwrap();
    let ce = seed.with_settings(&s);
    assert_eq!(ce.env.get_value("A"), Some("1".to_string()));
    assert_eq!(ce.env.get_value("B"), Some("2".to_string()));
}

#[test]
fn fd_paths_are_decimal() {
    assert_eq!(fd_path(0), "/proc/self/fd/0");
    assert_eq!(fd_path(10), "/proc/self/fd/10");
    assert_eq!(fd_path(2147483647), "/proc/self/fd/2147483647");
}

#[test]
fn nanos_split_into_seconds() {
    assert_eq!(split_nanos(OVERRIDE_POLL_NANOS), (0, 500_000_000));
    assert_eq!(split_nanos(2_000_000_001), (2, 1));
}

#[test]
fn version_parts_are_bytes() {
    assert_eq!(python_version_parts(0x030B04F0), (3, 11, 4, 0xF0));
}

#[test]
fn remote_cycle_waits_for_a_new_generation() {
    use_remote_cycle();
}

fn use_remote_cycle() {
    let seed = ChildEnv::initial(Envp::from_entries(vec!["A=0".into()]), Argv::new(), 3);
    let child = ChildProcessState::idle().spawned(50);
    let mut store = SettingsStore::new();
    assert!(plan_remote_cycle(&seed, 0, &store, child).is_none());
    RemoteSettings::new(4, Some("https://x/agent".into()), vec![("A".into(), "1".into())])
        .unwrap()
        .store(&mut store);
    assert!(plan_remote_cycle(&seed, 4, &store, child).is_none());
    assert!(plan_remote_cycle(&seed, 0, &store, ChildProcessState::idle()).is_none());
    let plan = plan_remote_cycle(&seed, 0, &store, child).unwrap();
    assert_eq!(plan.env.env.get_value("A"), Some("1".to_string()));
    assert_eq!(plan.agent_url, Some("https://x/agent".to_string()));
    let empty = SettingsStore::new();
    let plan = plan_remote_cycle(&seed, 9, &empty, child).unwrap();
    assert_eq!(plan.env.env.get_value("A"), Some("0".to_string()));
    assert!(plan.agent_url.is_none());
}
