use difm::config::{TaskCodeDefinition, TaskCodeProtocol, TaskDefinition, TaskHost, TaskRun, TaskRunPlatform};
use difm::deploy::{task_runner_for, transfer_list_for};
use difm::fs::{Entry, EntryType};
use difm::session::{host_address, session_settings, HostOptions, MethodKind};
use difm::task::{build_task_command, TaskAction, TaskRunner};
use difm::transfer::{FileTransferError, TransferAction, TransferRun, FILE_MODE};

fn task(name: &str, run: &str) -> TaskRun {
    TaskRun { name: name.to_string(), run: run.to_string(), platform: TaskRunPlatform::Remote }
}

#[test]
fn fail_fast_task_set() {
    let runs = vec![task("A", "a"), task("B", "b"), task("C", "c")];
    let mut runner = TaskRunner::new("/srv", &runs);
    let exits = [0u8, 3, 0];
    let mut executed = Vec::new();
    loop {
        match runner.next_action() {
            TaskAction::Run { index, command } => {
                executed.push(command);
                runner.report(exits[index]);
            }
            TaskAction::Failed { index, exit_code } => {
                assert_eq!((index, exit_code), (1, 3));
                break;
            }
            TaskAction::Succeeded => panic!("the set should fail"),
        }
    }
    assert_eq!(executed, vec!["cd /srv && a".to_string(), "cd /srv && b".to_string()]);
    let f = runner.failure().unwrap();
    assert_eq!(f.name, "B");
    assert_eq!(f.exit_code, 3);
}

#[test]
fn all_tasks_succeed() {
    let runs = vec![task("A", "a"), task("B", "b")];
    let mut runner = TaskRunner::new("/w", &runs);
    runner.report(0);
    runner.report(0);
    assert!(matches!(runner.next_action(), TaskAction::Succeeded));
    assert!(runner.failure().is_none());
}

#[test]
fn task_command_text() {
    assert_eq!(build_task_command("/srv/app", "cargo build"), "cd /srv/app && cargo build");
}

#[test]
fn existing_directory_is_not_an_error() {
    let entries = vec![
        Entry::new(EntryType::Dir, "/l", "/r", "sub"),
        Entry::new(EntryType::File, "/l", "/r", "sub/a.txt"),
    ];
    let mut run = TransferRun::new(entries);
    match run.next_action() {
        TransferAction::MakeDir { index, command } => {
            assert_eq!(index, 0);
            assert_eq!(command, "mkdir -p '/r/sub'");
        }
        _ => panic!("expected a directory first"),
    }
    run.report_dir_created(1);
    match run.next_action() {
        TransferAction::CopyFile { index, local_source, remote_dest, mode } => {
            assert_eq!(index, 1);
            assert_eq!(local_source, "/l/sub/a.txt");
            assert_eq!(remote_dest, "/r/sub/a.txt");
            assert_eq!(mode, FILE_MODE);
            assert_eq!(mode, 0o644);
        }
        _ => panic!("expected a file copy"),
    }
    run.report_file_copied(Ok(()));
    assert!(matches!(run.next_action(), TransferAction::Done));
    assert!(run.error().is_none());
}

#[test]
fn failed_copy_aborts_the_transfer() {
    let entries = vec![
        Entry::new(EntryType::File, "/l", "/r", "a"),
        Entry::new(EntryType::File, "/l", "/r", "b"),
    ];
    let mut run = TransferRun::new(entries);
    run.report_file_copied(Err(FileTransferError::CopyFailed { path: "/r/a".to_string() }));
    assert!(matches!(run.next_action(), TransferAction::Aborted { index: 0 }));
    run.report_file_copied(Ok(()));
    assert!(matches!(run.next_action(), TransferAction::Aborted { index: 0 }));
    assert!(matches!(run.error(), Some(FileTransferError::CopyFailed { .. })));
}

fn options() -> HostOptions {
    HostOptions {
        host_name: None,
        port: None,
        compression: None,
        tcp_keep_alive: None,
        server_alive_interval_secs: None,
        kex_algorithms: None,
        host_key_algorithms: None,
        ciphers: None,
        mac: None,
    }
}

#[test]
fn host_address_with_default_and_configured_port() {
    let a = host_address("box", &options());
    assert_eq!(a.address, "box:22");
    assert!(!a.port_ignored);
    let mut o = options();
    o.host_name = Some("10.0.0.5".to_string());
    o.port = Some(2222);
    assert_eq!(host_address("box", &o).address, "10.0.0.5:2222");
    o.host_name = Some("10.0.0.5:7000".to_string());
    let a = host_address("box", &o);
    assert_eq!(a.address, "10.0.0.5:7000");
    assert!(a.port_ignored);
}

#[test]
fn session_settings_from_options() {
    let mut o = options();
    o.compression = Some(true);
    o.tcp_keep_alive = Some(true);
    o.server_alive_interval_secs = Some(30);
    o.ciphers = Some(vec!["aes128-ctr".to_string(), "aes256-ctr".to_string()]);
    o.kex_algorithms = Some(vec!["curve25519-sha256".to_string()]);
    let s = session_settings(&o);
    assert_eq!(s.compress, Some(true));
    assert_eq!(s.keepalive_secs, Some(30));
    assert_eq!(s.method_prefs.len(), 3);
    assert_eq!(s.method_prefs[0], (MethodKind::Kex, "curve25519-sha256".to_string()));
    assert_eq!(s.method_prefs[1], (MethodKind::CryptCs, "aes128-ctr,aes256-ctr".to_string()));
    assert_eq!(s.method_prefs[2], (MethodKind::CryptSc, "aes128-ctr,aes256-ctr".to_string()));
    o.tcp_keep_alive = Some(false);
    assert_eq!(session_settings(&o).keepalive_secs, None);
}

#[test]
fn deployment_pieces_from_a_task_definition() {
    let def = TaskDefinition {
        alias: None,
        host: TaskHost { name: "box".to_string(), base_dir: "/srv".to_string() },
        code: TaskCodeDefinition {
            location: "./code".to_string(),
            dest: "app".to_string(),
            ignore: "target/".to_string(),
            protocol: TaskCodeProtocol::Ssh,
        },
        run: vec![task("build", "make")],
        artifact: Vec::new(),
    };
    let list = transfer_list_for(&def, "./difm.yaml");
    assert_eq!(list.remote_dest_origin(), "/srv/app");
    assert_eq!(list.local_source_origin(), "./code");
    let runner = task_runner_for(&def);
    assert_eq!(runner.commands, vec!["cd /srv && make".to_string()]);
}
