use difm::exec::{match_line_sentinel, parse_exit_status, tag, wrap_command, ExecInvocation, ExecProtocolError};

const ID: &str = "0b6f8a1e-3c2d-4e5f-8a9b-0c1d2e3f4a5b";

fn run_chunks(id: &str, chunks: &[&[u8]]) -> ExecInvocation {
    let mut inv = ExecInvocation::new(id, "make");
    for c in chunks {
        inv.feed(&c.to_vec(), &Vec::new());
    }
    inv
}

#[test]
fn wrapped_command_text() {
    assert_eq!(tag("abc"), " [[ END-OF-TASK abc $? ]] ");
    assert_eq!(wrap_command("ls -l", "abc"), "sh -c 'ls -l'; echo \" [[ END-OF-TASK abc $? ]] \"");
}

#[test]
fn completion_from_one_chunk() {
    let out = format!("building\ndone [[ END-OF-TASK {} 0 ]] \n", ID);
    let inv = run_chunks(ID, &[out.as_bytes()]);
    let info = inv.result().unwrap().unwrap();
    assert_eq!(info.exit_code, 0);
    assert_eq!(info.stdout, "building\ndone");
}

#[test]
fn chunked_delivery_gives_the_same_result() {
    let out = format!("line one\nline two\n [[ END-OF-TASK {} 3 ]] \ntrailing", ID);
    let whole = run_chunks(ID, &[out.as_bytes()]).result().unwrap().unwrap();
    let bytes = out.as_bytes();
    let singles: Vec<&[u8]> = bytes.chunks(1).collect();
    let by_byte = run_chunks(ID, &singles).result().unwrap().unwrap();
    let split_in_marker = run_chunks(ID, &[&bytes[..25], &bytes[25..40], &bytes[40..]]).result().unwrap().unwrap();
    assert_eq!(whole.exit_code, 3);
    assert_eq!(whole.stdout, "line one\nline two\n");
    assert_eq!(by_byte.exit_code, whole.exit_code);
    assert_eq!(by_byte.stdout, whole.stdout);
    assert_eq!(split_in_marker.exit_code, whole.exit_code);
    assert_eq!(split_in_marker.stdout, whole.stdout);
}

#[test]
fn sentinel_needs_its_line_end() {
    let out = format!(" [[ END-OF-TASK {} 0 ]] ", ID);
    let mut inv = run_chunks(ID, &[out.as_bytes()]);
    assert!(inv.result().is_none());
    inv.feed(&b"\n".to_vec(), &b"warn".to_vec());
    let info = inv.result().unwrap().unwrap();
    assert_eq!(info.exit_code, 0);
    assert_eq!(info.stdout, "");
    assert_eq!(info.stderr, "warn");
}

#[test]
fn foreign_sentinel_is_not_accepted() {
    let other = "ffffffff-3c2d-4e5f-8a9b-0c1d2e3f4a5b";
    let out = format!(" [[ END-OF-TASK {} 0 ]] \n", other);
    let mut inv = run_chunks(ID, &[out.as_bytes()]);
    assert!(inv.result().is_none());
    let mine = format!(" [[ END-OF-TASK {} 7 ]] \n", ID);
    inv.feed(&mine.as_bytes().to_vec(), &Vec::new());
    let info = inv.result().unwrap().unwrap();
    assert_eq!(info.exit_code, 7);
    assert_eq!(info.stdout, format!(" [[ END-OF-TASK {} 0 ]] \n", other));
}

#[test]
fn unreadable_exit_status_is_a_protocol_error() {
    let out = format!(" [[ END-OF-TASK {} 256 ]] \n", ID);
    let inv = run_chunks(ID, &[out.as_bytes()]);
    match inv.result() {
        Some(Err(ExecProtocolError::UnreadableExitStatus { field })) => assert_eq!(field, b"256".to_vec()),
        _ => panic!("expected a protocol error"),
    }
    let out = format!(" [[ END-OF-TASK {} x1 ]] \n", ID);
    assert!(matches!(run_chunks(ID, &[out.as_bytes()]).result(), Some(Err(_))));
}

#[test]
fn output_after_completion_is_ignored() {
    let out = format!(" [[ END-OF-TASK {} 1 ]] \n", ID);
    let mut inv = run_chunks(ID, &[out.as_bytes()]);
    inv.feed(&b"more\n".to_vec(), &b"late".to_vec());
    let info = inv.result().unwrap().unwrap();
    assert_eq!(info.exit_code, 1);
    assert_eq!(info.stderr, "");
}

#[test]
fn exit_status_field_values() {
    assert_eq!(parse_exit_status(&b"0".to_vec()), Some(0));
    assert_eq!(parse_exit_status(&b"255".to_vec()), Some(255));
    assert_eq!(parse_exit_status(&b"007".to_vec()), Some(7));
    assert_eq!(parse_exit_status(&b"256".to_vec()), None);
    assert_eq!(parse_exit_status(&b"".to_vec()), None);
    assert_eq!(parse_exit_status(&b"+1".to_vec()), None);
}

#[test]
fn line_sentinel_position() {
    let line = b"abc [[ END-OF-TASK id 42 ]] ".to_vec();
    let (start, code) = match_line_sentinel(&line, &b"id".to_vec()).unwrap();
    assert_eq!(start, 3);
    assert_eq!(code, b"42".to_vec());
    assert!(match_line_sentinel(&line, &b"xid".to_vec()).is_none());
    assert!(match_line_sentinel(&b"plain".to_vec(), &b"id".to_vec()).is_none());
}

#[test]
fn started_invocation_has_a_fresh_id() {
    let a = ExecInvocation::start("true");
    let b = ExecInvocation::start("true");
    assert_eq!(a.id.len(), 36);
    assert_ne!(a.id, b.id);
    assert!(a.command.contains(&a.id));
}
