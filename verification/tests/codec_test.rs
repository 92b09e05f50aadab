use oxidux::ipc_codec::{decode_command, decode_response, encode_command, encode_response};
use oxidux::ipc_command::IpcCommand;
use oxidux::ipc_response::IpcResponse;

#[test]
fn ping_encodes_to_the_wire_literal() {
    let line = encode_command(&IpcCommand::heartbeat_command());
    assert_eq!(line, "\"Ping\"");
}

#[test]
fn ping_line_decodes_with_trailing_newline() {
    let decoded = decode_command("\"Ping\"\n").expect("line should parse");
    assert!(matches!(decoded, IpcCommand::Ping));
}

#[test]
fn stop_command_encodes_the_documented_shape() {
    let cmd = IpcCommand::stop_command(Some("a".to_string()), "/".to_string());
    assert_eq!(encode_command(&cmd), "{\"Stop\":{\"app_name\":\"a\",\"directory\":\"/\"}}");
}

#[test]
fn stop_line_decodes_by_fields() {
    let decoded = decode_command("{\"Stop\":{\"app_name\":\"a\",\"directory\":\"/\"}}\n")
        .expect("line should parse");
    match decoded {
        IpcCommand::Stop { app_name, directory } => {
            assert_eq!(app_name.as_deref(), Some("a"));
            assert_eq!(directory, "/");
        }
        _ => panic!("wrong variant"),
    }
}

#[test]
fn restart_with_null_process_round_trips() {
    let cmd = IpcCommand::restart_command(None, "/work/dir".to_string());
    let line = encode_command(&cmd);
    assert_eq!(line, "{\"Restart\":{\"process_name\":null,\"directory\":\"/work/dir\"}}");
    match decode_command(&line).expect("round trip") {
        IpcCommand::Restart { process_name, directory } => {
            assert_eq!(process_name, None);
            assert_eq!(directory, "/work/dir");
        }
        _ => panic!("wrong variant"),
    }
}

#[test]
fn connect_with_named_process_round_trips() {
    let cmd = IpcCommand::connect_command(Some("worker".to_string()), "/srv".to_string());
    match decode_command(&encode_command(&cmd)).expect("round trip") {
        IpcCommand::Connect { process_name, directory } => {
            assert_eq!(process_name.as_deref(), Some("worker"));
            assert_eq!(directory, "/srv");
        }
        _ => panic!("wrong variant"),
    }
}

#[test]
fn strings_with_escapes_round_trip() {
    let tricky = "a\"b\\c\nd\te\r\u{1}end".to_string();
    let cmd = IpcCommand::stop_command(Some(tricky.clone()), "/x \"y\"".to_string());
    match decode_command(&encode_command(&cmd)).expect("round trip") {
        IpcCommand::Stop { app_name, directory } => {
            assert_eq!(app_name, Some(tricky));
            assert_eq!(directory, "/x \"y\"");
        }
        _ => panic!("wrong variant"),
    }
}

#[test]
fn responses_round_trip() {
    let cases = vec![
        IpcResponse::NotFound("no such app".to_string()),
        IpcResponse::Status("Stopping a".to_string()),
        IpcResponse::ConnectionDetails {
            app_name: "a".to_string(),
            tmux_socket: "oxidux".to_string(),
            tmux_session: "a/web".to_string(),
        },
    ];
    for resp in cases {
        let line = encode_response(&resp);
        let back = decode_response(&line).expect("round trip");
        match (&resp, &back) {
            (IpcResponse::NotFound(x), IpcResponse::NotFound(y)) => assert_eq!(x, y),
            (IpcResponse::Status(x), IpcResponse::Status(y)) => assert_eq!(x, y),
            (
                IpcResponse::ConnectionDetails { app_name: a1, tmux_socket: s1, tmux_session: t1 },
                IpcResponse::ConnectionDetails { app_name: a2, tmux_socket: s2, tmux_session: t2 },
            ) => {
                assert_eq!(a1, a2);
                assert_eq!(s1, s2);
                assert_eq!(t1, t2);
            }
            _ => panic!("variant changed in round trip"),
        }
    }
}

#[test]
fn encoded_output_is_real_json() {
    let resp = IpcResponse::ConnectionDetails {
        app_name: "my app\n".to_string(),
        tmux_socket: "oxidux".to_string(),
        tmux_session: "my app\n/web".to_string(),
    };
    let value: serde_json::Value = serde_json::from_str(&encode_response(&resp)).unwrap();
    assert_eq!(value["ConnectionDetails"]["app_name"], "my app\n");
    assert_eq!(value["ConnectionDetails"]["tmux_socket"], "oxidux");

    let cmd = IpcCommand::stop_command(Some("a\"b".to_string()), "/tmp".to_string());
    let value: serde_json::Value = serde_json::from_str(&encode_command(&cmd)).unwrap();
    assert_eq!(value["Stop"]["app_name"], "a\"b");
    assert_eq!(value["Stop"]["directory"], "/tmp");
}

#[test]
fn garbage_lines_do_not_decode() {
    assert!(decode_command("garbage").is_none());
    assert!(decode_command("").is_none());
    assert!(decode_command("{\"Stop\":").is_none());
    assert!(decode_command("{\"Stop\":{\"app_name\":\"a\"}}").is_none());
    assert!(decode_command("\"Pong\"").is_none());
    assert!(decode_response("{\"Missing\":\"x\"}").is_none());
}
