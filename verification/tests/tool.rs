use bluefin::net::DiagnosticEvent;
use bluefin::text::{parse_unsigned, parse_unsigned_trimmed, push_decimal, push_hex, push_hex_padded, same};
use bluefin::tool::args::{Exit, Mode, choose_source_port, parse_args, usage};
use bluefin::tool::dump::{
    ConnectionInfo, describe_count, describe_established, describe_event, dump_connection_info,
    hex_dump, tag_of,
};
use bluefin::tool::pipe::{
    ExitReason, ListenAction, ListenEvent, Listener, Phase, Pipe, PipeAction, PipeEvent, describe_end, describe_reason,
};

fn args(list: &[&str]) -> Vec<String> {
    list.iter().map(|s| s.to_string()).collect()
}

fn refused(list: &[&str]) -> Exit {
    match parse_args(&args(list)) {
        Ok(settings) => panic!("expected an exit, got {settings:?}"),
        Err(exit) => exit,
    }
}

#[test]
fn help_flag_prints_usage_and_exits_zero() {
    for flag in ["-h", "--help"] {
        let exit = refused(&[flag]);
        assert_eq!(exit.code, 0);
        assert!(exit.usage);
        assert!(exit.message.is_none());
    }
    let text = usage().join("\n");
    assert!(text.contains("USAGE:"));
    assert!(text.contains("--listen"));
    assert!(text.contains("--diagnostics"));
}

#[test]
fn no_args_prints_usage_and_exits_zero() {
    let exit = refused(&[]);
    assert_eq!(exit.code, 0);
    assert!(exit.usage);
    assert!(usage().join("\n").contains("USAGE:"));
}

#[test]
fn bad_flag_exits_nonzero() {
    assert_ne!(refused(&["--bogus"]).code, 0);
}

#[test]
fn bad_command_lines_are_refused() {
    let exit = refused(&["--bogus"]);
    assert_eq!(exit.code, 1);
    assert_eq!(exit.message.unwrap(), "error: connect mode requires <host> <port>");
    assert!(exit.usage);
    assert_eq!(refused(&["-b"]).message.unwrap(), "error: -b requires an address");
    assert_eq!(refused(&["-s"]).message.unwrap(), "error: -s requires a port number");
    assert_eq!(
        refused(&["-s", "70000"]).message.unwrap(),
        "error: invalid source port: 70000"
    );
    assert_eq!(
        refused(&["-l"]).message.unwrap(),
        "error: listen mode requires a port number"
    );
    assert_eq!(refused(&["-l", "x"]).message.unwrap(), "error: invalid port number");
    assert_eq!(
        refused(&["h", "-1"]).message.unwrap(),
        "error: invalid port number: -1"
    );
}

#[test]
fn good_command_lines_are_read() {
    let settings = parse_args(&args(&["-l", "1318", "-d"])).unwrap();
    assert!(settings.diagnostics);
    match settings.mode {
        Mode::Listen { bind, port } => assert_eq!((bind.as_str(), port), ("127.0.0.1", 1318)),
        other => panic!("unexpected {other:?}"),
    }
    let settings = parse_args(&args(&["--listen", "--bind", "10.0.0.1", "+7"])).unwrap();
    assert!(!settings.diagnostics);
    match settings.mode {
        Mode::Listen { bind, port } => assert_eq!((bind.as_str(), port), ("10.0.0.1", 7)),
        other => panic!("unexpected {other:?}"),
    }
    let settings = parse_args(&args(&["10.0.0.2", "80", "--source-port", "1234"])).unwrap();
    match settings.mode {
        Mode::Connect { host, port, source_port } => {
            assert_eq!((host.as_str(), port, source_port), ("10.0.0.2", 80, Some(1234)))
        }
        other => panic!("unexpected {other:?}"),
    }
    assert_eq!(choose_source_port(Some(5)), 5);
    for _ in 0..100 {
        let port = choose_source_port(None);
        assert!((10000..60000).contains(&port));
    }
}

#[test]
fn hex_dumps_have_sixteen_bytes_in_a_line() {
    let lines = hex_dump("  [a] <<<", b"test payload\n");
    assert_eq!(lines.len(), 1);
    assert_eq!(
        lines[0],
        format!("  [a] <<< 0000  {:<48}  |test payload.|", "74 65 73 74 20 70 61 79 6c 6f 61 64 0a")
    );
    let data: Vec<u8> = (0..40u8).collect();
    let lines = hex_dump(">", &data);
    assert_eq!(lines.len(), 3);
    assert_eq!(
        lines[0],
        "> 0000  00 01 02 03 04 05 06 07 08 09 0a 0b 0c 0d 0e 0f   |................|"
    );
    assert_eq!(
        lines[2],
        format!("> 0020  {:<48}  | !\"#$%&'|", "20 21 22 23 24 25 26 27")
    );
    assert!(hex_dump(">", &[]).is_empty());
}

#[test]
fn events_are_described() {
    let tag = tag_of(0xa1b2c3);
    assert_eq!(tag, "00a1b2c3");
    let line = |event| describe_event("t", event);
    assert_eq!(
        line(DiagnosticEvent::AckReceived { base_packet_num: 255, count: 3 }),
        "[t] ack-recv: peer acked pkts 0xff..+3"
    );
    assert_eq!(
        line(DiagnosticEvent::AckSent { base_packet_num: 16, count: 200 }),
        "[t] ack-sent: we acked pkts 0x10..+200"
    );
    assert_eq!(
        line(DiagnosticEvent::DataSent { start_packet_num: 1, num_packets: 2, num_bytes: 13 }),
        "[t] data-sent: pkts 0x1..+2 (13 bytes)"
    );
    assert_eq!(
        line(DiagnosticEvent::DataReceived { base_packet_num: 0, num_packets: 1, num_bytes: 10 }),
        "[t] data-recv: pkts 0x0..+1 (10 bytes)"
    );
    assert_eq!(line(DiagnosticEvent::FinSent { packet_num: 10 }), "[t] fin-sent: pkt 0xa");
    assert_eq!(line(DiagnosticEvent::FinAckSent { packet_num: 11 }), "[t] fin-ack-sent: pkt 0xb");
    assert_eq!(line(DiagnosticEvent::FinReceived { packet_num: 12 }), "[t] fin-recv: pkt 0xc");
    assert_eq!(
        line(DiagnosticEvent::FinAckReceived { packet_num: 13 }),
        "[t] fin-ack-recv: pkt 0xd"
    );
    assert_eq!(describe_count("t", "sent", 13, 26), "[t] sent 13 bytes, total 26");
    assert_eq!(
        describe_established(0x12, 0xabcdef01),
        "connection established (src_id=00000012, dst_id=abcdef01)"
    );
}

#[test]
fn connection_info_is_described() {
    let mut info = ConnectionInfo {
        local_addr: "127.0.0.1:1",
        remote_addr: None,
        src_conn_id: 0x1,
        dst_conn_id: 0x2f,
        role: "server (listener)",
        version: 0,
        encrypted: false,
        mask: 0,
    };
    assert_eq!(
        dump_connection_info(&info),
        vec![
            "  local_addr  = 127.0.0.1:1",
            "  src_conn_id = 0x00000001",
            "  dst_conn_id = 0x0000002f",
            "  role        = server (listener)",
            "  version     = 0x0",
            "  encrypted   = false",
            "  mask        = 0x00",
        ]
    );
    info.remote_addr = Some("10.0.0.1:9");
    info.encrypted = true;
    info.mask = 0x1f;
    let lines = dump_connection_info(&info);
    assert_eq!(lines[1], "  remote_addr = 10.0.0.1:9");
    assert_eq!(lines[6], "  encrypted   = true");
    assert_eq!(lines[7], "  mask        = 0x1f");
}

#[test]
fn piped_input_ends_the_pipe() {
    let mut pipe = Pipe::new(true, false, true);
    assert!(!pipe.show_prompt());
    assert_eq!(pipe.step(PipeEvent::Checked { shutdown: false }).action, PipeAction::ReadStdin);
    assert_eq!(pipe.step(PipeEvent::Sent { len: 13 }).action, PipeAction::ReadStdin);
    assert_eq!(pipe.total_sent(), 13);
    let step = pipe.step(PipeEvent::StdinClosed);
    assert_eq!(step.action, PipeAction::Flush);
    assert!(step.tell_events);
    assert!(!step.prompt);
    let step = pipe.step(PipeEvent::Flushed);
    assert_eq!(step.action, PipeAction::Close);
    assert_eq!(pipe.phase(), Phase::Closing(ExitReason::StdinEof));
    let step = pipe.step(PipeEvent::Closed { acked: true });
    assert_eq!(step.action, PipeAction::Finish);
    assert_eq!(pipe.phase(), Phase::Ended);
}

#[test]
fn listener_outlives_its_input() {
    let mut pipe = Pipe::new(true, false, false);
    pipe.step(PipeEvent::Checked { shutdown: false });
    assert_eq!(pipe.step(PipeEvent::StdinClosed).action, PipeAction::Flush);
    let step = pipe.step(PipeEvent::Flushed);
    assert!(step.half_closed);
    assert_eq!(step.action, PipeAction::Receive);
    assert_eq!(pipe.step(PipeEvent::Received { len: 10 }).action, PipeAction::Check);
    assert_eq!(pipe.total_recv(), 10);
    assert_eq!(pipe.step(PipeEvent::Checked { shutdown: false }).action, PipeAction::Receive);
    assert_eq!(pipe.step(PipeEvent::ReceiveTimedOut).action, PipeAction::Check);
    pipe.step(PipeEvent::Checked { shutdown: false });
    let step = pipe.step(PipeEvent::Received { len: 0 });
    assert_eq!(step.action, PipeAction::Close);
    assert_eq!(pipe.phase(), Phase::Closing(ExitReason::PeerClosed));
    let step = pipe.step(PipeEvent::Closed { acked: false });
    assert_eq!(step.action, PipeAction::Finish);
    assert!(step.tell_events);
    assert_eq!(pipe.phase(), Phase::Ended);
}

#[test]
fn terminal_is_asked_for_more() {
    let mut pipe = Pipe::new(true, true, true);
    assert!(pipe.show_prompt());
    pipe.step(PipeEvent::Checked { shutdown: false });
    let step = pipe.step(PipeEvent::StdinEmpty);
    assert!(!step.prompt);
    pipe.step(PipeEvent::ReceiveTimedOut);
    pipe.step(PipeEvent::Checked { shutdown: false });
    pipe.step(PipeEvent::Sent { len: 1 });
    let step = pipe.step(PipeEvent::StdinEmpty);
    assert!(step.prompt);
    assert!(step.tell_events);
    assert_eq!(pipe.step(PipeEvent::ShutdownSeen).action, PipeAction::Close);
    assert_eq!(pipe.phase(), Phase::Closing(ExitReason::Shutdown));
    let mut pipe = Pipe::new(false, true, true);
    assert_eq!(pipe.step(PipeEvent::Checked { shutdown: true }).action, PipeAction::Close);
    let mut pipe = Pipe::new(false, true, true);
    pipe.step(PipeEvent::Checked { shutdown: false });
    assert_eq!(pipe.step(PipeEvent::ReceiveFailed).action, PipeAction::Close);
    assert_eq!(pipe.phase(), Phase::Closing(ExitReason::ReceiveFailed));
    assert_eq!(pipe.step(PipeEvent::Closed { acked: true }).action, PipeAction::Fail);
    let mut pipe = Pipe::new(true, true, true);
    pipe.step(PipeEvent::Checked { shutdown: false });
    assert_eq!(pipe.step(PipeEvent::SendFailed).action, PipeAction::Close);
    let step = pipe.step(PipeEvent::Closed { acked: false });
    assert_eq!(step.action, PipeAction::Fail);
    assert!(!step.tell_events);
    assert_eq!(describe_reason(ExitReason::Shutdown), "shutdown signal");
    assert_eq!(describe_reason(ExitReason::StdinEof), "stdin EOF");
    assert_eq!(describe_reason(ExitReason::PeerClosed), "peer closed (EOF)");
    assert_eq!(describe_reason(ExitReason::SendFailed), "send error");
    assert_eq!(describe_reason(ExitReason::ReceiveFailed), "recv error");
    assert_eq!(
        describe_end(ExitReason::StdinEof, true),
        "connection closed (local Fin acked by peer)"
    );
    assert_eq!(
        describe_end(ExitReason::Shutdown, false),
        "connection closed (Fin sent; no FinAck from peer)"
    );
    assert_eq!(
        describe_end(ExitReason::PeerClosed, true),
        "connection closed (peer Fin observed)"
    );
}

#[test]
fn first_connection_gets_the_input() {
    let mut listener = Listener::new();
    assert!(listener.on_connection());
    assert!(!listener.on_connection());
    assert!(!listener.on_connection());
}

#[test]
fn only_the_user_ends_a_listener() {
    let mut listener = Listener::new();
    assert_eq!(listener.step(ListenEvent::Checked { shutdown: false }), ListenAction::Accept);
    assert_eq!(listener.step(ListenEvent::AcceptFailed), ListenAction::Check);
    assert_eq!(listener.step(ListenEvent::Accepted), ListenAction::Serve { stdin: true });
    assert_eq!(listener.step(ListenEvent::Accepted), ListenAction::Serve { stdin: false });
    assert_eq!(listener.step(ListenEvent::ShutdownSeen), ListenAction::Stop);
    assert_eq!(listener.step(ListenEvent::Checked { shutdown: true }), ListenAction::Stop);
}

#[test]
fn numbers_are_written_and_read() {
    let mut text = String::from("n=");
    push_decimal(&mut text, 18446744073709551615);
    assert_eq!(text, "n=18446744073709551615");
    let mut text = String::new();
    push_hex(&mut text, 0xdeadbeef);
    push_hex_padded(&mut text, 0x1f, 4);
    push_hex_padded(&mut text, 0x12345, 4);
    assert_eq!(text, "deadbeef001f12345");
    for n in [0u64, 9, 10, 99, 65535, 1_000_000, u64::MAX] {
        let mut text = String::new();
        push_decimal(&mut text, n);
        assert_eq!(text, n.to_string());
        assert_eq!(parse_unsigned(&text, u64::MAX), Some(n));
    }
    for text in ["", "+", "-1", "1x", "65536", " 1", "1 ", "99999999999999999999", "++1"] {
        assert_eq!(parse_unsigned(text, 65535), text.parse::<u16>().ok().map(|n| n as u64));
    }
    assert_eq!(parse_unsigned("+42", 65535), Some(42));
    assert_eq!(parse_unsigned("00042", 65535), Some(42));
    for text in [" 12\n", "\t7 ", "\u{3000}5\u{2028}", "  ", "1 2", "\u{a0}+9\u{85}"] {
        assert_eq!(
            parse_unsigned_trimmed(text, u64::MAX),
            text.trim().parse::<u64>().ok()
        );
    }
    assert!(same("abc", "abc"));
    assert!(!same("abc", "abd"));
    assert!(!same("abc", "ab"));
}
