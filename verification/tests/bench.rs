use bluefin::bench::client::{
    Pacing, Pause, SendAction, TaskError, choose_tasks, next_send, num_sends, send_throttle_every,
    send_throttle_us,
};
use bluefin::bench::server::{
    Account, AfterReceive, ConnAction, ConnEnd, ConnEvent, next_action, num_expected_connections,
    num_reader_workers, recv_idle_timeout_secs,
};
use bluefin::addr::SocketAddr;
use bluefin::error::BluefinError;
use bluefin::socket::ancillary::AncillaryRoom;
use bluefin::socket::error::BluefinIoError;
use bluefin::socket::{
    AF_INET, BufMetadata, CallStep, MSG_CONTROLLEN, TransmitData, after_receive, after_send,
    get_metadata_buf,
};
use bytes::Bytes;

#[test]
fn settings_have_defaults() {
    assert_eq!(num_sends(None), 10_000_000);
    assert_eq!(num_sends(Some("0")), 10_000_000);
    assert_eq!(num_sends(Some("many")), 10_000_000);
    assert_eq!(num_sends(Some(" 500000\n")), 500_000);
    assert_eq!(send_throttle_us(None), 0);
    assert_eq!(send_throttle_us(Some("25")), 25);
    assert_eq!(send_throttle_us(Some("-25")), 0);
    assert_eq!(send_throttle_every(None), 256);
    assert_eq!(send_throttle_every(Some("0")), 256);
    assert_eq!(send_throttle_every(Some("2048")), 2048);
    assert_eq!(recv_idle_timeout_secs(None), 2);
    assert_eq!(recv_idle_timeout_secs(Some("120")), 120);
    assert_eq!(num_reader_workers(None), 3);
    assert_eq!(num_reader_workers(Some("70000")), 3);
    assert_eq!(num_reader_workers(Some("1")), 1);
    assert_eq!(num_expected_connections(None, None), Some(2));
    assert_eq!(num_expected_connections(Some("5"), Some("6")), Some(5));
    assert_eq!(num_expected_connections(Some("x"), Some("6")), Some(6));
    assert_eq!(num_expected_connections(Some(" 5"), None), Some(2));
    assert_eq!(num_expected_connections(Some("0"), Some("6")), None);
}

#[test]
fn tasks_are_chosen() {
    let args = |list: &[&str]| list.iter().map(|s| s.to_string()).collect::<Vec<String>>();
    assert_eq!(choose_tasks(&args(&[])), Ok(vec![0, 1]));
    assert_eq!(choose_tasks(&args(&["--task", "4"])), Ok(vec![4]));
    assert_eq!(choose_tasks(&args(&["--task", "5"])), Err(TaskError::OutOfRange));
    assert_eq!(choose_tasks(&args(&["--task"])), Err(TaskError::MissingIndex));
    assert_eq!(choose_tasks(&args(&["--task", "a"])), Err(TaskError::InvalidIndex));
    assert_eq!(choose_tasks(&args(&["4"])), Err(TaskError::UnknownArgument));
}

#[test]
fn sends_are_paced() {
    let free = Pacing::new(0, 3);
    assert_eq!(free.after_send(0), Pause { yields: true, sleep_us: None });
    assert_eq!(free.after_send(3), Pause { yields: false, sleep_us: None });
    let paced = Pacing::new(25, 3);
    assert_eq!(paced.after_send(0), Pause { yields: true, sleep_us: Some(25) });
    assert_eq!(paced.after_send(3), Pause { yields: false, sleep_us: Some(25) });
    assert_eq!(paced.after_send(256), Pause { yields: true, sleep_us: None });
}

#[test]
fn receives_are_counted() {
    let mut account = Account::new();
    assert!(Account::is_end(0, &vec![]));
    assert!(!Account::is_end(0, &vec![Bytes::new()]));
    let mut printed = Vec::new();
    let mut resets = 0;
    for _ in 0..8192 {
        let mut chunks = vec![Bytes::from_static(&[0; 100]), Bytes::from_static(&[0; 250])];
        let after = account.on_receive(350, &mut chunks);
        assert!(chunks.is_empty());
        if let Some(window) = after.print {
            printed.push(window);
        }
        if after.reset_idle {
            resets += 1;
        }
    }
    assert_eq!(account.total_bytes(), 8192 * 350);
    assert_eq!(account.extremes(), (100, 250));
    assert_eq!(account.iteration(), 8193);
    assert_eq!(printed, vec![3500 * 350, 3500 * 350]);
    assert_eq!(resets, 2);
    let mut small = Account::new();
    let mut none = vec![];
    assert_eq!(
        small.on_receive(5, &mut none),
        AfterReceive { reset_idle: false, print: None }
    );
}

#[test]
fn socket_errors_have_a_message() {
    assert_eq!(
        BluefinIoError::StdIoError("broken".to_string()).message(),
        "std::io::Error: `broken`"
    );
    assert_eq!(BluefinIoError::Unsupported("no".to_string()).message(), "`no`");
    assert_eq!(
        BluefinIoError::InsufficientBufferSize("full".to_string()).message(),
        "`full`"
    );
    assert_eq!(
        BluefinIoError::Unsupported("no".to_string()).into_connection_error(),
        BluefinError::Unexpected("`no`".to_string())
    );
}

#[test]
fn ancillary_data_has_limited_room() {
    let mut room = AncillaryRoom::new(MSG_CONTROLLEN);
    assert_eq!(room.append(24), Ok(()));
    assert_eq!(room.append(56), Ok(()));
    assert_eq!(
        room.append(1),
        Err(BluefinIoError::InsufficientBufferSize(
            "Could not add value to ancillary data as data exceeds available free space".to_string()
        ))
    );
    assert_eq!(room.append(usize::MAX).is_err(), true);
    assert_eq!(room.append(0), Ok(()));
}

#[test]
fn metadata_tells_the_sender() {
    let metadata = get_metadata_buf(AF_INET, [10, 1, 2, 3], [0x05, 0x26], 77).unwrap();
    assert_eq!(metadata.len, 77);
    assert_eq!(metadata.src_addr, SocketAddr::V4 { octets: [10, 1, 2, 3], port: 0x0526 });
    assert_eq!(
        get_metadata_buf(30, [0; 4], [0; 2], 0).unwrap_err(),
        BluefinIoError::StdIoError("Unknown ss_family received: 30".to_string())
    );
    assert_eq!(
        get_metadata_buf(-7, [0; 4], [0; 2], 0).unwrap_err(),
        BluefinIoError::StdIoError("Unknown ss_family received: -7".to_string())
    );
    let fresh = BufMetadata::default();
    assert_eq!(fresh.len, 0);
    assert_eq!(fresh.src_addr, SocketAddr::V4 { octets: [0; 4], port: 0 });
}

#[test]
fn only_ipv4_sources_are_told() {
    let v4 = SocketAddr::V4 { octets: [1, 2, 3, 4], port: 5 };
    let v6 = SocketAddr::V6 { segments: [0; 8], port: 5, flowinfo: 0, scope_id: 0 };
    let transmit = TransmitData::new(v4, v6, &[1, 2]);
    assert_eq!(transmit.source_octets().unwrap(), [1, 2, 3, 4]);
    assert_eq!(transmit.dst_addr(), v6);
    assert_eq!(transmit.data(), &[1, 2]);
    assert_eq!(
        TransmitData::new(v6, v4, &[]).source_octets().unwrap_err(),
        BluefinIoError::Unsupported("Non ipv4 addr are currently unsupported".to_string())
    );
}

#[test]
fn calls_are_repeated_or_end() {
    let text = || "text".to_string();
    assert!(matches!(after_receive(-1, true, false, text()), CallStep::Again));
    assert!(matches!(after_receive(5, false, true, text()), CallStep::Again));
    assert!(matches!(after_receive(5, false, false, text()), CallStep::Done(5)));
    match after_receive(-1, false, false, text()) {
        CallStep::Failed(e) => assert_eq!(e, BluefinIoError::StdIoError(text())),
        _ => panic!("expected a failure"),
    }
    assert!(matches!(after_send(-1, true, text()), CallStep::Again));
    assert!(matches!(after_send(0, false, text()), CallStep::Done(0)));
    match after_send(-1, false, text()) {
        CallStep::Failed(e) => assert_eq!(e, BluefinIoError::StdIoError(text())),
        _ => panic!("expected a failure"),
    }
}

#[test]
fn a_server_receives_until_something_ends_it() {
    assert_eq!(next_action(ConnEvent::Checked { shutdown: false }), ConnAction::Receive);
    assert_eq!(next_action(ConnEvent::Received { end: false }), ConnAction::Count);
    for (event, end) in [
        (ConnEvent::Checked { shutdown: true }, ConnEnd::Shutdown),
        (ConnEvent::Received { end: true }, ConnEnd::PeerClosed),
        (ConnEvent::ReceiveFailed, ConnEnd::ReceiveFailed),
        (ConnEvent::Idle, ConnEnd::Idle),
    ] {
        assert_eq!(next_action(event), ConnAction::End(end));
        assert_eq!(end.is_clean(), end == ConnEnd::PeerClosed);
    }
}

#[test]
fn a_client_sends_until_all_is_sent_or_the_user_ends_it() {
    assert_eq!(next_send(0, 3, None), SendAction::Send);
    assert_eq!(next_send(2, 3, Some(false)), SendAction::Send);
    assert_eq!(next_send(3, 3, None), SendAction::Stop);
    assert_eq!(next_send(4, 3, Some(false)), SendAction::Stop);
    assert_eq!(next_send(1, 3, Some(true)), SendAction::Stop);
    assert_eq!(next_send(0, 0, None), SendAction::Stop);
    let pause = Pause { yields: true, sleep_us: Some(25) };
    assert_eq!(pause.sleep_after_look(None), Some(25));
    assert_eq!(pause.sleep_after_look(Some(false)), Some(25));
    assert_eq!(pause.sleep_after_look(Some(true)), None);
    let pause = Pause { yields: true, sleep_us: None };
    assert_eq!(pause.sleep_after_look(Some(false)), None);
}
