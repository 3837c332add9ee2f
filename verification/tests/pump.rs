use bluefin::error::BluefinError;
use bluefin::net::DiagnosticEvent;
use bluefin::wire::header::PacketType;
use bluefin::wire::packet::BluefinPacket;
use bluefin::worker::ack::AckData;
use bluefin::worker::handle::{DATA_CHANNEL_BOUND, WriterHandler};
use bluefin::worker::pending::PendingBytes;
use bluefin::worker::pump::{AckPump, AckStep, DataPump};
use bytes::Bytes;

#[test]
fn a_batch_has_at_most_twelve_datagrams_and_loses_nothing() {
    let mut pump = DataPump::new(10, 0x11, 0x22);
    let data: Vec<u8> = (0..200_000u32).map(|i| (i % 253) as u8).collect();
    let mut received = vec![Bytes::from(data.clone()), Bytes::from_static(&[1, 2, 3])];
    pump.receive(&mut received);
    assert_eq!(received.len(), 2);
    assert!(received.iter().all(|b| b.is_empty()));

    let first = pump.make_datagrams();
    assert_eq!(first.datagrams.len(), 12);
    assert_eq!(
        first.sent,
        Some(DiagnosticEvent::DataSent {
            start_packet_num: 10,
            num_packets: 120,
            num_bytes: 180_000,
        })
    );
    let second = pump.make_datagrams();
    assert_eq!(second.datagrams.len(), 2);
    assert_eq!(
        second.sent,
        Some(DiagnosticEvent::DataSent {
            start_packet_num: 130,
            num_packets: 14,
            num_bytes: 20_003,
        })
    );
    assert_eq!(pump.next_packet_num(), 144);
    let third = pump.make_datagrams();
    assert!(third.datagrams.is_empty());
    assert!(third.sent.is_none());

    let mut all = Vec::new();
    let mut number = 10;
    for datagram in first.datagrams.iter().chain(second.datagrams.iter()) {
        for packet in BluefinPacket::from_bytes(datagram).unwrap() {
            assert_eq!(packet.header.packet_number, number);
            number += 1;
            all.extend_from_slice(&packet.payload);
        }
    }
    let mut expected = data;
    expected.extend_from_slice(&[1, 2, 3]);
    assert_eq!(all, expected);
}

#[test]
fn close_number_comes_after_the_data() {
    let mut pump = DataPump::new(7, 1, 2);
    let mut received = vec![Bytes::from_static(&[5; 10])];
    pump.receive(&mut received);
    assert_eq!(pump.make_datagrams().datagrams.len(), 1);
    assert_eq!(pump.reserve_close_packet_num(), 8);
    assert_eq!(pump.next_packet_num(), 9);
}

#[test]
fn refused_acks_are_tried_again_first() {
    let mut pump = AckPump::new(1, 2);
    assert!(matches!(pump.next(), AckStep::Receive));
    pump.receive(&vec![]);
    assert!(matches!(pump.next(), AckStep::Receive));

    let acks: Vec<AckData> = (0..1000u64)
        .map(|i| AckData { base_packet_num: i, num_packets_consumed: 2 })
        .collect();
    pump.receive(&acks);
    let datagram = match pump.next() {
        AckStep::Send(datagram) => datagram,
        _ => panic!("expected a datagram"),
    };
    assert_eq!(datagram.len(), 760 * 20);
    pump.refused(datagram.clone());
    match pump.next() {
        AckStep::Retry(again) => assert_eq!(again, datagram),
        _ => panic!("expected the refused datagram"),
    }
    // The rest waits until more acks come.
    assert!(matches!(pump.next(), AckStep::Receive));
    pump.receive(&vec![AckData { base_packet_num: 5000, num_packets_consumed: 1 }]);
    match pump.next() {
        AckStep::Send(rest) => {
            let packets = BluefinPacket::from_bytes(&rest).unwrap();
            assert_eq!(packets.len(), 241);
            assert_eq!(packets[0].header.packet_number, 760);
            assert_eq!(packets[240].header.packet_number, 5000);
        }
        _ => panic!("expected the rest"),
    }
    assert!(matches!(pump.next(), AckStep::Receive));
}

#[test]
fn writer_answers_by_its_state() {
    let mut writer = WriterHandler::new(3, 0xa, 0xb);
    assert_eq!(writer.next_packet_num(), 3);
    assert_eq!(writer.connection_ids(), (0xa, 0xb));
    assert_eq!(
        writer.send_data(&[1, 2]),
        Err(BluefinError::WriteError("Sender is not available"))
    );
    assert_eq!(
        writer.send_bytes(Bytes::from_static(&[1])),
        Err(BluefinError::WriteError("Sender is not available"))
    );
    assert_eq!(
        writer.send_ack(1, 1),
        Err(BluefinError::WriteError("Ack sender is not available"))
    );
    assert!(writer.data_sender().is_err());

    let mut tasks = writer.start();
    assert!(writer.data_sender().is_ok());
    assert_eq!(writer.send_data(&[1, 2]), Ok(2));
    assert_eq!(writer.send_bytes(Bytes::from_static(&[3, 4, 5])), Ok(3));
    assert_eq!(writer.send_ack(9, 4), Ok(()));
    assert_eq!(tasks.data.try_recv().unwrap(), Bytes::from_static(&[1, 2]));
    assert_eq!(tasks.data.try_recv().unwrap(), Bytes::from_static(&[3, 4, 5]));
    let ack = tasks.acks.try_recv().unwrap();
    assert_eq!(ack.base_packet_num, 9);
    assert_eq!(ack.num_packets_consumed, 4);

    for _ in 0..DATA_CHANNEL_BOUND {
        assert_eq!(writer.send_data(&[0]), Ok(1));
    }
    assert_eq!(
        writer.send_data(&[0]),
        Err(BluefinError::WriteError("Failed to send data (channel full or closed)"))
    );
    drop(tasks);
    assert_eq!(
        writer.send_ack(1, 1),
        Err(BluefinError::WriteError("Failed to send ack"))
    );

    writer.mark_closed();
    assert_eq!(writer.send_data(&[0]), Err(BluefinError::ConnectionClosed));
    assert_eq!(
        writer.send_bytes(Bytes::from_static(&[1])),
        Err(BluefinError::ConnectionClosed)
    );

    let fin_ack = BluefinPacket::from_bytes(&writer.fin_ack_datagram(6)).unwrap();
    assert_eq!(fin_ack[0].header.type_field, PacketType::FinAck);
    assert_eq!(fin_ack[0].header.source_connection_id, 0xa);
}

#[test]
fn outcomes_of_the_channel_are_told() {
    assert_eq!(WriterHandler::sent(true, 4), Ok(4));
    assert_eq!(
        WriterHandler::sent(false, 4),
        Err(BluefinError::WriteError("Failed to send data (channel full or closed)"))
    );
    assert_eq!(WriterHandler::sent_async(true, 4), Ok(4));
    assert_eq!(
        WriterHandler::sent_async(false, 4),
        Err(BluefinError::WriteError("Failed to send data (channel closed)"))
    );
    assert_eq!(WriterHandler::acked(true), Ok(()));
    assert_eq!(
        WriterHandler::acked(false),
        Err(BluefinError::WriteError("Failed to send ack"))
    );
}

#[test]
fn a_flush_ends_with_the_last_accepted_byte() {
    let mut pump = DataPump::new(10, 0x11, 0x22);
    let mut pending = PendingBytes::new();
    let mut received = vec![Bytes::from(vec![7u8; 200_000]), Bytes::new(), Bytes::from_static(&[1])];
    for data in &received {
        pending.accept(data.len());
    }
    pump.receive(&mut received);
    let mut on_the_wire = 0;
    loop {
        let batch = pump.make_datagrams();
        if batch.datagrams.is_empty() {
            assert!(batch.loads.is_empty());
            break;
        }
        assert_eq!(batch.datagrams.len(), batch.loads.len());
        for (datagram, load) in batch.datagrams.iter().zip(batch.loads) {
            let packets = BluefinPacket::from_bytes(datagram).unwrap();
            assert_eq!(load, packets.iter().map(|packet| packet.payload.len()).sum::<usize>());
            on_the_wire += load;
            assert_eq!(pending.done(load), on_the_wire == 200_001);
            assert_eq!(pending.bytes(), 200_001 - on_the_wire);
        }
    }
    assert!(pending.is_drained());
    // What the channel refuses is taken off again.
    pending.accept(9);
    assert!(pending.done(9));
}
