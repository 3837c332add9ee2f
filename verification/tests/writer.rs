use std::collections::VecDeque;

use bluefin::wire::header::PacketType;
use bluefin::wire::packet::BluefinPacket;
use bluefin::worker::ack::AckData;
use bluefin::worker::handle::WriterHandler;
use bluefin::worker::packing::{
    MAX_BLUEFIN_BYTES_IN_UDP_DATAGRAM, MAX_BLUEFIN_PACKETS_IN_UDP_DATAGRAM,
    MAX_BLUEFIN_PAYLOAD_SIZE_BYTES,
};
use bluefin::worker::pending::PendingBytes;
use bytes::Bytes;

#[test]
fn writer_queue_consume_ack_for_one_datagram_behaves_as_expected() {
    for num_acks in [550usize, 1, 10, 760] {
        let expected_byte_size = num_acks * 20;
        assert_ne!(expected_byte_size, 0);
        assert!(expected_byte_size <= MAX_BLUEFIN_BYTES_IN_UDP_DATAGRAM);

        let mut queue = VecDeque::new();
        for _ in 0..num_acks {
            queue.push_back(AckData {
                base_packet_num: 1,
                num_packets_consumed: 3,
            });
        }

        let consume_res = WriterHandler::consume_acks(&mut queue, 0xbcd, 0x521);
        assert!(consume_res.is_some());

        let consume = consume_res.unwrap();
        assert_eq!(consume.len(), expected_byte_size);

        let packets_res = BluefinPacket::from_bytes(&consume);
        assert!(packets_res.is_ok());

        let packets = packets_res.unwrap();
        assert_eq!(packets.len(), num_acks);

        for p in packets {
            assert_eq!(p.len(), 20);
            assert_eq!(p.header.type_field, PacketType::Ack);
            assert_eq!(p.header.source_connection_id, 0xbcd);
            assert_eq!(p.header.destination_connection_id, 0x521);
            assert_eq!(p.header.type_specific_payload as usize, 3);
            assert_eq!(p.header.packet_number, 1);
        }

        assert!(WriterHandler::consume_acks(&mut queue, 0x0, 0x0).is_none());
    }
}

#[test]
fn writer_queue_consume_ack_for_multiple_datagrams_behaves_as_expected() {
    for num_acks in [1000usize, 761, 1234, 763, 2000] {
        let expected_byte_size = num_acks * 20;
        let num_datagrams = expected_byte_size.div_ceil(MAX_BLUEFIN_BYTES_IN_UDP_DATAGRAM);
        assert_ne!(expected_byte_size, 0);
        assert!(expected_byte_size > MAX_BLUEFIN_BYTES_IN_UDP_DATAGRAM);
        assert!(num_datagrams > 1 && num_datagrams <= 10);

        let mut queue = VecDeque::new();
        for ix in 0..num_acks {
            queue.push_back(AckData {
                base_packet_num: ix as u64,
                num_packets_consumed: ix + 1,
            });
        }

        let consume_res = WriterHandler::consume_acks(&mut queue, 0xbcd, 0x521);
        assert!(consume_res.is_some());

        let consume = consume_res.unwrap();
        assert_eq!(consume.len(), MAX_BLUEFIN_BYTES_IN_UDP_DATAGRAM);

        let packets_res = BluefinPacket::from_bytes(&consume);
        assert!(packets_res.is_ok());
        let packets = packets_res.unwrap();

        let mut p_num = 0;
        for (ix, p) in packets.iter().enumerate() {
            assert!(p.len() <= 20);
            assert_eq!(p.header.type_field, PacketType::Ack);
            assert_eq!(p.header.source_connection_id, 0xbcd);
            assert_eq!(p.header.destination_connection_id, 0x521);
            assert_eq!(p.header.packet_number, ix as u64);
            assert_eq!(p.header.type_specific_payload as usize, ix + 1);
            p_num = ix;
        }
        assert_ne!(p_num, 0);

        let mut actual_num_acks = 0;
        actual_num_acks += packets.len();

        let mut counter = 0;
        let mut consume_res = WriterHandler::consume_acks(&mut queue, 0x0, 0x0);
        while counter <= 10 && consume_res.is_some() {
            let consume = consume_res.unwrap();
            let packets_res = BluefinPacket::from_bytes(&consume);
            assert!(packets_res.is_ok());
            let packets = packets_res.unwrap();
            for (ix, p) in packets.iter().enumerate() {
                assert!(p.len() <= 20);
                assert_eq!(p.header.type_field, PacketType::Ack);
                assert_eq!(p.header.source_connection_id, 0x0);
                assert_eq!(p.header.destination_connection_id, 0x0);
                assert_eq!(p.header.packet_number, (ix + p_num + 1) as u64);
                assert_eq!(p.header.type_specific_payload as usize, ix + p_num + 2);
            }
            p_num += packets.len();

            actual_num_acks += packets.len();
            consume_res = WriterHandler::consume_acks(&mut queue, 0x0, 0x0);
            counter += 1;
        }
        assert_eq!(num_acks, actual_num_acks);
    }
}

#[test]
fn writer_queue_consume_data_for_one_datagram_behaves_as_expected() {
    let cases: [(usize, usize); 14] = [
        (6, 550),
        (20, 700),
        (1, 10000),
        (2, 5000),
        (1, 15000),
        (1, 1),
        (10000, 1),
        (5555, 1),
        (5432, 2),
        (100, 100),
        (57, 57),
        (55, 56),
        (3, 2000),
        (10, 123),
    ];
    for (num_iterations, payload_size) in cases {
        let payload_size_total = num_iterations * payload_size;
        let num_packets_total = payload_size_total.div_ceil(MAX_BLUEFIN_PAYLOAD_SIZE_BYTES);
        let bytes_total = payload_size_total + (20 * num_packets_total);
        assert!(bytes_total <= MAX_BLUEFIN_BYTES_IN_UDP_DATAGRAM);

        let mut queue = VecDeque::new();
        for ix in 0..num_iterations {
            let data = vec![ix as u8; payload_size];
            queue.push_back(data.to_vec());
        }

        let mut next_packet_num = 0;
        let src_conn_id = 0x123;
        let dst_conn_id = 0xabc;
        let consume_res =
            WriterHandler::consume_data(&mut queue, &mut next_packet_num, src_conn_id, dst_conn_id);
        assert!(consume_res.is_some());

        let consume = consume_res.unwrap();
        let bluefin_packets_created =
            (num_iterations * payload_size).div_ceil(MAX_BLUEFIN_PAYLOAD_SIZE_BYTES);
        assert_ne!(bluefin_packets_created, 0);
        assert_eq!(next_packet_num, bluefin_packets_created as u64);
        assert_eq!(
            consume.len(),
            num_iterations * payload_size + (20 * bluefin_packets_created)
        );

        let packets_res = BluefinPacket::from_bytes(&consume);
        assert!(packets_res.is_ok());

        let packets = packets_res.unwrap();
        assert_eq!(packets.len(), bluefin_packets_created);

        let mut payload_bytes = 0;
        for p in packets {
            assert!(p.len() <= MAX_BLUEFIN_PAYLOAD_SIZE_BYTES + 20);
            assert_eq!(p.header.type_field, PacketType::UnencryptedData);
            assert_eq!(p.header.source_connection_id, src_conn_id);
            assert_eq!(p.header.destination_connection_id, dst_conn_id);
            assert_eq!(p.header.type_specific_payload as usize, p.payload.len());
            payload_bytes += p.payload.len();
        }

        assert_eq!(payload_bytes, num_iterations * payload_size);

        assert!(consume.len() <= MAX_BLUEFIN_BYTES_IN_UDP_DATAGRAM);
        assert!(
            WriterHandler::consume_data(&mut queue, &mut next_packet_num, 0x123, 0x456).is_none()
        );
    }
}

#[test]
fn writer_queue_consume_data_for_multiple_datagram_behaves_as_expected() {
    let cases: [(usize, usize); 11] = [
        (30, 550),
        (1, 15200),
        (15200, 1),
        (577, 43),
        (2, 15200),
        (5, 15200),
        (1, 15001),
        (87, 292),
        (9, 15001),
        (1, 150000),
        (432, 234),
    ];
    for (num_iterations, payload_size) in cases {
        let payload_size_total = num_iterations * payload_size;
        let num_packets_total = payload_size_total.div_ceil(MAX_BLUEFIN_PAYLOAD_SIZE_BYTES);
        let bytes_total = payload_size_total + (20 * num_packets_total);
        assert!(bytes_total > MAX_BLUEFIN_BYTES_IN_UDP_DATAGRAM);

        let num_datagrams = bytes_total.div_ceil(MAX_BLUEFIN_BYTES_IN_UDP_DATAGRAM);
        assert!(num_datagrams >= 1 && num_datagrams <= 10);

        let mut expected_data = vec![];
        let mut queue = VecDeque::new();
        for ix in 0..num_iterations {
            let data = vec![ix as u8; payload_size];
            expected_data.extend_from_slice(&data);
            queue.push_back(data.to_vec());
        }

        let mut next_packet_num = 0;
        let src_conn_id = 0x123;
        let dst_conn_id = 0xabc;
        let consume_res =
            WriterHandler::consume_data(&mut queue, &mut next_packet_num, src_conn_id, dst_conn_id);
        assert!(consume_res.is_some());

        let consume = consume_res.unwrap();
        assert_eq!(consume.len(), MAX_BLUEFIN_BYTES_IN_UDP_DATAGRAM);

        let packets_res = BluefinPacket::from_bytes(&consume);
        assert!(packets_res.is_ok());

        let packets = packets_res.unwrap();
        assert_eq!(packets.len(), MAX_BLUEFIN_PACKETS_IN_UDP_DATAGRAM);

        let mut actual_data = vec![];
        for p in packets {
            assert!(p.len() <= MAX_BLUEFIN_PAYLOAD_SIZE_BYTES + 20);
            assert_eq!(p.header.type_field, PacketType::UnencryptedData);
            assert_eq!(p.header.source_connection_id, src_conn_id);
            assert_eq!(p.header.destination_connection_id, dst_conn_id);
            assert_eq!(p.header.type_specific_payload as usize, p.payload.len());
            actual_data.extend_from_slice(&p.payload);
        }

        let mut counter = 0;
        let mut consume_res =
            WriterHandler::consume_data(&mut queue, &mut next_packet_num, src_conn_id, dst_conn_id);
        while counter < 10 && consume_res.is_some() {
            let consume = consume_res.as_ref().unwrap();
            assert_ne!(consume.len(), 0);

            let packets_res = BluefinPacket::from_bytes(consume);
            assert!(packets_res.is_ok());
            let packets = packets_res.unwrap();
            assert_ne!(packets.len(), 0);
            for p in packets {
                assert!(p.len() <= MAX_BLUEFIN_PAYLOAD_SIZE_BYTES + 20);
                assert_eq!(p.header.type_field, PacketType::UnencryptedData);
                assert_eq!(p.header.source_connection_id, src_conn_id);
                assert_eq!(p.header.destination_connection_id, dst_conn_id);
                assert_eq!(p.header.type_specific_payload as usize, p.payload.len());
                actual_data.extend_from_slice(&p.payload);
            }

            counter += 1;
            consume_res = WriterHandler::consume_data(
                &mut queue,
                &mut next_packet_num,
                src_conn_id,
                dst_conn_id,
            );
        }
        assert_eq!(num_datagrams, 1 + counter);
        assert_eq!(expected_data, actual_data);
    }
}

#[test]
fn empty_data_queue_gives_nothing() {
    let mut queue: VecDeque<Vec<u8>> = VecDeque::new();
    let mut next_packet_num = 77;
    assert!(WriterHandler::consume_data(&mut queue, &mut next_packet_num, 1, 2).is_none());
    assert_eq!(next_packet_num, 77);
}

#[test]
fn empty_ack_queue_gives_nothing() {
    let mut queue: VecDeque<AckData> = VecDeque::new();
    assert!(WriterHandler::consume_acks(&mut queue, 1, 2).is_none());
    let mut bytes = Vec::new();
    assert!(!WriterHandler::consume_acks_into(&mut queue, 1, 2, &mut bytes));
    assert!(bytes.is_empty());
}

#[test]
fn both_packetizers_agree() {
    for sizes in [
        vec![1usize],
        vec![1500, 1500],
        vec![700, 900, 0, 3000, 1],
        vec![15001],
        vec![40000, 5, 0, 0, 8],
    ] {
        let mut plain: VecDeque<Vec<u8>> = VecDeque::new();
        let mut shared: VecDeque<Bytes> = VecDeque::new();
        for (i, size) in sizes.iter().enumerate() {
            let data: Vec<u8> = (0..*size).map(|b| (b % 251) as u8 ^ i as u8).collect();
            plain.push_back(data.clone());
            shared.push_back(Bytes::from(data));
        }
        let mut plain_next = 5u64;
        let mut shared_next = 5u64;
        loop {
            let expected = WriterHandler::consume_data(&mut plain, &mut plain_next, 3, 4);
            let mut datagram = Vec::new();
            let ready = WriterHandler::consume_data_into(
                &mut shared,
                &mut shared_next,
                3,
                4,
                &mut datagram,
            );
            assert_eq!(ready, expected.is_some());
            assert_eq!(plain_next, shared_next);
            match expected {
                Some(bytes) => assert_eq!(bytes, datagram),
                None => break,
            }
        }
        assert!(plain.is_empty());
        assert!(shared.is_empty());
    }
}

#[test]
fn consume_data_into_appends_to_what_is_there() {
    let mut queue: VecDeque<Bytes> = VecDeque::new();
    queue.push_back(Bytes::from_static(&[9, 8, 7]));
    let mut next = 2u64;
    let mut datagram = vec![0xaa];
    assert!(WriterHandler::consume_data_into(&mut queue, &mut next, 0x01020304, 0x0a0b0c0d, &mut datagram));
    assert_eq!(next, 3);
    assert_eq!(datagram.len(), 1 + 20 + 3);
    assert_eq!(datagram[0], 0xaa);
    assert_eq!(&datagram[21..], &[9, 8, 7]);
    let packets = BluefinPacket::from_bytes(&datagram[1..]).unwrap();
    assert_eq!(packets[0].header.packet_number, 2);
    assert_eq!(packets[0].header.source_connection_id, 0x01020304);
}

#[test]
fn acks_fill_the_room_that_is_left() {
    let mut queue = VecDeque::new();
    for i in 0..5u64 {
        queue.push_back(AckData { base_packet_num: i, num_packets_consumed: 65536 + 7 });
    }
    let mut bytes = vec![0u8; MAX_BLUEFIN_BYTES_IN_UDP_DATAGRAM - 59];
    assert!(WriterHandler::consume_acks_into(&mut queue, 1, 2, &mut bytes));
    assert_eq!(bytes.len(), MAX_BLUEFIN_BYTES_IN_UDP_DATAGRAM - 19);
    assert_eq!(queue.len(), 3);
    let packets = BluefinPacket::from_bytes(&bytes[MAX_BLUEFIN_BYTES_IN_UDP_DATAGRAM - 59..]).unwrap();
    assert_eq!(packets.len(), 2);
    assert_eq!(packets[0].header.type_specific_payload, 7);
}

#[test]
fn both_ways_to_make_a_datagram_agree() {
    let queues: [Vec<Vec<u8>>; 5] = [
        vec![],
        vec![vec![], vec![]],
        vec![vec![1; 10], vec![], vec![2; 1495]],
        vec![vec![3; 7000], vec![4; 7999], vec![5; 2]],
        vec![vec![6; 15_000], vec![7; 1]],
    ];
    for parts in queues {
        let mut queue: VecDeque<Vec<u8>> = parts.clone().into();
        let mut shared: VecDeque<Bytes> = parts.into_iter().map(Bytes::from).collect();
        let mut next = 40u64;
        let mut next_shared = 40u64;
        loop {
            let datagram = WriterHandler::consume_data(&mut queue, &mut next, 0xbcd, 0x521);
            let mut ans = Vec::new();
            let ready = WriterHandler::consume_data_into(
                &mut shared,
                &mut next_shared,
                0xbcd,
                0x521,
                &mut ans,
            );
            assert_eq!(ready, datagram.is_some());
            assert_eq!(ans, datagram.clone().unwrap_or_default());
            assert_eq!(next, next_shared);
            let left: Vec<Vec<u8>> = queue.iter().cloned().collect();
            let left_shared: Vec<Vec<u8>> = shared.iter().map(|part| part.to_vec()).collect();
            assert_eq!(left, left_shared);
            if datagram.is_none() {
                break;
            }
        }
    }
}

#[test]
fn a_flush_waits_for_the_pending_bytes() {
    let mut pending = PendingBytes::new();
    assert!(pending.is_drained());
    pending.accept(5);
    pending.accept(0);
    pending.accept(7);
    assert_eq!(pending.bytes(), 12);
    assert!(!pending.done(5));
    assert!(!pending.is_drained());
    assert!(pending.done(7));
    assert!(pending.is_drained());
    assert_eq!(pending.bytes(), 0);
}
