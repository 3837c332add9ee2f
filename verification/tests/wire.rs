use bluefin::error::BluefinError;
use bluefin::wire::header::{BluefinHeader, BluefinSecurityFields, PacketType};
use bluefin::wire::packet::BluefinPacket;
use bluefin::wire::{Extract, Serialisable};

#[test]
fn cannot_deserialise_invalid_bytes_into_bluefin_packets() {
    let security_fields = BluefinSecurityFields::new(false, 0x0);

    let mut header = BluefinHeader::new(0x0, 0x0, PacketType::Ack, 13, security_fields);
    let payload: [u8; 32] = rand::random();
    header.type_field = PacketType::UnencryptedData;
    header.type_specific_payload = 32;
    header.version = 13;
    let mut packet = BluefinPacket::builder()
        .header(header.clone())
        .payload(payload.to_vec())
        .build();
    assert_eq!(packet.len(), 52);
    assert!(BluefinPacket::from_bytes(&packet.serialise()).is_ok());

    // Incorrectly specify the length to be 33 instead of 32
    packet.header.type_specific_payload = (payload.len() + 1) as u16;
    assert!(
        BluefinPacket::from_bytes(&packet.serialise()).is_err_and(|e| e
            == BluefinError::ReadError(
                "Cannot read all bytes specified by header",
            ))
    );

    // Now test again but specify a payload length under the actual payload len
    packet.header.type_specific_payload = (payload.len() - 1) as u16;
    assert!(
        BluefinPacket::from_bytes(&packet.serialise()).is_err_and(|e| e
            == BluefinError::ReadError(
                "Was not able to read all bytes into bluefin packets",
            ))
    );
}

#[test]
fn able_to_deserialise_bytes_into_multiple_bluefin_packets_correctly() {
    // Build 6 packets
    let mut packets = vec![];
    let security_fields = BluefinSecurityFields::new(false, 0x0);

    // Push in an ack
    let mut header = BluefinHeader::new(0x0, 0x0, PacketType::Ack, 13, security_fields);
    let mut packet = BluefinPacket::builder().header(header.clone()).build();
    packets.push(packet);

    // Push in data payload with 32 bytes
    let payload: [u8; 32] = rand::random();
    header.type_field = PacketType::UnencryptedData;
    header.type_specific_payload = 32;
    header.version = 13;
    packet = BluefinPacket::builder()
        .header(header.clone())
        .payload(payload.to_vec())
        .build();
    packets.push(packet);

    // Push in data payload with 20 bytes
    let payload: [u8; 20] = rand::random();
    header.type_field = PacketType::UnencryptedData;
    header.type_specific_payload = 20;
    header.destination_connection_id = 0x123;
    header.version = 15;
    packet = BluefinPacket::builder()
        .header(header.clone())
        .payload(payload.to_vec())
        .build();
    packets.push(packet);

    // Push in an ack
    header.type_field = PacketType::Ack;
    packet = BluefinPacket::builder().header(header.clone()).build();
    header.version = 0;
    packets.push(packet);

    // Push in an client hello
    header.type_field = PacketType::UnencryptedClientHello;
    packet = BluefinPacket::builder().header(header.clone()).build();
    header.version = 5;
    packets.push(packet);

    // Push in data payload with 15 bytes
    let payload: [u8; 15] = rand::random();
    header.type_field = PacketType::UnencryptedData;
    header.destination_connection_id = 0x0;
    header.source_connection_id = 0xabc;
    header.type_specific_payload = 15;
    packet = BluefinPacket::builder()
        .header(header.clone())
        .payload(payload.to_vec())
        .build();
    packets.push(packet);

    // Serialise packets and place into array
    let mut bytes = vec![];
    for p in &packets {
        bytes.extend_from_slice(&p.serialise());
    }

    // Total bytes should be the sum of the payloads plus all of the headers
    assert_eq!(bytes.len(), 32 + 20 + 15 + (6 * 20));

    // We were able to correctly restore the packets
    let rebuilt_packets_res = BluefinPacket::from_bytes(&bytes);
    assert!(rebuilt_packets_res.is_ok());

    let rebuild_packets = rebuilt_packets_res.unwrap();
    assert_eq!(rebuild_packets.len(), packets.len());

    for i in 0..packets.len() {
        let expected = &packets[i];
        let actual = &rebuild_packets[i];
        assert_eq!(
            expected.header.source_connection_id,
            actual.header.source_connection_id
        );
        assert_eq!(
            expected.header.destination_connection_id,
            actual.header.destination_connection_id
        );
        assert_eq!(expected.header.version, actual.header.version);
        assert_eq!(expected.payload, actual.payload);
    }
}

fn sample_header() -> BluefinHeader {
    let mut header = BluefinHeader::new(
        0x0102_0304,
        0xa0b0_c0d0,
        PacketType::Fin,
        0x1234,
        BluefinSecurityFields::new(true, 0x05),
    );
    header.version = 9;
    header.with_packet_number(0x1122_3344_5566_7788);
    header
}

#[test]
fn header_layout_on_the_wire() {
    let bytes = sample_header().serialise();
    assert_eq!(
        bytes,
        vec![
            0x95, 0x12, 0x34, 0x85, 0x01, 0x02, 0x03, 0x04, 0xa0, 0xb0, 0xc0, 0xd0, 0x11, 0x22,
            0x33, 0x44, 0x55, 0x66, 0x77, 0x88
        ]
    );
    assert_eq!(BluefinHeader::deserialise(&bytes).unwrap(), sample_header());
}

#[test]
fn header_errors() {
    assert_eq!(
        BluefinHeader::deserialise(&[0u8; 19]),
        Err(BluefinError::DeserialiseError(
            "Cannot deserialise into Bluefin header with less than 20 bytes".to_string()
        ))
    );
    assert_eq!(
        BluefinHeader::deserialise(&[0x0fu8; 20]),
        Err(BluefinError::DeserialiseError("Unknown bluefin packet type".to_string()))
    );
    assert!(BluefinPacket::from_bytes(&[0x0fu8; 20]).is_err());
    assert_eq!(
        BluefinPacket::from_bytes(&[0u8; 19]).unwrap_err(),
        BluefinError::ReadError("Array must be at least 20 bytes")
    );
    assert_eq!(
        BluefinPacket::deserialise(&[0u8; 3]).unwrap_err(),
        BluefinError::DeserialiseError(
            "Cannot deserialise into Bluefin packet with less than 20 bytes".to_string()
        )
    );
}

#[test]
fn security_fields_on_the_wire() {
    let fields = BluefinSecurityFields::new(true, 0x7f);
    assert_eq!(fields.serialise(), vec![0xff]);
    assert_eq!(BluefinSecurityFields::deserialise(&[0xff]).unwrap(), fields);
    assert!(BluefinSecurityFields::deserialise(&[]).is_err());
    assert!(!BluefinSecurityFields::default().encrypted());
    assert_eq!(BluefinSecurityFields::new(false, 0x81).mask(), 1);
}

#[test]
fn serialise_into_leaves_the_rest_of_the_buffer() {
    let mut header = sample_header();
    header.type_field = PacketType::UnencryptedData;
    header.type_specific_payload = 3;
    let packet = BluefinPacket::builder().header(header).payload(vec![7, 8, 9]).build();
    let mut buf = vec![0xeeu8; 30];
    assert_eq!(packet.serialise_into(&mut buf), 23);
    assert_eq!(&buf[..23], &packet.serialise()[..]);
    assert_eq!(&buf[23..], &[0xee; 7]);
    let back = BluefinPacket::deserialise(&buf[..23]).unwrap();
    assert_eq!(back.payload, vec![7, 8, 9]);
    assert_eq!(back.header, header);
}

#[test]
fn from_bytes_into_keeps_what_precedes_a_fault() {
    let mut header = sample_header();
    header.type_field = PacketType::UnencryptedData;
    header.type_specific_payload = 2;
    let good = BluefinPacket::builder().header(header).payload(vec![1, 2]).build();
    let mut bytes = good.serialise();
    bytes.extend_from_slice(&[0; 7]);
    let mut packets = vec![BluefinPacket::default()];
    assert_eq!(
        BluefinPacket::from_bytes_into(&bytes, &mut packets),
        Err(BluefinError::ReadError("Was not able to read all bytes into bluefin packets"))
    );
    assert_eq!(packets.len(), 2);
    assert_eq!(packets[1].payload, vec![1, 2]);

    let mut packets = vec![];
    assert_eq!(BluefinPacket::from_bytes_into(&good.serialise(), &mut packets), Ok(1));
}

#[test]
fn empty_data_packet_is_not_accepted_at_the_end() {
    let mut header = sample_header();
    header.type_field = PacketType::UnencryptedData;
    header.type_specific_payload = 0;
    let empty = BluefinPacket::builder().header(header).build();
    assert!(BluefinPacket::from_bytes(&empty.serialise()).is_err());
    let mut bytes = empty.serialise();
    bytes.extend_from_slice(&BluefinPacket::builder().header(sample_header()).build().serialise());
    assert_eq!(BluefinPacket::from_bytes(&bytes).unwrap().len(), 2);
}

#[test]
fn fin_is_header_only() {
    let fin = BluefinPacket::builder().header(sample_header()).build();
    let read = BluefinPacket::from_bytes(&fin.serialise()).unwrap();
    assert_eq!(read.len(), 1);
    assert_eq!(read[0].header.type_field, PacketType::Fin);
}

#[test]
fn extract_leaves_the_default() {
    let mut slot = vec![1, 2, 3];
    assert_eq!(slot.extract(), vec![1, 2, 3]);
    assert!(slot.is_empty());
}
