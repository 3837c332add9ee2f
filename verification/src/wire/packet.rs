use vstd::prelude::*;

use crate::error::{BluefinError, BluefinResult, ErrorView};
use crate::wire::Serialisable;
use crate::wire::big_endian::be_value;
use crate::wire::header::{BLUEFIN_HEADER_SIZE_BYTES, BluefinHeader, law_header_is_canonical,
    law_header_round_trip};

verus! {

broadcast use vstd::string::group_string_axioms;

/// A header and the bytes that follow it.
#[derive(Clone, Debug)]
pub struct BluefinPacket {
    pub header: BluefinHeader,
    pub payload: Vec<u8>,
}

/// The mathematical value of a [`BluefinPacket`].
#[verifier::ext_equal]
pub ghost struct PacketView {
    pub header: BluefinHeader,
    pub payload: Seq<u8>,
}

pub struct BluefinPacketBuilder {
    header: Option<BluefinHeader>,
    payload: Option<Vec<u8>>,
}

/// Entire packet representation, with the ip and udp metadata and the
/// deserialised bluefin packet.
#[derive(Clone, Debug)]
pub struct Packet {
    pub src_ip: [u8; 4],
    pub dst_ip: [u8; 4],
    pub src_port: u16,
    pub dst_port: u16,
    pub payload: BluefinPacket,
}

impl View for BluefinPacket {
    type V = PacketView;

    open spec fn view(&self) -> PacketView {
        PacketView { header: self.header, payload: self.payload@ }
    }
}

/// The values of a sequence of packets.
pub open spec fn packet_views(packets: Seq<BluefinPacket>) -> Seq<PacketView> {
    packets.map_values(|p: BluefinPacket| p@)
}

impl PacketView {
    /// The bytes of the packet on the wire: header, then payload.
    pub open spec fn wire(self) -> Seq<u8> {
        self.header.wire_bytes() + self.payload
    }

    /// The header describes the packet: its fields fit on the wire, and its
    /// type and its type-specific payload give the payload's length.
    pub open spec fn well_formed(self) -> bool {
        &&& self.header.valid()
        &&& if self.header.type_field.spec_is_header_only() {
            self.payload.len() == 0
        } else {
            self.payload.len() == self.header.type_specific_payload
        }
    }
}

/// The bytes of a datagram that carries `packets`.
pub open spec fn stream_bytes(packets: Seq<PacketView>) -> Seq<u8>
    decreases packets.len(),
{
    if packets.len() == 0 {
        Seq::empty()
    } else {
        packets[0].wire() + stream_bytes(packets.skip(1))
    }
}

/// What a reader of `bytes` finds: the packets at their front and, where it
/// cannot get to the end, the error that stops it.
pub open spec fn scan(bytes: Seq<u8>) -> (Seq<PacketView>, Option<ErrorView>)
    decreases bytes.len(),
{
    if bytes.len() == 0 {
        (Seq::empty(), None)
    } else if bytes.len() < BLUEFIN_HEADER_SIZE_BYTES {
        (
            Seq::empty(),
            Some(ErrorView::ReadError("Was not able to read all bytes into bluefin packets"@)),
        )
    } else {
        match BluefinHeader::parsed(bytes) {
            Err(e) => (Seq::empty(), Some(e)),
            Ok(header) => {
                let len: int = if header.type_field.spec_is_header_only() {
                    0
                } else {
                    header.type_specific_payload as int
                };
                if !header.type_field.spec_is_header_only() && (bytes.len()
                    == BLUEFIN_HEADER_SIZE_BYTES || bytes.len() < BLUEFIN_HEADER_SIZE_BYTES + len) {
                    (
                        Seq::empty(),
                        Some(ErrorView::ReadError("Cannot read all bytes specified by header"@)),
                    )
                } else {
                    let packet = PacketView {
                        header,
                        payload: bytes.subrange(20, 20 + len),
                    };
                    let rest = scan(bytes.skip(20 + len));
                    (seq![packet] + rest.0, rest.1)
                }
            },
        }
    }
}

/// What a datagram holds: at least one header must fit in it.
pub open spec fn scan_datagram(bytes: Seq<u8>) -> (Seq<PacketView>, Option<ErrorView>) {
    if bytes.len() < BLUEFIN_HEADER_SIZE_BYTES {
        (Seq::empty(), Some(ErrorView::ReadError("Array must be at least 20 bytes"@)))
    } else {
        scan(bytes)
    }
}

/// What happens at one step of [`scan`].
proof fn lemma_scan_step(bytes: Seq<u8>, header: BluefinHeader, len: int)
    requires
        BluefinHeader::parsed(bytes) == Ok::<BluefinHeader, ErrorView>(header),
        bytes.len() >= 20 + len,
        header.type_field.spec_is_header_only() ==> len == 0,
        !header.type_field.spec_is_header_only() ==> len == header.type_specific_payload
            && bytes.len() > 20,
    ensures
        scan(bytes).0 == seq![PacketView { header, payload: bytes.subrange(20, 20 + len) }] + scan(
            bytes.skip(20 + len),
        ).0,
        scan(bytes).1 == scan(bytes.skip(20 + len)).1,
{
}

impl Serialisable for BluefinPacket {
    open spec fn wire_bytes(&self) -> Seq<u8> {
        self@.wire()
    }

    open spec fn reads_as(bytes: Seq<u8>, outcome: Result<Self, ErrorView>) -> bool {
        if bytes.len() < BLUEFIN_HEADER_SIZE_BYTES {
            outcome == Err::<Self, ErrorView>(
                ErrorView::DeserialiseError(
                    "Cannot deserialise into Bluefin packet with less than 20 bytes"@,
                ),
            )
        } else {
            match BluefinHeader::parsed(bytes.take(20)) {
                Err(e) => outcome == Err::<Self, ErrorView>(e),
                Ok(header) => outcome matches Ok(packet) && packet@ == (PacketView {
                    header,
                    payload: bytes.skip(20),
                }),
            }
        }
    }

    #[inline]
    fn serialise(&self) -> (bytes: Vec<u8>) {
        let mut header_bytes: Vec<u8> = self.header.serialise();
        header_bytes.extend_from_slice(self.payload.as_slice());
        assert(header_bytes@ =~= self@.wire());
        header_bytes
    }

    #[inline]
    fn deserialise(bytes: &[u8]) -> (value: Result<Self, BluefinError>) {
        if bytes.len() < BLUEFIN_HEADER_SIZE_BYTES {
            return Err(
                BluefinError::DeserialiseError(
                    "Cannot deserialise into Bluefin packet with less than 20 bytes".to_string(),
                ),
            );
        }
        let header = match BluefinHeader::deserialise(&bytes[0..20]) {
            Ok(header) => header,
            Err(e) => {
                assert(bytes@.subrange(0, 20) =~= bytes@.take(20));
                return Err(e);
            },
        };
        let payload: Vec<u8> = vstd::slice::slice_to_vec(&bytes[20..bytes.len()]);
        assert(bytes@.subrange(0, 20) =~= bytes@.take(20));
        assert(payload@ =~= bytes@.skip(20));
        Ok(BluefinPacket { header, payload })
    }
}

impl Default for BluefinPacket {
    #[inline]
    fn default() -> (packet: Self)
        ensures
            packet.header == BluefinHeader::blank(),
            packet.payload@.len() == 0,
    {
        BluefinPacket { header: BluefinHeader::default(), payload: Vec::new() }
    }
}

impl BluefinPacket {
    #[inline]
    pub fn builder() -> (builder: BluefinPacketBuilder)
        ensures
            builder.chosen_header() is None,
            builder.chosen_payload() is None,
    {
        BluefinPacketBuilder { header: None, payload: None }
    }

    /// Length of the packet in bytes.
    #[inline]
    pub fn len(&self) -> (len: usize)
        requires
            self.payload@.len() + 20 <= usize::MAX,
        ensures
            len == self@.wire().len(),
    {
        proof {
            self.header.lemma_wire_len();
        }
        self.payload.len() + 20
    }

    /// Writes the packet over the first bytes of `buf` and returns how many it
    /// wrote.
    #[inline]
    pub fn serialise_into(&self, buf: &mut [u8]) -> (written: usize)
        requires
            old(buf)@.len() >= 20 + self.payload@.len(),
        ensures
            written == self@.wire().len(),
            final(buf)@ == self@.wire() + old(buf)@.skip(written as int),
    {
        let ghost before = buf@;
        let room: usize = buf.len();
        let total_len: usize = 20 + self.payload.len();
        proof {
            self.header.lemma_wire_len();
        }
        self.header.serialise_into(buf);
        let mut i: usize = 0;
        while i < self.payload.len()
            invariant
                i <= self.payload@.len(),
                20 + self.payload@.len() == total_len,
                total_len <= room == before.len(),
                buf@.len() == before.len(),
                self.header.wire_bytes().len() == 20,
                forall|k: int| 0 <= k < 20 ==> buf@[k] == self.header.wire_bytes()[k],
                forall|k: int| 0 <= k < i ==> buf@[20 + k] == self.payload@[k],
                forall|k: int| 20 + i <= k < before.len() ==> buf@[k] == before[k],
            decreases self.payload@.len() - i,
        {
            buf[20 + i] = self.payload[i];
            i = i + 1;
        }
        assert(buf@ =~= self@.wire() + before.skip(total_len as int));
        total_len
    }

    /// Reads a datagram as a stream of packets. The bytes must be a valid stream
    /// of bluefin packets, otherwise an error is returned.
    #[inline]
    pub fn from_bytes(bytes: &[u8]) -> (packets: BluefinResult<Vec<BluefinPacket>>)
        ensures
            match packets {
                Ok(found) => scan_datagram(bytes@) == (packet_views(found@), None::<ErrorView>),
                Err(e) => scan_datagram(bytes@).1 == Some(e@),
            },
    {
        let mut packets: Vec<BluefinPacket> = Vec::with_capacity(16);
        match Self::from_bytes_into(bytes, &mut packets) {
            Ok(_) => {
                assert(packet_views(Seq::<BluefinPacket>::empty()) =~= Seq::empty());
                assert(packet_views(packets@) =~= scan_datagram(bytes@).0);
                Ok(packets)
            },
            Err(e) => Err(e),
        }
    }

    /// Appends the packets of a datagram to `packets` and returns how many they
    /// are. Where the bytes are no valid stream, the packets in front of the
    /// fault have been appended all the same.
    #[inline]
    pub fn from_bytes_into(bytes: &[u8], packets: &mut Vec<BluefinPacket>) -> (found: BluefinResult<
        usize,
    >)
        ensures
            packet_views(final(packets)@) == packet_views(old(packets)@) + scan_datagram(bytes@).0,
            final(packets)@.take(old(packets)@.len() as int) == old(packets)@,
            match found {
                Ok(n) => scan_datagram(bytes@).1 is None && n == scan_datagram(bytes@).0.len(),
                Err(e) => scan_datagram(bytes@).1 == Some(e@),
            },
    {
        let ghost before = packets@;
        if bytes.len() < BLUEFIN_HEADER_SIZE_BYTES {
            assert(packet_views(packets@) =~= packet_views(before) + Seq::empty());
            assert(packets@.take(before.len() as int) =~= before);
            return Err(BluefinError::ReadError("Array must be at least 20 bytes"));
        }
        let total: usize = bytes.len();
        let mut cursor: usize = 0;
        let mut count: usize = 0;
        let ghost mut read: Seq<PacketView> = Seq::empty();
        assert(bytes@.skip(0) =~= bytes@);
        assert(scan(bytes@).0 =~= read + scan(bytes@.skip(0)).0);
        assert(packet_views(packets@) =~= packet_views(before) + read);
        while cursor < total && total - cursor >= 20
            invariant
                before == old(packets)@,
                cursor <= total == bytes@.len(),
                scan(bytes@).0 == read + scan(bytes@.skip(cursor as int)).0,
                scan(bytes@).1 == scan(bytes@.skip(cursor as int)).1,
                packet_views(packets@) == packet_views(before) + read,
                packets@.len() == before.len() + count,
                packets@.take(before.len() as int) == before,
                count == read.len(),
                20 * count <= cursor,
                total >= BLUEFIN_HEADER_SIZE_BYTES,
            decreases total - cursor,
        {
            let ghost rest = bytes@.skip(cursor as int);
            let ghost read0 = read;
            let ghost packets0 = packets@;
            let header = match BluefinHeader::deserialise(&bytes[cursor..cursor + 20]) {
                Ok(header) => header,
                Err(e) => {
                    proof {
                        lemma_parsed_prefix(rest, bytes@.subrange(cursor as int, cursor + 20));
                        assert(packet_views(packets@) =~= packet_views(before)
                            + scan_datagram(bytes@).0);
                    }
                    return Err(e);
                },
            };
            proof {
                lemma_parsed_prefix(rest, bytes@.subrange(cursor as int, cursor + 20));
            }
            if header.type_field.is_header_only() {
                packets.push(BluefinPacket { header, payload: Vec::new() });
                proof {
                    lemma_scan_step(rest, header, 0);
                    assert(rest.skip(20) =~= bytes@.skip(cursor + 20));
                    assert(packets@.last()@.payload =~= rest.subrange(20, 20));
                }
                cursor = cursor + 20;
            } else {
                let payload_len: usize = header.type_specific_payload as usize;
                if total - cursor == 20 || total - cursor - 20 < payload_len {
                    proof {
                        assert(packet_views(packets@) =~= packet_views(before)
                            + scan_datagram(bytes@).0);
                    }
                    return Err(BluefinError::ReadError("Cannot read all bytes specified by header"));
                }
                let payload: Vec<u8> = vstd::slice::slice_to_vec(
                    &bytes[cursor + 20..cursor + 20 + payload_len],
                );
                packets.push(BluefinPacket { header, payload });
                proof {
                    lemma_scan_step(rest, header, payload_len as int);
                    assert(rest.skip(20 + payload_len) =~= bytes@.skip(cursor + 20 + payload_len));
                    assert(packets@.last()@.payload =~= rest.subrange(20, 20 + payload_len));
                }
                cursor = cursor + 20 + payload_len;
            }
            proof {
                read = read.push(packets@.last()@);
                let rest1 = bytes@.skip(cursor as int);
                assert(read0 + (seq![packets@.last()@] + scan(rest1).0) =~= read + scan(rest1).0);
                assert(packet_views(packets@) =~= packet_views(packets0).push(packets@.last()@));
                assert(packet_views(packets@) =~= packet_views(before) + read);
                assert(packets@.take(before.len() as int) =~= packets0.take(before.len() as int));
            }
            count = count + 1;
        }
        proof {
            let rest = bytes@.skip(cursor as int);
            assert(rest.len() == total - cursor);
            assert(packet_views(packets@) =~= packet_views(before) + scan_datagram(bytes@).0);
        }
        if cursor != total {
            return Err(
                BluefinError::ReadError("Was not able to read all bytes into bluefin packets"),
            );
        }
        Ok(count)
    }
}

/// A header is read from the first bytes alone.
proof fn lemma_parsed_prefix(bytes: Seq<u8>, prefix: Seq<u8>)
    requires
        bytes.len() >= 20,
        prefix =~= bytes.take(20),
    ensures
        BluefinHeader::parsed(prefix) == BluefinHeader::parsed(bytes),
{
    assert(prefix.subrange(1, 3) =~= bytes.subrange(1, 3));
    assert(prefix.subrange(4, 8) =~= bytes.subrange(4, 8));
    assert(prefix.subrange(8, 12) =~= bytes.subrange(8, 12));
    assert(prefix.subrange(12, 20) =~= bytes.subrange(12, 20));
}

impl BluefinPacketBuilder {
    pub closed spec fn chosen_header(&self) -> Option<BluefinHeader> {
        self.header
    }

    pub closed spec fn chosen_payload(&self) -> Option<Seq<u8>> {
        match self.payload {
            Some(payload) => Some(payload@),
            None => None,
        }
    }

    #[inline]
    pub fn header(self, header: BluefinHeader) -> (builder: Self)
        ensures
            builder.chosen_header() == Some(header),
            builder.chosen_payload() == self.chosen_payload(),
    {
        BluefinPacketBuilder { header: Some(header), payload: self.payload }
    }

    #[inline]
    pub fn payload(self, payload: Vec<u8>) -> (builder: Self)
        ensures
            builder.chosen_header() == self.chosen_header(),
            builder.chosen_payload() == Some(payload@),
    {
        BluefinPacketBuilder { header: self.header, payload: Some(payload) }
    }

    /// The packet with the chosen header, and with an empty payload if none was
    /// chosen.
    #[inline]
    pub fn build(self) -> (packet: BluefinPacket)
        requires
            self.chosen_header() is Some,
        ensures
            packet.header == self.chosen_header()->0,
            packet.payload@ == (match self.chosen_payload() {
                Some(payload) => payload,
                None => Seq::empty(),
            }),
    {
        BluefinPacket {
            header: self.header.unwrap(),
            payload: match self.payload {
                Some(payload) => payload,
                None => Vec::new(),
            },
        }
    }
}

/// A stream survives the wire: a reader of the bytes of well-formed packets
/// finds exactly these packets. (A data packet without payload is not accepted
/// as the last one of a datagram.)
pub proof fn law_stream_round_trip(packets: Seq<PacketView>)
    requires
        forall|i: int| 0 <= i < packets.len() ==> (#[trigger] packets[i]).well_formed(),
        packets.len() > 0 && !packets.last().header.type_field.spec_is_header_only()
            ==> packets.last().payload.len() > 0,
    ensures
        scan(stream_bytes(packets)) == (packets, None::<ErrorView>),
    decreases packets.len(),
{
    let bytes = stream_bytes(packets);
    if packets.len() == 0 {
        assert(scan(bytes).0 =~= packets);
    } else {
        let first = packets[0];
        let rest = packets.skip(1);
        let header = first.header;
        let len = first.payload.len() as int;
        assert(first.well_formed());
        header.lemma_wire_len();
        assert forall|i: int| 0 <= i < rest.len() implies (#[trigger] rest[i]).well_formed() by {
            assert(packets[i + 1].well_formed());
        }
        if rest.len() > 0 {
            assert(rest.last() == packets.last());
            lemma_stream_nonempty(rest);
        }
        law_stream_round_trip(rest);
        law_header_round_trip(header);
        assert(bytes.take(20) =~= header.wire_bytes());
        lemma_parsed_prefix(bytes, header.wire_bytes());
        assert(bytes.subrange(20, 20 + len) =~= first.payload);
        assert(bytes.skip(20 + len) =~= stream_bytes(rest));
        lemma_scan_step(bytes, header, len);
        assert(seq![first] + rest =~= packets);
    }
}

proof fn lemma_stream_nonempty(packets: Seq<PacketView>)
    requires
        packets.len() > 0,
    ensures
        stream_bytes(packets).len() >= 20,
{
    packets[0].header.lemma_wire_len();
}

/// A datagram has one reading: where a reader gets to the end, the packets that
/// it found are well formed, and written again they give the datagram back.
pub proof fn law_stream_is_canonical(bytes: Seq<u8>)
    requires
        scan(bytes).1 is None,
    ensures
        stream_bytes(scan(bytes).0) == bytes,
        forall|i: int| 0 <= i < scan(bytes).0.len() ==> (#[trigger] scan(bytes).0[i]).well_formed(),
    decreases bytes.len(),
{
    let found = scan(bytes).0;
    if bytes.len() == 0 {
        assert(stream_bytes(found) =~= bytes);
    } else {
        let header = BluefinHeader::parsed(bytes)->Ok_0;
        let len: int = if header.type_field.spec_is_header_only() {
            0
        } else {
            header.type_specific_payload as int
        };
        let rest = bytes.skip(20 + len);
        lemma_scan_step(bytes, header, len);
        law_stream_is_canonical(rest);
        law_header_is_canonical(bytes);
        assert(found.skip(1) =~= scan(rest).0);
        assert(found[0].wire() =~= bytes.take(20 + len));
        assert(stream_bytes(found) =~= bytes.take(20 + len) + rest);
        assert(stream_bytes(found) =~= bytes);
        assert forall|i: int| 0 <= i < found.len() implies (#[trigger] found[i]).well_formed() by {
            if i > 0 {
                assert(found[i] == scan(rest).0[i - 1]);
            }
        }
    }
}

/// A packet that was read from bytes is as long as its header says.
pub proof fn law_read_packets_are_well_formed(bytes: Seq<u8>)
    ensures
        forall|i: int|
            0 <= i < scan(bytes).0.len() ==> (#[trigger] scan(bytes).0[i]).payload.len() == (
            if scan(bytes).0[i].header.type_field.spec_is_header_only() {
                0
            } else {
                scan(bytes).0[i].header.type_specific_payload as int
            }),
    decreases bytes.len(),
{
    let found = scan(bytes).0;
    if found.len() > 0 {
        let len = found[0].payload.len() as int;
        let rest = bytes.skip(20 + len);
        law_read_packets_are_well_formed(rest);
        assert(found =~= seq![found[0]] + scan(rest).0);
        assert forall|i: int| 0 <= i < found.len() implies (#[trigger] found[i]).payload.len() == (
        if found[i].header.type_field.spec_is_header_only() {
            0
        } else {
            found[i].header.type_specific_payload as int
        }) by {
            if i > 0 {
                assert(found[i] == scan(rest).0[i - 1]);
            }
        }
    }
}

/// A reader finds the packets in front of a fault: well-formed packets are read as they
/// were written, whatever follows them, and the rest is then read as if it stood alone.
pub proof fn law_packets_before_a_fault_are_found(packets: Seq<PacketView>, rest: Seq<u8>)
    requires
        forall|i: int| 0 <= i < packets.len() ==> (#[trigger] packets[i]).well_formed(),
        rest.len() > 0,
    ensures
        scan(stream_bytes(packets) + rest).0 == packets + scan(rest).0,
        scan(stream_bytes(packets) + rest).1 == scan(rest).1,
    decreases packets.len(),
{
    let bytes = stream_bytes(packets) + rest;
    if packets.len() == 0 {
        assert(bytes =~= rest);
        assert(packets + scan(rest).0 =~= scan(rest).0);
    } else {
        let first = packets[0];
        let later = packets.skip(1);
        let header = first.header;
        let len = first.payload.len() as int;
        assert(first.well_formed());
        header.lemma_wire_len();
        assert forall|i: int| 0 <= i < later.len() implies (#[trigger] later[i]).well_formed() by {
            assert(packets[i + 1].well_formed());
        }
        law_packets_before_a_fault_are_found(later, rest);
        law_header_round_trip(header);
        assert(bytes.take(20) =~= header.wire_bytes());
        lemma_parsed_prefix(bytes, header.wire_bytes());
        assert(bytes.subrange(20, 20 + len) =~= first.payload);
        assert(bytes.skip(20 + len) =~= stream_bytes(later) + rest);
        lemma_scan_step(bytes, header, len);
        assert(seq![first] + (later + scan(rest).0) =~= packets + scan(rest).0);
    }
}

/// What stops a reader, and where: fewer bytes than a header has; a type that there is
/// not; a data packet, which tells its length in its second and third byte, of which
/// bytes are missing or which is nothing but a header at the end. Then no packet is
/// found; else the first packet has as many bytes after its header as it tells, or none
/// where it has no data.
pub proof fn law_faults_are_told(bytes: Seq<u8>)
    requires
        bytes.len() > 0,
    ensures
        ({
            let len = bytes[1] * 256 + bytes[2];
            let faulty = {
                ||| bytes.len() < 20
                ||| bytes[0] % 16 > 6
                ||| bytes[0] % 16 == 3 && (bytes.len() == 20 || bytes.len() < 20 + len)
            };
            let taken: int = if bytes[0] % 16 == 3 {
                len
            } else {
                0
            };
            &&& faulty ==> scan(bytes).0.len() == 0 && scan(bytes).1 is Some
            &&& !faulty ==> {
                &&& scan(bytes).0.len() > 0
                &&& scan(bytes).0[0].payload == bytes.subrange(20, 20 + taken)
                &&& scan(bytes).0.skip(1) == scan(bytes.skip(20 + taken)).0
                &&& scan(bytes).1 == scan(bytes.skip(20 + taken)).1
            }
            &&& bytes.len() >= 20 ==> scan_datagram(bytes) == scan(bytes)
            &&& bytes.len() < 20 ==> scan_datagram(bytes).1 is Some && scan_datagram(
                bytes,
            ).0.len() == 0
        }),
{
    if bytes.len() >= 20 {
        let part = bytes.subrange(1, 3);
        reveal_with_fuel(be_value, 3);
        assert(part.drop_last().drop_last() =~= Seq::empty());
        assert(be_value(part) == bytes[1] * 256 + bytes[2]);
        if BluefinHeader::parsed(bytes) is Ok {
            let header = BluefinHeader::parsed(bytes)->Ok_0;
            let taken: int = if header.type_field.spec_is_header_only() {
                0
            } else {
                header.type_specific_payload as int
            };
            if scan(bytes).0.len() > 0 {
                assert(scan(bytes).0.skip(1) =~= scan(bytes.skip(20 + taken)).0);
            }
        }
    }
}

/// A packet survives the wire: its bytes are read as the packet that was written, and as
/// nothing else. Fewer bytes than a header are read as no packet.
pub proof fn law_packet_round_trip(packet: PacketView, outcome: Result<BluefinPacket, ErrorView>)
    requires
        packet.header.valid(),
        BluefinPacket::reads_as(packet.wire(), outcome),
    ensures
        outcome matches Ok(read) && read@ == packet,
{
    packet.header.lemma_wire_len();
    law_header_round_trip(packet.header);
    assert(packet.wire().take(20) =~= packet.header.wire_bytes());
    assert(packet.wire().skip(20) =~= packet.payload);
    assert(outcome matches Ok(read) && read@ =~= packet);
}

} // verus!
