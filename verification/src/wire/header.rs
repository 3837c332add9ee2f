use vstd::prelude::*;

use crate::error::{BluefinError, ErrorView};
use crate::wire::Serialisable;
use crate::wire::big_endian::{
    be_bytes, be_value, get_be, lemma_be_bytes_len, lemma_bytes_of_value, lemma_capacities,
    lemma_value_bound, lemma_value_of_bytes, put_be,
};

verus! {

broadcast use vstd::string::group_string_axioms;

/// Length of a header on the wire.
pub const BLUEFIN_HEADER_SIZE_BYTES: usize = 20;

/// What a packet is for.
#[derive(Clone, Copy, Debug, PartialEq, Eq, Structural)]
pub enum PacketType {
    UnencryptedClientHello,
    UnencryptedServerHello,
    ClientAck,
    UnencryptedData,
    Ack,
    Fin,
    FinAck,
}

impl PacketType {
    /// The four bits that stand for the type on the wire.
    pub open spec fn wire_code(self) -> u8 {
        match self {
            PacketType::UnencryptedClientHello => 0,
            PacketType::UnencryptedServerHello => 1,
            PacketType::ClientAck => 2,
            PacketType::UnencryptedData => 3,
            PacketType::Ack => 4,
            PacketType::Fin => 5,
            PacketType::FinAck => 6,
        }
    }

    /// The type that the four bits stand for, if any.
    pub open spec fn of_wire_code(code: u8) -> Option<PacketType> {
        match code {
            0 => Some(PacketType::UnencryptedClientHello),
            1 => Some(PacketType::UnencryptedServerHello),
            2 => Some(PacketType::ClientAck),
            3 => Some(PacketType::UnencryptedData),
            4 => Some(PacketType::Ack),
            5 => Some(PacketType::Fin),
            6 => Some(PacketType::FinAck),
            _ => None,
        }
    }

    /// Packets of these types end with their header: acks, the three packets of
    /// the handshake and the two of the close exchange.
    pub open spec fn spec_is_header_only(self) -> bool {
        self != PacketType::UnencryptedData
    }

    pub fn code(self) -> (code: u8)
        ensures
            code == self.wire_code(),
    {
        match self {
            PacketType::UnencryptedClientHello => 0,
            PacketType::UnencryptedServerHello => 1,
            PacketType::ClientAck => 2,
            PacketType::UnencryptedData => 3,
            PacketType::Ack => 4,
            PacketType::Fin => 5,
            PacketType::FinAck => 6,
        }
    }

    pub fn from_code(code: u8) -> (found: Option<PacketType>)
        ensures
            found == Self::of_wire_code(code),
    {
        match code {
            0 => Some(PacketType::UnencryptedClientHello),
            1 => Some(PacketType::UnencryptedServerHello),
            2 => Some(PacketType::ClientAck),
            3 => Some(PacketType::UnencryptedData),
            4 => Some(PacketType::Ack),
            5 => Some(PacketType::Fin),
            6 => Some(PacketType::FinAck),
            _ => None,
        }
    }

    /// Whether packets of this type end with their header.
    pub fn is_header_only(self) -> (header_only: bool)
        ensures
            header_only == self.spec_is_header_only(),
    {
        match self {
            PacketType::Ack
            | PacketType::UnencryptedClientHello
            | PacketType::UnencryptedServerHello
            | PacketType::ClientAck
            | PacketType::Fin
            | PacketType::FinAck => true,
            PacketType::UnencryptedData => false,
        }
    }
}

/// One bit that says whether the header is encrypted, and seven bits of
/// header-protection mask.
#[derive(Clone, Copy, Debug, PartialEq, Eq, Structural)]
pub struct BluefinSecurityFields {
    header_encrypted: bool,
    header_protection_mask: u8,
}

impl BluefinSecurityFields {
    pub closed spec fn spec_encrypted(&self) -> bool {
        self.header_encrypted
    }

    pub closed spec fn spec_mask(&self) -> u8 {
        self.header_protection_mask
    }

    /// The mask fits in its seven bits.
    pub open spec fn valid(&self) -> bool {
        self.spec_mask() < 128
    }

    /// The byte that stands for the fields.
    pub open spec fn wire_byte(&self) -> u8 {
        if self.spec_encrypted() {
            (128 + self.spec_mask() % 128) as u8
        } else {
            (self.spec_mask() % 128) as u8
        }
    }

    /// The fields that `byte` stands for.
    pub closed spec fn of_wire_byte(byte: u8) -> BluefinSecurityFields {
        BluefinSecurityFields {
            header_encrypted: byte >= 128,
            header_protection_mask: (byte % 128) as u8,
        }
    }

    /// Neither encryption nor protection.
    pub closed spec fn plain() -> BluefinSecurityFields {
        BluefinSecurityFields { header_encrypted: false, header_protection_mask: 0 }
    }

    /// Of the mask the low seven bits are kept.
    pub fn new(header_encrypted: bool, header_protection_mask: u8) -> (fields: Self)
        ensures
            fields.valid(),
            fields.spec_encrypted() == header_encrypted,
            fields.spec_mask() == header_protection_mask % 128,
            !header_encrypted && header_protection_mask == 0 ==> fields == Self::plain(),
    {
        BluefinSecurityFields {
            header_encrypted,
            header_protection_mask: header_protection_mask % 128,
        }
    }

    pub fn encrypted(&self) -> (encrypted: bool)
        ensures
            encrypted == self.spec_encrypted(),
    {
        self.header_encrypted
    }

    pub fn mask(&self) -> (mask: u8)
        ensures
            mask == self.spec_mask(),
    {
        self.header_protection_mask
    }

    fn byte(&self) -> (byte: u8)
        ensures
            byte == self.wire_byte(),
    {
        if self.header_encrypted {
            128 + self.header_protection_mask % 128
        } else {
            self.header_protection_mask % 128
        }
    }

    fn from_byte(byte: u8) -> (fields: Self)
        ensures
            fields == Self::of_wire_byte(byte),
    {
        Self::new(byte >= 128, byte % 128)
    }
}

/// What the plain fields are.
pub proof fn lemma_plain()
    ensures
        BluefinSecurityFields::plain().valid(),
        !BluefinSecurityFields::plain().spec_encrypted(),
        BluefinSecurityFields::plain().spec_mask() == 0,
{
}

/// The security fields survive the wire: a byte and fields whose mask fits stand for
/// each other. The flag is the top bit of the byte, the mask the other seven.
pub proof fn law_security_fields_round_trip(fields: BluefinSecurityFields, byte: u8)
    requires
        fields.valid(),
    ensures
        BluefinSecurityFields::of_wire_byte(fields.wire_byte()) == fields,
        BluefinSecurityFields::of_wire_byte(byte).valid(),
        BluefinSecurityFields::of_wire_byte(byte).spec_encrypted() == (byte >= 128),
        BluefinSecurityFields::of_wire_byte(byte).spec_mask() == byte % 128,
        BluefinSecurityFields::of_wire_byte(byte).wire_byte() == byte,
{
}

/// Fields are told apart by their flag and their mask.
pub proof fn lemma_security_fields_equal(a: BluefinSecurityFields, b: BluefinSecurityFields)
    requires
        a.spec_encrypted() == b.spec_encrypted(),
        a.spec_mask() == b.spec_mask(),
    ensures
        a == b,
{
}

impl Default for BluefinSecurityFields {
    fn default() -> (fields: Self)
        ensures
            fields == Self::plain(),
    {
        Self::new(false, 0x0)
    }
}

impl Serialisable for BluefinSecurityFields {
    open spec fn wire_bytes(&self) -> Seq<u8> {
        seq![self.wire_byte()]
    }

    open spec fn reads_as(bytes: Seq<u8>, outcome: Result<Self, ErrorView>) -> bool {
        if bytes.len() != 1 {
            outcome == Err::<Self, ErrorView>(
                ErrorView::DeserialiseError("Bluefin security fields are exactly one byte"@),
            )
        } else {
            outcome == Ok::<Self, ErrorView>(Self::of_wire_byte(bytes[0]))
        }
    }

    fn serialise(&self) -> (bytes: Vec<u8>) {
        let mut bytes: Vec<u8> = Vec::with_capacity(1);
        bytes.push(self.byte());
        assert(bytes@ =~= self.wire_bytes());
        bytes
    }

    fn deserialise(bytes: &[u8]) -> (value: Result<Self, BluefinError>) {
        if bytes.len() != 1 {
            return Err(
                BluefinError::DeserialiseError(
                    "Bluefin security fields are exactly one byte".to_string(),
                ),
            );
        }
        Ok(Self::from_byte(bytes[0]))
    }
}

/// The fixed-size header that starts every packet.
///
/// On the wire, in this order: the version in four bits and the type in four,
/// the type-specific payload in two bytes, the security fields in one byte,
/// the source and the destination connection id in four bytes each, and the
/// packet number in eight bytes.
#[derive(Clone, Copy, Debug, PartialEq, Eq, Structural)]
pub struct BluefinHeader {
    pub version: u8,
    pub type_field: PacketType,
    pub type_specific_payload: u16,
    pub security_fields: BluefinSecurityFields,
    pub source_connection_id: u32,
    pub destination_connection_id: u32,
    pub packet_number: u64,
}

impl BluefinHeader {
    /// Every field fits in the bits that the wire format gives it.
    pub open spec fn valid(&self) -> bool {
        self.version < 16 && self.security_fields.valid()
    }

    /// The first byte: version and type.
    pub open spec fn first_byte(&self) -> u8 {
        ((self.version % 16) * 16 + self.type_field.wire_code()) as u8
    }

    /// The header that the first bytes of `bytes` stand for.
    pub open spec fn parsed(bytes: Seq<u8>) -> Result<BluefinHeader, ErrorView> {
        if bytes.len() < BLUEFIN_HEADER_SIZE_BYTES {
            Err(
                ErrorView::DeserialiseError(
                    "Cannot deserialise into Bluefin header with less than 20 bytes"@,
                ),
            )
        } else {
            match PacketType::of_wire_code(bytes[0] % 16) {
                None => Err(ErrorView::DeserialiseError("Unknown bluefin packet type"@)),
                Some(type_field) => Ok(
                    BluefinHeader {
                        version: bytes[0] / 16,
                        type_field,
                        type_specific_payload: be_value(bytes.subrange(1, 3)) as u16,
                        security_fields: BluefinSecurityFields::of_wire_byte(bytes[3]),
                        source_connection_id: be_value(bytes.subrange(4, 8)) as u32,
                        destination_connection_id: be_value(bytes.subrange(8, 12)) as u32,
                        packet_number: be_value(bytes.subrange(12, 20)) as u64,
                    },
                ),
            }
        }
    }

    /// The header with nothing set.
    pub open spec fn blank() -> BluefinHeader {
        BluefinHeader {
            version: 0,
            type_field: PacketType::UnencryptedData,
            type_specific_payload: 0,
            security_fields: BluefinSecurityFields::plain(),
            source_connection_id: 0,
            destination_connection_id: 0,
            packet_number: 0,
        }
    }

    /// A header of version 0 with packet number 0.
    pub fn new(
        source_connection_id: u32,
        destination_connection_id: u32,
        type_field: PacketType,
        type_specific_payload: u16,
        security_fields: BluefinSecurityFields,
    ) -> (header: Self)
        ensures
            header == (BluefinHeader {
                version: 0,
                type_field,
                type_specific_payload,
                security_fields,
                source_connection_id,
                destination_connection_id,
                packet_number: 0,
            }),
    {
        BluefinHeader {
            version: 0x0,
            type_field,
            type_specific_payload,
            security_fields,
            source_connection_id,
            destination_connection_id,
            packet_number: 0x0,
        }
    }

    #[inline]
    pub fn with_packet_number(&mut self, packet_number: u64)
        ensures
            *final(self) == (BluefinHeader { packet_number, ..*old(self) }),
    {
        self.packet_number = packet_number;
    }

    /// Writes the header over the first bytes of `buf`.
    #[inline]
    pub fn serialise_into(&self, buf: &mut [u8])
        requires
            old(buf)@.len() >= BLUEFIN_HEADER_SIZE_BYTES,
        ensures
            final(buf)@ == self.wire_bytes() + old(buf)@.skip(BLUEFIN_HEADER_SIZE_BYTES as int),
    {
        let ghost before = buf@;
        proof {
            self.lemma_wire_len();
            lemma_be_bytes_len(self.type_specific_payload as nat, 2);
            lemma_be_bytes_len(self.source_connection_id as nat, 4);
            lemma_be_bytes_len(self.destination_connection_id as nat, 4);
            lemma_be_bytes_len(self.packet_number as nat, 8);
        }
        buf[0] = (self.version % 16) * 16 + self.type_field.code();
        put_be(buf, 1, self.type_specific_payload as u64, 2);
        buf[3] = self.security_fields.byte();
        put_be(buf, 4, self.source_connection_id as u64, 4);
        put_be(buf, 8, self.destination_connection_id as u64, 4);
        put_be(buf, 12, self.packet_number, 8);
        assert(buf@ =~= self.wire_bytes() + before.skip(20));
    }

    pub proof fn lemma_wire_len(&self)
        ensures
            self.wire_bytes().len() == BLUEFIN_HEADER_SIZE_BYTES,
    {
        lemma_be_bytes_len(self.type_specific_payload as nat, 2);
        lemma_be_bytes_len(self.source_connection_id as nat, 4);
        lemma_be_bytes_len(self.destination_connection_id as nat, 4);
        lemma_be_bytes_len(self.packet_number as nat, 8);
    }
}

impl Default for BluefinHeader {
    fn default() -> (header: Self)
        ensures
            header == BluefinHeader::blank(),
    {
        Self::new(0x0, 0x0, PacketType::UnencryptedData, 0, BluefinSecurityFields::default())
    }
}

impl Serialisable for BluefinHeader {
    open spec fn wire_bytes(&self) -> Seq<u8> {
        seq![self.first_byte()] + be_bytes(self.type_specific_payload as nat, 2)
            + seq![self.security_fields.wire_byte()] + be_bytes(self.source_connection_id as nat, 4)
            + be_bytes(self.destination_connection_id as nat, 4) + be_bytes(
            self.packet_number as nat,
            8,
        )
    }

    open spec fn reads_as(bytes: Seq<u8>, outcome: Result<Self, ErrorView>) -> bool {
        outcome == Self::parsed(bytes)
    }

    fn serialise(&self) -> (bytes: Vec<u8>) {
        let mut bytes: Vec<u8> = vec![0; 20];
        proof {
            self.lemma_wire_len();
        }
        self.serialise_into(bytes.as_mut_slice());
        assert(bytes@ =~= self.wire_bytes());
        bytes
    }

    fn deserialise(bytes: &[u8]) -> (value: Result<Self, BluefinError>) {
        if bytes.len() < BLUEFIN_HEADER_SIZE_BYTES {
            return Err(
                BluefinError::DeserialiseError(
                    "Cannot deserialise into Bluefin header with less than 20 bytes".to_string(),
                ),
            );
        }
        proof {
            lemma_capacities();
            lemma_value_bound(bytes@.subrange(1, 3));
            lemma_value_bound(bytes@.subrange(4, 8));
            lemma_value_bound(bytes@.subrange(8, 12));
        }
        match PacketType::from_code(bytes[0] % 16) {
            None => Err(BluefinError::DeserialiseError("Unknown bluefin packet type".to_string())),
            Some(type_field) => Ok(
                BluefinHeader {
                    version: bytes[0] / 16,
                    type_field,
                    type_specific_payload: get_be(bytes, 1, 2) as u16,
                    security_fields: BluefinSecurityFields::from_byte(bytes[3]),
                    source_connection_id: get_be(bytes, 4, 4) as u32,
                    destination_connection_id: get_be(bytes, 8, 4) as u32,
                    packet_number: get_be(bytes, 12, 8),
                },
            ),
        }
    }
}

/// A header survives the wire: reading what was written gives it back.
pub proof fn law_header_round_trip(header: BluefinHeader)
    requires
        header.valid(),
    ensures
        BluefinHeader::parsed(header.wire_bytes()) == Ok::<BluefinHeader, ErrorView>(header),
{
    let bytes = header.wire_bytes();
    header.lemma_wire_len();
    lemma_capacities();
    lemma_be_bytes_len(header.type_specific_payload as nat, 2);
    lemma_be_bytes_len(header.source_connection_id as nat, 4);
    lemma_be_bytes_len(header.destination_connection_id as nat, 4);
    lemma_be_bytes_len(header.packet_number as nat, 8);
    lemma_value_of_bytes(header.type_specific_payload as nat, 2);
    lemma_value_of_bytes(header.source_connection_id as nat, 4);
    lemma_value_of_bytes(header.destination_connection_id as nat, 4);
    lemma_value_of_bytes(header.packet_number as nat, 8);
    assert(bytes.subrange(1, 3) =~= be_bytes(header.type_specific_payload as nat, 2));
    assert(bytes.subrange(4, 8) =~= be_bytes(header.source_connection_id as nat, 4));
    assert(bytes.subrange(8, 12) =~= be_bytes(header.destination_connection_id as nat, 4));
    assert(bytes.subrange(12, 20) =~= be_bytes(header.packet_number as nat, 8));
    assert(bytes[0] == header.first_byte());
    assert(bytes[3] == header.security_fields.wire_byte());
    lemma_security_fields_equal(
        header.security_fields,
        BluefinSecurityFields::of_wire_byte(bytes[3]),
    );
}

/// The wire format has one representation per header: writing what was read
/// gives the bytes back.
pub proof fn law_header_is_canonical(bytes: Seq<u8>)
    requires
        BluefinHeader::parsed(bytes) is Ok,
    ensures
        BluefinHeader::parsed(bytes)->Ok_0.valid(),
        BluefinHeader::parsed(bytes)->Ok_0.wire_bytes() == bytes.take(
            BLUEFIN_HEADER_SIZE_BYTES as int,
        ),
{
    let header = BluefinHeader::parsed(bytes)->Ok_0;
    header.lemma_wire_len();
    lemma_capacities();
    lemma_value_bound(bytes.subrange(1, 3));
    lemma_value_bound(bytes.subrange(4, 8));
    lemma_value_bound(bytes.subrange(8, 12));
    lemma_value_bound(bytes.subrange(12, 20));
    lemma_bytes_of_value(bytes.subrange(1, 3));
    lemma_bytes_of_value(bytes.subrange(4, 8));
    lemma_bytes_of_value(bytes.subrange(8, 12));
    lemma_bytes_of_value(bytes.subrange(12, 20));
    assert(header.first_byte() == bytes[0]);
    assert(header.security_fields.wire_byte() == bytes[3]);
    assert(header.wire_bytes() =~= bytes.take(20));
}

proof fn lemma_two(bytes: Seq<u8>)
    requires
        bytes.len() == 2,
    ensures
        be_value(bytes) == bytes[0] * 256 + bytes[1],
{
    reveal_with_fuel(be_value, 3);
    assert(bytes.drop_last().drop_last() =~= Seq::empty());
}

proof fn lemma_four(bytes: Seq<u8>)
    requires
        bytes.len() == 4,
    ensures
        be_value(bytes) == ((bytes[0] * 256 + bytes[1]) * 256 + bytes[2]) * 256 + bytes[3],
{
    let front = bytes.drop_last().drop_last();
    lemma_two(front);
    assert(be_value(bytes.drop_last()) == be_value(front) * 256 + bytes[2]);
}

proof fn lemma_eight(bytes: Seq<u8>)
    requires
        bytes.len() == 8,
    ensures
        be_value(bytes) == ((((((bytes[0] * 256 + bytes[1]) * 256 + bytes[2]) * 256 + bytes[3])
            * 256 + bytes[4]) * 256 + bytes[5]) * 256 + bytes[6]) * 256 + bytes[7],
{
    let a = bytes.drop_last();
    let b = a.drop_last();
    let c = b.drop_last();
    let d = c.drop_last();
    lemma_four(d);
    assert(be_value(c) == be_value(d) * 256 + bytes[4]);
    assert(be_value(b) == be_value(c) * 256 + bytes[5]);
    assert(be_value(a) == be_value(b) * 256 + bytes[6]);
}

/// Where each field of a header stands on the wire, and how: version and type share the
/// first byte, the numbers stand with their most significant byte first.
pub proof fn law_header_layout(header: BluefinHeader)
    requires
        header.valid(),
    ensures
        ({
            let b = header.wire_bytes();
            &&& b.len() == 20
            &&& b[0] == header.version * 16 + match header.type_field {
                PacketType::UnencryptedClientHello => 0int,
                PacketType::UnencryptedServerHello => 1,
                PacketType::ClientAck => 2,
                PacketType::UnencryptedData => 3,
                PacketType::Ack => 4,
                PacketType::Fin => 5,
                PacketType::FinAck => 6,
            }
            &&& b[1] * 256 + b[2] == header.type_specific_payload
            &&& b[3] == header.security_fields.spec_mask() + if header.security_fields.spec_encrypted() {
                128int
            } else {
                0
            }
            &&& ((b[4] * 256 + b[5]) * 256 + b[6]) * 256 + b[7] == header.source_connection_id
            &&& ((b[8] * 256 + b[9]) * 256 + b[10]) * 256 + b[11]
                == header.destination_connection_id
            &&& ((((((b[12] * 256 + b[13]) * 256 + b[14]) * 256 + b[15]) * 256 + b[16]) * 256
                + b[17]) * 256 + b[18]) * 256 + b[19] == header.packet_number
        }),
{
    let b = header.wire_bytes();
    header.lemma_wire_len();
    lemma_capacities();
    lemma_be_bytes_len(header.type_specific_payload as nat, 2);
    lemma_be_bytes_len(header.source_connection_id as nat, 4);
    lemma_be_bytes_len(header.destination_connection_id as nat, 4);
    lemma_be_bytes_len(header.packet_number as nat, 8);
    lemma_value_of_bytes(header.type_specific_payload as nat, 2);
    lemma_value_of_bytes(header.source_connection_id as nat, 4);
    lemma_value_of_bytes(header.destination_connection_id as nat, 4);
    lemma_value_of_bytes(header.packet_number as nat, 8);
    assert(b.subrange(1, 3) =~= be_bytes(header.type_specific_payload as nat, 2));
    assert(b.subrange(4, 8) =~= be_bytes(header.source_connection_id as nat, 4));
    assert(b.subrange(8, 12) =~= be_bytes(header.destination_connection_id as nat, 4));
    assert(b.subrange(12, 20) =~= be_bytes(header.packet_number as nat, 8));
    lemma_two(b.subrange(1, 3));
    lemma_four(b.subrange(4, 8));
    lemma_four(b.subrange(8, 12));
    lemma_eight(b.subrange(12, 20));
}

/// Bytes are a header exactly where there are twenty of them and the low half of the
/// first is the code of a type.
pub proof fn law_headers_are_told_from_other_bytes(bytes: Seq<u8>)
    ensures
        BluefinHeader::parsed(bytes) is Ok <==> bytes.len() >= 20 && bytes[0] % 16 <= 6,
{
}

/// Only data has a payload behind its header. Every code stands for at most one type, and
/// every type has a code of its own.
pub proof fn law_types_have_codes(kind: PacketType, code: u8)
    ensures
        kind.spec_is_header_only() <==> !(kind is UnencryptedData),
        PacketType::of_wire_code(kind.wire_code()) == Some(kind),
        PacketType::of_wire_code(code) matches Some(found) ==> found.wire_code() == code,
        PacketType::of_wire_code(code) is None <==> code > 6,
{
}

} // verus!
