//! What the tool tells of a connection and its traffic.
use vstd::prelude::*;

use crate::net::DiagnosticEvent;
use crate::text::{
    decimal, hex, hex_padded, hex_value, law_hex_is_read_back,
    law_numbers_are_told_from_other_texts, law_padded_hex_is_read_back, numeral, pad_right,
    parsed_unsigned, push_decimal, push_hex, push_hex_padded, push_repeated,
};

verus! {

broadcast use vstd::string::group_string_axioms;

/// The bytes in hexadecimal, with spaces between them.
pub open spec fn hex_bytes(bytes: Seq<u8>) -> Seq<char>
    decreases bytes.len(),
{
    if bytes.len() == 0 {
        Seq::empty()
    } else if bytes.len() == 1 {
        hex_padded(bytes[0] as nat, 2)
    } else {
        hex_bytes(bytes.drop_last()) + seq![' '] + hex_padded(bytes.last() as nat, 2)
    }
}

/// The byte as a character, or a dot where it has no visible one.
pub open spec fn visible(byte: u8) -> char {
    if 0x20 <= byte <= 0x7e {
        byte as char
    } else {
        '.'
    }
}

/// The bytes as characters.
pub open spec fn ascii_bytes(bytes: Seq<u8>) -> Seq<char> {
    bytes.map_values(|byte: u8| visible(byte))
}

/// A line of a hex dump: the prefix, where the line begins in the data, the bytes
/// in hexadecimal, and the bytes as characters.
pub open spec fn dump_line(prefix: Seq<char>, offset: nat, bytes: Seq<u8>) -> Seq<char> {
    prefix + " "@ + hex_padded(offset, 4) + "  "@ + pad_right(hex_bytes(bytes), 48) + "  |"@
        + ascii_bytes(bytes) + "|"@
}

/// The lines of a hex dump from `offset` on: sixteen bytes in each, and what is
/// left in the last.
pub open spec fn dump_lines(prefix: Seq<char>, data: Seq<u8>, offset: int) -> Seq<Seq<char>>
    decreases data.len() - offset,
{
    if offset < 0 || offset >= data.len() {
        Seq::empty()
    } else {
        let end = if offset + 16 <= data.len() {
            offset + 16
        } else {
            data.len() as int
        };
        seq![dump_line(prefix, offset as nat, data.subrange(offset, end))] + dump_lines(
            prefix,
            data,
            end,
        )
    }
}

/// The texts of the lines.
pub open spec fn line_texts(lines: Seq<String>) -> Seq<Seq<char>> {
    lines.map_values(|line: String| line@)
}

/// Every two hexadecimal digits stand for a byte.
proof fn lemma_byte_len(byte: u8)
    ensures
        hex_padded(byte as nat, 2).len() == 2,
{
    reveal_with_fuel(numeral, 3);
    assert(hex(byte as nat).len() <= 2) by {
        if byte >= 16 {
            assert(byte / 16 < 16);
        }
    }
}

proof fn lemma_hex_bytes_len(bytes: Seq<u8>)
    ensures
        bytes.len() > 0 ==> hex_bytes(bytes).len() == 3 * bytes.len() - 1,
        bytes.len() == 0 ==> hex_bytes(bytes).len() == 0,
    decreases bytes.len(),
{
    if bytes.len() == 1 {
        lemma_byte_len(bytes[0]);
    } else if bytes.len() > 1 {
        lemma_hex_bytes_len(bytes.drop_last());
        lemma_byte_len(bytes.last());
    }
}

/// One line of a hex dump.
fn dump_line_of(prefix: &str, data: &[u8], offset: usize, end: usize) -> (line: String)
    requires
        offset < end <= data@.len(),
        end - offset <= 16,
    ensures
        line@ == dump_line(
            prefix@,
            offset as nat,
            data@.subrange(offset as int, end as int),
        ),
{
    let ghost bytes = data@.subrange(offset as int, end as int);
    let mut line: String = String::new();
    line.append(prefix);
    line.append(" ");
    push_hex_padded(&mut line, offset as u64, 4);
    line.append("  ");
    let ghost head = prefix@ + " "@ + hex_padded(offset as nat, 4) + "  "@;
    assert(line@ =~= head);
    let mut i: usize = offset;
    assert(bytes.take(0) =~= Seq::empty());
    assert(line@ =~= head + hex_bytes(bytes.take(0)));
    while i < end
        invariant
            offset <= i <= end <= data@.len(),
            bytes == data@.subrange(offset as int, end as int),
            line@ == head + hex_bytes(bytes.take(i - offset)),
        decreases end - i,
    {
        let ghost before = line@;
        if i > offset {
            line.append(" ");
        }
        push_hex_padded(&mut line, data[i] as u64, 2);
        proof {
            reveal_strlit(" ");
            assert(" "@ =~= seq![' ']);
            let more = bytes.take(i - offset + 1);
            assert(more.drop_last() =~= bytes.take(i - offset));
            assert(more.last() == data@[i as int]);
            if i == offset {
                assert(hex_bytes(bytes.take(0)) =~= Seq::empty());
                assert(more[0] == data@[i as int]);
            }
            assert(line@ =~= head + hex_bytes(more));
        }
        i = i + 1;
    }
    assert(bytes.take(end - offset) =~= bytes);
    proof {
        lemma_hex_bytes_len(bytes);
    }
    let count: usize = end - offset;
    let used: usize = 3 * count - 1;
    if used < 48 {
        push_repeated(&mut line, ' ', 48 - used);
    }
    assert(line@ =~= head + pad_right(hex_bytes(bytes), 48));
    line.append("  |");
    let ghost head = head + pad_right(hex_bytes(bytes), 48) + "  |"@;
    assert(line@ =~= head + ascii_bytes(bytes.take(0)));
    let mut j: usize = offset;
    while j < end
        invariant
            offset <= j <= end <= data@.len(),
            bytes == data@.subrange(offset as int, end as int),
            line@ == head + ascii_bytes(bytes.take(j - offset)),
        decreases end - j,
    {
        let byte: u8 = data[j];
        if byte >= 0x20 && byte <= 0x7e {
            line.push(byte as char);
        } else {
            line.push('.');
        }
        proof {
            assert(bytes[j - offset] == byte);
            assert(line@ =~= head + ascii_bytes(bytes.take(j - offset + 1)));
        }
        j = j + 1;
    }
    line.append("|");
    assert(line@ =~= dump_line(prefix@, offset as nat, bytes));
    line
}

/// The lines of a compact hex dump, sixteen bytes in each.
pub fn hex_dump(prefix: &str, data: &[u8]) -> (lines: Vec<String>)
    ensures
        line_texts(lines@) == dump_lines(prefix@, data@, 0),
{
    let total: usize = data.len();
    let mut lines: Vec<String> = Vec::new();
    let mut offset: usize = 0;
    assert(line_texts(lines@) + dump_lines(prefix@, data@, 0) =~= dump_lines(prefix@, data@, 0));
    while offset < total
        invariant
            offset <= total,
            total == data@.len(),
            dump_lines(prefix@, data@, 0) == line_texts(lines@) + dump_lines(
                prefix@,
                data@,
                offset as int,
            ),
        decreases total - offset,
    {
        let end: usize = if total - offset < 16 {
            total
        } else {
            offset + 16
        };
        let line: String = dump_line_of(prefix, data, offset, end);
        let ghost before = lines@;
        lines.push(line);
        proof {
            let next = dump_lines(prefix@, data@, end as int);
            assert(line_texts(lines@) =~= line_texts(before).push(line@));
            assert(line_texts(before) + (seq![line@] + next) =~= line_texts(lines@) + next);
        }
        offset = end;
    }
    lines
}

/// The tag by which a peer is told from others.
pub open spec fn peer_tag(dst_conn_id: u32) -> Seq<char> {
    hex_padded(dst_conn_id as nat, 8)
}

/// The tag of a peer.
pub fn tag_of(dst_conn_id: u32) -> (tag: String)
    ensures
        tag@ == peer_tag(dst_conn_id),
{
    let mut tag: String = String::new();
    push_hex_padded(&mut tag, dst_conn_id as u64, 8);
    assert(tag@ =~= peer_tag(dst_conn_id));
    tag
}

/// A range of packets.
pub open spec fn packet_range(base: u64, count: int) -> Seq<char> {
    "0x"@ + hex(base as nat) + "..+"@ + decimal(count as nat)
}

/// What the tool tells of an event.
pub open spec fn event_line(tag: Seq<char>, event: DiagnosticEvent) -> Seq<char> {
    "["@ + tag + "] "@ + match event {
        DiagnosticEvent::AckReceived { base_packet_num, count } => "ack-recv: peer acked pkts "@
            + packet_range(base_packet_num, count as int),
        DiagnosticEvent::AckSent { base_packet_num, count } => "ack-sent: we acked pkts "@
            + packet_range(base_packet_num, count as int),
        DiagnosticEvent::DataSent { start_packet_num, num_packets, num_bytes } => "data-sent: pkts "@
            + packet_range(start_packet_num, num_packets as int) + " ("@ + decimal(
            num_bytes as nat,
        ) + " bytes)"@,
        DiagnosticEvent::DataReceived { base_packet_num, num_packets, num_bytes } =>
            "data-recv: pkts "@ + packet_range(base_packet_num, num_packets as int) + " ("@
            + decimal(num_bytes as nat) + " bytes)"@,
        DiagnosticEvent::FinSent { packet_num } => "fin-sent: pkt 0x"@ + hex(packet_num as nat),
        DiagnosticEvent::FinAckSent { packet_num } => "fin-ack-sent: pkt 0x"@ + hex(
            packet_num as nat,
        ),
        DiagnosticEvent::FinReceived { packet_num } => "fin-recv: pkt 0x"@ + hex(packet_num as nat),
        DiagnosticEvent::FinAckReceived { packet_num } => "fin-ack-recv: pkt 0x"@ + hex(
            packet_num as nat,
        ),
    }
}

/// Appends a range of packets.
fn push_range(line: &mut String, base: u64, count: u64)
    ensures
        final(line)@ == old(line)@ + packet_range(base, count as int),
{
    let ghost before = line@;
    line.append("0x");
    push_hex(line, base);
    line.append("..+");
    push_decimal(line, count);
    assert(line@ =~= before + packet_range(base, count as int));
}

/// Appends a number of bytes.
fn push_bytes(line: &mut String, num_bytes: usize)
    ensures
        final(line)@ == old(line)@ + " ("@ + decimal(num_bytes as nat) + " bytes)"@,
{
    line.append(" (");
    push_decimal(line, num_bytes as u64);
    line.append(" bytes)");
}

/// Begins a line about a peer.
fn tagged(tag: &str) -> (line: String)
    ensures
        line@ == "["@ + tag@ + "] "@,
{
    let mut line: String = String::new();
    line.append("[");
    line.append(tag);
    line.append("] ");
    assert(line@ =~= "["@ + tag@ + "] "@);
    line
}

/// What the tool tells of an event.
pub fn describe_event(tag: &str, event: DiagnosticEvent) -> (line: String)
    ensures
        line@ == event_line(tag@, event),
{
    let mut line: String = tagged(tag);
    match event {
        DiagnosticEvent::AckReceived { base_packet_num, count } => {
            line.append("ack-recv: peer acked pkts ");
            push_range(&mut line, base_packet_num, count as u64);
        },
        DiagnosticEvent::AckSent { base_packet_num, count } => {
            line.append("ack-sent: we acked pkts ");
            push_range(&mut line, base_packet_num, count as u64);
        },
        DiagnosticEvent::DataSent { start_packet_num, num_packets, num_bytes } => {
            line.append("data-sent: pkts ");
            push_range(&mut line, start_packet_num, num_packets);
            push_bytes(&mut line, num_bytes);
        },
        DiagnosticEvent::DataReceived { base_packet_num, num_packets, num_bytes } => {
            line.append("data-recv: pkts ");
            push_range(&mut line, base_packet_num, num_packets as u64);
            push_bytes(&mut line, num_bytes);
        },
        DiagnosticEvent::FinSent { packet_num } => {
            line.append("fin-sent: pkt 0x");
            push_hex(&mut line, packet_num);
        },
        DiagnosticEvent::FinAckSent { packet_num } => {
            line.append("fin-ack-sent: pkt 0x");
            push_hex(&mut line, packet_num);
        },
        DiagnosticEvent::FinReceived { packet_num } => {
            line.append("fin-recv: pkt 0x");
            push_hex(&mut line, packet_num);
        },
        DiagnosticEvent::FinAckReceived { packet_num } => {
            line.append("fin-ack-recv: pkt 0x");
            push_hex(&mut line, packet_num);
        },
    }
    assert(line@ =~= event_line(tag@, event));
    line
}

/// What the tool tells of bytes that went one way: how many, and how many in all.
pub open spec fn count_line(tag: Seq<char>, verb: Seq<char>, len: nat, total: nat) -> Seq<char> {
    "["@ + tag + "] "@ + verb + " "@ + decimal(len) + " bytes, total "@ + decimal(total)
}

/// What the tool tells of bytes that went one way.
pub fn describe_count(tag: &str, verb: &str, len: usize, total: usize) -> (line: String)
    ensures
        line@ == count_line(tag@, verb@, len as nat, total as nat),
{
    let mut line: String = tagged(tag);
    line.append(verb);
    line.append(" ");
    push_decimal(&mut line, len as u64);
    line.append(" bytes, total ");
    push_decimal(&mut line, total as u64);
    assert(line@ =~= count_line(tag@, verb@, len as nat, total as nat));
    line
}

/// What the tool tells of a new connection.
pub open spec fn established_line(src_conn_id: u32, dst_conn_id: u32) -> Seq<char> {
    "connection established (src_id="@ + hex_padded(src_conn_id as nat, 8) + ", dst_id="@
        + hex_padded(dst_conn_id as nat, 8) + ")"@
}

/// What the tool tells of a new connection.
pub fn describe_established(src_conn_id: u32, dst_conn_id: u32) -> (line: String)
    ensures
        line@ == established_line(src_conn_id, dst_conn_id),
{
    let mut line: String = String::new();
    line.append("connection established (src_id=");
    push_hex_padded(&mut line, src_conn_id as u64, 8);
    line.append(", dst_id=");
    push_hex_padded(&mut line, dst_conn_id as u64, 8);
    line.append(")");
    assert(line@ =~= established_line(src_conn_id, dst_conn_id));
    line
}

/// What is told of the protocol of a connection.
pub struct ConnectionInfo<'a> {
    pub local_addr: &'a str,
    pub remote_addr: Option<&'a str>,
    pub src_conn_id: u32,
    pub dst_conn_id: u32,
    pub role: &'a str,
    pub version: u8,
    pub encrypted: bool,
    pub mask: u8,
}

/// Whether something is the case.
pub open spec fn bool_text(value: bool) -> Seq<char> {
    if value {
        "true"@
    } else {
        "false"@
    }
}

/// What is told of the protocol of a connection, line by line.
pub open spec fn info_lines(info: ConnectionInfo) -> Seq<Seq<char>> {
    seq!["  local_addr  = "@ + info.local_addr@] + (match info.remote_addr {
        Some(remote) => seq!["  remote_addr = "@ + remote@],
        None => Seq::empty(),
    }) + seq![
        "  src_conn_id = 0x"@ + hex_padded(info.src_conn_id as nat, 8),
        "  dst_conn_id = 0x"@ + hex_padded(info.dst_conn_id as nat, 8),
        "  role        = "@ + info.role@,
        "  version     = 0x"@ + hex(info.version as nat),
        "  encrypted   = "@ + bool_text(info.encrypted),
        "  mask        = 0x"@ + hex_padded(info.mask as nat, 2),
    ]
}

/// A line with a name and a text.
fn text_line(name: &str, value: &str) -> (line: String)
    ensures
        line@ == name@ + value@,
{
    let mut line: String = String::new();
    line.append(name);
    line.append(value);
    assert(line@ =~= name@ + value@);
    line
}

/// A line with a name and a number in hexadecimal.
fn hex_line(name: &str, value: u64, width: usize) -> (line: String)
    ensures
        line@ == name@ + hex_padded(value as nat, width as nat),
{
    let mut line: String = String::new();
    line.append(name);
    push_hex_padded(&mut line, value, width);
    assert(line@ =~= name@ + hex_padded(value as nat, width as nat));
    line
}

/// What is told of the protocol of a connection, line by line.
pub fn dump_connection_info(info: &ConnectionInfo) -> (lines: Vec<String>)
    ensures
        line_texts(lines@) == info_lines(*info),
{
    let mut lines: Vec<String> = Vec::new();
    lines.push(text_line("  local_addr  = ", info.local_addr));
    match info.remote_addr {
        Some(remote) => {
            lines.push(text_line("  remote_addr = ", remote));
        },
        None => {},
    }
    lines.push(hex_line("  src_conn_id = 0x", info.src_conn_id as u64, 8));
    lines.push(hex_line("  dst_conn_id = 0x", info.dst_conn_id as u64, 8));
    lines.push(text_line("  role        = ", info.role));
    let version: String = hex_line("  version     = 0x", info.version as u64, 0);
    assert(version@ == "  version     = 0x"@ + hex(info.version as nat));
    lines.push(version);
    lines.push(
        text_line(
            "  encrypted   = ",
            if info.encrypted {
                "true"
            } else {
                "false"
            },
        ),
    );
    lines.push(hex_line("  mask        = 0x", info.mask as u64, 2));
    assert(line_texts(lines@) =~= info_lines(*info));
    lines
}

/// Every byte can be read from its line: it stands there in two hexadecimal digits, at
/// three places for each byte before it, with a space behind it where another follows.
pub proof fn law_dumped_bytes_are_read_back(bytes: Seq<u8>, i: int)
    requires
        0 <= i < bytes.len(),
    ensures
        hex_bytes(bytes).len() == 3 * bytes.len() - 1,
        hex_value(hex_bytes(bytes).subrange(3 * i, 3 * i + 2)) == bytes[i],
        i < bytes.len() - 1 ==> hex_bytes(bytes)[3 * i + 2] == ' ',
    decreases bytes.len(),
{
    let text = hex_bytes(bytes);
    let last = bytes.len() - 1;
    lemma_hex_bytes_len(bytes);
    lemma_hex_bytes_len(bytes.drop_last());
    lemma_byte_len(bytes.last());
    law_padded_hex_is_read_back(bytes.last() as nat, 2);
    if i == last {
        assert(text.subrange(3 * i, 3 * i + 2) =~= hex_padded(bytes.last() as nat, 2));
    } else {
        let front = hex_bytes(bytes.drop_last());
        law_dumped_bytes_are_read_back(bytes.drop_last(), i);
        assert(text.subrange(3 * i, 3 * i + 2) =~= front.subrange(3 * i, 3 * i + 2));
        if i < last - 1 {
            assert(text[3 * i + 2] == front[3 * i + 2]);
        }
    }
}

/// A visible character is shown as itself, and a dot stands for every other one.
pub proof fn law_visible_bytes_are_shown(bytes: Seq<u8>, i: int)
    requires
        0 <= i < bytes.len(),
    ensures
        ascii_bytes(bytes).len() == bytes.len(),
        bytes[i] >= 0x20 && bytes[i] <= 0x7e ==> ascii_bytes(bytes)[i] as nat == bytes[i],
        bytes[i] < 0x20 || bytes[i] > 0x7e ==> ascii_bytes(bytes)[i] == '.',
{
}

/// A dump shows all data: it has one line for every sixteen bytes that have begun, and
/// the `k`-th line shows the bytes from the sixteen times `k`-th on.
pub proof fn law_dump_shows_all_data(prefix: Seq<char>, data: Seq<u8>, k: int)
    ensures
        dump_lines(prefix, data, 0).len() == (data.len() + 15) / 16,
        0 <= k < dump_lines(prefix, data, 0).len() ==> dump_lines(prefix, data, 0)[k] == dump_line(
            prefix,
            (16 * k) as nat,
            data.subrange(
                16 * k,
                if 16 * k + 16 <= data.len() {
                    16 * k + 16
                } else {
                    data.len() as int
                },
            ),
        ),
{
    lemma_lines_from(prefix, data, 0, k);
}

proof fn lemma_lines_from(prefix: Seq<char>, data: Seq<u8>, done: int, k: int)
    requires
        0 <= done,
        16 * done <= data.len() + 15,
    ensures
        dump_lines(prefix, data, 16 * done).len() == if 16 * done >= data.len() {
            0
        } else {
            (data.len() + 15) / 16 - done
        },
        0 <= k < dump_lines(prefix, data, 16 * done).len() ==> dump_lines(
            prefix,
            data,
            16 * done,
        )[k] == dump_line(
            prefix,
            (16 * (done + k)) as nat,
            data.subrange(
                16 * (done + k),
                if 16 * (done + k) + 16 <= data.len() {
                    16 * (done + k) + 16
                } else {
                    data.len() as int
                },
            ),
        ),
    decreases data.len() + 16 - 16 * done,
{
    let offset = 16 * done;
    if offset < data.len() {
        if offset + 16 <= data.len() {
            lemma_lines_from(prefix, data, done + 1, k - 1);
        } else {
            assert(dump_lines(prefix, data, data.len() as int).len() == 0);
        }
    }
}

/// A line of a dump begins with its prefix and ends with the bytes as characters; what
/// is between tells where the line begins, in four digits or more, and the bytes in
/// hexadecimal, in the same width for every line.
pub proof fn law_dump_line_layout(prefix: Seq<char>, offset: nat, bytes: Seq<u8>)
    requires
        0 < bytes.len() <= 16,
    ensures
        ({
            let line = dump_line(prefix, offset, bytes);
            let p = prefix.len() as int;
            let w = hex_padded(offset, 4).len() as int;
            let n = bytes.len() as int;
            &&& line.len() == p + w + n + 55
            &&& line.take(p) == prefix
            &&& w >= 4
            &&& hex_value(line.subrange(p + 1, p + 1 + w)) == offset
            &&& line.subrange(p + w + 3, p + w + 3 + 3 * n - 1) == hex_bytes(bytes)
            &&& line.subrange(line.len() - 1 - n, line.len() - 1) == ascii_bytes(bytes)
            &&& line.last() == '|'
        }),
{
    let line = dump_line(prefix, offset, bytes);
    let p = prefix.len() as int;
    let w = hex_padded(offset, 4).len() as int;
    let n = bytes.len() as int;
    reveal_strlit(" ");
    reveal_strlit("  ");
    reveal_strlit("  |");
    reveal_strlit("|");
    lemma_hex_bytes_len(bytes);
    law_padded_hex_is_read_back(offset, 4);
    assert(line.take(p) =~= prefix);
    assert(line.subrange(p + 1, p + 1 + w) =~= hex_padded(offset, 4));
    assert(line.subrange(p + w + 3, p + w + 3 + 3 * n - 1) =~= hex_bytes(bytes));
    assert(line.subrange(line.len() - 1 - n, line.len() - 1) =~= ascii_bytes(bytes));
}

/// Peers with different ids have different tags, and every tag has eight digits.
pub proof fn law_tags_tell_peers_apart(a: u32, b: u32)
    ensures
        hex_value(peer_tag(a)) == a,
        a != b ==> peer_tag(a) != peer_tag(b),
{
    law_padded_hex_is_read_back(a as nat, 8);
    law_padded_hex_is_read_back(b as nat, 8);
}

/// A range of packets tells the number of its first packet, in hexadecimal, and how many
/// they are, so that both can be read from it.
pub proof fn law_packet_range_is_read_back(base: u64, count: u64)
    ensures
        ({
            let text = packet_range(base, count as int);
            let h = hex(base as nat).len() as int;
            &&& hex_value(text.subrange(2, 2 + h)) == base
            &&& parsed_unsigned(text.skip(5 + h), u64::MAX as nat) == Some(count as nat)
        }),
{
    let text = packet_range(base, count as int);
    let h = hex(base as nat).len() as int;
    reveal_strlit("0x");
    reveal_strlit("..+");
    law_hex_is_read_back(base as nat);
    law_numbers_are_told_from_other_texts(count as nat, u64::MAX as nat, decimal(count as nat), 0);
    assert(text.subrange(2, 2 + h) =~= hex(base as nat));
    assert(text.skip(5 + h) =~= decimal(count as nat));
}

/// The line of an event tells its peer first, and at its end its numbers: the packet, or
/// the packets, and how many bytes they had where that is known.
pub proof fn law_event_lines_tell_their_numbers(tag: Seq<char>, event: DiagnosticEvent)
    ensures
        ({
            let line = event_line(tag, event);
            let tail = match event {
                DiagnosticEvent::AckReceived { base_packet_num, count } => packet_range(
                    base_packet_num,
                    count as int,
                ),
                DiagnosticEvent::AckSent { base_packet_num, count } => packet_range(
                    base_packet_num,
                    count as int,
                ),
                DiagnosticEvent::DataSent { start_packet_num, num_packets, num_bytes } =>
                    packet_range(start_packet_num, num_packets as int) + " ("@ + decimal(
                    num_bytes as nat,
                ) + " bytes)"@,
                DiagnosticEvent::DataReceived { base_packet_num, num_packets, num_bytes } =>
                    packet_range(base_packet_num, num_packets as int) + " ("@ + decimal(
                    num_bytes as nat,
                ) + " bytes)"@,
                DiagnosticEvent::FinSent { packet_num } => hex(packet_num as nat),
                DiagnosticEvent::FinAckSent { packet_num } => hex(packet_num as nat),
                DiagnosticEvent::FinReceived { packet_num } => hex(packet_num as nat),
                DiagnosticEvent::FinAckReceived { packet_num } => hex(packet_num as nat),
            };
            &&& line.len() >= tag.len() + 3 + tail.len()
            &&& line.subrange(1, 1 + tag.len() as int) == tag
            &&& line.skip(line.len() - tail.len()) == tail
        }),
{
    let line = event_line(tag, event);
    reveal_strlit("[");
    reveal_strlit("] ");
    assert(line.subrange(1, 1 + tag.len() as int) =~= tag);
    match event {
        DiagnosticEvent::AckReceived { base_packet_num, count } => {
            let tail = packet_range(base_packet_num, count as int);
            assert(line.skip(line.len() - tail.len()) =~= tail);
        },
        DiagnosticEvent::AckSent { base_packet_num, count } => {
            let tail = packet_range(base_packet_num, count as int);
            assert(line.skip(line.len() - tail.len()) =~= tail);
        },
        DiagnosticEvent::DataSent { start_packet_num, num_packets, num_bytes } => {
            let tail = packet_range(start_packet_num, num_packets as int) + " ("@ + decimal(
                num_bytes as nat,
            ) + " bytes)"@;
            assert(line.skip(line.len() - tail.len()) =~= tail);
        },
        DiagnosticEvent::DataReceived { base_packet_num, num_packets, num_bytes } => {
            let tail = packet_range(base_packet_num, num_packets as int) + " ("@ + decimal(
                num_bytes as nat,
            ) + " bytes)"@;
            assert(line.skip(line.len() - tail.len()) =~= tail);
        },
        DiagnosticEvent::FinSent { packet_num } => {
            let tail = hex(packet_num as nat);
            assert(line.skip(line.len() - tail.len()) =~= tail);
        },
        DiagnosticEvent::FinAckSent { packet_num } => {
            let tail = hex(packet_num as nat);
            assert(line.skip(line.len() - tail.len()) =~= tail);
        },
        DiagnosticEvent::FinReceived { packet_num } => {
            let tail = hex(packet_num as nat);
            assert(line.skip(line.len() - tail.len()) =~= tail);
        },
        DiagnosticEvent::FinAckReceived { packet_num } => {
            let tail = hex(packet_num as nat);
            assert(line.skip(line.len() - tail.len()) =~= tail);
        },
    }
}

/// The line about bytes that went one way tells how many they were and how many in all,
/// so that both can be read from it.
pub proof fn law_count_line_is_read_back(
    tag: Seq<char>,
    verb: Seq<char>,
    len: usize,
    total: usize,
)
    ensures
        ({
            let line = count_line(tag, verb, len as nat, total as nat);
            let at = tag.len() + verb.len() + 4;
            let d = decimal(len as nat).len();
            &&& parsed_unsigned(line.subrange(at as int, (at + d) as int), usize::MAX as nat)
                == Some(len as nat)
            &&& parsed_unsigned(line.skip((at + d + 14) as int), usize::MAX as nat) == Some(
                total as nat,
            )
        }),
{
    let line = count_line(tag, verb, len as nat, total as nat);
    let at = tag.len() + verb.len() + 4;
    let d = decimal(len as nat).len();
    reveal_strlit("[");
    reveal_strlit("] ");
    reveal_strlit(" ");
    reveal_strlit(" bytes, total ");
    law_numbers_are_told_from_other_texts(len as nat, usize::MAX as nat, tag, -1);
    law_numbers_are_told_from_other_texts(total as nat, usize::MAX as nat, tag, -1);
    assert(line.subrange(at as int, (at + d) as int) =~= decimal(len as nat));
    assert(line.skip((at + d + 14) as int) =~= decimal(total as nat));
}

/// The line about a new connection tells both ids, ours first, each in eight digits, so
/// that they can be read from it.
pub proof fn law_established_line_is_read_back(src_conn_id: u32, dst_conn_id: u32)
    ensures
        ({
            let line = established_line(src_conn_id, dst_conn_id);
            let h = hex_padded(src_conn_id as nat, 8).len() as int;
            let k = hex_padded(dst_conn_id as nat, 8).len() as int;
            &&& hex_value(line.subrange(31, 31 + h)) == src_conn_id
            &&& hex_value(line.subrange(40 + h, 40 + h + k)) == dst_conn_id
        }),
{
    let line = established_line(src_conn_id, dst_conn_id);
    let h = hex_padded(src_conn_id as nat, 8).len() as int;
    let k = hex_padded(dst_conn_id as nat, 8).len() as int;
    reveal_strlit("connection established (src_id=");
    reveal_strlit(", dst_id=");
    reveal_strlit(")");
    law_padded_hex_is_read_back(src_conn_id as nat, 8);
    law_padded_hex_is_read_back(dst_conn_id as nat, 8);
    assert(line.subrange(31, 31 + h) =~= hex_padded(src_conn_id as nat, 8));
    assert(line.subrange(40 + h, 40 + h + k) =~= hex_padded(dst_conn_id as nat, 8));
}

/// All that is known of a connection can be read from its lines: the addresses, the ids,
/// the role, the version, whether it is encrypted, and the mask. There is a line less
/// where the peer's address is not known.
pub proof fn law_info_lines_are_read_back(info: ConnectionInfo)
    ensures
        ({
            let lines = info_lines(info);
            let k: int = if info.remote_addr is Some {
                2
            } else {
                1
            };
            &&& lines.len() == k + 6
            &&& lines[0].skip(16) == info.local_addr@
            &&& info.remote_addr matches Some(remote) ==> lines[1].skip(16) == remote@
            &&& hex_value(lines[k].skip(18)) == info.src_conn_id
            &&& hex_value(lines[k + 1].skip(18)) == info.dst_conn_id
            &&& lines[k + 2].skip(16) == info.role@
            &&& hex_value(lines[k + 3].skip(18)) == info.version
            &&& lines[k + 4].skip(16) == if info.encrypted {
                "true"@
            } else {
                "false"@
            }
            &&& hex_value(lines[k + 5].skip(18)) == info.mask
        }),
{
    let lines = info_lines(info);
    let k: int = if info.remote_addr is Some {
        2
    } else {
        1
    };
    reveal_strlit("  local_addr  = ");
    reveal_strlit("  remote_addr = ");
    reveal_strlit("  src_conn_id = 0x");
    reveal_strlit("  dst_conn_id = 0x");
    reveal_strlit("  role        = ");
    reveal_strlit("  version     = 0x");
    reveal_strlit("  encrypted   = ");
    reveal_strlit("  mask        = 0x");
    law_padded_hex_is_read_back(info.src_conn_id as nat, 8);
    law_padded_hex_is_read_back(info.dst_conn_id as nat, 8);
    law_hex_is_read_back(info.version as nat);
    law_padded_hex_is_read_back(info.mask as nat, 2);
    assert(lines[0].skip(16) =~= info.local_addr@);
    if info.remote_addr is Some {
        assert(lines[1].skip(16) =~= info.remote_addr->0@);
    }
    assert(lines[k].skip(18) =~= hex_padded(info.src_conn_id as nat, 8));
    assert(lines[k + 1].skip(18) =~= hex_padded(info.dst_conn_id as nat, 8));
    assert(lines[k + 2].skip(16) =~= info.role@);
    assert(lines[k + 3].skip(18) =~= hex(info.version as nat));
    assert(lines[k + 4].skip(16) =~= bool_text(info.encrypted));
    assert(lines[k + 5].skip(18) =~= hex_padded(info.mask as nat, 2));
}

} // verus!
