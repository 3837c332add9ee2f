//! The server of the benchmark.
use bytes::Bytes;
use vstd::prelude::*;

use crate::bench::settings::{
    law_settings_are_read, law_written_numbers_are_read, positive_setting, read_number,
    read_positive, setting_text, written_number,
};
use crate::shared_bytes::contents;
use crate::text::decimal;

verus! {

/// How long a connection may be idle before its peer is taken to be gone, in
/// seconds.
pub const DEFAULT_RECV_IDLE_TIMEOUT_SECS: u64 = 2;

/// How many reader tasks the server has.
pub const DEFAULT_NUM_READER_WORKERS: u16 = 3;

/// How many connections are accepted before they are read from.
pub const DEFAULT_NUM_CONNECTIONS: usize = 2;

/// How many receives there are between two resets of the idle timer.
pub const IDLE_RESET_EVERY: u64 = 4096;

/// How many bytes must have come before a line is printed.
pub const PRINT_MIN_BYTES: usize = 1_000_000;

/// How many receives there are between two printed lines.
pub const PRINT_EVERY: u64 = 3500;

/// How many payloads are received at once.
pub const MAX_PACKETS_PER_RECV: usize = 16;

/// How long a connection may be idle, in seconds.
pub open spec fn idle_secs_of(setting: Option<Seq<char>>) -> nat {
    positive_setting(setting, u64::MAX as nat, DEFAULT_RECV_IDLE_TIMEOUT_SECS as nat)
}

/// How many reader tasks the server has.
pub open spec fn workers_of(setting: Option<Seq<char>>) -> nat {
    positive_setting(setting, u16::MAX as nat, DEFAULT_NUM_READER_WORKERS as nat)
}

/// How long a connection may be idle, in seconds.
pub fn recv_idle_timeout_secs(setting: Option<&str>) -> (secs: u64)
    ensures
        secs == positive_setting(
            setting_text(setting),
            u64::MAX as nat,
            DEFAULT_RECV_IDLE_TIMEOUT_SECS as nat,
        ),
        secs == idle_secs_of(setting_text(setting)),
        secs > 0,
{
    read_positive(setting, u64::MAX, DEFAULT_RECV_IDLE_TIMEOUT_SECS)
}

/// How many reader tasks the server has.
pub fn num_reader_workers(setting: Option<&str>) -> (workers: u16)
    ensures
        workers == positive_setting(
            setting_text(setting),
            u16::MAX as nat,
            DEFAULT_NUM_READER_WORKERS as nat,
        ),
        workers == workers_of(setting_text(setting)),
        workers > 0,
{
    read_positive(setting, u16::MAX as u64, DEFAULT_NUM_READER_WORKERS as u64) as u16
}

/// How many connections are asked for: on the command line, or else in the
/// environment, or else the default.
pub open spec fn expected_connections(
    arg: Option<Seq<char>>,
    setting: Option<Seq<char>>,
) -> nat {
    if written_number(arg) is Some {
        written_number(arg)->0
    } else if written_number(setting) is Some {
        written_number(setting)->0
    } else {
        DEFAULT_NUM_CONNECTIONS as nat
    }
}

/// How many connections are accepted before they are read from. It has to be at
/// least one.
pub fn num_expected_connections(arg: Option<&str>, setting: Option<&str>) -> (connections: Option<
    usize,
>)
    ensures
        match connections {
            Some(n) => n == expected_connections(setting_text(arg), setting_text(setting)) && n > 0,
            None => expected_connections(setting_text(arg), setting_text(setting)) == 0,
        },
{
    let asked: usize = match read_number(arg) {
        Some(n) => n,
        None => match read_number(setting) {
            Some(n) => n,
            None => DEFAULT_NUM_CONNECTIONS,
        },
    };
    if asked >= 1 {
        Some(asked)
    } else {
        None
    }
}

/// Why the server stops receiving on a connection.
#[derive(Clone, Copy, Debug, PartialEq, Eq, Structural)]
pub enum ConnEnd {
    /// The user asked for it.
    Shutdown,
    /// Nothing could be received.
    ReceiveFailed,
    /// Nothing came for too long.
    Idle,
    /// The peer has closed the connection.
    PeerClosed,
}

/// What happened on a connection.
#[derive(Clone, Copy, Debug, PartialEq, Eq, Structural)]
pub enum ConnEvent {
    /// It was looked whether the user has asked to end.
    Checked { shutdown: bool },
    /// Payloads were received, or the end of the stream.
    Received { end: bool },
    /// Nothing could be received.
    ReceiveFailed,
    /// Nothing came for too long.
    Idle,
}

/// What the server does next on a connection.
#[derive(Clone, Copy, Debug, PartialEq, Eq, Structural)]
pub enum ConnAction {
    /// Receive, but not for too long.
    Receive,
    /// Count what was received, and look whether the user has asked to end.
    Count,
    /// Stop, tell the total, and close the connection where that is still to be done.
    End(ConnEnd),
}

/// What the server does upon an event.
pub open spec fn action_upon(event: ConnEvent) -> ConnAction {
    match event {
        ConnEvent::Checked { shutdown } => if shutdown {
            ConnAction::End(ConnEnd::Shutdown)
        } else {
            ConnAction::Receive
        },
        ConnEvent::Received { end } => if end {
            ConnAction::End(ConnEnd::PeerClosed)
        } else {
            ConnAction::Count
        },
        ConnEvent::ReceiveFailed => ConnAction::End(ConnEnd::ReceiveFailed),
        ConnEvent::Idle => ConnAction::End(ConnEnd::Idle),
    }
}

/// What the server does upon an event.
pub fn next_action(event: ConnEvent) -> (action: ConnAction)
    ensures
        action == match event {
            ConnEvent::Checked { shutdown } => if shutdown {
                ConnAction::End(ConnEnd::Shutdown)
            } else {
                ConnAction::Receive
            },
            ConnEvent::Received { end } => if end {
                ConnAction::End(ConnEnd::PeerClosed)
            } else {
                ConnAction::Count
            },
            ConnEvent::ReceiveFailed => ConnAction::End(ConnEnd::ReceiveFailed),
            ConnEvent::Idle => ConnAction::End(ConnEnd::Idle),
        },
        action == action_upon(event),
{
    match event {
        ConnEvent::Checked { shutdown } => {
            if shutdown {
                ConnAction::End(ConnEnd::Shutdown)
            } else {
                ConnAction::Receive
            }
        },
        ConnEvent::Received { end } => {
            if end {
                ConnAction::End(ConnEnd::PeerClosed)
            } else {
                ConnAction::Count
            }
        },
        ConnEvent::ReceiveFailed => ConnAction::End(ConnEnd::ReceiveFailed),
        ConnEvent::Idle => ConnAction::End(ConnEnd::Idle),
    }
}

impl ConnEnd {
    /// The stream came to its end.
    pub open spec fn spec_is_clean(self) -> bool {
        self == ConnEnd::PeerClosed
    }

    /// The stream came to its end, so that no idle time is part of the transfer and
    /// the connection is not to be closed any more.
    pub fn is_clean(self) -> (clean: bool)
        ensures
            clean == (self == ConnEnd::PeerClosed),
            clean == self.spec_is_clean(),
    {
        match self {
            ConnEnd::PeerClosed => true,
            _ => false,
        }
    }
}

/// What the server counts of a connection.
pub struct Account {
    total_bytes: usize,
    min_bytes: usize,
    max_bytes: usize,
    iteration: u64,
    unprinted: u64,
    last_print_bytes: usize,
}

/// The mathematical value of an [`Account`].
pub ghost struct AccountModel {
    /// All bytes that were received.
    pub total_bytes: nat,
    /// The length of the shortest payload.
    pub min_bytes: nat,
    /// The length of the longest payload.
    pub max_bytes: nat,
    /// The number of the receive that is next.
    pub iteration: nat,
    /// How many receives there were since a line was printed.
    pub unprinted: nat,
    /// The bytes that were received when a line was last printed.
    pub last_print_bytes: nat,
}

impl View for Account {
    type V = AccountModel;

    closed spec fn view(&self) -> AccountModel {
        AccountModel {
            total_bytes: self.total_bytes as nat,
            min_bytes: self.min_bytes as nat,
            max_bytes: self.max_bytes as nat,
            iteration: self.iteration as nat,
            unprinted: self.unprinted as nat,
            last_print_bytes: self.last_print_bytes as nat,
        }
    }
}

/// What the server does after a receive.
#[derive(Clone, Copy, Debug, PartialEq, Eq, Structural)]
pub struct AfterReceive {
    /// The idle timer is reset.
    pub reset_idle: bool,
    /// A line is printed, with the bytes that came since the last one.
    pub print: Option<usize>,
}

/// The length of the shortest payload, `least` included.
pub open spec fn shortest(chunks: Seq<Bytes>, least: nat) -> nat
    decreases chunks.len(),
{
    if chunks.len() == 0 {
        least
    } else {
        let before = shortest(chunks.drop_last(), least);
        let len = contents(chunks.last()).len();
        if len < before {
            len
        } else {
            before
        }
    }
}

/// The length of the longest payload, `most` included.
pub open spec fn longest(chunks: Seq<Bytes>, most: nat) -> nat
    decreases chunks.len(),
{
    if chunks.len() == 0 {
        most
    } else {
        let before = longest(chunks.drop_last(), most);
        let len = contents(chunks.last()).len();
        if len > before {
            len
        } else {
            before
        }
    }
}

/// A receive had neither bytes nor payloads.
pub open spec fn nothing_came(size: nat, chunks: Seq<Bytes>) -> bool {
    size == 0 && chunks.len() == 0
}

impl AccountModel {
    pub open spec fn fresh() -> AccountModel {
        AccountModel {
            total_bytes: 0,
            min_bytes: usize::MAX as nat,
            max_bytes: 0,
            iteration: 1,
            unprinted: 0,
            last_print_bytes: 0,
        }
    }

    pub open spec fn valid(self) -> bool {
        self.last_print_bytes <= self.total_bytes && self.unprinted <= self.iteration
    }

    /// The idle timer is reset after the receive that is next.
    pub open spec fn resets_idle(self) -> bool {
        self.iteration as int % IDLE_RESET_EVERY as int == 0
    }

    /// A line is due after a receive of `size` bytes.
    pub open spec fn print_due(self, size: nat) -> bool {
        self.total_bytes + size >= PRINT_MIN_BYTES && self.unprinted + 1 >= PRINT_EVERY
    }

    /// The bytes that a line tells of, where one is due after a receive.
    pub open spec fn printed(self, size: nat) -> Option<nat> {
        if self.print_due(size) {
            Some((self.total_bytes + size - self.last_print_bytes) as nat)
        } else {
            None
        }
    }

    /// The account after a receive of `size` bytes.
    pub open spec fn on_receive(self, size: nat, chunks: Seq<Bytes>) -> AccountModel {
        AccountModel {
            total_bytes: self.total_bytes + size,
            min_bytes: shortest(chunks, self.min_bytes),
            max_bytes: longest(chunks, self.max_bytes),
            iteration: self.iteration + 1,
            unprinted: if self.print_due(size) {
                0
            } else {
                self.unprinted + 1
            },
            last_print_bytes: if self.print_due(size) {
                self.total_bytes + size
            } else {
                self.last_print_bytes
            },
        }
    }
}

impl Account {
    pub fn new() -> (account: Self)
        ensures
            account@ == AccountModel::fresh(),
            account@.valid(),
    {
        Account {
            total_bytes: 0,
            min_bytes: usize::MAX,
            max_bytes: 0,
            iteration: 1,
            unprinted: 0,
            last_print_bytes: 0,
        }
    }

    /// All bytes that were received.
    pub fn total_bytes(&self) -> (total: usize)
        ensures
            total == self@.total_bytes,
    {
        self.total_bytes
    }

    /// The lengths of the shortest and of the longest payload.
    pub fn extremes(&self) -> (extremes: (usize, usize))
        ensures
            extremes.0 == self@.min_bytes,
            extremes.1 == self@.max_bytes,
    {
        (self.min_bytes, self.max_bytes)
    }

    /// The number of the receive that is next.
    pub fn iteration(&self) -> (iteration: u64)
        ensures
            iteration == self@.iteration,
    {
        self.iteration
    }

    /// The peer has closed the connection: nothing was received, and nothing is
    /// left.
    pub fn is_end(size: usize, chunks: &Vec<Bytes>) -> (end: bool)
        ensures
            end == (size == 0 && chunks@.len() == 0),
            end == nothing_came(size as nat, chunks@),
    {
        size == 0 && chunks.len() == 0
    }

    /// Counts a receive of `size` bytes, and empties `chunks`.
    pub fn on_receive(&mut self, size: usize, chunks: &mut Vec<Bytes>) -> (after: AfterReceive)
        requires
            old(self)@.valid(),
            old(self)@.total_bytes + size <= usize::MAX,
            old(self)@.iteration < u64::MAX,
        ensures
            final(self)@.valid(),
            final(self)@ == old(self)@.on_receive(size as nat, old(chunks)@),
            final(chunks)@.len() == 0,
            after.reset_idle == (old(self)@.iteration as int % IDLE_RESET_EVERY as int == 0),
            after.reset_idle == old(self)@.resets_idle(),
            after.print == if old(self)@.print_due(size as nat) {
                Some((old(self)@.total_bytes + size - old(self)@.last_print_bytes) as usize)
            } else {
                None
            },
            after.print == match old(self)@.printed(size as nat) {
                Some(bytes) => Some(bytes as usize),
                None => None,
            },
    {
        let ghost start = self@;
        let ghost received = chunks@;
        let reset_idle: bool = self.iteration % IDLE_RESET_EVERY == 0;
        self.total_bytes = self.total_bytes + size;
        let total: usize = chunks.len();
        let mut i: usize = 0;
        while i < total
            invariant
                i <= total,
                total == chunks@.len(),
                chunks@ == received,
                self.total_bytes == start.total_bytes + size,
                self.iteration == start.iteration,
                self.unprinted == start.unprinted,
                self.last_print_bytes == start.last_print_bytes,
                self.min_bytes == shortest(received.take(i as int), start.min_bytes),
                self.max_bytes == longest(received.take(i as int), start.max_bytes),
            decreases total - i,
        {
            let n: usize = chunks[i].len();
            if n < self.min_bytes {
                self.min_bytes = n;
            }
            if n > self.max_bytes {
                self.max_bytes = n;
            }
            assert(received.take(i + 1).drop_last() =~= received.take(i as int));
            i = i + 1;
        }
        assert(received.take(total as int) =~= received);
        chunks.clear();
        self.unprinted = self.unprinted + 1;
        let mut print: Option<usize> = None;
        if self.total_bytes >= PRINT_MIN_BYTES && self.unprinted >= PRINT_EVERY {
            print = Some(self.total_bytes - self.last_print_bytes);
            self.last_print_bytes = self.total_bytes;
            self.unprinted = 0;
        }
        self.iteration = self.iteration + 1;
        AfterReceive { reset_idle, print }
    }
}

/// The server goes on until the user asks to end, the stream ends, nothing can be
/// received, or nothing came for too long, and tells these apart. What came before the
/// end is counted, and then it is looked again. Only the end of the stream is a clean
/// end.
pub proof fn law_server_goes_on_until_the_end(event: ConnEvent)
    ensures
        action_upon(event) == ConnAction::Receive <==> event == (ConnEvent::Checked {
            shutdown: false,
        }),
        action_upon(event) == ConnAction::Count <==> event == (ConnEvent::Received { end: false }),
        action_upon(event) == ConnAction::End(ConnEnd::Shutdown) <==> event == (
        ConnEvent::Checked { shutdown: true }),
        action_upon(event) == ConnAction::End(ConnEnd::PeerClosed) <==> event == (
        ConnEvent::Received { end: true }),
        action_upon(event) == ConnAction::End(ConnEnd::ReceiveFailed) <==> event is ReceiveFailed,
        action_upon(event) == ConnAction::End(ConnEnd::Idle) <==> event is Idle,
        action_upon(event) matches ConnAction::End(end) ==> (end.spec_is_clean() <==> event == (
        ConnEvent::Received { end: true })),
{
}

/// The account after receives, one after the other: of each the size and the payloads.
pub open spec fn on_receives(
    account: AccountModel,
    receives: Seq<(nat, Seq<Bytes>)>,
) -> AccountModel
    decreases receives.len(),
{
    if receives.len() == 0 {
        account
    } else {
        on_receives(account, receives.drop_last()).on_receive(
            receives.last().0,
            receives.last().1,
        )
    }
}

/// How many bytes were received in all.
pub open spec fn bytes_in(receives: Seq<(nat, Seq<Bytes>)>) -> nat
    decreases receives.len(),
{
    if receives.len() == 0 {
        0
    } else {
        bytes_in(receives.drop_last()) + receives.last().0
    }
}

/// How many bytes the lines tell of that are printed on the way.
pub open spec fn bytes_told(account: AccountModel, receives: Seq<(nat, Seq<Bytes>)>) -> nat
    decreases receives.len(),
{
    if receives.len() == 0 {
        0
    } else {
        bytes_told(account, receives.drop_last()) + match on_receives(
            account,
            receives.drop_last(),
        ).printed(receives.last().0) {
            Some(bytes) => bytes,
            None => 0,
        }
    }
}

/// All bytes are counted, and each of them is told of once: those in the printed lines
/// and those since the last line are all that came.
pub proof fn law_account_adds_up(account: AccountModel, receives: Seq<(nat, Seq<Bytes>)>)
    requires
        account.valid(),
    ensures
        ({
            let now = on_receives(account, receives);
            &&& now.valid()
            &&& now.total_bytes == account.total_bytes + bytes_in(receives)
            &&& now.iteration == account.iteration + receives.len()
            &&& account.last_print_bytes + bytes_told(account, receives) == now.last_print_bytes
            &&& now.last_print_bytes <= now.total_bytes
        }),
        AccountModel::fresh().total_bytes == 0,
        AccountModel::fresh().last_print_bytes == 0,
        AccountModel::fresh().iteration == 1,
    decreases receives.len(),
{
    if receives.len() > 0 {
        law_account_adds_up(account, receives.drop_last());
    }
}

/// A line is printed after 3500 receives without one, once a million bytes have come,
/// and not earlier; then the count begins anew.
pub proof fn law_lines_are_printed_now_and_then(
    account: AccountModel,
    size: nat,
    chunks: Seq<Bytes>,
)
    ensures
        account.printed(size) is Some <==> account.total_bytes + size >= 1_000_000
            && account.unprinted + 1 >= 3500,
        account.printed(size) is Some ==> account.on_receive(size, chunks).unprinted == 0,
        account.printed(size) is None ==> account.on_receive(size, chunks).unprinted
            == account.unprinted + 1,
        account.valid() ==> (account.printed(size) matches Some(bytes) ==> account.last_print_bytes
            + bytes == account.total_bytes + size),
{
}

/// The shortest and the longest payload are found among all that came.
pub proof fn law_extremes_are_found(chunks: Seq<Bytes>, least: nat, most: nat)
    ensures
        shortest(chunks, least) <= least,
        longest(chunks, most) >= most,
        forall|i: int|
            0 <= i < chunks.len() ==> shortest(chunks, least) <= contents(#[trigger] chunks[i]).len()
                <= longest(chunks, most),
        shortest(chunks, least) == least || exists|i: int|
            0 <= i < chunks.len() && contents(#[trigger] chunks[i]).len() == shortest(
                chunks,
                least,
            ),
        longest(chunks, most) == most || exists|i: int|
            0 <= i < chunks.len() && contents(#[trigger] chunks[i]).len() == longest(
                chunks,
                most,
            ),
    decreases chunks.len(),
{
    if chunks.len() > 0 {
        let fewer = chunks.drop_last();
        let last = chunks.len() - 1;
        law_extremes_are_found(fewer, least, most);
        assert(chunks[last] == chunks.last());
        assert forall|i: int| 0 <= i < chunks.len() implies shortest(chunks, least) <= contents(
            #[trigger] chunks[i],
        ).len() <= longest(chunks, most) by {
            if i < last {
                assert(fewer[i] == chunks[i]);
            }
        }
        if shortest(chunks, least) != least && shortest(chunks, least) == shortest(fewer, least) {
            let i = choose|i: int|
                0 <= i < fewer.len() && contents(#[trigger] fewer[i]).len() == shortest(
                    fewer,
                    least,
                );
            assert(chunks[i] == fewer[i]);
        }
        if longest(chunks, most) != most && longest(chunks, most) == longest(fewer, most) {
            let i = choose|i: int|
                0 <= i < fewer.len() && contents(#[trigger] fewer[i]).len() == longest(
                    fewer,
                    most,
                );
            assert(chunks[i] == fewer[i]);
        }
    }
}

/// How many connections are expected: the number on the command line counts before that
/// in the environment, and two are expected where neither is one.
pub proof fn law_command_line_counts_first(n: nat, m: nat, other: Option<Seq<char>>)
    requires
        n <= usize::MAX,
        m <= usize::MAX,
    ensures
        expected_connections(Some(decimal(n)), other) == n,
        expected_connections(None, Some(decimal(m))) == m,
        expected_connections(None, None) == 2,
{
    law_written_numbers_are_read(n);
    law_written_numbers_are_read(m);
}

/// The account knows the shortest and the longest of all payloads that came, those of
/// the last receive included.
pub proof fn law_account_knows_the_extremes(account: AccountModel, size: nat, chunks: Seq<Bytes>)
    ensures
        ({
            let now = account.on_receive(size, chunks);
            &&& now.min_bytes <= account.min_bytes
            &&& now.max_bytes >= account.max_bytes
            &&& forall|i: int|
                0 <= i < chunks.len() ==> now.min_bytes <= contents(#[trigger] chunks[i]).len()
                    <= now.max_bytes
            &&& now.min_bytes == account.min_bytes || exists|i: int|
                0 <= i < chunks.len() && contents(#[trigger] chunks[i]).len() == now.min_bytes
            &&& now.max_bytes == account.max_bytes || exists|i: int|
                0 <= i < chunks.len() && contents(#[trigger] chunks[i]).len() == now.max_bytes
        }),
        AccountModel::fresh().max_bytes == 0,
        AccountModel::fresh().min_bytes == usize::MAX,
{
    law_extremes_are_found(chunks, account.min_bytes, account.max_bytes);
}

/// The idle timer is reset after every 4096th receive, and not in between.
pub proof fn law_idle_timer_is_reset_now_and_then(account: AccountModel, k: nat)
    ensures
        account.iteration == 4096 * k ==> account.resets_idle(),
        4096 * k < account.iteration < 4096 * (k + 1) ==> !account.resets_idle(),
{
}

/// Only a receive with neither bytes nor payloads is the end of the stream.
pub proof fn law_bytes_are_no_end(size: nat, chunks: Seq<Bytes>)
    ensures
        size > 0 ==> !nothing_came(size, chunks),
        chunks.len() > 0 ==> !nothing_came(size, chunks),
        nothing_came(0, Seq::empty()),
{
}

/// Each setting of the server can be any positive number that its type holds; where none
/// is set, or zero, a connection may be idle for two seconds, and there are three reader
/// tasks.
pub proof fn law_server_settings_have_their_whole_range(n: nat)
    requires
        0 < n <= u64::MAX,
    ensures
        idle_secs_of(Some(decimal(n))) == n,
        n <= u16::MAX ==> workers_of(Some(decimal(n))) == n,
        n > u16::MAX ==> workers_of(Some(decimal(n))) == 3,
        idle_secs_of(Some(decimal(0))) == 2,
        workers_of(Some(decimal(0))) == 3,
        idle_secs_of(None) == 2,
        workers_of(None) == 3,
{
    let none = Seq::<char>::empty();
    assert(none + decimal(n) + none =~= decimal(n));
    assert(none + decimal(0) + none =~= decimal(0));
    law_settings_are_read(none, n, none, u64::MAX as nat, 2);
    law_settings_are_read(none, 0, none, u64::MAX as nat, 2);
    law_settings_are_read(none, n, none, u16::MAX as nat, 3);
    law_settings_are_read(none, 0, none, u16::MAX as nat, 3);
}

} // verus!
