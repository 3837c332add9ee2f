//! The client of the benchmark.
use vstd::prelude::*;

use crate::bench::settings::{
    law_settings_are_read, law_written_numbers_are_read, plain_setting, positive_setting,
    read_number, read_plain, read_positive, setting_text, usize_limit, written_number,
};
use crate::text::{decimal, same};

verus! {

/// The ports from which the connections are opened, one for each.
pub const DEFAULT_PORTS: [u16; 5] = [1320, 1322, 1323, 1324, 1325];

/// The port of the server.
pub const SERVER_PORT: u16 = 1318;

/// How often a send is followed by a pause in which other tasks run.
pub const SENDS_PER_YIELD: usize = 256;

/// How many payloads a connection sends.
pub const DEFAULT_NUM_SENDS: usize = 10_000_000;

/// How long the client sleeps now and then, in microseconds: not at all.
pub const DEFAULT_SEND_THROTTLE_US: u64 = 0;

/// How many sends there are between two sleeps.
pub const DEFAULT_SEND_THROTTLE_EVERY: usize = 256;

/// How many payloads a connection sends.
pub open spec fn sends_of(setting: Option<Seq<char>>) -> nat {
    positive_setting(setting, usize_limit(), DEFAULT_NUM_SENDS as nat)
}

/// How long the client sleeps now and then, in microseconds.
pub open spec fn throttle_us_of(setting: Option<Seq<char>>) -> nat {
    plain_setting(setting, u64::MAX as nat, DEFAULT_SEND_THROTTLE_US as nat)
}

/// How many sends there are between two sleeps.
pub open spec fn throttle_every_of(setting: Option<Seq<char>>) -> nat {
    positive_setting(setting, usize_limit(), DEFAULT_SEND_THROTTLE_EVERY as nat)
}

/// How many payloads a connection sends.
pub fn num_sends(setting: Option<&str>) -> (sends: usize)
    ensures
        sends == positive_setting(
            setting_text(setting),
            usize_limit(),
            DEFAULT_NUM_SENDS as nat,
        ),
        sends == sends_of(setting_text(setting)),
        sends > 0,
{
    read_positive(setting, usize::MAX as u64, DEFAULT_NUM_SENDS as u64) as usize
}

/// How long the client sleeps now and then, in microseconds.
pub fn send_throttle_us(setting: Option<&str>) -> (micros: u64)
    ensures
        micros == plain_setting(
            setting_text(setting),
            u64::MAX as nat,
            DEFAULT_SEND_THROTTLE_US as nat,
        ),
        micros == throttle_us_of(setting_text(setting)),
{
    read_plain(setting, u64::MAX, DEFAULT_SEND_THROTTLE_US)
}

/// How many sends there are between two sleeps.
pub fn send_throttle_every(setting: Option<&str>) -> (sends: usize)
    ensures
        sends == positive_setting(
            setting_text(setting),
            usize_limit(),
            DEFAULT_SEND_THROTTLE_EVERY as nat,
        ),
        sends == throttle_every_of(setting_text(setting)),
        sends > 0,
{
    read_positive(setting, usize::MAX as u64, DEFAULT_SEND_THROTTLE_EVERY as u64) as usize
}

/// Why the command line of the client is refused.
#[derive(Clone, Copy, Debug, PartialEq, Eq, Structural)]
pub enum TaskError {
    /// `--task` is not followed by an index.
    MissingIndex,
    /// What follows `--task` is not an index.
    InvalidIndex,
    /// The index is not that of a port.
    OutOfRange,
    /// The argument is not known.
    UnknownArgument,
}

/// Which connections the client opens: the first two, or the one that `--task`
/// names.
pub open spec fn chosen_tasks(args: Seq<Seq<char>>) -> Result<Seq<usize>, TaskError> {
    if args.len() == 0 {
        Ok(seq![0usize, 1usize])
    } else if args[0] != "--task"@ {
        Err(TaskError::UnknownArgument)
    } else if args.len() == 1 {
        Err(TaskError::MissingIndex)
    } else {
        match written_number(Some(args[1])) {
            None => Err(TaskError::InvalidIndex),
            Some(index) => if index < 5 {
                Ok(seq![index as usize])
            } else {
                Err(TaskError::OutOfRange)
            },
        }
    }
}

/// Reads the command line of the client, without the name of the program.
pub fn choose_tasks(args: &Vec<String>) -> (tasks: Result<Vec<usize>, TaskError>)
    ensures
        match tasks {
            Ok(tasks) => chosen_tasks(args@.map_values(|arg: String| arg@)) == Ok::<
                Seq<usize>,
                TaskError,
            >(tasks@),
            Err(e) => chosen_tasks(args@.map_values(|arg: String| arg@)) == Err::<
                Seq<usize>,
                TaskError,
            >(e),
        },
{
    let ghost texts = args@.map_values(|arg: String| arg@);
    let mut tasks: Vec<usize> = Vec::new();
    if args.len() == 0 {
        tasks.push(0);
        tasks.push(1);
        assert(tasks@ =~= seq![0usize, 1usize]);
        return Ok(tasks);
    }
    assert(texts[0] == args@[0]@);
    if !same(args[0].as_str(), "--task") {
        return Err(TaskError::UnknownArgument);
    }
    if args.len() == 1 {
        return Err(TaskError::MissingIndex);
    }
    assert(texts[1] == args@[1]@);
    match read_number(Some(args[1].as_str())) {
        None => Err(TaskError::InvalidIndex),
        Some(index) => {
            if index < 5 {
                tasks.push(index);
                assert(tasks@ =~= seq![index]);
                Ok(tasks)
            } else {
                Err(TaskError::OutOfRange)
            }
        },
    }
}

/// How the client paces its sends.
#[derive(Clone, Copy, Debug)]
pub struct Pacing {
    throttle_us: u64,
    throttle_every: usize,
}

/// What the client does after a send.
#[derive(Clone, Copy, Debug, PartialEq, Eq, Structural)]
pub struct Pause {
    /// Let other tasks run, and look whether the user has asked to end.
    pub yields: bool,
    /// Sleep for so many microseconds.
    pub sleep_us: Option<u64>,
}

/// What the client does next with its payloads.
#[derive(Clone, Copy, Debug, PartialEq, Eq, Structural)]
pub enum SendAction {
    /// Send one more.
    Send,
    /// Send no more.
    Stop,
}

/// What the client does after the `i`-th send.
pub open spec fn paused_after(throttle_us: u64, throttle_every: usize, i: usize) -> Pause {
    Pause {
        yields: i as int % SENDS_PER_YIELD as int == 0,
        sleep_us: if throttle_us > 0 && i as int % throttle_every as int == 0 {
            Some(throttle_us)
        } else {
            None
        },
    }
}

/// What the client does once `sent` payloads were sent.
pub open spec fn action_after(sent: usize, n_sends: usize, looked: Option<bool>) -> SendAction {
    if looked == Some(true) || sent >= n_sends {
        SendAction::Stop
    } else {
        SendAction::Send
    }
}

/// What the client does once `sent` payloads were sent. Where it has just looked
/// whether the user has asked to end, `looked` tells the answer.
pub fn next_send(sent: usize, n_sends: usize, looked: Option<bool>) -> (action: SendAction)
    ensures
        action == if looked == Some(true) || sent >= n_sends {
            SendAction::Stop
        } else {
            SendAction::Send
        },
        action == action_after(sent, n_sends, looked),
{
    match looked {
        Some(true) => SendAction::Stop,
        _ => {
            if sent >= n_sends {
                SendAction::Stop
            } else {
                SendAction::Send
            }
        },
    }
}

impl Pause {
    /// How long is slept, once it was looked whether the user has asked to end.
    pub open spec fn slept(self, looked: Option<bool>) -> Option<u64> {
        if looked == Some(true) {
            None
        } else {
            self.sleep_us
        }
    }

    /// How long to sleep, once it was looked whether the user has asked to end: who
    /// stops early does not sleep.
    pub fn sleep_after_look(self, looked: Option<bool>) -> (sleep_us: Option<u64>)
        ensures
            sleep_us == if looked == Some(true) {
                None
            } else {
                self.sleep_us
            },
            sleep_us == self.slept(looked),
    {
        match looked {
            Some(true) => None,
            _ => self.sleep_us,
        }
    }
}

impl Pacing {
    pub closed spec fn spec_throttle_us(&self) -> u64 {
        self.throttle_us
    }

    pub closed spec fn spec_throttle_every(&self) -> usize {
        self.throttle_every
    }

    pub fn new(throttle_us: u64, throttle_every: usize) -> (pacing: Self)
        ensures
            pacing.spec_throttle_us() == throttle_us,
            pacing.spec_throttle_every() == throttle_every,
    {
        Pacing { throttle_us, throttle_every }
    }

    /// What the client does after the `i`-th send. The two pauses have paces of
    /// their own.
    pub fn after_send(&self, i: usize) -> (pause: Pause)
        requires
            self.spec_throttle_us() > 0 ==> self.spec_throttle_every() > 0,
        ensures
            pause.yields == (i as int % SENDS_PER_YIELD as int == 0),
            pause.sleep_us == if self.spec_throttle_us() > 0 && i as int
                % self.spec_throttle_every() as int == 0 {
                Some(self.spec_throttle_us())
            } else {
                None
            },
            pause == paused_after(self.spec_throttle_us(), self.spec_throttle_every(), i),
    {
        let sleep_us: Option<u64> = if self.throttle_us > 0 && i % self.throttle_every == 0 {
            Some(self.throttle_us)
        } else {
            None
        };
        Pause { yields: i % SENDS_PER_YIELD == 0, sleep_us }
    }
}

/// The benchmark client opens the connection that is named, where there is a port for
/// it, and the first two where none is.
pub proof fn law_tasks_are_chosen(index: nat, rest: Seq<Seq<char>>)
    ensures
        chosen_tasks(Seq::empty()) == Ok::<Seq<usize>, TaskError>(seq![0usize, 1usize]),
        chosen_tasks(seq!["--task"@]) == Err::<Seq<usize>, TaskError>(TaskError::MissingIndex),
        index < 5 ==> chosen_tasks(seq!["--task"@, decimal(index)] + rest) == Ok::<
            Seq<usize>,
            TaskError,
        >(seq![index as usize]),
        5 <= index <= usize::MAX ==> chosen_tasks(seq!["--task"@, decimal(index)] + rest) == Err::<
            Seq<usize>,
            TaskError,
        >(TaskError::OutOfRange),
        index > usize::MAX ==> chosen_tasks(seq!["--task"@, decimal(index)] + rest) == Err::<
            Seq<usize>,
            TaskError,
        >(TaskError::InvalidIndex),
{
    law_written_numbers_are_read(index);
    let args = seq!["--task"@, decimal(index)] + rest;
    assert(args[0] == "--task"@);
    assert(args[1] == decimal(index));
}

/// Other tasks run after the first send and after every 256th one from there, and never
/// in between; the client sleeps, where it is to sleep at all, at a pace of its own, and
/// always for the same time.
pub proof fn law_sends_are_paced(throttle_us: u64, throttle_every: usize, i: usize, k: nat)
    requires
        throttle_us > 0 ==> throttle_every > 0,
    ensures
        i == 256 * k ==> paused_after(throttle_us, throttle_every, i).yields,
        256 * k < i < 256 * (k + 1) ==> !paused_after(throttle_us, throttle_every, i).yields,
        throttle_us > 0 && i == throttle_every * k ==> paused_after(
            throttle_us,
            throttle_every,
            i,
        ).sleep_us == Some(throttle_us),
        throttle_us == 0 ==> paused_after(throttle_us, throttle_every, i).sleep_us is None,
        throttle_us > 0 && throttle_every * k < i < throttle_every * (k + 1) ==> paused_after(
            throttle_us,
            throttle_every,
            i,
        ).sleep_us is None,
{
    if throttle_us > 0 {
        let e = throttle_every as int;
        if i == e * k {
            assert((e * k) % e == 0) by (nonlinear_arith)
                requires
                    e > 0,
            ;
        } else if e * k < i < e * (k + 1) {
            assert(i as int % e != 0) by {
                if i as int % e == 0 {
                    let q = i as int / e;
                    assert(i as int == e * q) by (nonlinear_arith)
                        requires
                            e > 0,
                            i as int % e == 0,
                            q == i as int / e,
                    ;
                    assert(false) by (nonlinear_arith)
                        requires
                            e > 0,
                            i as int == e * q,
                            e * k < i as int,
                            (i as int) < e * (k + 1),
                    ;
                }
            }
        }
    }
}

/// All payloads are sent, and not one more, unless the user asks to end: then none is
/// sent after that was seen.
pub proof fn law_all_payloads_are_sent(sent: usize, n_sends: usize, looked: Option<bool>)
    ensures
        action_after(sent, n_sends, looked) == SendAction::Send <==> sent < n_sends && looked
            != Some(true),
        action_after(sent, n_sends, looked) == SendAction::Stop <==> sent >= n_sends || looked
            == Some(true),
{
}

/// Each setting of the client can be any number that its type holds, except zero where
/// it has to be positive; where none is set the client sends ten million payloads and
/// does not sleep.
pub proof fn law_client_settings_have_their_whole_range(n: nat)
    requires
        n <= usize::MAX,
    ensures
        n > 0 ==> sends_of(Some(decimal(n))) == n,
        n > 0 ==> throttle_every_of(Some(decimal(n))) == n,
        throttle_us_of(Some(decimal(n))) == n,
        sends_of(Some(decimal(0))) == sends_of(None),
        throttle_every_of(Some(decimal(0))) == throttle_every_of(None),
        sends_of(None) == 10_000_000,
        throttle_us_of(None) == 0,
        throttle_every_of(None) == 256,
{
    let none = Seq::<char>::empty();
    assert(none + decimal(n) + none =~= decimal(n));
    assert(none + decimal(0) + none =~= decimal(0));
    law_settings_are_read(none, n, none, usize_limit(), DEFAULT_NUM_SENDS as nat);
    law_settings_are_read(none, 0, none, usize_limit(), DEFAULT_NUM_SENDS as nat);
    law_settings_are_read(none, n, none, usize_limit(), DEFAULT_SEND_THROTTLE_EVERY as nat);
    law_settings_are_read(none, 0, none, usize_limit(), DEFAULT_SEND_THROTTLE_EVERY as nat);
    law_settings_are_read(none, n, none, u64::MAX as nat, DEFAULT_SEND_THROTTLE_US as nat);
}

/// A command line that begins with anything but `--task` is refused, and so is one whose
/// index is no number.
pub proof fn law_other_command_lines_are_refused(args: Seq<Seq<char>>)
    requires
        args.len() > 0,
    ensures
        args[0] != "--task"@ ==> chosen_tasks(args) == Err::<Seq<usize>, TaskError>(
            TaskError::UnknownArgument,
        ),
        args[0] == "--task"@ && args.len() > 1 && written_number(Some(args[1])) is None
            ==> chosen_tasks(args) == Err::<Seq<usize>, TaskError>(TaskError::InvalidIndex),
        chosen_tasks(args) matches Ok(tasks) ==> tasks.len() == 1 && tasks[0] < 5,
{
}

/// Who has asked to end is not kept waiting by a sleep; otherwise the sleep is as long
/// as it was to be.
pub proof fn law_who_stops_does_not_sleep(pause: Pause)
    ensures
        pause.slept(Some(true)) is None,
        pause.slept(Some(false)) == pause.sleep_us,
        pause.slept(None) == pause.sleep_us,
{
}

} // verus!
