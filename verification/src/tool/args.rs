//! The command line of the tool.
use vstd::prelude::*;

use crate::text::{
    decimal, law_decimal_begins_with_a_digit, law_numbers_are_told_from_other_texts,
    parse_unsigned, parsed_unsigned, same,
};

verus! {

broadcast use vstd::string::group_string_axioms;

/// What the tool is to do.
#[derive(Debug)]
pub enum Mode {
    /// Accept connections.
    Listen { bind: String, port: u16 },
    /// Open a connection. Where no source port is given, any will do.
    Connect { host: String, port: u16, source_port: Option<u16> },
}

/// The mathematical value of a [`Mode`].
pub ghost enum ModeView {
    Listen { bind: Seq<char>, port: u16 },
    Connect { host: Seq<char>, port: u16, source_port: Option<u16> },
}

impl View for Mode {
    type V = ModeView;

    open spec fn view(&self) -> ModeView {
        match *self {
            Mode::Listen { bind, port } => ModeView::Listen { bind: bind@, port },
            Mode::Connect { host, port, source_port } => ModeView::Connect {
                host: host@,
                port,
                source_port,
            },
        }
    }
}

/// Why the tool ends before it has done anything.
#[derive(Debug)]
pub struct Exit {
    /// What went wrong, if anything did.
    pub message: Option<String>,
    /// The usage is to be printed.
    pub usage: bool,
    /// The exit code.
    pub code: i32,
}

/// The mathematical value of an [`Exit`].
pub ghost struct ExitView {
    pub message: Option<Seq<char>>,
    pub usage: bool,
    pub code: i32,
}

impl View for Exit {
    type V = ExitView;

    open spec fn view(&self) -> ExitView {
        ExitView {
            message: match self.message {
                Some(message) => Some(message@),
                None => None,
            },
            usage: self.usage,
            code: self.code,
        }
    }
}

/// What the command line says.
#[derive(Debug)]
pub struct Settings {
    pub mode: Mode,
    /// Hex dumps, byte counts and peer tags are shown for all traffic.
    pub diagnostics: bool,
}

/// What was read of the command line so far.
#[verifier::ext_equal]
pub ghost struct ArgsView {
    pub listen: bool,
    pub diagnostics: bool,
    pub bind: Seq<char>,
    pub source_port: Option<u16>,
    pub positional: Seq<Seq<char>>,
}

/// The texts.
pub open spec fn texts(strings: Seq<String>) -> Seq<Seq<char>> {
    strings.map_values(|text: String| text@)
}

pub open spec fn failure(message: Seq<char>, usage: bool) -> ExitView {
    ExitView { message: Some(message), usage, code: 1 }
}

pub open spec fn is_listen_flag(arg: Seq<char>) -> bool {
    arg == "-l"@ || arg == "--listen"@
}

pub open spec fn is_diagnostics_flag(arg: Seq<char>) -> bool {
    arg == "-d"@ || arg == "--diagnostics"@
}

pub open spec fn is_bind_flag(arg: Seq<char>) -> bool {
    arg == "-b"@ || arg == "--bind"@
}

pub open spec fn is_source_port_flag(arg: Seq<char>) -> bool {
    arg == "-s"@ || arg == "--source-port"@
}

pub open spec fn is_help_flag(arg: Seq<char>) -> bool {
    arg == "-h"@ || arg == "--help"@
}

impl ArgsView {
    pub open spec fn fresh() -> ArgsView {
        ArgsView {
            listen: false,
            diagnostics: false,
            bind: "127.0.0.1"@,
            source_port: None,
            positional: Seq::empty(),
        }
    }

    /// Reads the arguments from the `i`-th on. A later flag overrides an earlier
    /// one; what is not a flag is positional.
    pub open spec fn read(self, args: Seq<Seq<char>>, i: int) -> Result<ArgsView, ExitView>
        decreases args.len() - i,
    {
        if i < 0 || i >= args.len() {
            Ok(self)
        } else if is_listen_flag(args[i]) {
            (ArgsView { listen: true, ..self }).read(args, i + 1)
        } else if is_diagnostics_flag(args[i]) {
            (ArgsView { diagnostics: true, ..self }).read(args, i + 1)
        } else if is_bind_flag(args[i]) {
            if i + 1 >= args.len() {
                Err(failure("error: -b requires an address"@, false))
            } else {
                (ArgsView { bind: args[i + 1], ..self }).read(args, i + 2)
            }
        } else if is_source_port_flag(args[i]) {
            if i + 1 >= args.len() {
                Err(failure("error: -s requires a port number"@, false))
            } else {
                match parsed_unsigned(args[i + 1], u16::MAX as nat) {
                    None => Err(failure("error: invalid source port: "@ + args[i + 1], false)),
                    Some(port) => (ArgsView {
                        source_port: Some(port as u16),
                        ..self
                    }).read(args, i + 2),
                }
            }
        } else if is_help_flag(args[i]) {
            Err(ExitView { message: None, usage: true, code: 0 })
        } else {
            (ArgsView { positional: self.positional.push(args[i]), ..self }).read(args, i + 1)
        }
    }

    /// What the arguments ask for.
    pub open spec fn mode(self) -> Result<ModeView, ExitView> {
        if self.listen {
            if self.positional.len() == 0 {
                Err(failure("error: listen mode requires a port number"@, true))
            } else {
                match parsed_unsigned(self.positional[0], u16::MAX as nat) {
                    None => Err(failure("error: invalid port number"@, false)),
                    Some(port) => Ok(ModeView::Listen { bind: self.bind, port: port as u16 }),
                }
            }
        } else if self.positional.len() == 0 {
            Err(ExitView { message: None, usage: true, code: 0 })
        } else if self.positional.len() != 2 {
            Err(failure("error: connect mode requires <host> <port>"@, true))
        } else {
            match parsed_unsigned(self.positional[1], u16::MAX as nat) {
                None => Err(failure("error: invalid port number: "@ + self.positional[1], false)),
                Some(port) => Ok(
                    ModeView::Connect {
                        host: self.positional[0],
                        port: port as u16,
                        source_port: self.source_port,
                    },
                ),
            }
        }
    }
}

/// What a command line asks for: the mode, and whether diagnostics are shown.
pub open spec fn parsed_args(args: Seq<Seq<char>>) -> Result<(ModeView, bool), ExitView> {
    match ArgsView::fresh().read(args, 0) {
        Err(exit) => Err(exit),
        Ok(read) => match read.mode() {
            Err(exit) => Err(exit),
            Ok(mode) => Ok((mode, read.diagnostics)),
        },
    }
}

fn fail(message: String, usage: bool) -> (exit: Exit)
    ensures
        exit@ == failure(message@, usage),
{
    Exit { message: Some(message), usage, code: 1 }
}

fn one_of(arg: &String, short: &str, long: &str) -> (answer: bool)
    ensures
        answer == (arg@ == short@ || arg@ == long@),
{
    same(arg.as_str(), short) || same(arg.as_str(), long)
}

/// Reads the command line, without the name of the program.
pub fn parse_args(args: &Vec<String>) -> (parsed: Result<Settings, Exit>)
    ensures
        match parsed {
            Ok(settings) => parsed_args(texts(args@)) == Ok::<(ModeView, bool), ExitView>(
                (settings.mode@, settings.diagnostics),
            ),
            Err(exit) => parsed_args(texts(args@)) == Err::<(ModeView, bool), ExitView>(exit@),
        },
{
    let ghost all = texts(args@);
    let mut listen: bool = false;
    let mut diagnostics: bool = false;
    let mut bind: String = "127.0.0.1".to_string();
    let mut source_port: Option<u16> = None;
    let mut positional: Vec<String> = Vec::new();
    let total: usize = args.len();
    let mut i: usize = 0;
    assert(texts(positional@) =~= Seq::empty());
    while i < total
        invariant
            i <= total,
            total == args@.len(),
            all == texts(args@),
            ArgsView::fresh().read(all, 0) == (ArgsView {
                listen,
                diagnostics,
                bind: bind@,
                source_port,
                positional: texts(positional@),
            }).read(all, i as int),
        decreases total - i,
    {
        let arg: &String = &args[i];
        assert(all[i as int] == arg@);
        if one_of(arg, "-l", "--listen") {
            listen = true;
        } else if one_of(arg, "-d", "--diagnostics") {
            diagnostics = true;
        } else if one_of(arg, "-b", "--bind") {
            i = i + 1;
            if i == total {
                return Err(fail("error: -b requires an address".to_string(), false));
            }
            assert(all[i as int] == args@[i as int]@);
            bind = args[i].clone();
        } else if one_of(arg, "-s", "--source-port") {
            i = i + 1;
            if i == total {
                return Err(fail("error: -s requires a port number".to_string(), false));
            }
            assert(all[i as int] == args@[i as int]@);
            match parse_unsigned(args[i].as_str(), u16::MAX as u64) {
                Some(port) => {
                    source_port = Some(port as u16);
                },
                None => {
                    let mut message: String = "error: invalid source port: ".to_string();
                    message.append(args[i].as_str());
                    return Err(fail(message, false));
                },
            }
        } else if one_of(arg, "-h", "--help") {
            return Err(Exit { message: None, usage: true, code: 0 });
        } else {
            let ghost before = positional@;
            positional.push(arg.clone());
            assert(texts(positional@) =~= texts(before).push(arg@));
        }
        i = i + 1;
    }
    let ghost read = ArgsView {
        listen,
        diagnostics,
        bind: bind@,
        source_port,
        positional: texts(positional@),
    };
    assert(ArgsView::fresh().read(all, 0) == Ok::<ArgsView, ExitView>(read));
    if listen {
        if positional.len() == 0 {
            return Err(fail("error: listen mode requires a port number".to_string(), true));
        }
        assert(read.positional[0] == positional@[0]@);
        match parse_unsigned(positional[0].as_str(), u16::MAX as u64) {
            Some(port) => Ok(
                Settings { mode: Mode::Listen { bind, port: port as u16 }, diagnostics },
            ),
            None => Err(fail("error: invalid port number".to_string(), false)),
        }
    } else {
        if positional.len() != 2 {
            if positional.len() == 0 {
                return Err(Exit { message: None, usage: true, code: 0 });
            }
            return Err(fail("error: connect mode requires <host> <port>".to_string(), true));
        }
        assert(read.positional[0] == positional@[0]@);
        assert(read.positional[1] == positional@[1]@);
        let host: String = positional[0].clone();
        match parse_unsigned(positional[1].as_str(), u16::MAX as u64) {
            Some(port) => Ok(
                Settings {
                    mode: Mode::Connect { host, port: port as u16, source_port },
                    diagnostics,
                },
            ),
            None => {
                let mut message: String = "error: invalid port number: ".to_string();
                message.append(positional[1].as_str());
                Err(fail(message, false))
            },
        }
    }
}

/// The first of the ports that are drawn.
pub const SOURCE_PORTS_FROM: u16 = 10000;

/// The first port after those that are drawn.
pub const SOURCE_PORTS_UP_TO: u16 = 60000;

/// Draws a number with `rand::Rng::random_range` on the thread's generator. It is
/// at least `from` and less than `up_to`, whatever is drawn. An empty range makes
/// it panic.
#[verifier::external_body]
fn random_in(from: u16, up_to: u16) -> (drawn: u16)
    requires
        from < up_to,
    ensures
        from <= drawn < up_to,
{
    rand::Rng::random_range(&mut rand::rng(), from..up_to)
}

/// The port to connect from: the one that is given, or any.
pub fn choose_source_port(given: Option<u16>) -> (port: u16)
    ensures
        match given {
            Some(given) => port == given,
            None => SOURCE_PORTS_FROM <= port < SOURCE_PORTS_UP_TO,
        },
{
    match given {
        Some(given) => given,
        None => random_in(SOURCE_PORTS_FROM, SOURCE_PORTS_UP_TO),
    }
}

/// The usage of the tool, line by line.
pub fn usage() -> (lines: Vec<&'static str>)
    ensures
        lines@ == usage_lines(),
{
    let mut lines: Vec<&'static str> = Vec::new();
    lines.push("bluefintool \u{2014} netcat-like tool for the Bluefin protocol");
    lines.push("");
    lines.push("USAGE:");
    lines.push("  bluefintool -l <port>                     Listen on 127.0.0.1:<port>");
    lines.push("  bluefintool -l <port> -b <bind_addr>      Listen on <bind_addr>:<port>");
    lines.push("  bluefintool <host> <port>                 Connect to <host>:<port>");
    lines.push("  bluefintool <host> <port> -s <src_port>   Connect from specific source port");
    lines.push("");
    lines.push("OPTIONS:");
    lines.push("  -l, --listen               Listen mode (accept multiple connections)");
    lines.push("  -b, --bind <addr>          Bind address for listen mode [default: 127.0.0.1]");
    lines.push("  -s, --source-port <port>   Source port for connect mode [default: random]");
    lines.push(
        "  -d, --diagnostics          Show hex dumps, byte counts, and peer tags for all traffic",
    );
    lines.push("  -h, --help                 Show this help");
    assert(lines@ =~= usage_lines());
    lines
}

/// The usage of the tool.
pub open spec fn usage_lines() -> Seq<&'static str> {
    seq![
        "bluefintool \u{2014} netcat-like tool for the Bluefin protocol",
        "",
        "USAGE:",
        "  bluefintool -l <port>                     Listen on 127.0.0.1:<port>",
        "  bluefintool -l <port> -b <bind_addr>      Listen on <bind_addr>:<port>",
        "  bluefintool <host> <port>                 Connect to <host>:<port>",
        "  bluefintool <host> <port> -s <src_port>   Connect from specific source port",
        "",
        "OPTIONS:",
        "  -l, --listen               Listen mode (accept multiple connections)",
        "  -b, --bind <addr>          Bind address for listen mode [default: 127.0.0.1]",
        "  -s, --source-port <port>   Source port for connect mode [default: random]",
        "  -d, --diagnostics          Show hex dumps, byte counts, and peer tags for all traffic",
        "  -h, --help                 Show this help",
    ]
}

/// The text is no flag: it does not begin with a dash.
pub open spec fn is_plain(text: Seq<char>) -> bool {
    text.len() > 0 && text[0] != '-'
}

proof fn lemma_plain_is_no_flag(text: Seq<char>)
    requires
        is_plain(text),
    ensures
        !is_listen_flag(text),
        !is_diagnostics_flag(text),
        !is_bind_flag(text),
        !is_source_port_flag(text),
        !is_help_flag(text),
{
    reveal_strlit("-l");
    reveal_strlit("--listen");
    reveal_strlit("-d");
    reveal_strlit("--diagnostics");
    reveal_strlit("-b");
    reveal_strlit("--bind");
    reveal_strlit("-s");
    reveal_strlit("--source-port");
    reveal_strlit("-h");
    reveal_strlit("--help");
}

proof fn lemma_flags_differ()
    ensures
        "-l"@ != "-d"@ && "-l"@ != "--diagnostics"@,
        "-b"@ != "-l"@ && "-b"@ != "--listen"@ && "-b"@ != "-d"@ && "-b"@ != "--diagnostics"@,
        "-s"@ != "-l"@ && "-s"@ != "--listen"@ && "-s"@ != "-d"@ && "-s"@ != "--diagnostics"@
            && "-s"@ != "-b"@ && "-s"@ != "--bind"@,
        "-d"@ != "-l"@ && "-d"@ != "--listen"@,
        "-h"@ != "-l"@ && "-h"@ != "--listen"@ && "-h"@ != "-d"@ && "-h"@ != "--diagnostics"@
            && "-h"@ != "-b"@ && "-h"@ != "--bind"@ && "-h"@ != "-s"@ && "-h"@
            != "--source-port"@,
{
    reveal_strlit("-l");
    reveal_strlit("--listen");
    reveal_strlit("-d");
    reveal_strlit("--diagnostics");
    reveal_strlit("-b");
    reveal_strlit("--bind");
    reveal_strlit("-s");
    reveal_strlit("--source-port");
    reveal_strlit("-h");
    assert("-l"@[1] == 'l');
    assert("-d"@[1] == 'd');
    assert("-b"@[1] == 'b');
    assert("-s"@[1] == 's');
    assert("-h"@[1] == 'h');
}

proof fn lemma_number_is_plain(n: nat)
    ensures
        is_plain(decimal(n)),
        parsed_unsigned(decimal(n), u16::MAX as nat) == if n <= u16::MAX {
            Some(n)
        } else {
            None
        },
{
    law_numbers_are_told_from_other_texts(n, u16::MAX as nat, decimal(n), 0);
    law_decimal_begins_with_a_digit(n);
}

/// Every port can be listened on: on the local address, or on the one that is given,
/// with diagnostics or without, and wherever the flags stand.
pub proof fn law_every_port_can_be_listened_on(port: u16, addr: Seq<char>)
    ensures
        parsed_args(seq!["-l"@, decimal(port as nat)]) == Ok::<(ModeView, bool), ExitView>(
            (ModeView::Listen { bind: "127.0.0.1"@, port }, false),
        ),
        parsed_args(seq!["-l"@, decimal(port as nat), "-b"@, addr]) == Ok::<
            (ModeView, bool),
            ExitView,
        >((ModeView::Listen { bind: addr, port }, false)),
        parsed_args(seq!["-b"@, addr, decimal(port as nat), "-d"@, "-l"@]) == Ok::<
            (ModeView, bool),
            ExitView,
        >((ModeView::Listen { bind: addr, port }, true)),
{
    let number = decimal(port as nat);
    lemma_number_is_plain(port as nat);
    lemma_plain_is_no_flag(number);
    lemma_flags_differ();
    reveal_with_fuel(ArgsView::read, 6);
    let none = Seq::<Seq<char>>::empty();
    assert(none.push(number)[0] == number);
}

/// Every host and port can be connected to, from any port or from the one that is
/// given, with diagnostics or without, and wherever the flags stand.
pub proof fn law_every_host_can_be_connected_to(host: Seq<char>, port: u16, source: u16)
    requires
        is_plain(host),
    ensures
        parsed_args(seq![host, decimal(port as nat)]) == Ok::<(ModeView, bool), ExitView>(
            (ModeView::Connect { host, port, source_port: None }, false),
        ),
        parsed_args(seq![host, decimal(port as nat), "-s"@, decimal(source as nat)]) == Ok::<
            (ModeView, bool),
            ExitView,
        >((ModeView::Connect { host, port, source_port: Some(source) }, false)),
        parsed_args(seq!["-d"@, "-s"@, decimal(source as nat), host, decimal(port as nat)]) == Ok::<
            (ModeView, bool),
            ExitView,
        >((ModeView::Connect { host, port, source_port: Some(source) }, true)),
{
    let number = decimal(port as nat);
    lemma_number_is_plain(port as nat);
    lemma_number_is_plain(source as nat);
    lemma_plain_is_no_flag(number);
    lemma_plain_is_no_flag(host);
    lemma_flags_differ();
    reveal_with_fuel(ArgsView::read, 6);
    let none = Seq::<Seq<char>>::empty();
    assert(none.push(host).push(number)[0] == host);
    assert(none.push(host).push(number)[1] == number);
}

/// What cannot be done is refused, with the exit code one: a port that is too large or
/// none, a host without a port, too much, and a flag without its value. Who asks for
/// help, or for nothing, gets the usage and the exit code zero.
pub proof fn law_bad_command_lines_are_refused(
    host: Seq<char>,
    third: Seq<char>,
    large: nat,
    rest: Seq<Seq<char>>,
)
    requires
        is_plain(host),
        is_plain(third),
        large > u16::MAX,
    ensures
        parsed_args(seq!["-l"@, decimal(large)]) matches Err(exit) && exit.code == 1
            && exit.message is Some,
        parsed_args(seq!["-l"@]) matches Err(exit) && exit.code == 1 && exit.usage,
        parsed_args(seq![host, decimal(large)]) matches Err(exit) && exit.code == 1
            && exit.message is Some,
        parsed_args(seq![host]) matches Err(exit) && exit.code == 1 && exit.usage,
        parsed_args(seq![host, host, third]) matches Err(exit) && exit.code == 1 && exit.usage,
        parsed_args(seq!["-b"@]) matches Err(exit) && exit.code == 1,
        parsed_args(seq!["-s"@]) matches Err(exit) && exit.code == 1,
        parsed_args(seq!["-s"@, decimal(large)] + rest) matches Err(exit) && exit.code == 1,
        parsed_args(seq!["-h"@] + rest) == Err::<(ModeView, bool), ExitView>(
            ExitView { message: None, usage: true, code: 0 },
        ),
        parsed_args(Seq::empty()) == Err::<(ModeView, bool), ExitView>(
            ExitView { message: None, usage: true, code: 0 },
        ),
{
    lemma_number_is_plain(large);
    lemma_plain_is_no_flag(decimal(large));
    lemma_plain_is_no_flag(host);
    lemma_plain_is_no_flag(third);
    lemma_flags_differ();
    reveal_with_fuel(ArgsView::read, 5);
    let none = Seq::<Seq<char>>::empty();
    assert(none.push(host).push(decimal(large))[1] == decimal(large));
    assert(none.push(decimal(large))[0] == decimal(large));
    assert((seq!["-h"@] + rest)[0] == "-h"@);
    assert((seq!["-s"@, decimal(large)] + rest)[0] == "-s"@);
    assert((seq!["-s"@, decimal(large)] + rest)[1] == decimal(large));
}

/// Each argument counts, wherever it stands and whatever came before it: a flag sets what
/// it is for, a flag with a value takes the argument after it, and what begins with no
/// dash is kept behind what was kept already.
pub proof fn law_each_argument_counts(read: ArgsView, args: Seq<Seq<char>>, i: int, port: u16)
    requires
        0 <= i < args.len(),
    ensures
        args[i] == "-l"@ ==> read.read(args, i) == (ArgsView { listen: true, ..read }).read(
            args,
            i + 1,
        ),
        args[i] == "-d"@ ==> read.read(args, i) == (ArgsView { diagnostics: true, ..read }).read(
            args,
            i + 1,
        ),
        args[i] == "-b"@ && i + 1 < args.len() ==> read.read(args, i) == (ArgsView {
            bind: args[i + 1],
            ..read
        }).read(args, i + 2),
        args[i] == "-s"@ && i + 1 < args.len() && args[i + 1] == decimal(port as nat) ==> read.read(
            args,
            i,
        ) == (ArgsView { source_port: Some(port), ..read }).read(args, i + 2),
        args[i] == "-h"@ ==> read.read(args, i) == Err::<ArgsView, ExitView>(
            ExitView { message: None, usage: true, code: 0 },
        ),
        is_plain(args[i]) ==> read.read(args, i) == (ArgsView {
            positional: read.positional + seq![args[i]],
            ..read
        }).read(args, i + 1),
        read.read(args, args.len() as int) == Ok::<ArgsView, ExitView>(read),
{
    lemma_flags_differ();
    lemma_number_is_plain(port as nat);
    if is_plain(args[i]) {
        lemma_plain_is_no_flag(args[i]);
        assert(read.positional.push(args[i]) =~= read.positional + seq![args[i]]);
    }
}

/// The long form of a flag does what its short form does.
pub proof fn law_long_flags_are_short_flags(
    read: ArgsView,
    args: Seq<Seq<char>>,
    i: int,
    short: Seq<char>,
    long: Seq<char>,
)
    requires
        0 <= i < args.len(),
        args[i] == long,
        (short == "-l"@ && long == "--listen"@) || (short == "-d"@ && long == "--diagnostics"@) || (
        short == "-b"@ && long == "--bind"@) || (short == "-s"@ && long == "--source-port"@) || (
        short == "-h"@ && long == "--help"@),
    ensures
        read.read(args, i) is Ok ==> read.read(args, i) == read.read(args.update(i, short), i),
        read.read(args, i) is Err ==> read.read(args.update(i, short), i) is Err,
{
    let other = args.update(i, short);
    lemma_flags_differ();
    lemma_long_flags_differ();
    if i + 1 < args.len() {
        assert(other[i + 1] == args[i + 1]);
    }
    lemma_read_looks_ahead(ArgsView { listen: true, ..read }, args, other, i + 1);
    lemma_read_looks_ahead(ArgsView { diagnostics: true, ..read }, args, other, i + 1);
    if i + 1 < args.len() {
        lemma_read_looks_ahead(ArgsView { bind: args[i + 1], ..read }, args, other, i + 2);
        match parsed_unsigned(args[i + 1], u16::MAX as nat) {
            Some(port) => {
                lemma_read_looks_ahead(
                    ArgsView { source_port: Some(port as u16), ..read },
                    args,
                    other,
                    i + 2,
                );
            },
            None => {},
        }
    }
}

/// What is read from a place on does not depend on what stands before it.
proof fn lemma_read_looks_ahead(
    read: ArgsView,
    args: Seq<Seq<char>>,
    other: Seq<Seq<char>>,
    i: int,
)
    requires
        i > 0,
        args.len() == other.len(),
        forall|j: int| i <= j < args.len() ==> #[trigger] args[j] == other[j],
    ensures
        read.read(args, i) == read.read(other, i),
    decreases args.len() - i,
{
    if i < args.len() {
        assert(args[i] == other[i]);
        lemma_read_looks_ahead(ArgsView { listen: true, ..read }, args, other, i + 1);
        lemma_read_looks_ahead(ArgsView { diagnostics: true, ..read }, args, other, i + 1);
        lemma_read_looks_ahead(
            ArgsView { positional: read.positional.push(args[i]), ..read },
            args,
            other,
            i + 1,
        );
        if i + 1 < args.len() {
            assert(args[i + 1] == other[i + 1]);
            lemma_read_looks_ahead(ArgsView { bind: args[i + 1], ..read }, args, other, i + 2);
            match parsed_unsigned(args[i + 1], u16::MAX as nat) {
                Some(port) => {
                    lemma_read_looks_ahead(
                        ArgsView { source_port: Some(port as u16), ..read },
                        args,
                        other,
                        i + 2,
                    );
                },
                None => {},
            }
        }
    }
}

proof fn lemma_long_flags_differ()
    ensures
        "--diagnostics"@ != "-l"@ && "--diagnostics"@ != "--listen"@,
        "--bind"@ != "-l"@ && "--bind"@ != "--listen"@ && "--bind"@ != "-d"@ && "--bind"@
            != "--diagnostics"@,
        "--source-port"@ != "-l"@ && "--source-port"@ != "--listen"@ && "--source-port"@ != "-d"@
            && "--source-port"@ != "--diagnostics"@ && "--source-port"@ != "-b"@
            && "--source-port"@ != "--bind"@,
        "--help"@ != "-l"@ && "--help"@ != "--listen"@ && "--help"@ != "-d"@ && "--help"@
            != "--diagnostics"@ && "--help"@ != "-b"@ && "--help"@ != "--bind"@ && "--help"@
            != "-s"@ && "--help"@ != "--source-port"@,
{
    reveal_strlit("-l");
    reveal_strlit("--listen");
    reveal_strlit("-d");
    reveal_strlit("--diagnostics");
    reveal_strlit("-b");
    reveal_strlit("--bind");
    reveal_strlit("-s");
    reveal_strlit("--source-port");
    reveal_strlit("--help");
    assert("-l"@.len() == 2 && "-d"@.len() == 2 && "-b"@.len() == 2 && "-s"@.len() == 2);
    assert("--listen"@.len() == 8 && "--bind"@.len() == 6 && "--help"@.len() == 6);
    assert("--diagnostics"@.len() == 13 && "--source-port"@.len() == 13);
    assert("--diagnostics"@[2] == 'd');
    assert("--source-port"@[2] == 's');
    assert("--help"@[2] == 'h');
    assert("--bind"@[2] == 'b');
}

/// What was read asks to listen on the first argument that is kept, whatever follows it,
/// or to connect to two that are kept: to the first as the host and the second as the
/// port, from the source port where one was read.
pub proof fn law_arguments_ask_for_a_mode(read: ArgsView, port: u16)
    ensures
        read.listen && read.positional.len() > 0 && read.positional[0] == decimal(port as nat)
            ==> read.mode() == Ok::<ModeView, ExitView>(
            ModeView::Listen { bind: read.bind, port },
        ),
        !read.listen && read.positional.len() == 2 && read.positional[1] == decimal(port as nat)
            ==> read.mode() == Ok::<ModeView, ExitView>(
            ModeView::Connect {
                host: read.positional[0],
                port,
                source_port: read.source_port,
            },
        ),
        read.positional.len() == 0 ==> read.mode() is Err,
        !read.listen && read.positional.len() != 2 ==> read.mode() is Err,
{
    lemma_number_is_plain(port as nat);
}

} // verus!
