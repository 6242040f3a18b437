//! The command line: which command is asked for, and with what configuration.

use crate::number;
use crate::text;
use vstd::prelude::*;
use vstd::slice::slice_subrange;

verus! {

/// The polling interval where none is given, in milliseconds.
pub const DEFAULT_INTERVAL_MS: u64 = 750;

/// The program that is run on the peer where none is given.
pub const DEFAULT_REMOTE_BIN: &'static str = "zync";

/// The program that connects to the peer where none is given.
pub const DEFAULT_SSH_BIN: &'static str = "ssh";

/// How to reach the peer, and how often to look at the clipboard.
#[derive(Clone, Debug, PartialEq, Eq)]
pub struct ServeConfig {
    pub peer: String,
    pub remote_bin: String,
    pub ssh_bin: String,
    /// The polling interval in milliseconds.
    pub interval_ms: u64,
}

/// A configuration as a mathematical value.
#[verifier::ext_equal]
pub struct Config {
    pub peer: Seq<char>,
    pub remote_bin: Seq<char>,
    pub ssh_bin: Seq<char>,
    pub interval_ms: nat,
}

impl View for ServeConfig {
    type V = Config;

    open spec fn view(&self) -> Config {
        Config {
            peer: self.peer@,
            remote_bin: self.remote_bin@,
            ssh_bin: self.ssh_bin@,
            interval_ms: self.interval_ms as nat,
        }
    }
}

/// What the command line asks for.
#[derive(Debug, PartialEq, Eq)]
pub enum Command {
    Connect(ServeConfig),
    Agent,
    Serve(ServeConfig),
    SendOnce(ServeConfig),
    Receive,
    Usage,
}

/// A command as a mathematical value.
pub enum Request {
    Connect(Config),
    Agent,
    Serve(Config),
    SendOnce(Config),
    Receive,
    Usage,
}

impl View for Command {
    type V = Request;

    open spec fn view(&self) -> Request {
        match self {
            Command::Connect(config) => Request::Connect(config@),
            Command::Agent => Request::Agent,
            Command::Serve(config) => Request::Serve(config@),
            Command::SendOnce(config) => Request::SendOnce(config@),
            Command::Receive => Request::Receive,
            Command::Usage => Request::Usage,
        }
    }
}

/// The characters of each argument.
pub open spec fn texts(args: Seq<String>) -> Seq<Seq<char>> {
    args.map_values(|arg: String| arg@)
}

/// The options read so far.
#[verifier::ext_equal]
pub struct Options {
    pub peer: Option<Seq<char>>,
    pub remote_bin: Seq<char>,
    pub ssh_bin: Seq<char>,
    pub interval_ms: nat,
}

/// The options before any argument.
pub open spec fn default_options() -> Options {
    Options {
        peer: None,
        remote_bin: DEFAULT_REMOTE_BIN@,
        ssh_bin: DEFAULT_SSH_BIN@,
        interval_ms: DEFAULT_INTERVAL_MS as nat,
    }
}

/// Whether an argument is an option that takes a value.
pub open spec fn is_option(flag: Seq<char>) -> bool {
    flag == "--peer"@ || flag == "--remote-bin"@ || flag == "--ssh-bin"@ || flag
        == "--interval-ms"@
}

/// The options after one more option and its value, or the message that refuses the value.
pub open spec fn options_after_one(options: Options, flag: Seq<char>, value: Seq<char>) -> Result<
    Options,
    Seq<char>,
> {
    if flag == "--peer"@ {
        Ok(Options { peer: Some(value), ..options })
    } else if flag == "--remote-bin"@ {
        Ok(Options { remote_bin: value, ..options })
    } else if flag == "--ssh-bin"@ {
        Ok(Options { ssh_bin: value, ..options })
    } else {
        match number::number_of(value, u64::MAX as nat) {
            Some(n) => Ok(Options { interval_ms: n, ..options }),
            None => Err("--interval-ms must be a positive integer"@),
        }
    }
}

/// The options after a list of arguments, or the message for the first that is refused. An
/// option that comes again takes the place of its earlier value.
pub open spec fn options_after(options: Options, args: Seq<Seq<char>>) -> Result<
    Options,
    Seq<char>,
>
    decreases args.len(),
{
    if args.len() == 0 {
        Ok(options)
    } else if !is_option(args[0]) {
        Err("unknown option: "@ + args[0])
    } else if args.len() == 1 {
        Err(args[0] + " requires a value"@)
    } else {
        match options_after_one(options, args[0], args[1]) {
            Ok(next) => options_after(next, args.skip(2)),
            Err(message) => Err(message),
        }
    }
}

/// The configuration that a list of options gives, or the message that refuses it.
pub open spec fn serve_config(args: Seq<Seq<char>>) -> Result<Config, Seq<char>> {
    match options_after(default_options(), args) {
        Err(message) => Err(message),
        Ok(options) => match options.peer {
            None => Err("--peer is required"@),
            Some(peer) => Ok(
                Config {
                    peer,
                    remote_bin: options.remote_bin,
                    ssh_bin: options.ssh_bin,
                    interval_ms: options.interval_ms,
                },
            ),
        },
    }
}

/// The arguments of `connect` as options: a first argument that is no option is the peer.
pub open spec fn connect_options(args: Seq<Seq<char>>) -> Seq<Seq<char>> {
    if args[0].len() > 0 && args[0][0] == '-' {
        args
    } else {
        seq!["--peer"@] + args
    }
}

/// The configuration that the arguments of `connect` give, or the message that refuses them.
pub open spec fn connect_config(args: Seq<Seq<char>>) -> Result<Config, Seq<char>> {
    if args.len() == 0 {
        Err("connect requires a peer, for example: zync connect user@other-mac"@)
    } else {
        serve_config(connect_options(args))
    }
}

/// What a command line asks for, or the message that refuses it. Its first word is the name
/// of the program.
pub open spec fn requested(args: Seq<Seq<char>>) -> Result<Request, Seq<char>> {
    if args.len() < 2 {
        Ok(Request::Usage)
    } else {
        let rest = args.skip(2);
        if args[1] == "connect"@ {
            match connect_config(rest) {
                Ok(config) => Ok(Request::Connect(config)),
                Err(message) => Err(message),
            }
        } else if args[1] == "agent"@ {
            Ok(Request::Agent)
        } else if args[1] == "serve"@ {
            match serve_config(rest) {
                Ok(config) => Ok(Request::Serve(config)),
                Err(message) => Err(message),
            }
        } else if args[1] == "send-once"@ {
            match serve_config(rest) {
                Ok(config) => Ok(Request::SendOnce(config)),
                Err(message) => Err(message),
            }
        } else if args[1] == "receive"@ {
            Ok(Request::Receive)
        } else if args[1] == "-h"@ || args[1] == "--help"@ {
            Ok(Request::Usage)
        } else {
            Err("unknown command: "@ + args[1])
        }
    }
}

/// The argument at a position, which must be there as the value of an option.
pub fn expect_value<'a>(args: &'a [String], index: usize, flag: &str) -> (r: Result<
    &'a str,
    String,
>)
    ensures
        match r {
            Ok(value) => index < args@.len() && value@ == args@[index as int]@,
            Err(message) => index >= args@.len() && message@ == flag@ + " requires a value"@,
        },
{
    if index < args.len() {
        Ok(args[index].as_str())
    } else {
        Err(String::from_str(flag).concat(" requires a value"))
    }
}

/// Reads the options of `serve` and `send-once`.
pub fn parse_serve_config(args: &[String]) -> (r: Result<ServeConfig, String>)
    ensures
        text::outcome(r) == serve_config(texts(args@)),
{
    let mut peer: Option<String> = None;
    let mut remote_bin = String::from_str(DEFAULT_REMOTE_BIN);
    let mut ssh_bin = String::from_str(DEFAULT_SSH_BIN);
    let mut interval_ms: u64 = DEFAULT_INTERVAL_MS;
    let n = args.len();
    let mut index: usize = 0;
    let ghost all = texts(args@);
    proof {
        assert(all.skip(0) =~= all);
    }
    while index < n
        invariant
            n == args@.len(),
            all == texts(args@),
            index <= n,
            options_after(
                (Options {
                    peer: match peer {
                        Some(peer) => Some(peer@),
                        None => None,
                    },
                    remote_bin: remote_bin@,
                    ssh_bin: ssh_bin@,
                    interval_ms: interval_ms as nat,
                }),
                all.skip(index as int),
            ) == options_after(default_options(), all),
        decreases n - index,
    {
        let flag = args[index].as_str();
        let ghost left = all.skip(index as int);
        proof {
            assert(left[0] == flag@);
            if index + 1 < n {
                assert(left[1] == args@[index + 1]@);
                assert(left.skip(2) =~= all.skip(index + 2));
            }
        }
        if !(text::str_eq(flag, "--peer") || text::str_eq(flag, "--remote-bin") || text::str_eq(
            flag,
            "--ssh-bin",
        ) || text::str_eq(flag, "--interval-ms")) {
            return Err(String::from_str("unknown option: ").concat(flag));
        }
        let value = match expect_value(args, index + 1, flag) {
            Ok(value) => value,
            Err(message) => {
                return Err(message);
            },
        };
        if text::str_eq(flag, "--peer") {
            peer = Some(String::from_str(value));
        } else if text::str_eq(flag, "--remote-bin") {
            remote_bin = String::from_str(value);
        } else if text::str_eq(flag, "--ssh-bin") {
            ssh_bin = String::from_str(value);
        } else {
            match number::parse_number(value, u64::MAX) {
                Some(ms) => {
                    interval_ms = ms;
                },
                None => {
                    return Err(String::from_str("--interval-ms must be a positive integer"));
                },
            }
        }
        index += 2;
    }
    proof {
        assert(all.skip(n as int).len() == 0);
    }
    match peer {
        Some(peer) => Ok(ServeConfig { peer, remote_bin, ssh_bin, interval_ms }),
        None => Err(String::from_str("--peer is required")),
    }
}

/// Whether a string begins with a hyphen.
fn begins_with_hyphen(s: &str) -> (r: bool)
    ensures
        r == (s@.len() > 0 && s@[0] == '-'),
{
    !s.is_empty() && s.get_char(0) == '-'
}

/// Reads the arguments of `connect`: the peer, and options.
pub fn parse_connect_config(args: &[String]) -> (r: Result<ServeConfig, String>)
    ensures
        text::outcome(r) == connect_config(texts(args@)),
{
    let n = args.len();
    if n == 0 {
        return Err(
            String::from_str(
                "connect requires a peer, for example: zync connect user@other-mac",
            ),
        );
    }
    if begins_with_hyphen(args[0].as_str()) {
        return parse_serve_config(args);
    }
    let mut options: Vec<String> = Vec::new();
    options.push(String::from_str("--peer"));
    let mut i: usize = 0;
    while i < n
        invariant
            n == args@.len(),
            i <= n,
            texts(options@) == seq!["--peer"@] + texts(args@).take(i as int),
        decreases n - i,
    {
        let ghost before = options@;
        options.push(args[i].clone());
        proof {
            assert(texts(options@) =~= texts(before).push(args@[i as int]@));
            assert(texts(args@).take(i + 1) =~= texts(args@).take(i as int).push(
                args@[i as int]@,
            ));
        }
        i += 1;
    }
    proof {
        assert(texts(args@).take(n as int) =~= texts(args@));
    }
    parse_serve_config(options.as_slice())
}

/// Reads a command line, whose first word is the name of the program.
pub fn run(args: &[String]) -> (r: Result<Command, String>)
    ensures
        text::outcome(r) == requested(texts(args@)),
{
    let n = args.len();
    if n < 2 {
        return Ok(Command::Usage);
    }
    let command = args[1].as_str();
    let rest = slice_subrange(args, 2, n);
    proof {
        assert(texts(rest@) =~= texts(args@).skip(2));
    }
    if text::str_eq(command, "connect") {
        match parse_connect_config(rest) {
            Ok(config) => Ok(Command::Connect(config)),
            Err(message) => Err(message),
        }
    } else if text::str_eq(command, "agent") {
        Ok(Command::Agent)
    } else if text::str_eq(command, "serve") {
        match parse_serve_config(rest) {
            Ok(config) => Ok(Command::Serve(config)),
            Err(message) => Err(message),
        }
    } else if text::str_eq(command, "send-once") {
        match parse_serve_config(rest) {
            Ok(config) => Ok(Command::SendOnce(config)),
            Err(message) => Err(message),
        }
    } else if text::str_eq(command, "receive") {
        Ok(Command::Receive)
    } else if text::str_eq(command, "-h") || text::str_eq(command, "--help") {
        Ok(Command::Usage)
    } else {
        Err(String::from_str("unknown command: ").concat(command))
    }
}

} // verus!
