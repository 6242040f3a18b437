//! What the command line is for: what the user asks for is what is done, and every option that
//! the user gives takes effect.

use crate::cli;
use crate::cli::{Config, Options, Request};
use crate::number;
use crate::order_laws;
use crate::session;
use vstd::prelude::*;

verus! {

/// The value that an option has in the end: the last one given, or none.
pub open spec fn last_value(pairs: Seq<(Seq<char>, Seq<char>)>, flag: Seq<char>) -> Option<
    Seq<char>,
>
    decreases pairs.len(),
{
    if pairs.len() == 0 {
        None
    } else if pairs.last().0 == flag {
        Some(pairs.last().1)
    } else {
        last_value(pairs.drop_last(), flag)
    }
}

/// Whether an option and its value are good: the option is one of the four, and an interval is
/// a number of milliseconds.
pub open spec fn is_good(pair: (Seq<char>, Seq<char>)) -> bool {
    ||| pair.0 == "--peer"@
    ||| pair.0 == "--remote-bin"@
    ||| pair.0 == "--ssh-bin"@
    ||| pair.0 == "--interval-ms"@ && number::number_of(pair.1, u64::MAX as nat) is Some
}

/// Whether all options are good.
pub open spec fn are_good(pairs: Seq<(Seq<char>, Seq<char>)>) -> bool {
    forall|i: int| 0 <= i < pairs.len() ==> is_good(#[trigger] pairs[i])
}

/// The value of an option, or what stands for it where none is given.
pub open spec fn value_or(value: Option<Seq<char>>, default: Seq<char>) -> Seq<char> {
    match value {
        Some(value) => value,
        None => default,
    }
}

/// The four options have four names.
proof fn lemma_names_differ()
    ensures
        "--peer"@ != "--remote-bin"@,
        "--peer"@ != "--ssh-bin"@,
        "--peer"@ != "--interval-ms"@,
        "--remote-bin"@ != "--ssh-bin"@,
        "--remote-bin"@ != "--interval-ms"@,
        "--ssh-bin"@ != "--interval-ms"@,
{
    reveal_strlit("--peer");
    reveal_strlit("--remote-bin");
    reveal_strlit("--ssh-bin");
    reveal_strlit("--interval-ms");
    assert("--peer"@[2] == 'p' && "--remote-bin"@[2] == 'r' && "--ssh-bin"@[2] == 's'
        && "--interval-ms"@[2] == 'i');
}

/// Options are taken in one after another.
proof fn lemma_options_append(
    options: Options,
    pairs: Seq<(Seq<char>, Seq<char>)>,
    rest: Seq<Seq<char>>,
)
    ensures
        cli::options_after(options, order_laws::option_args(pairs) + rest)
            == match cli::options_after(options, order_laws::option_args(pairs)) {
            Ok(next) => cli::options_after(next, rest),
            Err(message) => Err(message),
        },
    decreases pairs.len(),
{
    let args = order_laws::option_args(pairs);
    if pairs.len() == 0 {
        assert(args + rest =~= rest);
    } else {
        let later = pairs.drop_first();
        order_laws::lemma_one_option(options, pairs);
        assert((args + rest)[0] == pairs[0].0);
        assert((args + rest)[1] == pairs[0].1);
        assert((args + rest).skip(2) =~= order_laws::option_args(later) + rest);
        match cli::options_after_one(options, pairs[0].0, pairs[0].1) {
            Ok(next) => {
                lemma_options_append(next, later, rest);
            },
            Err(_) => {},
        }
    }
}

/// The arguments for some options are those for all but the last, and then the last.
proof fn lemma_last_pair(pairs: Seq<(Seq<char>, Seq<char>)>)
    requires
        pairs.len() > 0,
    ensures
        order_laws::option_args(pairs) == order_laws::option_args(pairs.drop_last()) + seq![
            pairs.last().0,
            pairs.last().1,
        ],
    decreases pairs.len(),
{
    let rest = pairs.drop_first();
    if pairs.len() == 1 {
        assert(order_laws::option_args(rest) =~= Seq::empty());
        assert(order_laws::option_args(pairs.drop_last()) =~= Seq::empty());
        assert(order_laws::option_args(pairs) =~= seq![pairs.last().0, pairs.last().1]);
    } else {
        lemma_last_pair(rest);
        let front = pairs.drop_last();
        assert(front.drop_first() =~= rest.drop_last());
        assert(front[0] == pairs[0]);
        assert(rest.last() == pairs.last());
        assert(order_laws::option_args(pairs) =~= order_laws::option_args(front) + seq![
            pairs.last().0,
            pairs.last().1,
        ]);
    }
}

/// Good options are taken in, and the last value of each counts.
proof fn lemma_last_values(pairs: Seq<(Seq<char>, Seq<char>)>)
    requires
        are_good(pairs),
    ensures
        cli::options_after(cli::default_options(), order_laws::option_args(pairs)) matches Ok(
            options,
        ) && {
            &&& options.peer == last_value(pairs, "--peer"@)
            &&& options.remote_bin == value_or(last_value(pairs, "--remote-bin"@), "zync"@)
            &&& options.ssh_bin == value_or(last_value(pairs, "--ssh-bin"@), "ssh"@)
            &&& match last_value(pairs, "--interval-ms"@) {
                Some(value) => number::number_of(value, u64::MAX as nat) == Some(
                    options.interval_ms,
                ),
                None => options.interval_ms == 750,
            }
        },
    decreases pairs.len(),
{
    lemma_names_differ();
    if pairs.len() > 0 {
        let front = pairs.drop_last();
        let last = pairs.last();
        assert forall|i: int| 0 <= i < front.len() implies is_good(#[trigger] front[i]) by {
            assert(front[i] == pairs[i]);
        }
        assert(is_good(pairs[pairs.len() - 1]));
        lemma_last_values(front);
        lemma_last_pair(pairs);
        let one = seq![last.0, last.1];
        lemma_options_append(cli::default_options(), front, one);
        let before = cli::options_after(
            cli::default_options(),
            order_laws::option_args(front),
        )->Ok_0;
        assert(one.skip(2) =~= Seq::<Seq<char>>::empty());
        let next = cli::options_after_one(before, last.0, last.1)->Ok_0;
        assert(cli::options_after(next, one.skip(2)) == Ok::<Options, Seq<char>>(next));
    }
}

/// Every option that is given takes effect, whatever the others are: the configuration has the
/// last value of each, and the default of each that is not given. It is refused where the peer
/// is not given.
pub proof fn law_options_take_effect(pairs: Seq<(Seq<char>, Seq<char>)>)
    requires
        are_good(pairs),
    ensures
        match last_value(pairs, "--peer"@) {
            None => cli::serve_config(order_laws::option_args(pairs)) == Err::<Config, Seq<char>>(
                "--peer is required"@,
            ),
            Some(peer) => cli::serve_config(order_laws::option_args(pairs)) matches Ok(config) && {
                &&& config.peer == peer
                &&& config.remote_bin == value_or(last_value(pairs, "--remote-bin"@), "zync"@)
                &&& config.ssh_bin == value_or(last_value(pairs, "--ssh-bin"@), "ssh"@)
                &&& match last_value(pairs, "--interval-ms"@) {
                    Some(value) => number::number_of(value, u64::MAX as nat) == Some(
                        config.interval_ms,
                    ),
                    None => config.interval_ms == 750,
                }
            },
        },
{
    lemma_last_values(pairs);
}

/// The first fault is the one that is reported, whatever follows it: a word that is no option,
/// an option that has no value because nothing follows, an interval that is no number.
pub proof fn law_first_fault_is_reported(
    pairs: Seq<(Seq<char>, Seq<char>)>,
    word: Seq<char>,
    rest: Seq<Seq<char>>,
)
    requires
        are_good(pairs),
    ensures
        ({
            let given = order_laws::option_args(pairs);
            let known = word == "--peer"@ || word == "--remote-bin"@ || word == "--ssh-bin"@ || word
                == "--interval-ms"@;
            &&& !known ==> cli::serve_config(given + (seq![word] + rest)) == Err::<
                Config,
                Seq<char>,
            >("unknown option: "@ + word)
            &&& known ==> cli::serve_config(given + seq![word]) == Err::<Config, Seq<char>>(
                word + " requires a value"@,
            )
            &&& word == "--interval-ms"@ && rest.len() > 0 && number::number_of(
                rest[0],
                u64::MAX as nat,
            ) is None ==> cli::serve_config(given + (seq![word] + rest)) == Err::<
                Config,
                Seq<char>,
            >("--interval-ms must be a positive integer"@)
        }),
{
    lemma_names_differ();
    lemma_last_values(pairs);
    let after = seq![word] + rest;
    lemma_options_append(cli::default_options(), pairs, after);
    lemma_options_append(cli::default_options(), pairs, seq![word]);
    assert(after[0] == word);
    if rest.len() > 0 {
        assert(after[1] == rest[0]);
    }
}

/// `connect` takes its options as `serve` does: with the peer before them where the first word
/// is no option, and as they are where it begins with a hyphen. It needs at least one word.
pub proof fn law_connect_options(first: Seq<char>, rest: Seq<Seq<char>>)
    ensures
        first.len() == 0 || first[0] != '-' ==> cli::connect_config(seq![first] + rest)
            == cli::serve_config(seq!["--peer"@, first] + rest),
        first.len() > 0 && first[0] == '-' ==> cli::connect_config(seq![first] + rest)
            == cli::serve_config(seq![first] + rest),
        cli::connect_config(Seq::empty()) == Err::<Config, Seq<char>>(
            "connect requires a peer, for example: zync connect user@other-mac"@,
        ),
{
    let args = seq![first] + rest;
    assert(args[0] == first);
    assert(seq!["--peer"@] + args =~= seq!["--peer"@, first] + rest);
}

/// The command that is named is the one that is asked for, with the configuration that its
/// arguments give; arguments that are refused refuse the command with the same message.
pub proof fn law_commands(program: Seq<char>, rest: Seq<Seq<char>>)
    ensures
        ({
            let line = |word: Seq<char>| seq![program, word] + rest;
            &&& match cli::connect_config(rest) {
                Ok(config) => cli::requested(line("connect"@)) == Ok::<Request, Seq<char>>(
                    Request::Connect(config),
                ),
                Err(message) => cli::requested(line("connect"@)) == Err::<Request, Seq<char>>(
                    message,
                ),
            }
            &&& match cli::serve_config(rest) {
                Ok(config) => {
                    &&& cli::requested(line("serve"@)) == Ok::<Request, Seq<char>>(
                        Request::Serve(config),
                    )
                    &&& cli::requested(line("send-once"@)) == Ok::<Request, Seq<char>>(
                        Request::SendOnce(config),
                    )
                },
                Err(message) => {
                    &&& cli::requested(line("serve"@)) == Err::<Request, Seq<char>>(message)
                    &&& cli::requested(line("send-once"@)) == Err::<Request, Seq<char>>(message)
                },
            }
            &&& cli::requested(line("agent"@)) == Ok::<Request, Seq<char>>(Request::Agent)
            &&& cli::requested(line("receive"@)) == Ok::<Request, Seq<char>>(Request::Receive)
            &&& cli::requested(line("-h"@)) == Ok::<Request, Seq<char>>(Request::Usage)
            &&& cli::requested(line("--help"@)) == Ok::<Request, Seq<char>>(Request::Usage)
        }),
        cli::requested(seq![program]) == Ok::<Request, Seq<char>>(Request::Usage),
        cli::requested(Seq::empty()) == Ok::<Request, Seq<char>>(Request::Usage),
{
    reveal_strlit("connect");
    reveal_strlit("agent");
    reveal_strlit("serve");
    reveal_strlit("send-once");
    reveal_strlit("receive");
    reveal_strlit("-h");
    reveal_strlit("--help");
    assert("connect"@[0] == 'c' && "agent"@[0] == 'a' && "receive"@[0] == 'r');
    assert("serve"@.len() == 5 && "agent"@.len() == 5 && "send-once"@.len() == 9);
    assert("serve"@[0] == 's' && "send-once"@[0] == 's');
    assert("-h"@.len() == 2 && "--help"@.len() == 6);
    assert("connect"@.len() == 7 && "receive"@.len() == 7);
    lemma_words(program, "connect"@, rest);
    lemma_words(program, "agent"@, rest);
    lemma_words(program, "serve"@, rest);
    lemma_words(program, "send-once"@, rest);
    lemma_words(program, "receive"@, rest);
    lemma_words(program, "-h"@, rest);
    lemma_words(program, "--help"@, rest);
}

/// The words of a command line.
proof fn lemma_words(program: Seq<char>, word: Seq<char>, rest: Seq<Seq<char>>)
    ensures
        (seq![program, word] + rest).len() >= 2,
        (seq![program, word] + rest)[1] == word,
        (seq![program, word] + rest).skip(2) == rest,
{
    assert((seq![program, word] + rest).skip(2) =~= rest);
}

/// A word that is no command is refused by name, whatever follows it.
pub proof fn law_other_commands_are_refused(
    program: Seq<char>,
    word: Seq<char>,
    rest: Seq<Seq<char>>,
)
    requires
        word != "connect"@,
        word != "agent"@,
        word != "serve"@,
        word != "send-once"@,
        word != "receive"@,
        word != "-h"@,
        word != "--help"@,
    ensures
        cli::requested(seq![program, word] + rest) == Err::<Request, Seq<char>>(
            "unknown command: "@ + word,
        ),
{
    lemma_words(program, word, rest);
}

/// The peer and the program that the user names are the ones that are reached and run: what
/// runs on the peer is the command, by the binary given last with `--remote-bin`, or by `zync`
/// where none is given. These are all the arguments, each as it was given.
pub proof fn law_remote_binary_is_run(
    pairs: Seq<(Seq<char>, Seq<char>)>,
    peer: Seq<char>,
    command: Seq<char>,
)
    requires
        are_good(pairs),
        last_value(pairs, "--peer"@) == Some(peer),
    ensures
        cli::serve_config(order_laws::option_args(pairs)) matches Ok(config) && {
            let args = session::peer_args(config, command);
            &&& args.len() == 3
            &&& args[0] == peer
            &&& args[1] == value_or(last_value(pairs, "--remote-bin"@), "zync"@)
            &&& args[2] == command
        },
{
    law_options_take_effect(pairs);
}

/// Whatever is given with `--remote-bin` after all other options is what runs on the peer.
pub proof fn law_remote_bin_counts(
    pairs: Seq<(Seq<char>, Seq<char>)>,
    peer: Seq<char>,
    binary: Seq<char>,
    command: Seq<char>,
)
    requires
        are_good(pairs),
        last_value(pairs, "--peer"@) == Some(peer),
    ensures
        cli::serve_config(
            order_laws::option_args(pairs) + seq!["--remote-bin"@, binary],
        ) matches Ok(config) && session::peer_args(config, command) == seq![peer, binary, command],
{
    let more = pairs.push(("--remote-bin"@, binary));
    lemma_names_differ();
    assert(more.drop_last() =~= pairs);
    assert forall|i: int| 0 <= i < more.len() implies is_good(#[trigger] more[i]) by {
        if i < pairs.len() {
            assert(more[i] == pairs[i]);
        }
    }
    lemma_last_pair(more);
    law_remote_binary_is_run(more, peer, command);
    let config = cli::serve_config(order_laws::option_args(more))->Ok_0;
    assert(session::peer_args(config, command) =~= seq![peer, binary, command]);
}

} // verus!
