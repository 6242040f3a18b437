//! What does not depend on an order: the lines of a header and the options of a command, where
//! none comes twice.

use crate::cli;
use crate::cli::Options;
use crate::clipboard::Item;
use crate::frame;
use crate::header;
use crate::header::{Fields, MAGIC};
use crate::laws;
use crate::reader_laws;
use crate::stream;
use crate::stream::State;
use crate::text;
use vstd::prelude::*;
use vstd::utf8::*;

verus! {

/// The key of a header line, where it has one.
pub open spec fn key_of(line: Seq<char>) -> Option<Seq<char>> {
    match text::split_at_first(line, ':') {
        Some((key, _)) => Some(key),
        None => None,
    }
}

/// Whether no key comes twice in some header lines.
pub open spec fn keys_differ(lines: Seq<Seq<char>>) -> bool {
    forall|i: int, j: int|
        0 <= i < j < lines.len() ==> key_of(#[trigger] lines[i]) is None || key_of(lines[i])
            != key_of(#[trigger] lines[j])
}

/// Whether two sequences hold the same things.
pub open spec fn same_members<A>(a: Seq<A>, b: Seq<A>) -> bool {
    forall|x: A|
        #![trigger a.contains(x)]
        #![trigger b.contains(x)]
        a.contains(x) <==> b.contains(x)
}

/// Whether a header line is accepted, which does not depend on the lines before it.
spec fn is_accepted(line: Seq<char>) -> bool {
    header::fields_after_line(header::no_fields(), line) is Ok
}

/// Whether fields already say what a header line says.
spec fn says(fields: Fields, line: Seq<char>) -> bool {
    header::fields_after_line(fields, line) == Ok::<Fields, Seq<char>>(fields)
}

/// Header lines are accepted together where each of them is.
proof fn lemma_accepted_together(fields: Fields, lines: Seq<Seq<char>>)
    ensures
        header::fields_after_lines(fields, lines) is Ok <==> forall|i: int|
            0 <= i < lines.len() ==> is_accepted(#[trigger] lines[i]),
    decreases lines.len(),
{
    if lines.len() > 0 {
        let rest = lines.drop_first();
        assert(is_accepted(lines[0]) == (header::fields_after_line(fields, lines[0]) is Ok));
        assert forall|i: int| 0 <= i < rest.len() implies #[trigger] rest[i] == lines[i + 1] by {}
        match header::fields_after_line(fields, lines[0]) {
            Ok(next) => {
                lemma_accepted_together(next, rest);
                if forall|i: int| 0 <= i < rest.len() ==> is_accepted(#[trigger] rest[i]) {
                    assert forall|i: int| 0 <= i < lines.len() implies is_accepted(
                        #[trigger] lines[i],
                    ) by {
                        if i > 0 {
                            assert(is_accepted(rest[i - 1]));
                        }
                    }
                } else {
                    let i = choose|i: int|
                        0 <= i < rest.len() && !is_accepted(#[trigger] rest[i]);
                    assert(!is_accepted(lines[i + 1]));
                }
            },
            Err(_) => {},
        }
    }
}

/// A header line leaves alone what one with another key has said.
proof fn lemma_still_says(fields: Fields, lines: Seq<Seq<char>>, after: Fields, line: Seq<char>)
    requires
        says(fields, line),
        header::fields_after_lines(fields, lines) == Ok::<Fields, Seq<char>>(after),
        forall|i: int| 0 <= i < lines.len() ==> key_of(#[trigger] lines[i]) != key_of(line),
    ensures
        says(after, line),
    decreases lines.len(),
{
    if lines.len() > 0 {
        let rest = lines.drop_first();
        let next = header::fields_after_line(fields, lines[0])->Ok_0;
        assert(key_of(lines[0]) != key_of(line));
        assert(says(next, line));
        assert forall|i: int| 0 <= i < rest.len() implies key_of(#[trigger] rest[i]) != key_of(
            line,
        ) by {
            assert(rest[i] == lines[i + 1]);
        }
        lemma_still_says(next, rest, after, line);
    }
}

/// The fields after header lines with different keys say what each of them says.
proof fn lemma_says_all(fields: Fields, lines: Seq<Seq<char>>, after: Fields)
    requires
        keys_differ(lines),
        header::fields_after_lines(fields, lines) == Ok::<Fields, Seq<char>>(after),
    ensures
        forall|i: int| 0 <= i < lines.len() ==> says(after, #[trigger] lines[i]),
    decreases lines.len(),
{
    if lines.len() > 0 {
        let line = lines[0];
        let rest = lines.drop_first();
        let next = header::fields_after_line(fields, line)->Ok_0;
        assert(says(next, line));
        assert forall|i: int| 0 <= i < rest.len() implies key_of(#[trigger] rest[i]) != key_of(
            line,
        ) by {
            assert(rest[i] == lines[i + 1]);
        }
        lemma_still_says(next, rest, after, line);
        assert forall|i: int, j: int| 0 <= i < j < rest.len() implies key_of(
            #[trigger] rest[i],
        ) is None || key_of(rest[i]) != key_of(#[trigger] rest[j]) by {
            assert(rest[i] == lines[i + 1]);
            assert(rest[j] == lines[j + 1]);
        }
        lemma_says_all(next, rest, after);
        assert forall|i: int| 0 <= i < lines.len() implies says(after, #[trigger] lines[i]) by {
            if i > 0 {
                assert(lines[i] == rest[i - 1]);
            }
        }
    }
}

/// Whether some header line has the given key.
spec fn has_key(lines: Seq<Seq<char>>, key: Seq<char>) -> bool {
    exists|i: int| 0 <= i < lines.len() && key_of(#[trigger] lines[i]) == Some(key)
}

/// A field stays as it is where no header line has its key.
proof fn lemma_unsaid(fields: Fields, lines: Seq<Seq<char>>, after: Fields)
    requires
        header::fields_after_lines(fields, lines) == Ok::<Fields, Seq<char>>(after),
    ensures
        !has_key(lines, "kind"@) ==> after.kind == fields.kind,
        !has_key(lines, "mime"@) ==> after.mime == fields.mime,
        !has_key(lines, "hash"@) ==> after.hash == fields.hash,
        !has_key(lines, "bytes"@) ==> after.bytes_len == fields.bytes_len,
    decreases lines.len(),
{
    if lines.len() > 0 {
        let rest = lines.drop_first();
        let next = header::fields_after_line(fields, lines[0])->Ok_0;
        lemma_unsaid(next, rest, after);
        assert forall|key: Seq<char>| has_key(rest, key) implies #[trigger] has_key(
            lines,
            key,
        ) by {
            let i = choose|i: int| 0 <= i < rest.len() && key_of(#[trigger] rest[i]) == Some(key);
            assert(key_of(lines[i + 1]) == Some(key));
        }
        assert(has_key(rest, "kind"@) ==> has_key(lines, "kind"@));
        assert(has_key(rest, "mime"@) ==> has_key(lines, "mime"@));
        assert(has_key(rest, "hash"@) ==> has_key(lines, "hash"@));
        assert(has_key(rest, "bytes"@) ==> has_key(lines, "bytes"@));
    }
}

/// Where a key has a line, both sets of fields that say what it says agree on its field.
proof fn lemma_agree(
    a: Fields,
    b: Fields,
    lines: Seq<Seq<char>>,
    other: Seq<Seq<char>>,
    key: Seq<char>,
)
    requires
        forall|i: int| 0 <= i < lines.len() ==> says(a, #[trigger] lines[i]),
        forall|i: int| 0 <= i < other.len() ==> says(b, #[trigger] other[i]),
        same_members(lines, other),
    ensures
        has_key(lines, key) <==> has_key(other, key),
        has_key(lines, key) && key == "kind"@ ==> a.kind == b.kind,
        has_key(lines, key) && key == "mime"@ && key != "kind"@ ==> a.mime == b.mime,
        has_key(lines, key) && key == "hash"@ && key != "kind"@ && key != "mime"@ ==> a.hash
            == b.hash,
        has_key(lines, key) && key == "bytes"@ && key != "kind"@ && key != "mime"@ && key
            != "hash"@ ==> a.bytes_len == b.bytes_len,
{
    if has_key(lines, key) {
        let i = choose|i: int| 0 <= i < lines.len() && key_of(#[trigger] lines[i]) == Some(key);
        let line = lines[i];
        assert(lines.contains(line));
        let j = other.index_of(line);
        assert(other[j] == line);
        assert(says(a, line) && says(b, line));
        assert(key_of(other[j]) == Some(key));
    } else if has_key(other, key) {
        let j = choose|j: int| 0 <= j < other.len() && key_of(#[trigger] other[j]) == Some(key);
        let line = other[j];
        assert(other.contains(line));
        let i = lines.index_of(line);
        assert(key_of(lines[i]) == Some(key));
    }
}

/// Header lines with different keys give the same fields in any order.
proof fn lemma_fields_in_any_order(lines: Seq<Seq<char>>, other: Seq<Seq<char>>)
    requires
        keys_differ(lines),
        keys_differ(other),
        same_members(lines, other),
    ensures
        ({
            let a = header::fields_after_lines(header::no_fields(), lines);
            let b = header::fields_after_lines(header::no_fields(), other);
            &&& a is Ok <==> b is Ok
            &&& a is Ok ==> a == b
        }),
{
    let none = header::no_fields();
    lemma_accepted_together(none, lines);
    lemma_accepted_together(none, other);
    let all_lines = forall|i: int| 0 <= i < lines.len() ==> is_accepted(#[trigger] lines[i]);
    let all_other = forall|i: int| 0 <= i < other.len() ==> is_accepted(#[trigger] other[i]);
    if all_lines {
        assert forall|i: int| 0 <= i < other.len() implies is_accepted(#[trigger] other[i]) by {
            assert(other.contains(other[i]));
            let j = lines.index_of(other[i]);
            assert(is_accepted(lines[j]));
        }
    }
    if all_other {
        assert forall|i: int| 0 <= i < lines.len() implies is_accepted(#[trigger] lines[i]) by {
            assert(lines.contains(lines[i]));
            let j = other.index_of(lines[i]);
            assert(is_accepted(other[j]));
        }
    }
    if all_lines {
        let a = header::fields_after_lines(none, lines)->Ok_0;
        let b = header::fields_after_lines(none, other)->Ok_0;
        lemma_says_all(none, lines, a);
        lemma_says_all(none, other, b);
        lemma_unsaid(none, lines, a);
        lemma_unsaid(none, other, b);
        lemma_agree(a, b, lines, other, "kind"@);
        lemma_agree(a, b, lines, other, "mime"@);
        lemma_agree(a, b, lines, other, "hash"@);
        lemma_agree(a, b, lines, other, "bytes"@);
        reveal_strlit("kind");
        reveal_strlit("mime");
        reveal_strlit("hash");
        reveal_strlit("bytes");
        assert("kind"@[0] == 'k' && "mime"@[0] == 'm' && "hash"@[0] == 'h' && "bytes"@[0] == 'b');
        assert(a =~= b);
    }
}

/// What a reader makes of plain header lines.
proof fn lemma_read_ended(fields: Fields, lines: Seq<Seq<char>>, tail: Seq<u8>)
    requires
        laws::are_plain_lines(lines),
    ensures
        ({
            let read = stream::read_from(
                State::Header(fields),
                encode_utf8(reader_laws::ended(lines, seq!['\n'])) + tail,
            );
            match header::fields_after_lines(fields, lines) {
                Ok(after) => read == stream::read_from(State::Header(after), tail),
                Err(message) => read.0 == Err::<Option<Item>, Seq<char>>(message),
            }
        }),
    decreases lines.len(),
{
    let end = seq!['\n'];
    if lines.len() == 0 {
        assert(encode_utf8(reader_laws::ended(lines, end)) + tail =~= tail);
    } else {
        let line = lines[0];
        let rest = lines.drop_first();
        let left = encode_utf8(reader_laws::ended(rest, end)) + tail;
        assert(laws::is_plain_line(line));
        if line.last() == '\n' {
            assert(line.contains('\n'));
        }
        assert(text::without_line_end(line) == line);
        laws::lemma_read_any_line(line, left);
        laws::lemma_encode_line(line, reader_laws::ended(rest, end));
        assert(encode_utf8(reader_laws::ended(lines, end)) + tail =~= encode_utf8(line) + seq![10u8]
            + left);
        assert forall|i: int| 0 <= i < rest.len() implies laws::is_plain_line(
            #[trigger] rest[i],
        ) by {
            assert(rest[i] == lines[i + 1]);
        }
        match header::fields_after_line(fields, line) {
            Ok(next) => {
                lemma_read_ended(next, rest, tail);
            },
            Err(_) => {},
        }
    }
}

/// What a stream gives that begins with plain header lines.
pub proof fn lemma_read_frame_with(lines: Seq<Seq<char>>, payload: Seq<u8>, rest: Seq<u8>)
    requires
        laws::are_plain_lines(lines),
    ensures
        ({
            let read = stream::read_from(State::Start, laws::frame_with(lines, payload) + rest);
            match header::fields_after_lines(header::no_fields(), lines) {
                Ok(after) => read == stream::read_from(
                    State::Header(after),
                    seq![10u8] + payload + rest,
                ),
                Err(message) => read.0 == Err::<Option<Item>, Seq<char>>(message),
            }
        }),
{
    let after = encode_utf8(reader_laws::ended(lines, seq!['\n']));
    let tail = seq![10u8] + payload + rest;
    reveal_strlit("ZYNC1");
    assert(text::without_line_end(MAGIC@) == MAGIC@);
    reader_laws::lemma_frame_with(lines, payload);
    assert(laws::frame_with(lines, payload) + rest =~= encode_utf8(MAGIC@) + seq![10u8] + (after
        + tail));
    laws::lemma_read_any_line(MAGIC@, after + tail);
    lemma_read_ended(header::no_fields(), lines, tail);
}

/// The order of header lines carries no meaning where no key comes twice: a frame with the
/// same lines in another order is read in the same way, as a whole and in a stream. Only which
/// of several lines is refused first depends on the order.
pub proof fn law_header_lines_in_any_order(
    lines: Seq<Seq<char>>,
    other: Seq<Seq<char>>,
    payload: Seq<u8>,
    rest: Seq<u8>,
)
    requires
        laws::are_plain_lines(lines),
        keys_differ(lines),
        keys_differ(other),
        same_members(lines, other),
    ensures
        ({
            let f = laws::frame_with(lines, payload);
            let g = laws::frame_with(other, payload);
            if header::fields_after_lines(header::no_fields(), lines) is Ok {
                &&& frame::decoded(f) == frame::decoded(g)
                &&& stream::read_from(State::Start, f + rest) == stream::read_from(
                    State::Start,
                    g + rest,
                )
            } else {
                &&& frame::decoded(f) is Err
                &&& frame::decoded(g) is Err
                &&& stream::read_from(State::Start, f + rest).0 is Err
                &&& stream::read_from(State::Start, g + rest).0 is Err
            }
        }),
{
    assert forall|i: int| 0 <= i < other.len() implies laws::is_plain_line(#[trigger] other[i]) by {
        assert(other.contains(other[i]));
        let j = lines.index_of(other[i]);
        assert(laws::is_plain_line(lines[j]));
    }
    lemma_fields_in_any_order(lines, other);
    laws::lemma_decoded_lines(lines, payload);
    laws::lemma_decoded_lines(other, payload);
    lemma_read_frame_with(lines, payload, rest);
    lemma_read_frame_with(other, payload, rest);
}

/// The arguments that give some options and their values.
pub open spec fn option_args(pairs: Seq<(Seq<char>, Seq<char>)>) -> Seq<Seq<char>>
    decreases pairs.len(),
{
    if pairs.len() == 0 {
        Seq::empty()
    } else {
        seq![pairs[0].0, pairs[0].1] + option_args(pairs.drop_first())
    }
}

/// Whether no option comes twice.
pub open spec fn options_differ(pairs: Seq<(Seq<char>, Seq<char>)>) -> bool {
    forall|i: int, j: int|
        0 <= i < j < pairs.len() ==> !cli::is_option((#[trigger] pairs[i]).0) || pairs[i].0 != (
        #[trigger] pairs[j]).0
}

/// Whether an option and its value are accepted, which does not depend on what came before.
spec fn is_allowed(pair: (Seq<char>, Seq<char>)) -> bool {
    cli::is_option(pair.0) && cli::options_after_one(cli::default_options(), pair.0, pair.1) is Ok
}

/// Whether options already hold what an option and its value say.
spec fn holds(options: Options, pair: (Seq<char>, Seq<char>)) -> bool {
    cli::is_option(pair.0) && cli::options_after_one(options, pair.0, pair.1) == Ok::<
        Options,
        Seq<char>,
    >(options)
}

/// Taking in one option and its value, and then the others.
pub proof fn lemma_one_option(options: Options, pairs: Seq<(Seq<char>, Seq<char>)>)
    requires
        pairs.len() > 0,
    ensures
        cli::options_after(options, option_args(pairs)) == if !cli::is_option(pairs[0].0) {
            Err("unknown option: "@ + pairs[0].0)
        } else {
            match cli::options_after_one(options, pairs[0].0, pairs[0].1) {
                Ok(next) => cli::options_after(next, option_args(pairs.drop_first())),
                Err(message) => Err(message),
            }
        },
{
    let args = option_args(pairs);
    assert(args[0] == pairs[0].0);
    assert(args[1] == pairs[0].1);
    assert(args.skip(2) =~= option_args(pairs.drop_first()));
}

/// Options are accepted together where each of them is.
proof fn lemma_allowed_together(options: Options, pairs: Seq<(Seq<char>, Seq<char>)>)
    ensures
        cli::options_after(options, option_args(pairs)) is Ok <==> forall|i: int|
            0 <= i < pairs.len() ==> is_allowed(#[trigger] pairs[i]),
    decreases pairs.len(),
{
    if pairs.len() > 0 {
        let rest = pairs.drop_first();
        lemma_one_option(options, pairs);
        assert forall|i: int| 0 <= i < rest.len() implies #[trigger] rest[i] == pairs[i + 1] by {}
        if is_allowed(pairs[0]) {
            let next = cli::options_after_one(options, pairs[0].0, pairs[0].1)->Ok_0;
            lemma_allowed_together(next, rest);
            if forall|i: int| 0 <= i < rest.len() ==> is_allowed(#[trigger] rest[i]) {
                assert forall|i: int| 0 <= i < pairs.len() implies is_allowed(
                    #[trigger] pairs[i],
                ) by {
                    if i > 0 {
                        assert(is_allowed(rest[i - 1]));
                    }
                }
            } else {
                let i = choose|i: int| 0 <= i < rest.len() && !is_allowed(#[trigger] rest[i]);
                assert(!is_allowed(pairs[i + 1]));
            }
        }
    }
}

/// An option leaves alone what another has set.
proof fn lemma_still_holds(
    options: Options,
    pairs: Seq<(Seq<char>, Seq<char>)>,
    after: Options,
    pair: (Seq<char>, Seq<char>),
)
    requires
        holds(options, pair),
        cli::options_after(options, option_args(pairs)) == Ok::<Options, Seq<char>>(after),
        forall|i: int| 0 <= i < pairs.len() ==> (#[trigger] pairs[i]).0 != pair.0,
    ensures
        holds(after, pair),
    decreases pairs.len(),
{
    if pairs.len() > 0 {
        let rest = pairs.drop_first();
        lemma_one_option(options, pairs);
        let next = cli::options_after_one(options, pairs[0].0, pairs[0].1)->Ok_0;
        assert(pairs[0].0 != pair.0);
        assert(holds(next, pair));
        assert forall|i: int| 0 <= i < rest.len() implies (#[trigger] rest[i]).0 != pair.0 by {
            assert(rest[i] == pairs[i + 1]);
        }
        lemma_still_holds(next, rest, after, pair);
    }
}

/// Different options that were taken in hold what each of them says.
proof fn lemma_holds_all(options: Options, pairs: Seq<(Seq<char>, Seq<char>)>, after: Options)
    requires
        options_differ(pairs),
        cli::options_after(options, option_args(pairs)) == Ok::<Options, Seq<char>>(after),
    ensures
        forall|i: int| 0 <= i < pairs.len() ==> holds(after, #[trigger] pairs[i]),
    decreases pairs.len(),
{
    if pairs.len() > 0 {
        let pair = pairs[0];
        let rest = pairs.drop_first();
        lemma_one_option(options, pairs);
        let next = cli::options_after_one(options, pair.0, pair.1)->Ok_0;
        assert(holds(next, pair));
        assert forall|i: int| 0 <= i < rest.len() implies (#[trigger] rest[i]).0 != pair.0 by {
            assert(rest[i] == pairs[i + 1]);
        }
        lemma_still_holds(next, rest, after, pair);
        assert forall|i: int, j: int| 0 <= i < j < rest.len() implies !cli::is_option(
            (#[trigger] rest[i]).0,
        ) || rest[i].0 != (#[trigger] rest[j]).0 by {
            assert(rest[i] == pairs[i + 1]);
            assert(rest[j] == pairs[j + 1]);
        }
        lemma_holds_all(next, rest, after);
        assert forall|i: int| 0 <= i < pairs.len() implies holds(after, #[trigger] pairs[i]) by {
            if i > 0 {
                assert(pairs[i] == rest[i - 1]);
            }
        }
    }
}

/// Whether some option has the given name.
spec fn has_option(pairs: Seq<(Seq<char>, Seq<char>)>, flag: Seq<char>) -> bool {
    exists|i: int| 0 <= i < pairs.len() && (#[trigger] pairs[i]).0 == flag
}

/// What no option sets stays as it is.
proof fn lemma_unset(options: Options, pairs: Seq<(Seq<char>, Seq<char>)>, after: Options)
    requires
        cli::options_after(options, option_args(pairs)) == Ok::<Options, Seq<char>>(after),
    ensures
        !has_option(pairs, "--peer"@) ==> after.peer == options.peer,
        !has_option(pairs, "--remote-bin"@) ==> after.remote_bin == options.remote_bin,
        !has_option(pairs, "--ssh-bin"@) ==> after.ssh_bin == options.ssh_bin,
        !has_option(pairs, "--interval-ms"@) ==> after.interval_ms == options.interval_ms,
    decreases pairs.len(),
{
    if pairs.len() > 0 {
        let rest = pairs.drop_first();
        lemma_one_option(options, pairs);
        let next = cli::options_after_one(options, pairs[0].0, pairs[0].1)->Ok_0;
        lemma_unset(next, rest, after);
        assert forall|flag: Seq<char>| has_option(rest, flag) implies #[trigger] has_option(
            pairs,
            flag,
        ) by {
            let i = choose|i: int| 0 <= i < rest.len() && (#[trigger] rest[i]).0 == flag;
            assert(pairs[i + 1].0 == flag);
        }
        assert(has_option(rest, "--peer"@) ==> has_option(pairs, "--peer"@));
        assert(has_option(rest, "--remote-bin"@) ==> has_option(pairs, "--remote-bin"@));
        assert(has_option(rest, "--ssh-bin"@) ==> has_option(pairs, "--ssh-bin"@));
        assert(has_option(rest, "--interval-ms"@) ==> has_option(pairs, "--interval-ms"@));
    }
}

/// Options that hold the same pairs agree on an option that is given.
proof fn lemma_options_agree(
    a: Options,
    b: Options,
    pairs: Seq<(Seq<char>, Seq<char>)>,
    other: Seq<(Seq<char>, Seq<char>)>,
    flag: Seq<char>,
)
    requires
        forall|i: int| 0 <= i < pairs.len() ==> holds(a, #[trigger] pairs[i]),
        forall|i: int| 0 <= i < other.len() ==> holds(b, #[trigger] other[i]),
        same_members(pairs, other),
    ensures
        has_option(pairs, flag) <==> has_option(other, flag),
        has_option(pairs, flag) ==> exists|value: Seq<char>|
            #![trigger holds(a, (flag, value))]
            holds(a, (flag, value)) && holds(b, (flag, value)),
{
    if has_option(pairs, flag) {
        let i = choose|i: int| 0 <= i < pairs.len() && (#[trigger] pairs[i]).0 == flag;
        let pair = pairs[i];
        assert(pairs.contains(pair));
        let j = other.index_of(pair);
        assert(other[j] == pair);
        assert(holds(a, (flag, pair.1)) && holds(b, (flag, pair.1)));
    } else if has_option(other, flag) {
        let j = choose|j: int| 0 <= j < other.len() && (#[trigger] other[j]).0 == flag;
        let pair = other[j];
        assert(other.contains(pair));
        let i = pairs.index_of(pair);
        assert(pairs[i].0 == flag);
    }
}

/// The order of options carries no meaning where none comes twice: the same options in another
/// order give the same configuration. Only which of several faults is reported depends on the
/// order.
pub proof fn law_options_in_any_order(
    pairs: Seq<(Seq<char>, Seq<char>)>,
    other: Seq<(Seq<char>, Seq<char>)>,
)
    requires
        options_differ(pairs),
        options_differ(other),
        same_members(pairs, other),
    ensures
        ({
            let a = cli::serve_config(option_args(pairs));
            let b = cli::serve_config(option_args(other));
            if cli::options_after(cli::default_options(), option_args(pairs)) is Ok {
                a == b
            } else {
                a is Err && b is Err
            }
        }),
{
    let none = cli::default_options();
    lemma_allowed_together(none, pairs);
    lemma_allowed_together(none, other);
    let all_pairs = forall|i: int| 0 <= i < pairs.len() ==> is_allowed(#[trigger] pairs[i]);
    let all_other = forall|i: int| 0 <= i < other.len() ==> is_allowed(#[trigger] other[i]);
    if all_pairs {
        assert forall|i: int| 0 <= i < other.len() implies is_allowed(#[trigger] other[i]) by {
            assert(other.contains(other[i]));
            let j = pairs.index_of(other[i]);
            assert(is_allowed(pairs[j]));
        }
    }
    if all_other {
        assert forall|i: int| 0 <= i < pairs.len() implies is_allowed(#[trigger] pairs[i]) by {
            assert(pairs.contains(pairs[i]));
            let j = other.index_of(pairs[i]);
            assert(is_allowed(other[j]));
        }
    }
    if all_pairs {
        let a = cli::options_after(none, option_args(pairs))->Ok_0;
        let b = cli::options_after(none, option_args(other))->Ok_0;
        lemma_holds_all(none, pairs, a);
        lemma_holds_all(none, other, b);
        lemma_unset(none, pairs, a);
        lemma_unset(none, other, b);
        lemma_options_agree(a, b, pairs, other, "--peer"@);
        lemma_options_agree(a, b, pairs, other, "--remote-bin"@);
        lemma_options_agree(a, b, pairs, other, "--ssh-bin"@);
        lemma_options_agree(a, b, pairs, other, "--interval-ms"@);
        reveal_strlit("--peer");
        reveal_strlit("--remote-bin");
        reveal_strlit("--ssh-bin");
        reveal_strlit("--interval-ms");
        assert("--peer"@[2] == 'p' && "--remote-bin"@[2] == 'r' && "--ssh-bin"@[2] == 's'
            && "--interval-ms"@[2] == 'i');
        assert(a =~= b);
    }
}

} // verus!
