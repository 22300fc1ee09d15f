//! What requests mean: how each command is written as a request, and what each
//! sequence of arguments is read as, or refused for.
use crate::command::{
    arguments_of, bytes_of, read_arguments, read_request, reading, request_of, spells, Command,
    CommandError, Order,
};
use crate::duration::Duration;
use crate::number::{decimal, u64_of};
use crate::number_laws::{denotes_unsigned, law_unsigned_numbers_are_read};
use crate::protocol::Frame;
use crate::text::{ascii_upper, upper, upper_bytes, upper_text, utf8_lossy};
use vstd::prelude::*;
use vstd::utf8::{char_is_scalar, decode_utf8, encode_utf8, valid_utf8};

verus! {

/// A request: an array of bulk strings.
pub open spec fn request(args: Seq<Seq<u8>>) -> Frame {
    Frame::Array(Some(Seq::new(args.len(), |i: int| Frame::Bulk(Some(args[i])))))
}

/// The bytes of a text.
pub open spec fn bytes(text: Seq<char>) -> Seq<u8> {
    encode_utf8(text)
}

/// The code of a byte, or of the upper case where it is that of an ASCII letter
/// in lower case.
pub open spec fn raised(b: u8) -> int {
    if 97 <= b <= 122 {
        b - 32
    } else {
        b as int
    }
}

/// A word is spelled in either case of its ASCII letters.
pub proof fn law_how_words_are_spelled(word: Seq<u8>, text: Seq<char>)
    ensures
        spells(word, text) <==> word.len() == text.len() && forall|i: int|
            0 <= i < word.len() ==> raised(#[trigger] word[i]) == text[i] as u32,
{
    if spells(word, text) {
        assert forall|i: int| 0 <= i < word.len() implies raised(#[trigger] word[i])
            == text[i] as u32 by {
            assert(upper(word[i]) as u32 == text[i] as u32);
        }
    }
}

/// How commands are written as requests: a time to live is given to `SET` in
/// milliseconds, or in seconds where those do not fit in 64 bits, and to
/// `EXPIRE` in seconds.
pub proof fn law_how_commands_are_written(key: Seq<u8>, value: Seq<u8>, ttl: nat)
    ensures
        request_of(Order::Ping) == request(seq![bytes("PING"@)]),
        request_of(Order::FlushAll) == request(seq![bytes("FLUSHALL"@)]),
        request_of(Order::Get { key }) == request(seq![bytes("GET"@), key]),
        request_of(Order::Del { key }) == request(seq![bytes("DEL"@), key]),
        request_of(Order::Exists { key }) == request(seq![bytes("EXISTS"@), key]),
        request_of(Order::Ttl { key }) == request(seq![bytes("TTL"@), key]),
        request_of(Order::Expire { key, ttl }) == request(
            seq![bytes("EXPIRE"@), key, decimal(ttl / 1_000_000_000)],
        ),
        request_of(Order::Put { key, value, ttl: None }) == request(
            seq![bytes("SET"@), key, value],
        ),
        ttl / 1_000_000 <= u64::MAX ==> request_of(Order::Put { key, value, ttl: Some(ttl) })
            == request(seq![bytes("SET"@), key, value, bytes("PX"@), decimal(ttl / 1_000_000)]),
        ttl / 1_000_000 > u64::MAX ==> request_of(Order::Put { key, value, ttl: Some(ttl) })
            == request(
            seq![bytes("SET"@), key, value, bytes("EX"@), decimal(ttl / 1_000_000_000)],
        ),
{
    assert(request_of(Order::Ping)->Array_0->Some_0 =~= request(
        seq![bytes("PING"@)],
    )->Array_0->Some_0);
    assert(request_of(Order::FlushAll)->Array_0->Some_0 =~= request(
        seq![bytes("FLUSHALL"@)],
    )->Array_0->Some_0);
    assert(request_of(Order::Get { key })->Array_0->Some_0 =~= request(
        seq![bytes("GET"@), key],
    )->Array_0->Some_0);
    assert(request_of(Order::Del { key })->Array_0->Some_0 =~= request(
        seq![bytes("DEL"@), key],
    )->Array_0->Some_0);
    assert(request_of(Order::Exists { key })->Array_0->Some_0 =~= request(
        seq![bytes("EXISTS"@), key],
    )->Array_0->Some_0);
    assert(request_of(Order::Ttl { key })->Array_0->Some_0 =~= request(
        seq![bytes("TTL"@), key],
    )->Array_0->Some_0);
    assert(request_of(Order::Expire { key, ttl })->Array_0->Some_0 =~= request(
        seq![bytes("EXPIRE"@), key, decimal(ttl / 1_000_000_000)],
    )->Array_0->Some_0);
    assert(request_of(Order::Put { key, value, ttl: None })->Array_0->Some_0 =~= request(
        seq![bytes("SET"@), key, value],
    )->Array_0->Some_0);
    let put = request_of(Order::Put { key, value, ttl: Some(ttl) })->Array_0->Some_0;
    if ttl / 1_000_000 <= u64::MAX {
        assert(put =~= request(
            seq![bytes("SET"@), key, value, bytes("PX"@), decimal(ttl / 1_000_000)],
        )->Array_0->Some_0);
    } else {
        assert(put =~= request(
            seq![bytes("SET"@), key, value, bytes("EX"@), decimal(ttl / 1_000_000_000)],
        )->Array_0->Some_0);
    }
}

/// A request is an array of bulk strings, and is read as they are; anything else
/// is refused.
pub proof fn law_requests_are_arrays_of_bulk_strings(
    args: Seq<Seq<u8>>,
    items: Seq<Frame>,
    frame: Frame,
)
    ensures
        read_request(request(args)) == read_arguments(args),
        (exists|i: int|
            0 <= i < items.len() && !(#[trigger] items[i] matches Frame::Bulk(Some(_))))
            ==> read_request(Frame::Array(Some(items))) == Err::<Order, Seq<char>>(
            "expected bulk string array elements"@,
        ),
        !(frame matches Frame::Array(Some(_))) ==> read_request(frame) == Err::<Order, Seq<char>>(
            "expected an array request"@,
        ),
{
    assert(arguments_of(request(args)->Array_0->Some_0)->Some_0 =~= args);
}

/// A word that spells one name of a command spells no other.
proof fn lemma_one_name(word: Seq<u8>)
    ensures
        spells(word, "PING"@) ==> word.len() == 4,
        spells(word, "GET"@) ==> word.len() == 3 && (word[0] == 71 || word[0] == 103),
        spells(word, "DEL"@) ==> word.len() == 3 && (word[0] == 68 || word[0] == 100),
        spells(word, "EXISTS"@) ==> word.len() == 6 && (word[2] == 73 || word[2] == 105),
        spells(word, "TTL"@) ==> word.len() == 3 && (word[0] == 84 || word[0] == 116),
        spells(word, "FLUSHALL"@) ==> word.len() == 8,
        spells(word, "EXPIRE"@) ==> word.len() == 6 && (word[2] == 80 || word[2] == 112),
        spells(word, "SET"@) ==> word.len() == 3 && (word[0] == 83 || word[0] == 115),
        spells(word, "PX"@) ==> word.len() == 2 && (word[0] == 80 || word[0] == 112),
        spells(word, "EX"@) ==> word.len() == 2 && (word[0] == 69 || word[0] == 101),
{
    reveal_strlit("PING");
    reveal_strlit("GET");
    reveal_strlit("DEL");
    reveal_strlit("EXISTS");
    reveal_strlit("TTL");
    reveal_strlit("FLUSHALL");
    reveal_strlit("EXPIRE");
    reveal_strlit("SET");
    reveal_strlit("PX");
    reveal_strlit("EX");
    law_how_words_are_spelled(word, "GET"@);
    law_how_words_are_spelled(word, "DEL"@);
    law_how_words_are_spelled(word, "EXISTS"@);
    law_how_words_are_spelled(word, "TTL"@);
    law_how_words_are_spelled(word, "EXPIRE"@);
    law_how_words_are_spelled(word, "SET"@);
    law_how_words_are_spelled(word, "PX"@);
    law_how_words_are_spelled(word, "EX"@);
}

/// What arguments that start with a name of a command are read as. Arguments
/// beyond those that a command takes are passed over.
pub proof fn law_commands_on_a_key_are_read(name: Seq<u8>, key: Seq<u8>, more: Seq<Seq<u8>>)
    ensures
        spells(name, "PING"@) ==> read_arguments(seq![name] + more) == Ok::<Order, Seq<char>>(
            Order::Ping,
        ),
        spells(name, "FLUSHALL"@) ==> read_arguments(seq![name] + more) == Ok::<Order, Seq<char>>(
            Order::FlushAll,
        ),
        spells(name, "GET"@) ==> read_arguments(seq![name, key] + more) == Ok::<Order, Seq<char>>(
            Order::Get { key },
        ),
        spells(name, "DEL"@) ==> read_arguments(seq![name, key] + more) == Ok::<Order, Seq<char>>(
            Order::Del { key },
        ),
        spells(name, "EXISTS"@) ==> read_arguments(seq![name, key] + more) == Ok::<
            Order,
            Seq<char>,
        >(Order::Exists { key }),
        spells(name, "TTL"@) ==> read_arguments(seq![name, key] + more) == Ok::<Order, Seq<char>>(
            Order::Ttl { key },
        ),
        spells(name, "GET"@) ==> read_arguments(seq![name]) == Err::<Order, Seq<char>>(
            "GET requires a key"@,
        ),
        spells(name, "DEL"@) ==> read_arguments(seq![name]) == Err::<Order, Seq<char>>(
            "DEL requires a key"@,
        ),
        spells(name, "EXISTS"@) ==> read_arguments(seq![name]) == Err::<Order, Seq<char>>(
            "EXISTS requires a key"@,
        ),
        spells(name, "TTL"@) ==> read_arguments(seq![name]) == Err::<Order, Seq<char>>(
            "TTL requires a key"@,
        ),
{
    lemma_one_name(name);
    let (one, two) = (seq![name] + more, seq![name, key] + more);
    assert(one[0] == name && two[0] == name && two[1] == key);
}

/// The seconds of an `EXPIRE` are seconds: `n` of them are a time to live of `n`
/// times a thousand million nanoseconds.
pub proof fn law_expire_is_read(
    name: Seq<u8>,
    key: Seq<u8>,
    line: Seq<u8>,
    n: u64,
    more: Seq<Seq<u8>>,
)
    requires
        spells(name, "EXPIRE"@),
    ensures
        denotes_unsigned(line, n as int) ==> read_arguments(seq![name, key, line] + more) == Ok::<
            Order,
            Seq<char>,
        >(Order::Expire { key, ttl: (n * 1_000_000_000) as nat }),
        (forall|m: u64| !denotes_unsigned(line, m as int)) ==> read_arguments(
            seq![name, key, line] + more,
        ) == Err::<Order, Seq<char>>("EXPIRE requires a numeric seconds argument"@),
        read_arguments(seq![name, key]) == Err::<Order, Seq<char>>(
            "EXPIRE requires a numeric seconds argument"@,
        ),
        read_arguments(seq![name]) == Err::<Order, Seq<char>>("EXPIRE requires a key"@),
{
    lemma_one_name(name);
    law_unsigned_numbers_are_read(line, n);
    if let Some(m) = u64_of(line) {
        law_unsigned_numbers_are_read(line, m);
    }
    let all = seq![name, key, line] + more;
    assert(all[0] == name && all[1] == key && all[2] == line);
}

/// What a `SET` is read as. Without an option the value does not expire; the
/// number behind `EX` is one of seconds, that behind `PX` one of milliseconds.
#[verifier::rlimit(60)]
#[verifier::spinoff_prover]
pub proof fn law_set_is_read(
    name: Seq<u8>,
    key: Seq<u8>,
    value: Seq<u8>,
    option: Seq<u8>,
    line: Seq<u8>,
    n: u64,
    more: Seq<Seq<u8>>,
)
    requires
        spells(name, "SET"@),
    ensures
        read_arguments(seq![name]) == Err::<Order, Seq<char>>("SET requires a key"@),
        read_arguments(seq![name, key]) == Err::<Order, Seq<char>>("SET requires a value"@),
        read_arguments(seq![name, key, value]) == Ok::<Order, Seq<char>>(
            Order::Put { key, value, ttl: None },
        ),
        spells(option, "EX"@) && denotes_unsigned(line, n as int) ==> read_arguments(
            seq![name, key, value, option, line] + more,
        ) == Ok::<Order, Seq<char>>(
            Order::Put { key, value, ttl: Some((n * 1_000_000_000) as nat) },
        ),
        spells(option, "PX"@) && denotes_unsigned(line, n as int) ==> read_arguments(
            seq![name, key, value, option, line] + more,
        ) == Ok::<Order, Seq<char>>(Order::Put { key, value, ttl: Some((n * 1_000_000) as nat) }),
        spells(option, "EX"@) && (forall|m: u64| !denotes_unsigned(line, m as int))
            ==> read_arguments(seq![name, key, value, option, line] + more) == Err::<
            Order,
            Seq<char>,
        >("EX requires a numeric seconds argument"@),
        spells(option, "PX"@) && (forall|m: u64| !denotes_unsigned(line, m as int))
            ==> read_arguments(seq![name, key, value, option, line] + more) == Err::<
            Order,
            Seq<char>,
        >("PX requires a numeric millisecond argument"@),
        spells(option, "EX"@) ==> read_arguments(seq![name, key, value, option]) == Err::<
            Order,
            Seq<char>,
        >("EX requires a numeric seconds argument"@),
        spells(option, "PX"@) ==> read_arguments(seq![name, key, value, option]) == Err::<
            Order,
            Seq<char>,
        >("PX requires a numeric millisecond argument"@),
        !spells(option, "EX"@) && !spells(option, "PX"@) ==> read_arguments(
            seq![name, key, value, option] + more,
        ) == Err::<Order, Seq<char>>("unsupported SET option"@),
{
    lemma_one_name(name);
    lemma_one_name(option);
    law_unsigned_numbers_are_read(line, n);
    if let Some(m) = u64_of(line) {
        law_unsigned_numbers_are_read(line, m);
    }
    let all = seq![name, key, value, option, line] + more;
    assert(all[0] == name && all[1] == key && all[2] == value && all[3] == option && all[4]
        == line);
    let bare = seq![name, key, value, option] + more;
    assert(bare[0] == name && bare[1] == key && bare[2] == value && bare[3] == option);
}

/// A `SET` with `n` seconds is a `SET` with a thousand times as many
/// milliseconds.
pub proof fn law_seconds_are_a_thousand_milliseconds(
    name: Seq<u8>,
    key: Seq<u8>,
    value: Seq<u8>,
    options: (Seq<u8>, Seq<u8>),
    lines: (Seq<u8>, Seq<u8>),
    n: u64,
)
    requires
        spells(name, "SET"@),
        spells(options.0, "EX"@),
        spells(options.1, "PX"@),
        n * 1000 <= u64::MAX,
        denotes_unsigned(lines.0, n as int),
        denotes_unsigned(lines.1, n * 1000),
    ensures
        read_arguments(seq![name, key, value, options.0, lines.0]) == read_arguments(
            seq![name, key, value, options.1, lines.1],
        ),
        read_arguments(seq![name, key, value, options.0, lines.0]) is Ok,
{
    let none = Seq::<Seq<u8>>::empty();
    law_set_is_read(name, key, value, options.0, lines.0, n, none);
    law_set_is_read(name, key, value, options.1, lines.1, (n * 1000) as u64, none);
    let (a, b) = (
        seq![name, key, value, options.0, lines.0],
        seq![name, key, value, options.1, lines.1],
    );
    assert(a + none =~= a);
    assert(b + none =~= b);
}

/// No arguments are no command, and a name that spells none of the eight is
/// reported in upper case.
pub proof fn law_other_arguments_are_refused(args: Seq<Seq<u8>>)
    requires
        args.len() > 0 ==> !spells(args[0], "PING"@) && !spells(args[0], "GET"@) && !spells(
            args[0],
            "DEL"@,
        ) && !spells(args[0], "EXISTS"@) && !spells(args[0], "TTL"@) && !spells(
            args[0],
            "FLUSHALL"@,
        ) && !spells(args[0], "EXPIRE"@) && !spells(args[0], "SET"@),
    ensures
        args.len() == 0 ==> read_arguments(args) == Err::<Order, Seq<char>>("empty command"@),
        args.len() > 0 ==> read_arguments(args) == Err::<Order, Seq<char>>(
            "unknown command '"@ + upper_text(args[0]) + "'"@,
        ),
        args.len() > 0 && valid_utf8(args[0]) ==> read_arguments(args) == Err::<Order, Seq<char>>(
            "unknown command '"@ + ascii_upper(decode_utf8(args[0])) + "'"@,
        ),
{
}

/// A command asks for what it was made of, and the result of reading one says
/// what was read.
pub proof fn law_a_command_asks_for_what_it_was_made_of(
    key: Vec<u8>,
    value: Vec<u8>,
    ttl: Duration,
    command: Command,
    msg: String,
    args: Seq<Vec<u8>>,
    i: int,
)
    ensures
        Command::Ping@ == Order::Ping,
        (Command::Put { key, value, ttl: None })@ == (Order::Put {
            key: key@,
            value: value@,
            ttl: None,
        }),
        (Command::Put { key, value, ttl: Some(ttl) })@ == (Order::Put {
            key: key@,
            value: value@,
            ttl: Some(ttl@),
        }),
        (Command::Get { key })@ == (Order::Get { key: key@ }),
        (Command::Del { key })@ == (Order::Del { key: key@ }),
        (Command::Exists { key })@ == (Order::Exists { key: key@ }),
        (Command::Expire { key, ttl })@ == (Order::Expire { key: key@, ttl: ttl@ }),
        (Command::Ttl { key })@ == (Order::Ttl { key: key@ }),
        Command::FlushAll@ == Order::FlushAll,
        CommandError(msg)@ == msg@,
        reading(Ok(command)) == Ok::<Order, Seq<char>>(command@),
        reading(Err(CommandError(msg))) == Err::<Order, Seq<char>>(msg@),
        bytes_of(args).len() == args.len(),
        0 <= i < args.len() ==> bytes_of(args)[i] == args[i]@,
{
}

/// The upper case of a text is that of its ASCII letters, and the text otherwise;
/// bytes that are no text are shown as those of their upper case are.
pub proof fn law_how_names_are_shown(name: Seq<u8>, text: Seq<char>, i: int)
    ensures
        valid_utf8(name) ==> upper_text(name) == ascii_upper(decode_utf8(name)),
        !valid_utf8(name) ==> upper_text(name) == utf8_lossy(
            Seq::new(name.len(), |k: int| raised(name[k]) as u8),
        ),
        ascii_upper(text).len() == text.len(),
        0 <= i < text.len() && 97 <= text[i] as u32 <= 122 ==> ascii_upper(text)[i] as u32
            == text[i] as u32 - 32,
        0 <= i < text.len() && !(97 <= text[i] as u32 <= 122) ==> ascii_upper(text)[i] == text[i],
{
    assert(upper_bytes(name) =~= Seq::new(name.len(), |k: int| raised(name[k]) as u8));
    if 0 <= i < text.len() {
        char_is_scalar(text[i]);
    }
}

} // verus!
