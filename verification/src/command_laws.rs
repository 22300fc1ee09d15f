//! What holds of commands as a whole: a request stands for one command, and
//! the command can be had back from it.
use crate::command::{
    arguments_of, bulk, expressible, in_millis, read_arguments, read_request, request_of, spells,
    Order,
};
use crate::duration::{NANOS_PER_MILLI, NANOS_PER_SEC};
use crate::number::law_u64_round_trip;
use crate::protocol::Frame;
use crate::text::{lemma_upper_bytes, upper, upper_bytes};
use vstd::prelude::*;
use vstd::utf8::{char_u32_cast, encode_utf8, is_ascii_chars_encode_utf8};

verus! {

/// An order as a request can give it: with what is left of the time to live in
/// the unit of the request, the rest cut off.
pub open spec fn rounded(order: Order) -> Order {
    match order {
        Order::Put { key, value, ttl: Some(ttl) } => Order::Put {
            key,
            value,
            ttl: Some(
                if in_millis(ttl) {
                    ttl / NANOS_PER_MILLI as nat * NANOS_PER_MILLI as nat
                } else {
                    ttl / NANOS_PER_SEC as nat * NANOS_PER_SEC as nat
                },
            ),
        },
        Order::Expire { key, ttl } => Order::Expire {
            key,
            ttl: ttl / NANOS_PER_SEC as nat * NANOS_PER_SEC as nat,
        },
        _ => order,
    }
}

/// Whether the time to live of an order is whole in the unit of its request.
pub open spec fn whole(order: Order) -> bool {
    match order {
        Order::Put { ttl: Some(ttl), .. } => if in_millis(ttl) {
            ttl % NANOS_PER_MILLI as nat == 0
        } else {
            ttl % NANOS_PER_SEC as nat == 0
        },
        Order::Expire { ttl, .. } => ttl % NANOS_PER_SEC as nat == 0,
        _ => true,
    }
}

/// A word in upper case spells itself, and no other word.
proof fn lemma_word_spells_itself(text: Seq<char>, other: Seq<char>)
    requires
        forall|i: int| 0 <= i < text.len() ==> 'A' <= #[trigger] text[i] <= 'Z',
    ensures
        spells(encode_utf8(text), other) <==> text == other,
{
    let bytes = encode_utf8(text);
    is_ascii_chars_encode_utf8(text);
    if spells(bytes, other) {
        assert forall|i: int| 0 <= i < text.len() implies text[i] == other[i] by {
            char_u32_cast(text[i], text[i] as u32);
            char_u32_cast(other[i], other[i] as u32);
        }
        assert(text =~= other);
    }
}

/// What tells the names of commands apart.
proof fn lemma_names_differ()
    ensures
        "PING"@.len() == 4,
        "GET"@.len() == 3 && "GET"@[0] == 'G',
        "DEL"@.len() == 3 && "DEL"@[0] == 'D',
        "EXISTS"@.len() == 6 && "EXISTS"@[2] == 'I',
        "TTL"@.len() == 3 && "TTL"@[0] == 'T',
        "FLUSHALL"@.len() == 8,
        "EXPIRE"@.len() == 6 && "EXPIRE"@[2] == 'P',
        "SET"@.len() == 3 && "SET"@[0] == 'S',
{
    reveal_strlit("PING");
    reveal_strlit("GET");
    reveal_strlit("DEL");
    reveal_strlit("EXISTS");
    reveal_strlit("TTL");
    reveal_strlit("FLUSHALL");
    reveal_strlit("EXPIRE");
    reveal_strlit("SET");
}

/// The name of a command in a request spells that name and no other.
proof fn lemma_name_spells_itself(name: Seq<char>)
    requires
        name == "PING"@ || name == "GET"@ || name == "DEL"@ || name == "EXISTS"@
            || name == "TTL"@ || name == "FLUSHALL"@ || name == "EXPIRE"@ || name == "SET"@,
    ensures
        spells(encode_utf8(name), "PING"@) <==> name == "PING"@,
        spells(encode_utf8(name), "GET"@) <==> name == "GET"@,
        spells(encode_utf8(name), "DEL"@) <==> name == "DEL"@,
        spells(encode_utf8(name), "EXISTS"@) <==> name == "EXISTS"@,
        spells(encode_utf8(name), "TTL"@) <==> name == "TTL"@,
        spells(encode_utf8(name), "FLUSHALL"@) <==> name == "FLUSHALL"@,
        spells(encode_utf8(name), "EXPIRE"@) <==> name == "EXPIRE"@,
        spells(encode_utf8(name), "SET"@) <==> name == "SET"@,
{
    reveal_strlit("PING");
    reveal_strlit("GET");
    reveal_strlit("DEL");
    reveal_strlit("EXISTS");
    reveal_strlit("TTL");
    reveal_strlit("FLUSHALL");
    reveal_strlit("EXPIRE");
    reveal_strlit("SET");
    assert forall|other: Seq<char>| #[trigger]
        spells(encode_utf8(name), other) <==> name == other by {
        lemma_word_spells_itself(name, other);
    }
}

/// The request of a command is read as that command, up to the part of a time
/// to live that a request cannot give; as that very command where there is no
/// such part.
#[verifier::rlimit(60)]
#[verifier::spinoff_prover]
pub proof fn law_request_is_read_back(order: Order)
    requires
        expressible(order),
    ensures
        read_request(request_of(order)) == Ok::<Order, Seq<char>>(rounded(order)),
        whole(order) ==> read_request(request_of(order)) == Ok::<Order, Seq<char>>(order),
{
    lemma_names_differ();
    match order {
        Order::Ping => {
            lemma_name_spells_itself("PING"@);
        },
        Order::Put { key, value, ttl } => {
            lemma_name_spells_itself("SET"@);
            if let Some(ttl) = ttl {
                reveal_strlit("PX");
                reveal_strlit("EX");
                if in_millis(ttl) {
                    law_u64_round_trip(ttl / NANOS_PER_MILLI as nat);
                    lemma_word_spells_itself("PX"@, "PX"@);
                } else {
                    law_u64_round_trip(ttl / NANOS_PER_SEC as nat);
                    lemma_word_spells_itself("EX"@, "EX"@);
                    lemma_word_spells_itself("EX"@, "PX"@);
                    assert("EX"@[0] != "PX"@[0]);
                }
            }
        },
        Order::Get { key } => {
            lemma_name_spells_itself("GET"@);
        },
        Order::Del { key } => {
            lemma_name_spells_itself("DEL"@);
        },
        Order::Exists { key } => {
            lemma_name_spells_itself("EXISTS"@);
        },
        Order::Expire { key, ttl } => {
            lemma_name_spells_itself("EXPIRE"@);
            law_u64_round_trip(ttl / NANOS_PER_SEC as nat);
        },
        Order::Ttl { key } => {
            lemma_name_spells_itself("TTL"@);
        },
        Order::FlushAll => {
            lemma_name_spells_itself("FLUSHALL"@);
        },
    }
}

/// The time to live of a command that was read from arguments can be given in a
/// request, with nothing cut off.
pub proof fn law_what_was_read_is_expressible(args: Seq<Seq<u8>>)
    requires
        read_arguments(args) is Ok,
    ensures
        expressible(read_arguments(args)->Ok_0),
        whole(read_arguments(args)->Ok_0),
        rounded(read_arguments(args)->Ok_0) == read_arguments(args)->Ok_0,
{
}

/// A command that was read from arguments is read back from its own request,
/// so that a client and a server, or a server and its log, agree on what the
/// arguments mean.
pub proof fn law_what_was_read_is_read_again(args: Seq<Seq<u8>>)
    requires
        read_arguments(args) is Ok,
    ensures
        read_request(request_of(read_arguments(args)->Ok_0)) == read_arguments(args),
{
    law_what_was_read_is_expressible(args);
    law_request_is_read_back(read_arguments(args)->Ok_0);
}

/// Whether two byte strings are the same but for the case of ASCII letters.
pub open spec fn same_word(a: Seq<u8>, b: Seq<u8>) -> bool {
    a.len() == b.len() && forall|i: int| 0 <= i < a.len() ==> upper(#[trigger] a[i]) == upper(b[i])
}

proof fn lemma_same_word_spells_the_same(a: Seq<u8>, b: Seq<u8>, text: Seq<char>)
    requires
        same_word(a, b),
    ensures
        spells(a, text) == spells(b, text),
{
    if spells(a, text) {
        assert forall|i: int| 0 <= i < b.len() implies upper(#[trigger] b[i]) as u32
            == text[i] as u32 by {
            assert(upper(a[i]) == upper(b[i]));
        }
    }
}

/// A request of the given arguments.
pub open spec fn request_with(args: Seq<Seq<u8>>) -> Frame {
    Frame::Array(Some(args.map_values(|arg: Seq<u8>| bulk(arg))))
}

/// The case of the letters in a command's name, and in the name of an option
/// of `SET`, does not matter: the same command is read, or the same error
/// reported.
pub proof fn law_letter_case_does_not_matter(args: Seq<Seq<u8>>, other: Seq<Seq<u8>>)
    requires
        args.len() == other.len(),
        forall|i: int|
            0 <= i < args.len() ==> #[trigger] args[i] == other[i] || (i == 0 || (i == 3 && spells(
                args[0],
                "SET"@,
            ))) && same_word(args[i], other[i]),
    ensures
        read_arguments(other) == read_arguments(args),
        read_request(request_with(other)) == read_request(request_with(args)),
{
    if args.len() > 0 {
        assert forall|text: Seq<char>|
            spells(args[0], text) == #[trigger] spells(other[0], text) by {
            lemma_same_word_spells_the_same(args[0], other[0], text);
        }
        if spells(args[0], "SET"@) {
            if args.len() > 3 {
                lemma_same_word_spells_the_same(args[3], other[3], "PX"@);
                lemma_same_word_spells_the_same(args[3], other[3], "EX"@);
            }
        }
        lemma_upper_bytes(args[0]);
        lemma_upper_bytes(other[0]);
        assert(upper_bytes(args[0]) =~= upper_bytes(other[0]));
    }
    assert(arguments_of(args.map_values(|arg: Seq<u8>| bulk(arg)))->Some_0 =~= args);
    assert(arguments_of(other.map_values(|arg: Seq<u8>| bulk(arg)))->Some_0 =~= other);
}

} // verus!
