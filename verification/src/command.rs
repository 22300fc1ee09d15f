//! Parses a request [`Value`] — always an array of bulk strings, the same
//! shape Redis clients send — into a typed [`Command`], and encodes commands
//! back into that shape for the client side.
use crate::duration::{Duration, NANOS_PER_MILLI, NANOS_PER_SEC};
use crate::number::{decimal, push_decimal, read_u64, u64_of};
use crate::protocol::{frames_of, lemma_frames_of, Frame, Value};
use crate::text::{to_upper_text, upper, upper_byte, upper_text};
use vstd::prelude::*;
use vstd::slice::slice_to_vec;
use vstd::utf8::encode_utf8;

verus! {

/// A request that a store can execute.
#[derive(Debug, PartialEq, Eq)]
#[allow(inconsistent_fields)]
pub enum Command {
    Ping,
    Put { key: Vec<u8>, value: Vec<u8>, ttl: Option<Duration> },
    Get { key: Vec<u8> },
    Del { key: Vec<u8> },
    Exists { key: Vec<u8> },
    Expire { key: Vec<u8>, ttl: Duration },
    Ttl { key: Vec<u8> },
    FlushAll,
}

/// What a [`Command`] asks for, as a mathematical value; times to live are in
/// nanoseconds.
#[allow(inconsistent_fields)]
pub enum Order {
    Ping,
    Put { key: Seq<u8>, value: Seq<u8>, ttl: Option<nat> },
    Get { key: Seq<u8> },
    Del { key: Seq<u8> },
    Exists { key: Seq<u8> },
    Expire { key: Seq<u8>, ttl: nat },
    Ttl { key: Seq<u8> },
    FlushAll,
}

impl View for Command {
    type V = Order;

    open spec fn view(&self) -> Order {
        match self {
            Command::Ping => Order::Ping,
            Command::Put { key, value, ttl } => Order::Put {
                key: key@,
                value: value@,
                ttl: match ttl {
                    Some(ttl) => Some(ttl@),
                    None => None,
                },
            },
            Command::Get { key } => Order::Get { key: key@ },
            Command::Del { key } => Order::Del { key: key@ },
            Command::Exists { key } => Order::Exists { key: key@ },
            Command::Expire { key, ttl } => Order::Expire { key: key@, ttl: ttl@ },
            Command::Ttl { key } => Order::Ttl { key: key@ },
            Command::FlushAll => Order::FlushAll,
        }
    }
}

impl Clone for Command {
    fn clone(&self) -> (r: Command)
        ensures
            r@ == self@,
    {
        match self {
            Command::Ping => Command::Ping,
            Command::Put { key, value, ttl } => Command::Put {
                key: copy(key),
                value: copy(value),
                ttl: *ttl,
            },
            Command::Get { key } => Command::Get { key: copy(key) },
            Command::Del { key } => Command::Del { key: copy(key) },
            Command::Exists { key } => Command::Exists { key: copy(key) },
            Command::Expire { key, ttl } => Command::Expire { key: copy(key), ttl: *ttl },
            Command::Ttl { key } => Command::Ttl { key: copy(key) },
            Command::FlushAll => Command::FlushAll,
        }
    }
}

/// Why a request is not a command.
#[derive(Debug, PartialEq, Eq)]
pub struct CommandError(pub String);

impl View for CommandError {
    type V = Seq<char>;

    open spec fn view(&self) -> Seq<char> {
        self.0@
    }
}

impl Clone for CommandError {
    fn clone(&self) -> (r: CommandError)
        ensures
            r@ == self@,
    {
        CommandError(self.0.clone())
    }
}

impl CommandError {
    /// An error with the given message.
    fn new(msg: &str) -> (r: CommandError)
        ensures
            r@ == msg@,
    {
        CommandError(msg.to_string())
    }

    /// The message for a user.
    pub fn message(&self) -> (r: String)
        ensures
            r@ == self@,
    {
        self.0.clone()
    }
}

/// A copy of a byte string.
fn copy(bytes: &Vec<u8>) -> (r: Vec<u8>)
    ensures
        r@ == bytes@,
{
    slice_to_vec(bytes.as_slice())
}

/// A bulk string that holds a word.
pub open spec fn word(text: Seq<char>) -> Frame {
    Frame::Bulk(Some(encode_utf8(text)))
}

/// A bulk string that holds bytes.
pub open spec fn bulk(bytes: Seq<u8>) -> Frame {
    Frame::Bulk(Some(bytes))
}

/// Whether a time to live is given to `SET` in milliseconds: where they fit in
/// 64 bits.
pub open spec fn in_millis(ttl: nat) -> bool {
    ttl / NANOS_PER_MILLI as nat <= u64::MAX
}

/// Whether the time to live of an order, in whole seconds, fits in 64 bits.
pub open spec fn expressible(order: Order) -> bool {
    match order {
        Order::Put { ttl: Some(ttl), .. } => ttl / NANOS_PER_SEC as nat <= u64::MAX,
        Order::Expire { ttl, .. } => ttl / NANOS_PER_SEC as nat <= u64::MAX,
        _ => true,
    }
}

/// The elements of the request that asks for an order: a time to live is
/// given to `SET` in whole milliseconds, or in whole seconds where those do not
/// fit in 64 bits, and to `EXPIRE` in whole seconds.
pub open spec fn request_parts(order: Order) -> Seq<Frame> {
    match order {
        Order::Ping => seq![word("PING"@)],
        Order::Put { key, value, ttl: None } => seq![word("SET"@), bulk(key), bulk(value)],
        Order::Put { key, value, ttl: Some(ttl) } => if in_millis(ttl) {
            seq![
                word("SET"@),
                bulk(key),
                bulk(value),
                word("PX"@),
                bulk(decimal(ttl / NANOS_PER_MILLI as nat)),
            ]
        } else {
            seq![
                word("SET"@),
                bulk(key),
                bulk(value),
                word("EX"@),
                bulk(decimal(ttl / NANOS_PER_SEC as nat)),
            ]
        },
        Order::Get { key } => seq![word("GET"@), bulk(key)],
        Order::Del { key } => seq![word("DEL"@), bulk(key)],
        Order::Exists { key } => seq![word("EXISTS"@), bulk(key)],
        Order::Expire { key, ttl } => seq![
            word("EXPIRE"@),
            bulk(key),
            bulk(decimal(ttl / NANOS_PER_SEC as nat)),
        ],
        Order::Ttl { key } => seq![word("TTL"@), bulk(key)],
        Order::FlushAll => seq![word("FLUSHALL"@)],
    }
}

/// The request that asks for an order.
pub open spec fn request_of(order: Order) -> Frame {
    Frame::Array(Some(request_parts(order)))
}

/// A bulk string that holds a word.
fn word_value(text: &str) -> (r: Value)
    ensures
        r@ == word(text@),
{
    Value::bulk(slice_to_vec(text.as_bytes()))
}

/// A bulk string that holds a copy of bytes.
fn bulk_value(bytes: &Vec<u8>) -> (r: Value)
    ensures
        r@ == bulk(bytes@),
{
    Value::bulk(copy(bytes))
}

/// A bulk string that holds a number.
fn number_value(n: u128) -> (r: Value)
    ensures
        r@ == bulk(decimal(n as nat)),
{
    let mut digits: Vec<u8> = Vec::new();
    push_decimal(&mut digits, n);
    Value::bulk(digits)
}

/// Whether bytes spell a word in upper or lower case, where the word is in
/// upper case.
pub open spec fn spells(bytes: Seq<u8>, word: Seq<char>) -> bool {
    &&& bytes.len() == word.len()
    &&& forall|i: int| 0 <= i < bytes.len() ==> upper(#[trigger] bytes[i]) as u32 == word[i] as u32
}

/// Whether bytes spell a word in upper or lower case.
fn is_word(bytes: &[u8], word: &str) -> (r: bool)
    ensures
        r == spells(bytes@, word@),
{
    if bytes.len() != word.unicode_len() {
        return false;
    }
    let mut i: usize = 0;
    while i < bytes.len()
        invariant
            i <= bytes@.len(),
            bytes@.len() == word@.len(),
            forall|k: int| 0 <= k < i ==> upper(#[trigger] bytes@[k]) as u32 == word@[k] as u32,
        decreases bytes@.len() - i,
    {
        if upper_byte(bytes[i]) as u32 != word.get_char(i) as u32 {
            return false;
        }
        i = i + 1;
    }
    true
}

/// The message on a command that has no known name, given the name as it is
/// shown.
pub open spec fn unknown_name(name: Seq<char>) -> Seq<char> {
    "unknown command '"@ + name + "'"@
}

/// The error on a command that has no known name, given the name as it is shown.
pub fn unknown_command(name: &str) -> (r: CommandError)
    ensures
        r@ == unknown_name(name@),
{
    let mut msg = "unknown command '".to_string();
    msg.append(name);
    msg.append("'");
    CommandError(msg)
}

/// The arguments that the elements of a request hold, where each of them is a
/// bulk string.
pub open spec fn arguments_of(items: Seq<Frame>) -> Option<Seq<Seq<u8>>> {
    if forall|i: int| 0 <= i < items.len() ==> #[trigger] items[i] matches Frame::Bulk(Some(_)) {
        Some(Seq::new(items.len(), |i: int| items[i]->Bulk_0->Some_0))
    } else {
        None
    }
}

/// The argument at a position.
pub open spec fn argument(args: Seq<Seq<u8>>, i: int, complaint: Seq<char>) -> Result<
    Seq<u8>,
    Seq<char>,
> {
    if i < args.len() {
        Ok(args[i])
    } else {
        Err(complaint)
    }
}

/// The number in the argument at a position.
pub open spec fn number(args: Seq<Seq<u8>>, i: int, complaint: Seq<char>) -> Result<
    u64,
    Seq<char>,
> {
    if i < args.len() {
        match u64_of(args[i]) {
            Some(n) => Ok(n),
            None => Err(complaint),
        }
    } else {
        Err(complaint)
    }
}

/// The time to live that the arguments of a `SET` give.
pub open spec fn put_ttl(args: Seq<Seq<u8>>) -> Result<Option<nat>, Seq<char>> {
    if args.len() <= 3 {
        Ok(None)
    } else if spells(args[3], "PX"@) {
        match number(args, 4, "PX requires a numeric millisecond argument"@) {
            Ok(millis) => Ok(Some((millis * NANOS_PER_MILLI) as nat)),
            Err(complaint) => Err(complaint),
        }
    } else if spells(args[3], "EX"@) {
        match number(args, 4, "EX requires a numeric seconds argument"@) {
            Ok(secs) => Ok(Some((secs * NANOS_PER_SEC) as nat)),
            Err(complaint) => Err(complaint),
        }
    } else {
        Err("unsupported SET option"@)
    }
}

/// The order that the arguments of a `SET` give.
pub open spec fn read_put(args: Seq<Seq<u8>>) -> Result<Order, Seq<char>> {
    match argument(args, 1, "SET requires a key"@) {
        Err(complaint) => Err(complaint),
        Ok(key) => match argument(args, 2, "SET requires a value"@) {
            Err(complaint) => Err(complaint),
            Ok(value) => match put_ttl(args) {
                Err(complaint) => Err(complaint),
                Ok(ttl) => Ok(Order::Put { key, value, ttl }),
            },
        },
    }
}

/// The order that the arguments of an `EXPIRE` give.
pub open spec fn read_expire(args: Seq<Seq<u8>>) -> Result<Order, Seq<char>> {
    match argument(args, 1, "EXPIRE requires a key"@) {
        Err(complaint) => Err(complaint),
        Ok(key) => match number(args, 2, "EXPIRE requires a numeric seconds argument"@) {
            Err(complaint) => Err(complaint),
            Ok(secs) => Ok(Order::Expire { key, ttl: (secs * NANOS_PER_SEC) as nat }),
        },
    }
}

/// The order that arguments give, of which the first names the command.
pub open spec fn read_arguments(args: Seq<Seq<u8>>) -> Result<Order, Seq<char>> {
    if args.len() == 0 {
        Err("empty command"@)
    } else if spells(args[0], "PING"@) {
        Ok(Order::Ping)
    } else if spells(args[0], "GET"@) {
        match argument(args, 1, "GET requires a key"@) {
            Ok(key) => Ok(Order::Get { key }),
            Err(complaint) => Err(complaint),
        }
    } else if spells(args[0], "DEL"@) {
        match argument(args, 1, "DEL requires a key"@) {
            Ok(key) => Ok(Order::Del { key }),
            Err(complaint) => Err(complaint),
        }
    } else if spells(args[0], "EXISTS"@) {
        match argument(args, 1, "EXISTS requires a key"@) {
            Ok(key) => Ok(Order::Exists { key }),
            Err(complaint) => Err(complaint),
        }
    } else if spells(args[0], "TTL"@) {
        match argument(args, 1, "TTL requires a key"@) {
            Ok(key) => Ok(Order::Ttl { key }),
            Err(complaint) => Err(complaint),
        }
    } else if spells(args[0], "FLUSHALL"@) {
        Ok(Order::FlushAll)
    } else if spells(args[0], "EXPIRE"@) {
        read_expire(args)
    } else if spells(args[0], "SET"@) {
        read_put(args)
    } else {
        Err(unknown_name(upper_text(args[0])))
    }
}

/// The order that a request asks for.
pub open spec fn read_request(frame: Frame) -> Result<Order, Seq<char>> {
    match frame {
        Frame::Array(Some(items)) => match arguments_of(items) {
            Some(args) => read_arguments(args),
            None => Err("expected bulk string array elements"@),
        },
        _ => Err("expected an array request"@),
    }
}

/// What the parse of a command came to.
pub open spec fn reading(r: Result<Command, CommandError>) -> Result<Order, Seq<char>> {
    match r {
        Ok(command) => Ok(command@),
        Err(error) => Err(error@),
    }
}

/// What each of several byte strings holds.
pub open spec fn bytes_of(args: Seq<Vec<u8>>) -> Seq<Seq<u8>> {
    Seq::new(args.len(), |i: int| args[i]@)
}

/// The argument at a position.
fn arg(args: &Vec<Vec<u8>>, index: usize, msg: &str) -> (r: Result<Vec<u8>, CommandError>)
    ensures
        (match r {
            Ok(bytes) => Ok(bytes@),
            Err(error) => Err(error@),
        }) == argument(bytes_of(args@), index as int, msg@),
{
    if index < args.len() {
        Ok(copy(&args[index]))
    } else {
        Err(CommandError::new(msg))
    }
}

/// The number in the argument at a position.
fn parse_u64(args: &Vec<Vec<u8>>, index: usize, msg: &str) -> (r: Result<u64, CommandError>)
    ensures
        (match r {
            Ok(n) => Ok(n),
            Err(error) => Err(error@),
        }) == number(bytes_of(args@), index as int, msg@),
{
    if index < args.len() {
        match read_u64(args[index].as_slice()) {
            Some(n) => Ok(n),
            None => Err(CommandError::new(msg)),
        }
    } else {
        Err(CommandError::new(msg))
    }
}

/// The time to live that the arguments of a `SET` give.
fn parse_put_ttl(args: &Vec<Vec<u8>>) -> (r: Result<Option<Duration>, CommandError>)
    ensures
        (match r {
            Ok(Some(ttl)) => Ok(Some(ttl@)),
            Ok(None) => Ok(None),
            Err(error) => Err(error@),
        }) == put_ttl(bytes_of(args@)),
{
    if args.len() <= 3 {
        Ok(None)
    } else if is_word(args[3].as_slice(), "PX") {
        match parse_u64(args, 4, "PX requires a numeric millisecond argument") {
            Ok(millis) => Ok(Some(Duration::from_millis(millis))),
            Err(error) => Err(error),
        }
    } else if is_word(args[3].as_slice(), "EX") {
        match parse_u64(args, 4, "EX requires a numeric seconds argument") {
            Ok(secs) => Ok(Some(Duration::from_secs(secs))),
            Err(error) => Err(error),
        }
    } else {
        Err(CommandError::new("unsupported SET option"))
    }
}

/// The command that the arguments of a `SET` give.
fn parse_put(args: &Vec<Vec<u8>>) -> (r: Result<Command, CommandError>)
    ensures
        reading(r) == read_put(bytes_of(args@)),
{
    match arg(args, 1, "SET requires a key") {
        Err(error) => Err(error),
        Ok(key) => match arg(args, 2, "SET requires a value") {
            Err(error) => Err(error),
            Ok(value) => match parse_put_ttl(args) {
                Err(error) => Err(error),
                Ok(ttl) => Ok(Command::Put { key, value, ttl }),
            },
        },
    }
}

/// The command that the arguments of an `EXPIRE` give.
fn parse_expire(args: &Vec<Vec<u8>>) -> (r: Result<Command, CommandError>)
    ensures
        reading(r) == read_expire(bytes_of(args@)),
{
    match arg(args, 1, "EXPIRE requires a key") {
        Err(error) => Err(error),
        Ok(key) => match parse_u64(args, 2, "EXPIRE requires a numeric seconds argument") {
            Err(error) => Err(error),
            Ok(secs) => Ok(Command::Expire { key, ttl: Duration::from_secs(secs) }),
        },
    }
}

/// The command that arguments give, of which the first names it.
pub fn parse_arguments(args: &Vec<Vec<u8>>) -> (r: Result<Command, CommandError>)
    ensures
        reading(r) == read_arguments(bytes_of(args@)),
{
    if args.len() == 0 {
        return Err(CommandError::new("empty command"));
    }
    let name = args[0].as_slice();
    if is_word(name, "PING") {
        Ok(Command::Ping)
    } else if is_word(name, "GET") {
        match arg(args, 1, "GET requires a key") {
            Ok(key) => Ok(Command::Get { key }),
            Err(error) => Err(error),
        }
    } else if is_word(name, "DEL") {
        match arg(args, 1, "DEL requires a key") {
            Ok(key) => Ok(Command::Del { key }),
            Err(error) => Err(error),
        }
    } else if is_word(name, "EXISTS") {
        match arg(args, 1, "EXISTS requires a key") {
            Ok(key) => Ok(Command::Exists { key }),
            Err(error) => Err(error),
        }
    } else if is_word(name, "TTL") {
        match arg(args, 1, "TTL requires a key") {
            Ok(key) => Ok(Command::Ttl { key }),
            Err(error) => Err(error),
        }
    } else if is_word(name, "FLUSHALL") {
        Ok(Command::FlushAll)
    } else if is_word(name, "EXPIRE") {
        parse_expire(args)
    } else if is_word(name, "SET") {
        parse_put(args)
    } else {
        Err(unknown_command(to_upper_text(name).as_str()))
    }
}

impl Command {
    /// Encodes this command as the bulk-string array a server expects to
    /// receive on the wire.
    pub fn to_request(&self) -> (r: Value)
        ensures
            r@ == request_of(self@),
            expressible(self@),
    {
        let parts: Vec<Value> = match self {
            Command::Ping => vec![word_value("PING")],
            Command::Put { key, value, ttl } => {
                let mut parts: Vec<Value> = vec![
                    word_value("SET"),
                    bulk_value(key),
                    bulk_value(value),
                ];
                if let Some(ttl) = ttl {
                    let millis: u128 = ttl.as_millis();
                    let secs: u64 = ttl.as_secs();
                    if millis <= u64::MAX as u128 {
                        parts.push(word_value("PX"));
                        parts.push(number_value(millis));
                    } else {
                        parts.push(word_value("EX"));
                        parts.push(number_value(secs as u128));
                    }
                }
                parts
            },
            Command::Get { key } => vec![word_value("GET"), bulk_value(key)],
            Command::Del { key } => vec![word_value("DEL"), bulk_value(key)],
            Command::Exists { key } => vec![word_value("EXISTS"), bulk_value(key)],
            Command::Expire { key, ttl } => vec![
                word_value("EXPIRE"),
                bulk_value(key),
                number_value(ttl.as_secs() as u128),
            ],
            Command::Ttl { key } => vec![word_value("TTL"), bulk_value(key)],
            Command::FlushAll => vec![word_value("FLUSHALL")],
        };
        proof {
            lemma_frames_of(parts@);
        }
        assert(frames_of(parts@) =~= request_parts(self@));
        Value::array(parts)
    }

    /// Parses a request `Value` (expected: a non-empty array of bulk strings)
    /// into a `Command`.
    pub fn from_request(value: &Value) -> (r: Result<Command, CommandError>)
        ensures
            reading(r) == read_request(value@),
    {
        let items = match value {
            Value::Array(Some(items)) => items,
            _ => {
                return Err(CommandError::new("expected an array request"));
            },
        };
        proof {
            lemma_frames_of(items@);
        }
        let ghost frames = frames_of(items@);
        let mut args: Vec<Vec<u8>> = Vec::new();
        let mut i: usize = 0;
        while i < items.len()
            invariant
                i <= items@.len(),
                args@.len() == i,
                value@ == Frame::Array(Some(frames)),
                frames == Seq::new(items@.len(), |k: int| items@[k]@),
                forall|k: int|
                    0 <= k < i ==> #[trigger] frames[k] == Frame::Bulk(Some(args@[k]@)),
            decreases items@.len() - i,
        {
            match &items[i] {
                Value::Bulk(Some(bytes)) => {
                    args.push(copy(bytes));
                },
                _ => {
                    assert(!(frames[i as int] matches Frame::Bulk(Some(_))));
                    return Err(CommandError::new("expected bulk string array elements"));
                },
            }
            i = i + 1;
        }
        assert(arguments_of(frames) == Some(bytes_of(args@)));
        parse_arguments(&args)
    }
}

} // verus!
