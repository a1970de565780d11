//! The decisions of the Redis bridge between bus instances: channel names,
//! the message envelope and its echo check, the source ids of bus instances,
//! the errors, and the reconnect backoff of a forwarder.
//!
//! Durations are nanoseconds.
use vstd::prelude::*;
use crate::bus::two_pow;
use crate::error::prefixed;
use crate::text::{chars_to_string, str_equal};

verus! {

/// What can go wrong in the Redis transport.
#[derive(Debug)]
pub enum RedisTransportError {
    ConnectionError(String),
    PublishError(String),
    SubscribeError(String),
    SerializationError(String),
}

/// The text of an error.
pub open spec fn redis_error_message(e: RedisTransportError) -> Seq<char> {
    match e {
        RedisTransportError::ConnectionError(m) => "Redis connection error: "@ + m@,
        RedisTransportError::PublishError(m) => "Redis publish error: "@ + m@,
        RedisTransportError::SubscribeError(m) => "Redis subscribe error: "@ + m@,
        RedisTransportError::SerializationError(m) => "Serialization error: "@ + m@,
    }
}

impl RedisTransportError {
    /// The text of the error.
    pub fn message(&self) -> (r: String)
        ensures
            r@ == redis_error_message(*self),
    {
        match self {
            RedisTransportError::ConnectionError(m) => prefixed("Redis connection error: ", m.as_str()),
            RedisTransportError::PublishError(m) => prefixed("Redis publish error: ", m.as_str()),
            RedisTransportError::SubscribeError(m) => prefixed("Redis subscribe error: ", m.as_str()),
            RedisTransportError::SerializationError(m) => prefixed("Serialization error: ", m.as_str()),
        }
    }
}

/// The prefix of channel names unless one is given.
pub fn default_channel_prefix() -> (r: &'static str)
    ensures
        r@ == "anycms:event:"@,
{
    "anycms:event:"
}

/// The channel of an event: the prefix, then the event name.
pub fn channel_name(prefix: &str, event_name: &str) -> (r: String)
    ensures
        r@ == prefix@ + event_name@,
{
    prefixed(prefix, event_name)
}

/// The envelope of an event on Redis: the bus instance that sent it, and the
/// event as JSON.
#[derive(Clone, Debug)]
pub struct RedisMessage {
    pub source_id: String,
    pub payload: String,
}

/// Whether a message came from this bus instance itself, to be skipped.
pub fn is_echo(msg: &RedisMessage, source_id: &str) -> (r: bool)
    ensures
        r == (msg.source_id@ == source_id@),
{
    str_equal(msg.source_id.as_str(), source_id)
}

/// The character of a decimal digit.
pub open spec fn digit_char(d: nat) -> char {
    if d == 0 {
        '0'
    } else if d == 1 {
        '1'
    } else if d == 2 {
        '2'
    } else if d == 3 {
        '3'
    } else if d == 4 {
        '4'
    } else if d == 5 {
        '5'
    } else if d == 6 {
        '6'
    } else if d == 7 {
        '7'
    } else if d == 8 {
        '8'
    } else {
        '9'
    }
}

/// The decimal digits of a number, without leading zeros.
pub open spec fn decimal(n: nat) -> Seq<char>
    decreases n,
{
    if n < 10 {
        seq![digit_char(n)]
    } else {
        decimal(n / 10).push(digit_char(n % 10))
    }
}

fn digit(d: u64) -> (c: char)
    requires
        d < 10,
    ensures
        c == digit_char(d as nat),
{
    if d == 0 {
        '0'
    } else if d == 1 {
        '1'
    } else if d == 2 {
        '2'
    } else if d == 3 {
        '3'
    } else if d == 4 {
        '4'
    } else if d == 5 {
        '5'
    } else if d == 6 {
        '6'
    } else if d == 7 {
        '7'
    } else if d == 8 {
        '8'
    } else {
        '9'
    }
}

fn push_decimal(out: &mut Vec<char>, n: u64)
    ensures
        final(out)@ == old(out)@ + decimal(n as nat),
    decreases n,
{
    if n >= 10 {
        push_decimal(out, n / 10);
    }
    let ghost mid = out@;
    out.push(digit(n % 10));
    proof {
        if n >= 10 {
            assert(out@ =~= old(out)@ + decimal(n as nat));
        } else {
            assert(out@ =~= old(out)@ + decimal(n as nat));
        }
    }
}

/// The source id of a bus instance: its process id, a colon, and a counter.
pub fn source_id_text(process_id: u32, counter: u64) -> (r: String)
    ensures
        r@ == decimal(process_id as nat) + seq![':'] + decimal(counter as nat),
{
    let mut v: Vec<char> = Vec::new();
    push_decimal(&mut v, process_id as u64);
    v.push(':');
    push_decimal(&mut v, counter);
    assert(v@ =~= decimal(process_id as nat) + seq![':'] + decimal(counter as nat));
    chars_to_string(&v)
}

/// The wait before reconnecting after `attempt` failures in a row: 100 ms
/// doubling, the exponent stopping at 8, at most 30 s.
pub open spec fn reconnect_delay_spec(attempt: u32) -> u128 {
    let k: nat = if attempt < 8 { attempt as nat } else { 8 };
    let d = 100_000_000 * two_pow(k);
    if d < 30_000_000_000 { d as u128 } else { 30_000_000_000 }
}

/// The wait before reconnecting after `attempt` failures in a row.
pub fn reconnect_delay(attempt: u32) -> (r: u128)
    ensures
        r == reconnect_delay_spec(attempt),
{
    let k: u32 = if attempt < 8 { attempt } else { 8 };
    let mut d: u128 = 100_000_000;
    let mut i: u32 = 0;
    while i < k
        invariant
            i <= k <= 8,
            d == 100_000_000 * two_pow(i as nat),
            d <= 100_000_000 * 256,
        decreases k - i,
    {
        proof {
            crate::bus::lemma_two_pow_small(i as nat);
        }
        d = d * 2;
        i = i + 1;
    }
    if d < 30_000_000_000 { d } else { 30_000_000_000 }
}

/// The failure count after a forwarder run: a clean exit resets it, an error
/// adds one.
pub fn next_reconnect_attempt(attempt: u32, clean_exit: bool) -> (r: u32)
    requires
        clean_exit || attempt < u32::MAX,
    ensures
        r == if clean_exit { 0 } else { attempt + 1 },
{
    if clean_exit { 0 } else { attempt + 1 }
}

} // verus!
