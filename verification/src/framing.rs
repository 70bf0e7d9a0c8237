//! Authenticated line frames.
//!
//! A command, host to sensor board: `C <counter> <cmd_line> M <mac_hex>`.
//! A response, sensor board to host: `R <counter> <seq> <body_line> M <mac_hex>`.
//!
//! The MAC of a command covers `CMD <counter> <cmd_line>`, that of a response
//! `RSP <counter> <seq> <body_line>`: no text is both, so a frame of one
//! direction cannot be played back in the other.

use vstd::prelude::*;
use vstd::string::*;
use vstd::utf8::*;
use crate::bytes::read_u64_le;
use crate::crypto::{mac_to_hex, siphash24};
use crate::text::{nybble, parse_number, push_decimal, str_range};

verus! {

/// The counters that neither side uses start here: a host whose counter has
/// come this far sends nothing more.
pub const COUNTER_CEILING: u64 = 0xffff_ffff_ffff_fffe;

/// Hexadecimal digits of a MAC.
pub const MAC_HEX_LEN: usize = 16;

/// Bytes of ` M ` and the MAC behind it.
pub const MAC_SUFFIX_LEN: usize = 19;

/// Why a line is no frame, or not one from the peer.
#[derive(Clone, Copy, Debug, PartialEq, Eq, Structural)]
pub enum FramingError {
    /// Too few bytes, or no space where one was due.
    TooShort(usize),
    /// The line does not start with the leader and a space.
    WrongLeader { expected: char },
    /// No ` M ` before the last sixteen bytes.
    MissingMacSuffix,
    /// The last sixteen bytes are not all hexadecimal digits.
    InvalidMac,
    /// The counter is no number of 64 bits.
    InvalidCounter,
    /// The sequence number is no number of 32 bits.
    InvalidSeq,
    /// The MAC is not the one that the key gives.
    MacMismatch,
}

/// The error in words.
pub open spec fn framing_error_text(e: FramingError) -> Seq<char> {
    match e {
        FramingError::TooShort(n) => "frame too short ("@ + crate::text::decimal(n as nat)
            + " bytes)"@,
        FramingError::WrongLeader { expected } => "missing leading `"@ + seq![expected] + " `"@,
        FramingError::MissingMacSuffix => "missing ` M <mac>` suffix"@,
        FramingError::InvalidMac => "invalid mac hex"@,
        FramingError::InvalidCounter => "invalid counter"@,
        FramingError::InvalidSeq => "invalid seq"@,
        FramingError::MacMismatch => "mac mismatch"@,
    }
}

impl FramingError {
    /// The error in words.
    pub fn message(&self) -> (s: String)
        ensures
            s@ == framing_error_text(*self),
    {
        match *self {
            FramingError::TooShort(n) => {
                let mut s = "frame too short (".to_owned();
                push_decimal(&mut s, n as u64);
                s.append(" bytes)");
                s
            },
            FramingError::WrongLeader { expected } => {
                let mut s = "missing leading `".to_owned();
                s.push(expected);
                s.append(" `");
                assert(s@ =~= "missing leading `"@ + seq![expected] + " `"@);
                s
            },
            FramingError::MissingMacSuffix => "missing ` M <mac>` suffix".to_owned(),
            FramingError::InvalidMac => "invalid mac hex".to_owned(),
            FramingError::InvalidCounter => "invalid counter".to_owned(),
            FramingError::InvalidSeq => "invalid seq".to_owned(),
            FramingError::MacMismatch => "mac mismatch".to_owned(),
        }
    }
}

// ---------- what the frames are ----------

/// What the MAC of a command covers.
pub open spec fn command_mac_input(counter: u64, cmd: Seq<char>) -> Seq<char> {
    "CMD "@ + crate::text::decimal(counter as nat) + " "@ + cmd
}

/// What the MAC of a response covers.
pub open spec fn response_mac_input(counter: u64, seq: u32, body: Seq<char>) -> Seq<char> {
    "RSP "@ + crate::text::decimal(counter as nat) + " "@ + crate::text::decimal(seq as nat) + " "@
        + body
}

/// The MAC that `key` gives to a command.
pub open spec fn command_mac(key: Seq<u8>, counter: u64, cmd: Seq<char>) -> u64 {
    crate::crypto::siphash24_spec(key, encode_utf8(command_mac_input(counter, cmd)))
}

/// The MAC that `key` gives to a response.
pub open spec fn response_mac(key: Seq<u8>, counter: u64, seq: u32, body: Seq<char>) -> u64 {
    crate::crypto::siphash24_spec(key, encode_utf8(response_mac_input(counter, seq, body)))
}

/// A whole command frame.
pub open spec fn command_frame(key: Seq<u8>, counter: u64, cmd: Seq<char>) -> Seq<char> {
    "C "@ + crate::text::decimal(counter as nat) + " "@ + cmd + " M "@ + crate::crypto::mac_text(
        command_mac(key, counter, cmd),
    )
}

/// A whole response frame.
pub open spec fn response_frame(key: Seq<u8>, counter: u64, seq: u32, body: Seq<char>) -> Seq<
    char,
> {
    "R "@ + crate::text::decimal(counter as nat) + " "@ + crate::text::decimal(seq as nat) + " "@
        + body + " M "@ + crate::crypto::mac_text(response_mac(key, counter, seq, body))
}

// ---------- how lines are read, byte by byte ----------

/// The place of the first `c`, or the length where there is none.
pub open spec fn find_byte(b: Seq<u8>, c: u8) -> nat
    decreases b.len(),
{
    if b.len() == 0 {
        0
    } else if b[0] == c {
        0
    } else {
        1 + find_byte(b.drop_first(), c)
    }
}

/// The MAC that sixteen hexadecimal digits write, in either case, as it travels.
pub open spec fn mac_of_hex(h: Seq<u8>) -> Option<u64> {
    if h.len() == MAC_HEX_LEN && crate::text::all_hex(h) {
        Some(crate::bytes::le_value(crate::text::hex_bytes(h)) as u64)
    } else {
        None
    }
}

/// Takes the MAC off the end.
pub open spec fn split_mac(s: Seq<u8>) -> Result<(Seq<u8>, u64), FramingError> {
    let n = s.len();
    if n < MAC_SUFFIX_LEN {
        Err(FramingError::TooShort(n as usize))
    } else if s.subrange(n - 19, n - 16) != seq![32u8, 77u8, 32u8] {
        Err(FramingError::MissingMacSuffix)
    } else {
        match mac_of_hex(s.subrange(n - 16, n as int)) {
            None => Err(FramingError::InvalidMac),
            Some(mac) => Ok((s.subrange(0, n - 19), mac)),
        }
    }
}

/// Takes a number and the space behind it off the front; `bad` says that what
/// stands before the space is no number up to `max`.
pub open spec fn split_number(s: Seq<u8>, max: nat, bad: FramingError) -> Result<
    (nat, Seq<u8>),
    FramingError,
> {
    let sp = find_byte(s, 32);
    if sp == s.len() {
        Err(FramingError::TooShort(s.len() as usize))
    } else {
        match crate::text::number_value(s.subrange(0, sp as int), max) {
            None => Err(bad),
            Some(n) => Ok((n, s.subrange(sp as int + 1, s.len() as int))),
        }
    }
}

/// What follows the leader letter and a space.
pub open spec fn split_leader(line: Seq<u8>, leader: char) -> Result<Seq<u8>, FramingError> {
    if line.len() >= 2 && line[0] == leader as u8 && line[1] == 32 {
        Ok(line.subrange(2, line.len() as int))
    } else {
        Err(FramingError::WrongLeader { expected: leader })
    }
}

/// The counter, the command and the claimed MAC of a command frame.
pub open spec fn parse_command_spec(line: Seq<char>) -> Result<
    (u64, Seq<char>, u64),
    FramingError,
> {
    match split_leader(encode_utf8(line), 'C') {
        Err(e) => Err(e),
        Ok(rest) => match split_mac(rest) {
            Err(e) => Err(e),
            Ok((head, mac)) => match split_number(
                head,
                u64::MAX as nat,
                FramingError::InvalidCounter,
            ) {
                Err(e) => Err(e),
                Ok((counter, cmd)) => Ok((counter as u64, decode_utf8(cmd), mac)),
            },
        },
    }
}

/// The counter, the sequence number, the body and the claimed MAC of a response
/// frame.
pub open spec fn parse_response_spec(line: Seq<char>) -> Result<
    (u64, u32, Seq<char>, u64),
    FramingError,
> {
    match split_leader(encode_utf8(line), 'R') {
        Err(e) => Err(e),
        Ok(rest) => match split_mac(rest) {
            Err(e) => Err(e),
            Ok((head, mac)) => match split_number(
                head,
                u64::MAX as nat,
                FramingError::InvalidCounter,
            ) {
                Err(e) => Err(e),
                Ok((counter, after)) => match split_number(
                    after,
                    u32::MAX as nat,
                    FramingError::InvalidSeq,
                ) {
                    Err(e) => Err(e),
                    Ok((seq, body)) => Ok((counter as u64, seq as u32, decode_utf8(body), mac)),
                },
            },
        },
    }
}

/// The counter and the command of a frame that `key` authenticates.
pub open spec fn verify_command_spec(key: Seq<u8>, line: Seq<char>) -> Result<
    (u64, Seq<char>),
    FramingError,
> {
    match parse_command_spec(line) {
        Err(e) => Err(e),
        Ok((counter, cmd, mac)) => if mac == command_mac(key, counter, cmd) {
            Ok((counter, cmd))
        } else {
            Err(FramingError::MacMismatch)
        },
    }
}

/// The counter, the sequence number and the body of a frame that `key`
/// authenticates.
pub open spec fn verify_response_spec(key: Seq<u8>, line: Seq<char>) -> Result<
    (u64, u32, Seq<char>),
    FramingError,
> {
    match parse_response_spec(line) {
        Err(e) => Err(e),
        Ok((counter, seq, body, mac)) => if mac == response_mac(key, counter, seq, body) {
            Ok((counter, seq, body))
        } else {
            Err(FramingError::MacMismatch)
        },
    }
}

// ---------- command frames ----------

fn command_input(counter: u64, cmd_line: &str) -> (s: String)
    ensures
        s@ == command_mac_input(counter, cmd_line@),
{
    let mut s = "CMD ".to_owned();
    push_decimal(&mut s, counter);
    s.append(" ");
    s.append(cmd_line);
    s
}

/// Frames a command.
pub fn encode_command(key: &[u8; 16], counter: u64, cmd_line: &str) -> (frame: String)
    ensures
        frame@ == command_frame(key@, counter, cmd_line@),
{
    let mac_input = command_input(counter, cmd_line);
    let mac: u64 = siphash24(key, mac_input.as_str().as_bytes());
    let mut frame = "C ".to_owned();
    push_decimal(&mut frame, counter);
    frame.append(" ");
    frame.append(cmd_line);
    frame.append(" M ");
    frame.append(mac_to_hex(mac).as_str());
    frame
}

/// Reads a command frame without looking at whether the MAC is right. Returns
/// the counter, the command and the claimed MAC.
pub fn parse_command<'a>(line: &'a str) -> (r: Result<(u64, &'a str, u64), FramingError>)
    ensures
        match r {
            Ok((counter, cmd, mac)) => parse_command_spec(line@) == Ok::<_, FramingError>(
                (counter, cmd@, mac),
            ),
            Err(e) => parse_command_spec(line@) == Err::<(u64, Seq<char>, u64), _>(e),
        },
{
    let rest = match strip_leader(line, 67, 'C') {
        Ok(rest) => rest,
        Err(e) => {
            return Err(e);
        },
    };
    let (head, mac) = match split_mac_suffix(rest) {
        Ok(p) => p,
        Err(e) => {
            return Err(e);
        },
    };
    match split_counter_body(head, u64::MAX, FramingError::InvalidCounter) {
        Ok((counter, cmd)) => {
            proof {
                encode_utf8_decode_utf8(cmd@);
            }
            Ok((counter, cmd, mac))
        },
        Err(e) => Err(e),
    }
}

/// Reads a command frame and checks its MAC. Returns the counter and the
/// command.
pub fn verify_command<'a>(key: &[u8; 16], line: &'a str) -> (r: Result<
    (u64, &'a str),
    FramingError,
>)
    ensures
        match r {
            Ok((counter, cmd)) => verify_command_spec(key@, line@) == Ok::<_, FramingError>(
                (counter, cmd@),
            ),
            Err(e) => verify_command_spec(key@, line@) == Err::<(u64, Seq<char>), _>(e),
        },
{
    match parse_command(line) {
        Ok((counter, cmd_line, claimed)) => {
            let mac_input = command_input(counter, cmd_line);
            let expected: u64 = siphash24(key, mac_input.as_str().as_bytes());
            // The difference is formed in full before it is looked at, so that
            // the time taken says nothing of where two MACs part.
            let diff: u64 = expected ^ claimed;
            assert(diff == 0 <==> expected == claimed) by (bit_vector)
                requires
                    diff == expected ^ claimed,
            ;
            if diff != 0 {
                Err(FramingError::MacMismatch)
            } else {
                Ok((counter, cmd_line))
            }
        },
        Err(e) => Err(e),
    }
}

// ---------- response frames ----------

fn response_input(counter: u64, seq: u32, body_line: &str) -> (s: String)
    ensures
        s@ == response_mac_input(counter, seq, body_line@),
{
    let mut s = "RSP ".to_owned();
    push_decimal(&mut s, counter);
    s.append(" ");
    push_decimal(&mut s, seq as u64);
    s.append(" ");
    s.append(body_line);
    s
}

/// Frames a response.
pub fn encode_response(key: &[u8; 16], counter: u64, seq: u32, body_line: &str) -> (frame: String)
    ensures
        frame@ == response_frame(key@, counter, seq, body_line@),
{
    let mac_input = response_input(counter, seq, body_line);
    let mac: u64 = siphash24(key, mac_input.as_str().as_bytes());
    let mut frame = "R ".to_owned();
    push_decimal(&mut frame, counter);
    frame.append(" ");
    push_decimal(&mut frame, seq as u64);
    frame.append(" ");
    frame.append(body_line);
    frame.append(" M ");
    frame.append(mac_to_hex(mac).as_str());
    frame
}

/// Reads a response frame without looking at whether the MAC is right. Returns
/// the counter, the sequence number, the body and the claimed MAC.
pub fn parse_response<'a>(line: &'a str) -> (r: Result<(u64, u32, &'a str, u64), FramingError>)
    ensures
        match r {
            Ok((counter, seq, body, mac)) => parse_response_spec(line@) == Ok::<_, FramingError>(
                (counter, seq, body@, mac),
            ),
            Err(e) => parse_response_spec(line@) == Err::<(u64, u32, Seq<char>, u64), _>(e),
        },
{
    let rest = match strip_leader(line, 82, 'R') {
        Ok(rest) => rest,
        Err(e) => {
            return Err(e);
        },
    };
    let (head, mac) = match split_mac_suffix(rest) {
        Ok(p) => p,
        Err(e) => {
            return Err(e);
        },
    };
    let (counter, after) = match split_counter_body(
        head,
        u64::MAX,
        FramingError::InvalidCounter,
    ) {
        Ok(p) => p,
        Err(e) => {
            return Err(e);
        },
    };
    match split_counter_body(after, 0xffff_ffff, FramingError::InvalidSeq) {
        Ok((seq, body)) => {
            proof {
                encode_utf8_decode_utf8(body@);
            }
            Ok((counter, seq as u32, body, mac))
        },
        Err(e) => Err(e),
    }
}

/// Reads a response frame and checks its MAC. Returns the counter, the sequence
/// number and the body.
pub fn verify_response<'a>(key: &[u8; 16], line: &'a str) -> (r: Result<
    (u64, u32, &'a str),
    FramingError,
>)
    ensures
        match r {
            Ok((counter, seq, body)) => verify_response_spec(key@, line@) == Ok::<
                _,
                FramingError,
            >((counter, seq, body@)),
            Err(e) => verify_response_spec(key@, line@) == Err::<(u64, u32, Seq<char>), _>(e),
        },
{
    match parse_response(line) {
        Ok((counter, seq, body, claimed)) => {
            let mac_input = response_input(counter, seq, body);
            let expected: u64 = siphash24(key, mac_input.as_str().as_bytes());
            // As in `verify_command`.
            let diff: u64 = expected ^ claimed;
            assert(diff == 0 <==> expected == claimed) by (bit_vector)
                requires
                    diff == expected ^ claimed,
            ;
            if diff != 0 {
                Err(FramingError::MacMismatch)
            } else {
                Ok((counter, seq, body))
            }
        },
        Err(e) => Err(e),
    }
}

// ---------- shared parser bits ----------

fn strip_leader<'a>(line: &'a str, leader: u8, expected: char) -> (r: Result<
    &'a str,
    FramingError,
>)
    requires
        leader < 128,
        leader == expected as u8,
    ensures
        match r {
            Ok(rest) => split_leader(line.spec_bytes(), expected) == Ok::<_, FramingError>(
                rest.spec_bytes(),
            ),
            Err(e) => split_leader(line.spec_bytes(), expected) == Err::<Seq<u8>, _>(e),
        },
{
    let b = line.as_bytes();
    if b.len() >= 2 && b[0] == leader && b[1] == 32 {
        proof {
            encode_utf8_valid_utf8(line@);
            crate::text::lemma_boundary_after_ascii(b@, 1);
            is_char_boundary_start_end_of_seq(b@);
        }
        Ok(str_range(line, 2, b.len()))
    } else {
        Err(FramingError::WrongLeader { expected })
    }
}

fn split_mac_suffix<'a>(s: &'a str) -> (r: Result<(&'a str, u64), FramingError>)
    ensures
        match r {
            Ok((head, mac)) => split_mac(s.spec_bytes()) == Ok::<_, FramingError>(
                (head.spec_bytes(), mac),
            ),
            Err(e) => split_mac(s.spec_bytes()) == Err::<(Seq<u8>, u64), _>(e),
        },
{
    let b = s.as_bytes();
    let n: usize = b.len();
    if n < MAC_SUFFIX_LEN {
        return Err(FramingError::TooShort(n));
    }
    let ghost mark = b@.subrange(n - 19, n - 16);
    if b[n - 19] != 32 || b[n - 18] != 77 || b[n - 17] != 32 {
        proof {
            assert(mark[0] == b@[n - 19] && mark[1] == b@[n - 18] && mark[2] == b@[n - 17]);
            assert(mark != seq![32u8, 77u8, 32u8]);
        }
        return Err(FramingError::MissingMacSuffix);
    }
    assert(mark =~= seq![32u8, 77u8, 32u8]);
    proof {
        encode_utf8_valid_utf8(s@);
        crate::text::lemma_boundary_after_ascii(b@, n - 19);
        crate::text::lemma_boundary_after_ascii(b@, n - 17);
        is_char_boundary_start_end_of_seq(b@);
    }
    match parse_mac_hex(str_range(s, n - 16, n)) {
        Ok(mac) => Ok((str_range(s, 0, n - 19), mac)),
        Err(e) => Err(e),
    }
}

/// The place of the first space, or the length.
fn find_space(b: &[u8]) -> (i: usize)
    ensures
        i == find_byte(b@, 32),
        i <= b@.len(),
        i < b@.len() ==> b@[i as int] == 32,
{
    let mut i: usize = 0;
    assert(b@.subrange(0, b@.len() as int) =~= b@);
    while i < b.len()
        invariant
            0 <= i <= b@.len(),
            b.len() == b@.len(),
            find_byte(b@, 32) == i + find_byte(b@.subrange(i as int, b@.len() as int), 32),
        decreases b@.len() - i,
    {
        let ghost rest = b@.subrange(i as int, b@.len() as int);
        assert(rest[0] == b@[i as int]);
        if b[i] == 32 {
            return i;
        }
        assert(rest.drop_first() =~= b@.subrange(i + 1, b@.len() as int));
        i = i + 1;
    }
    i
}

fn split_counter_body<'a>(s: &'a str, max: u64, bad: FramingError) -> (r: Result<
    (u64, &'a str),
    FramingError,
>)
    ensures
        match r {
            Ok((n, body)) => split_number(s.spec_bytes(), max as nat, bad) == Ok::<
                _,
                FramingError,
            >((n as nat, body.spec_bytes())),
            Err(e) => split_number(s.spec_bytes(), max as nat, bad) == Err::<(nat, Seq<u8>), _>(e),
        },
{
    let b = s.as_bytes();
    let sp: usize = find_space(b);
    if sp == b.len() {
        return Err(FramingError::TooShort(b.len()));
    }
    match parse_number(vstd::slice::slice_subrange(b, 0, sp), max) {
        Some(n) => {
            proof {
                encode_utf8_valid_utf8(s@);
                crate::text::lemma_boundary_after_ascii(b@, sp as int);
                is_char_boundary_start_end_of_seq(b@);
            }
            Ok((n, str_range(s, sp + 1, b.len())))
        },
        None => Err(bad),
    }
}

/// Reads a MAC from its text.
pub fn parse_mac_hex(hex: &str) -> (r: Result<u64, FramingError>)
    ensures
        r == match mac_of_hex(encode_utf8(hex@)) {
            Some(mac) => Ok::<u64, FramingError>(mac),
            None => Err(FramingError::InvalidMac),
        },
{
    let b = hex.as_bytes();
    if b.len() != MAC_HEX_LEN {
        return Err(FramingError::InvalidMac);
    }
    let mut out: [u8; 8] = [0u8; 8];
    let mut i: usize = 0;
    while i < 8
        invariant
            0 <= i <= 8,
            b@ == encode_utf8(hex@),
            b@.len() == 16,
            forall|k: int|
                0 <= k < 2 * i ==> crate::text::nybble_value(#[trigger] b@[k]) is Some,
            forall|k: int|
                0 <= k < i ==> #[trigger] out@[k] == crate::text::hex_bytes(b@)[k],
        decreases 8 - i,
    {
        let hi: u8 = match nybble(b[i * 2]) {
            Some(v) => v,
            None => {
                return Err(FramingError::InvalidMac);
            },
        };
        let lo: u8 = match nybble(b[i * 2 + 1]) {
            Some(v) => v,
            None => {
                return Err(FramingError::InvalidMac);
            },
        };
        assert(hi < 16 && lo < 16);
        out[i] = hi * 16 + lo;
        i = i + 1;
    }
    assert(out@ =~= crate::text::hex_bytes(b@));
    assert(out@.subrange(0, 8) =~= out@);
    let mac: u64 = read_u64_le(&out, 0);
    Ok(mac)
}

// ---------- laws ----------

/// The first `c` is a `c`, and nothing before it is one.
pub proof fn lemma_find_byte(b: Seq<u8>, c: u8)
    ensures
        find_byte(b, c) <= b.len(),
        find_byte(b, c) < b.len() ==> b[find_byte(b, c) as int] == c,
        forall|i: int| 0 <= i < find_byte(b, c) ==> #[trigger] b[i] != c,
    decreases b.len(),
{
    if b.len() > 0 && b[0] != c {
        let t = b.drop_first();
        lemma_find_byte(t, c);
        assert forall|i: int| 0 <= i < find_byte(b, c) implies #[trigger] b[i] != c by {
            if i > 0 {
                assert(t[i - 1] == b[i]);
            }
        }
    }
}

/// A byte that nothing before it equals is the first of its value.
pub proof fn lemma_find_byte_after(a: Seq<u8>, rest: Seq<u8>, c: u8)
    requires
        forall|i: int| 0 <= i < a.len() ==> #[trigger] a[i] != c,
    ensures
        find_byte(a + seq![c] + rest, c) == a.len(),
    decreases a.len(),
{
    let s = a + seq![c] + rest;
    if a.len() > 0 {
        assert(s.drop_first() =~= a.drop_first() + seq![c] + rest);
        assert forall|i: int| 0 <= i < a.drop_first().len() implies #[trigger] a.drop_first()[i]
            != c by {
            assert(a.drop_first()[i] == a[i + 1]);
        }
        lemma_find_byte_after(a.drop_first(), rest, c);
        assert(s[0] == a[0]);
    } else {
        assert(s[0] == c);
    }
}

proof fn lemma_split_number_of_decimal(n: nat, rest: Seq<u8>, max: nat, bad: FramingError)
    requires
        n <= max,
    ensures
        split_number(encode_utf8(crate::text::decimal(n)) + seq![32u8] + rest, max, bad) == Ok::<
            (nat, Seq<u8>),
            FramingError,
        >((n, rest)),
{
    let d = encode_utf8(crate::text::decimal(n));
    crate::text::lemma_number_of_decimal(n, max);
    assert forall|i: int| 0 <= i < d.len() implies #[trigger] d[i] != 32 by {
        assert(crate::text::is_digit(d[i]));
    }
    lemma_find_byte_after(d, rest, 32);
    let s = d + seq![32u8] + rest;
    assert(s.subrange(0, d.len() as int) =~= d);
    assert(s.subrange(d.len() as int + 1, s.len() as int) =~= rest);
}

proof fn lemma_split_mac_of_text(head: Seq<u8>, mac: u64)
    ensures
        split_mac(head + seq![32u8, 77u8, 32u8] + encode_utf8(crate::crypto::mac_text(mac)))
            == Ok::<(Seq<u8>, u64), FramingError>((head, mac)),
{
    let wire = crate::bytes::le_bytes(mac as nat, 8);
    reveal_with_fuel(crate::bytes::pow256, 9);
    crate::bytes::lemma_le_value_of_le_bytes(mac as nat, 8);
    crate::text::lemma_hex_round_trip(wire);
    let h = encode_utf8(crate::crypto::mac_text(mac));
    let s = head + seq![32u8, 77u8, 32u8] + h;
    let n = s.len();
    assert(s.subrange(n - 19, n - 16) =~= seq![32u8, 77u8, 32u8]);
    assert(s.subrange(n - 16, n as int) =~= h);
    assert(s.subrange(0, n - 19) =~= head);
}

/// The bytes of the fixed pieces of text in a frame.
proof fn lemma_frame_literals()
    ensures
        encode_utf8("C "@) == seq![67u8, 32u8],
        encode_utf8("R "@) == seq![82u8, 32u8],
        encode_utf8(" "@) == seq![32u8],
        encode_utf8(" M "@) == seq![32u8, 77u8, 32u8],
        encode_utf8("CMD "@) == seq![67u8, 77u8, 68u8, 32u8],
        encode_utf8("RSP "@) == seq![82u8, 83u8, 80u8, 32u8],
{
    reveal_strlit("C ");
    reveal_strlit("R ");
    reveal_strlit(" ");
    reveal_strlit(" M ");
    reveal_strlit("CMD ");
    reveal_strlit("RSP ");
    is_ascii_chars_encode_utf8("C "@);
    is_ascii_chars_encode_utf8("R "@);
    is_ascii_chars_encode_utf8(" "@);
    is_ascii_chars_encode_utf8(" M "@);
    is_ascii_chars_encode_utf8("CMD "@);
    is_ascii_chars_encode_utf8("RSP "@);
    assert(encode_utf8("C "@) =~= seq![67u8, 32u8]);
    assert(encode_utf8("R "@) =~= seq![82u8, 32u8]);
    assert(encode_utf8(" "@) =~= seq![32u8]);
    assert(encode_utf8(" M "@) =~= seq![32u8, 77u8, 32u8]);
    assert(encode_utf8("CMD "@) =~= seq![67u8, 77u8, 68u8, 32u8]);
    assert(encode_utf8("RSP "@) =~= seq![82u8, 83u8, 80u8, 32u8]);
}

/// The bytes of a command frame.
proof fn lemma_command_frame_bytes(counter: u64, cmd: Seq<char>, mac: Seq<char>)
    ensures
        encode_utf8("C "@ + crate::text::decimal(counter as nat) + " "@ + cmd + " M "@ + mac)
            == seq![67u8, 32u8] + (encode_utf8(crate::text::decimal(counter as nat)) + seq![32u8]
            + encode_utf8(cmd) + seq![32u8, 77u8, 32u8] + encode_utf8(mac)),
{
    let d = crate::text::decimal(counter as nat);
    lemma_frame_literals();
    crate::text::lemma_encode_concat("C "@ + d + " "@ + cmd + " M "@, mac);
    crate::text::lemma_encode_concat("C "@ + d + " "@ + cmd, " M "@);
    crate::text::lemma_encode_concat("C "@ + d + " "@, cmd);
    crate::text::lemma_encode_concat("C "@ + d, " "@);
    crate::text::lemma_encode_concat("C "@, d);
    assert(seq![67u8, 32u8] + encode_utf8(d) + seq![32u8] + encode_utf8(cmd) + seq![
        32u8,
        77u8,
        32u8,
    ] + encode_utf8(mac) =~= seq![67u8, 32u8] + (encode_utf8(d) + seq![32u8] + encode_utf8(cmd)
        + seq![32u8, 77u8, 32u8] + encode_utf8(mac)));
}

/// The bytes of a response frame.
proof fn lemma_response_frame_bytes(counter: u64, seq: u32, body: Seq<char>, mac: Seq<char>)
    ensures
        encode_utf8(
            "R "@ + crate::text::decimal(counter as nat) + " "@ + crate::text::decimal(seq as nat)
                + " "@ + body + " M "@ + mac,
        ) == seq![82u8, 32u8] + (encode_utf8(crate::text::decimal(counter as nat)) + seq![32u8] + (
        encode_utf8(crate::text::decimal(seq as nat)) + seq![32u8] + encode_utf8(body)) + seq![
            32u8,
            77u8,
            32u8,
        ] + encode_utf8(mac)),
{
    let d = crate::text::decimal(counter as nat);
    let e = crate::text::decimal(seq as nat);
    lemma_frame_literals();
    crate::text::lemma_encode_concat("R "@ + d + " "@ + e + " "@ + body + " M "@, mac);
    crate::text::lemma_encode_concat("R "@ + d + " "@ + e + " "@ + body, " M "@);
    crate::text::lemma_encode_concat("R "@ + d + " "@ + e + " "@, body);
    crate::text::lemma_encode_concat("R "@ + d + " "@ + e, " "@);
    crate::text::lemma_encode_concat("R "@ + d + " "@, e);
    crate::text::lemma_encode_concat("R "@ + d, " "@);
    crate::text::lemma_encode_concat("R "@, d);
    assert(seq![82u8, 32u8] + encode_utf8(d) + seq![32u8] + encode_utf8(e) + seq![32u8]
        + encode_utf8(body) + seq![32u8, 77u8, 32u8] + encode_utf8(mac) =~= seq![82u8, 32u8] + (
    encode_utf8(d) + seq![32u8] + (encode_utf8(e) + seq![32u8] + encode_utf8(body)) + seq![
        32u8,
        77u8,
        32u8,
    ] + encode_utf8(mac)));
}

/// A text reads as a MAC where it is that MAC's text, in small letters or
/// capitals; its own text in particular.
pub proof fn lemma_mac_text_reads_back(mac: u64, t: Seq<char>)
    requires
        crate::text::ascii_lowercase(t) == crate::crypto::mac_text(mac),
    ensures
        mac_of_hex(encode_utf8(t)) == Some(mac),
        mac_of_hex(encode_utf8(crate::crypto::mac_text(mac))) == Some(mac),
{
    let wire = crate::bytes::le_bytes(mac as nat, 8);
    reveal_with_fuel(crate::bytes::pow256, 9);
    crate::bytes::lemma_le_value_of_le_bytes(mac as nat, 8);
    crate::text::lemma_hex_round_trip(wire);
    let m = crate::crypto::mac_text(mac);
    is_ascii_chars_encode_utf8(m);
    assert(t.len() == m.len());
    assert forall|i: int| 0 <= i < t.len() implies '\0' <= (#[trigger] t[i]) <= '\u{7f}' by {
        assert(m[i] == crate::text::ascii_lower(t[i]));
        assert(48 <= m[i] as nat <= 102);
    }
    is_ascii_chars_encode_utf8(t);
    let h = encode_utf8(t);
    let g = encode_utf8(m);
    assert forall|i: int| 0 <= i < h.len() implies crate::text::nybble_value(#[trigger] h[i])
        == crate::text::nybble_value(g[i]) && crate::text::nybble_value(h[i]) is Some by {
        assert(m[i] == crate::text::ascii_lower(t[i]));
        assert(h[i] == t[i] as u8 && g[i] == m[i] as u8);
        assert(crate::text::nybble_value(g[i]) is Some);
    }
    assert(crate::text::hex_bytes(h) =~= crate::text::hex_bytes(g));
}

/// A line that reads as a response starts with the leader.
pub proof fn lemma_response_leader(line: Seq<char>)
    requires
        parse_response_spec(line) is Ok,
    ensures
        crate::token::has_prefix(line, "R "@),
{
    let b = encode_utf8(line);
    encode_utf8_valid_utf8(line);
    crate::text::lemma_boundary_after_ascii(b, 1);
    valid_utf8_split(b, 2);
    let tail = decode_utf8(b.subrange(2, b.len() as int));
    lemma_frame_literals();
    crate::text::lemma_encode_concat("R "@, tail);
    decode_utf8_encode_utf8(b.subrange(2, b.len() as int));
    assert(encode_utf8("R "@ + tail) =~= b);
    crate::text::lemma_encode_injective("R "@ + tail, line);
    reveal_strlit("R ");
    assert(line.take(2) =~= "R "@);
}

/// Whatever command is framed, under whatever key and counter, the same key
/// takes it apart again into that counter and that command.
pub proof fn lemma_command_round_trip(key: Seq<u8>, counter: u64, cmd: Seq<char>)
    ensures
        verify_command_spec(key, command_frame(key, counter, cmd)) == Ok::<_, FramingError>(
            (counter, cmd),
        ),
{
    let mac = command_mac(key, counter, cmd);
    let m = crate::crypto::mac_text(mac);
    lemma_command_frame_bytes(counter, cmd, m);
    let line = encode_utf8(command_frame(key, counter, cmd));
    let head = encode_utf8(crate::text::decimal(counter as nat)) + seq![32u8] + encode_utf8(cmd);
    let rest = head + seq![32u8, 77u8, 32u8] + encode_utf8(m);
    assert(line == seq![67u8, 32u8] + rest);
    assert(line.subrange(2, line.len() as int) =~= rest);
    lemma_split_mac_of_text(head, mac);
    lemma_split_number_of_decimal(
        counter as nat,
        encode_utf8(cmd),
        u64::MAX as nat,
        FramingError::InvalidCounter,
    );
    encode_utf8_decode_utf8(cmd);
}

/// Whatever response is framed, under whatever key, counter and sequence
/// number, the same key takes it apart again into those and the body.
pub proof fn lemma_response_round_trip(key: Seq<u8>, counter: u64, seq: u32, body: Seq<char>)
    ensures
        verify_response_spec(key, response_frame(key, counter, seq, body)) == Ok::<
            _,
            FramingError,
        >((counter, seq, body)),
{
    let mac = response_mac(key, counter, seq, body);
    let m = crate::crypto::mac_text(mac);
    lemma_response_frame_bytes(counter, seq, body, m);
    let line = encode_utf8(response_frame(key, counter, seq, body));
    let after = encode_utf8(crate::text::decimal(seq as nat)) + seq![32u8] + encode_utf8(body);
    let head = encode_utf8(crate::text::decimal(counter as nat)) + seq![32u8] + after;
    let rest = head + seq![32u8, 77u8, 32u8] + encode_utf8(m);
    assert(line == seq![82u8, 32u8] + rest);
    assert(line.subrange(2, line.len() as int) =~= rest);
    lemma_split_mac_of_text(head, mac);
    lemma_split_number_of_decimal(
        counter as nat,
        after,
        u64::MAX as nat,
        FramingError::InvalidCounter,
    );
    lemma_split_number_of_decimal(
        seq as nat,
        encode_utf8(body),
        u32::MAX as nat,
        FramingError::InvalidSeq,
    );
    encode_utf8_decode_utf8(body);
}

/// A key accepts a command frame only where its MAC is the one of what was read.
pub proof fn lemma_command_accepted_iff_mac(
    key: Seq<u8>,
    line: Seq<char>,
    counter: u64,
    cmd: Seq<char>,
)
    ensures
        verify_command_spec(key, line) == Ok::<_, FramingError>((counter, cmd)) <==> (
        parse_command_spec(line) == Ok::<_, FramingError>(
            (counter, cmd, command_mac(key, counter, cmd)),
        )),
{
}

/// A key accepts a response frame only where its MAC is the one of what was
/// read.
pub proof fn lemma_response_accepted_iff_mac(
    key: Seq<u8>,
    line: Seq<char>,
    counter: u64,
    seq: u32,
    body: Seq<char>,
)
    ensures
        verify_response_spec(key, line) == Ok::<_, FramingError>((counter, seq, body)) <==> (
        parse_response_spec(line) == Ok::<_, FramingError>(
            (counter, seq, body, response_mac(key, counter, seq, body)),
        )),
{
}

/// No line is both a command and a response: what one direction takes past its
/// leader, the other turns away for it.
pub proof fn lemma_directions_disjoint(key: Seq<u8>, line: Seq<char>)
    ensures
        verify_command_spec(key, line) is Ok ==> verify_response_spec(key, line) == Err::<
            (u64, u32, Seq<char>),
            _,
        >(FramingError::WrongLeader { expected: 'R' }),
        verify_response_spec(key, line) is Ok ==> verify_command_spec(key, line) == Err::<
            (u64, Seq<char>),
            _,
        >(FramingError::WrongLeader { expected: 'C' }),
{
}

/// The text under a command's MAC is never the text under a response's.
pub proof fn lemma_mac_inputs_disjoint(
    counter: u64,
    cmd: Seq<char>,
    other: u64,
    seq: u32,
    body: Seq<char>,
)
    ensures
        encode_utf8(command_mac_input(counter, cmd)) != encode_utf8(
            response_mac_input(other, seq, body),
        ),
{
    let a = command_mac_input(counter, cmd);
    let b = response_mac_input(other, seq, body);
    if encode_utf8(a) == encode_utf8(b) {
        crate::text::lemma_encode_injective(a, b);
        reveal_strlit("CMD ");
        reveal_strlit("RSP ");
        assert(a[0] == 'C');
        assert(b[0] == 'R');
    }
}

/// Two commands with the same text under their MACs are the same command.
pub proof fn lemma_command_mac_input_injective(
    c1: u64,
    cmd1: Seq<char>,
    c2: u64,
    cmd2: Seq<char>,
)
    requires
        encode_utf8(command_mac_input(c1, cmd1)) == encode_utf8(command_mac_input(c2, cmd2)),
    ensures
        c1 == c2,
        cmd1 == cmd2,
{
    lemma_command_input_bytes(c1, cmd1);
    lemma_command_input_bytes(c2, cmd2);
    let max = u64::MAX as nat;
    let bad = FramingError::InvalidCounter;
    lemma_split_number_of_decimal(c1 as nat, encode_utf8(cmd1), max, bad);
    lemma_split_number_of_decimal(c2 as nat, encode_utf8(cmd2), max, bad);
    let b1 = encode_utf8(command_mac_input(c1, cmd1));
    let b2 = encode_utf8(command_mac_input(c2, cmd2));
    assert(b1.subrange(4, b1.len() as int) =~= b2.subrange(4, b2.len() as int));
    crate::text::lemma_encode_injective(cmd1, cmd2);
}

proof fn lemma_command_input_bytes(counter: u64, cmd: Seq<char>)
    ensures
        ({
            let b = encode_utf8(command_mac_input(counter, cmd));
            &&& b.len() >= 4
            &&& b.subrange(4, b.len() as int) == encode_utf8(crate::text::decimal(counter as nat))
                + seq![32u8] + encode_utf8(cmd)
        }),
{
    let d = crate::text::decimal(counter as nat);
    lemma_frame_literals();
    crate::text::lemma_encode_concat("CMD "@ + d + " "@, cmd);
    crate::text::lemma_encode_concat("CMD "@ + d, " "@);
    crate::text::lemma_encode_concat("CMD "@, d);
    let b = encode_utf8(command_mac_input(counter, cmd));
    assert(b.subrange(4, b.len() as int) =~= encode_utf8(d) + seq![32u8] + encode_utf8(cmd));
}

/// Two responses with the same text under their MACs are the same response.
pub proof fn lemma_response_mac_input_injective(
    c1: u64,
    seq1: u32,
    body1: Seq<char>,
    c2: u64,
    seq2: u32,
    body2: Seq<char>,
)
    requires
        encode_utf8(response_mac_input(c1, seq1, body1)) == encode_utf8(
            response_mac_input(c2, seq2, body2),
        ),
    ensures
        c1 == c2,
        seq1 == seq2,
        body1 == body2,
{
    lemma_response_input_bytes(c1, seq1, body1);
    lemma_response_input_bytes(c2, seq2, body2);
    let a1 = encode_utf8(crate::text::decimal(seq1 as nat)) + seq![32u8] + encode_utf8(body1);
    let a2 = encode_utf8(crate::text::decimal(seq2 as nat)) + seq![32u8] + encode_utf8(body2);
    let bad = FramingError::InvalidCounter;
    lemma_split_number_of_decimal(c1 as nat, a1, u64::MAX as nat, bad);
    lemma_split_number_of_decimal(c2 as nat, a2, u64::MAX as nat, bad);
    lemma_split_number_of_decimal(seq1 as nat, encode_utf8(body1), u32::MAX as nat, bad);
    lemma_split_number_of_decimal(seq2 as nat, encode_utf8(body2), u32::MAX as nat, bad);
    let b1 = encode_utf8(response_mac_input(c1, seq1, body1));
    let b2 = encode_utf8(response_mac_input(c2, seq2, body2));
    assert(b1.subrange(4, b1.len() as int) =~= b2.subrange(4, b2.len() as int));
    crate::text::lemma_encode_injective(body1, body2);
}

proof fn lemma_response_input_bytes(counter: u64, seq: u32, body: Seq<char>)
    ensures
        ({
            let b = encode_utf8(response_mac_input(counter, seq, body));
            &&& b.len() >= 4
            &&& b.subrange(4, b.len() as int) == encode_utf8(crate::text::decimal(counter as nat))
                + seq![32u8] + (encode_utf8(crate::text::decimal(seq as nat)) + seq![32u8]
                + encode_utf8(body))
        }),
{
    let d = crate::text::decimal(counter as nat);
    let e = crate::text::decimal(seq as nat);
    lemma_frame_literals();
    crate::text::lemma_encode_concat("RSP "@ + d + " "@ + e + " "@, body);
    crate::text::lemma_encode_concat("RSP "@ + d + " "@ + e, " "@);
    crate::text::lemma_encode_concat("RSP "@ + d + " "@, e);
    crate::text::lemma_encode_concat("RSP "@ + d, " "@);
    crate::text::lemma_encode_concat("RSP "@, d);
    let b = encode_utf8(response_mac_input(counter, seq, body));
    assert(b.subrange(4, b.len() as int) =~= encode_utf8(d) + seq![32u8] + (encode_utf8(e) + seq![
        32u8,
    ] + encode_utf8(body)));
}

/// What goes over the line: a letter for the direction, the counter, for a
/// response its place, and the text, with blanks between them; then the mark and
/// the MAC in sixteen hexadecimal digits.
pub proof fn lemma_frames_on_the_line(
    key: Seq<u8>,
    counter: u64,
    seq: u32,
    text: Seq<char>,
)
    ensures
        ({
            let f = command_frame(key, counter, text);
            let n = f.len() - 16;
            &&& f.take(n) == "C "@ + crate::text::decimal(counter as nat) + " "@ + text + " M "@
            &&& mac_of_hex(encode_utf8(f.skip(n))) == Some(
                crate::crypto::siphash24_spec(
                    key,
                    encode_utf8("CMD "@ + crate::text::decimal(counter as nat) + " "@ + text),
                ),
            )
        }),
        ({
            let f = response_frame(key, counter, seq, text);
            let n = f.len() - 16;
            &&& f.take(n) == "R "@ + crate::text::decimal(counter as nat) + " "@
                + crate::text::decimal(seq as nat) + " "@ + text + " M "@
            &&& mac_of_hex(encode_utf8(f.skip(n))) == Some(
                crate::crypto::siphash24_spec(
                    key,
                    encode_utf8(
                        "RSP "@ + crate::text::decimal(counter as nat) + " "@
                            + crate::text::decimal(seq as nat) + " "@ + text,
                    ),
                ),
            )
        }),
{
    let c = command_mac(key, counter, text);
    let r = response_mac(key, counter, seq, text);
    lemma_mac_text_has_sixteen_digits(c);
    lemma_mac_text_has_sixteen_digits(r);
    let f = command_frame(key, counter, text);
    assert(f.take(f.len() - 16) =~= "C "@ + crate::text::decimal(counter as nat) + " "@ + text
        + " M "@);
    assert(f.skip(f.len() - 16) =~= crate::crypto::mac_text(c));
    let g = response_frame(key, counter, seq, text);
    assert(g.take(g.len() - 16) =~= "R "@ + crate::text::decimal(counter as nat) + " "@
        + crate::text::decimal(seq as nat) + " "@ + text + " M "@);
    assert(g.skip(g.len() - 16) =~= crate::crypto::mac_text(r));
}

proof fn lemma_mac_text_has_sixteen_digits(mac: u64)
    ensures
        crate::crypto::mac_text(mac).len() == 16,
        mac_of_hex(encode_utf8(crate::crypto::mac_text(mac))) == Some(mac),
{
    let wire = crate::bytes::le_bytes(mac as nat, 8);
    reveal_with_fuel(crate::bytes::pow256, 9);
    crate::bytes::lemma_le_value_of_le_bytes(mac as nat, 8);
    crate::text::lemma_hex_round_trip(wire);
    is_ascii_chars_encode_utf8(crate::crypto::mac_text(mac));
    let m = crate::crypto::mac_text(mac);
    assert(mac_of_hex(encode_utf8(m)) == Some(
        crate::bytes::le_value(crate::text::hex_bytes(encode_utf8(m))) as u64,
    ));
}

proof fn lemma_tail_is_text(l: Seq<u8>, at: int, end: int)
    requires
        valid_utf8(l),
        0 <= at < end < l.len(),
        l[at] == 32,
        l[end] == 32,
    ensures
        valid_utf8(l.subrange(at + 1, end)),
{
    crate::text::lemma_boundary_after_ascii(l, at);
    valid_utf8_split(l, at + 1);
    let t = l.subrange(at + 1, l.len() as int);
    assert(t[end - at - 1] == l[end]);
    crate::text::lemma_boundary_after_ascii(t, end - at - 1);
    valid_utf8_split(t, end - at - 1);
    assert(t.subrange(0, end - at - 1) =~= l.subrange(at + 1, end));
}

/// The bytes of a command's line, made of its counter's and its MAC's digits.
pub open spec fn command_line_bytes(counter: Seq<u8>, cmd: Seq<char>, mac: Seq<u8>) -> Seq<u8> {
    seq![67u8, 32u8] + counter + seq![32u8] + encode_utf8(cmd) + seq![32u8, 77u8, 32u8] + mac
}

/// The bytes of a response's line, made of the digits of its counter, of its
/// place and of its MAC.
pub open spec fn response_line_bytes(
    counter: Seq<u8>,
    seq: Seq<u8>,
    body: Seq<char>,
    mac: Seq<u8>,
) -> Seq<u8> {
    seq![82u8, 32u8] + counter + seq![32u8] + seq + seq![32u8] + encode_utf8(body) + seq![
        32u8,
        77u8,
        32u8,
    ] + mac
}

/// What is read of a command's frame stands in it: behind the letter of its
/// direction the number read as the counter, the text as it is, the mark, and the
/// digits read as the MAC.
#[verifier::rlimit(40)]
pub proof fn lemma_what_is_read_stands_in_the_command(line: Seq<char>)
    ensures
        parse_command_spec(line) matches Ok((counter, cmd, mac)) ==> exists|a: Seq<u8>, h: Seq<u8>|
            {
                &&& encode_utf8(line) == #[trigger] command_line_bytes(a, cmd, h)
                &&& crate::text::number_value(a, u64::MAX as nat) == Some(counter as nat)
                &&& mac_of_hex(h) == Some(mac)
            },
{
    let l = encode_utf8(line);
    encode_utf8_valid_utf8(line);
    let n = l.len() as int;
    if let Ok((counter, cmd, mac)) = parse_command_spec(line) {
        let rest = l.subrange(2, n);
        let m = rest.len() as int;
        let head = rest.subrange(0, m - 19);
        let h = rest.subrange(m - 16, m);
        let sp = find_byte(head, 32) as int;
        lemma_find_byte(head, 32);
        let a = head.subrange(0, sp);
        let tail = head.subrange(sp + 1, head.len() as int);
        let mark = rest.subrange(m - 19, m - 16);
        assert(mark == seq![32u8, 77u8, 32u8]);
        assert(l[n - 19] == mark[0]);
        assert(l[2 + sp] == head[sp]);
        lemma_tail_is_text(l, 2 + sp, n - 19);
        assert(tail =~= l.subrange(2 + sp + 1, n - 19));
        decode_utf8_encode_utf8(tail);
        lemma_whole_from_parts(l, 2 + sp, n - 19);
        assert(l.subrange(0, 2 + sp) =~= seq![67u8, 32u8] + a);
        assert(l.subrange(n - 19, n) =~= mark + h);
        assert(l =~= command_line_bytes(a, cmd, h));
    }
}

/// What is read of a response's frame stands in it: behind the letter of its
/// direction the numbers read as the counter and as its place, the text as it is,
/// the mark, and the digits read as the MAC.
#[verifier::rlimit(40)]
pub proof fn lemma_what_is_read_stands_in_the_response(line: Seq<char>)
    ensures
        parse_response_spec(line) matches Ok((counter, seq, body, mac)) ==> exists|
            a: Seq<u8>,
            b: Seq<u8>,
            h: Seq<u8>,
        |
            {
                &&& encode_utf8(line) == #[trigger] response_line_bytes(a, b, body, h)
                &&& crate::text::number_value(a, u64::MAX as nat) == Some(counter as nat)
                &&& crate::text::number_value(b, u32::MAX as nat) == Some(seq as nat)
                &&& mac_of_hex(h) == Some(mac)
            },
{
    let l = encode_utf8(line);
    encode_utf8_valid_utf8(line);
    let n = l.len() as int;
    if let Ok((counter, seq, body, mac)) = parse_response_spec(line) {
        let rest = l.subrange(2, n);
        let m = rest.len() as int;
        let head = rest.subrange(0, m - 19);
        let h = rest.subrange(m - 16, m);
        let sp = find_byte(head, 32) as int;
        lemma_find_byte(head, 32);
        let a = head.subrange(0, sp);
        let after = head.subrange(sp + 1, head.len() as int);
        let sq = find_byte(after, 32) as int;
        lemma_find_byte(after, 32);
        let b = after.subrange(0, sq);
        let tail = after.subrange(sq + 1, after.len() as int);
        let mark = rest.subrange(m - 19, m - 16);
        assert(mark == seq![32u8, 77u8, 32u8]);
        assert(l[n - 19] == mark[0]);
        assert(l[2 + sp] == head[sp]);
        assert(l[3 + sp + sq] == after[sq]);
        lemma_tail_is_text(l, 3 + sp + sq, n - 19);
        assert(tail =~= l.subrange(3 + sp + sq + 1, n - 19));
        decode_utf8_encode_utf8(tail);
        lemma_whole_from_parts(l, 3 + sp + sq, n - 19);
        assert(l.subrange(0, 3 + sp + sq) =~= seq![82u8, 32u8] + a + seq![32u8] + b);
        assert(l.subrange(n - 19, n) =~= mark + h);
        assert(l =~= response_line_bytes(a, b, body, h));
    }
}

proof fn lemma_whole_from_parts(l: Seq<u8>, at: int, end: int)
    requires
        0 <= at < end <= l.len(),
        l[at] == 32,
    ensures
        l == l.subrange(0, at) + seq![32u8] + l.subrange(at + 1, end) + l.subrange(
            end,
            l.len() as int,
        ),
{
    assert(l =~= l.subrange(0, at) + seq![32u8] + l.subrange(at + 1, end) + l.subrange(
        end,
        l.len() as int,
    ));
}

/// Each failure has words of its own.
pub proof fn lemma_failures_have_words_of_their_own(a: FramingError, b: FramingError)
    requires
        framing_error_text(a) == framing_error_text(b),
    ensures
        a is TooShort <==> b is TooShort,
        a is WrongLeader <==> b is WrongLeader,
        a is MissingMacSuffix <==> b is MissingMacSuffix,
        a is InvalidMac <==> b is InvalidMac,
        a is InvalidCounter <==> b is InvalidCounter,
        a is InvalidSeq <==> b is InvalidSeq,
        a is MacMismatch <==> b is MacMismatch,
{
    reveal_strlit("frame too short (");
    reveal_strlit(" bytes)");
    reveal_strlit("missing leading `");
    reveal_strlit(" `");
    reveal_strlit("missing ` M <mac>` suffix");
    reveal_strlit("invalid mac hex");
    reveal_strlit("invalid counter");
    reveal_strlit("invalid seq");
    reveal_strlit("mac mismatch");
    let s = framing_error_text(a);
    let t = framing_error_text(b);
    assert(s.len() == t.len());
    assert(s[0] == t[0] && s[8] == t[8]);
}

} // verus!
