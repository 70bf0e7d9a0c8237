//! The sensor board's line protocol: what goes out for a command, what comes
//! back, and what each reply means.

use vstd::prelude::*;
use vstd::string::*;
use crate::text::{decode_lossy, push_decimal};
use crate::token::{chars_of, field, starts_with, str_eq, str_le, trim, word_end};

verus! {

/// Longest run of received bytes without a newline.
pub const MAX_LINE: usize = 4096;

/// How an I/O operation failed, as far as anything here depends on it.
#[derive(Clone, Copy, Debug, PartialEq, Eq, Structural)]
pub enum IoKind {
    BrokenPipe,
    NotFound,
    NotConnected,
    UnexpectedEof,
    PermissionDenied,
    TimedOut,
    /// The operating system gave no kind.
    Other,
    /// Any kind not listed.
    Unlisted,
}

/// Why talking to the sensor failed.
#[derive(Debug)]
pub enum SensorError {
    /// No serial device was found.
    NoDevice,
    /// The port could not be opened.
    OpenFailed { path: String, source: String },
    /// Reading, writing or saving failed.
    Io { kind: IoKind, message: String },
    /// Nothing final came in time; what was waited for.
    Timeout(String),
    /// The sensor board said no.
    Command { code: String, detail: Option<String> },
    /// The sensor board said something that no reply says.
    Protocol(String),
}

/// A [`SensorError`] as mathematics.
pub enum SensorErrorView {
    NoDevice,
    OpenFailed { path: Seq<char>, source: Seq<char> },
    Io { kind: IoKind, message: Seq<char> },
    Timeout(Seq<char>),
    Command { code: Seq<char>, detail: Option<Seq<char>> },
    Protocol(Seq<char>),
}

impl View for SensorError {
    type V = SensorErrorView;

    open spec fn view(&self) -> SensorErrorView {
        match *self {
            SensorError::NoDevice => SensorErrorView::NoDevice,
            SensorError::OpenFailed { path, source } => SensorErrorView::OpenFailed {
                path: path@,
                source: source@,
            },
            SensorError::Io { kind, message } => SensorErrorView::Io { kind, message: message@ },
            SensorError::Timeout(s) => SensorErrorView::Timeout(s@),
            SensorError::Command { code, detail } => SensorErrorView::Command {
                code: code@,
                detail: crate::token::optional_text(detail),
            },
            SensorError::Protocol(s) => SensorErrorView::Protocol(s@),
        }
    }
}

/// The error in words.
pub open spec fn sensor_error_text(e: SensorErrorView) -> Seq<char> {
    match e {
        SensorErrorView::NoDevice =>
            "no R503 serial device at /dev/ttyACM* or /dev/ttyUSB*; is the Uno plugged in?"@,
        SensorErrorView::OpenFailed { path, source } => "could not open "@ + path + ": "@ + source,
        SensorErrorView::Io { kind, message } => "serial I/O error: "@ + message,
        SensorErrorView::Timeout(s) => "timed out waiting for response to: "@ + s,
        SensorErrorView::Command { code, detail } => "firmware ERR "@ + code + match detail {
            Some(d) => " "@ + d,
            None => Seq::empty(),
        },
        SensorErrorView::Protocol(s) => "invalid response from firmware: "@ + s,
    }
}

impl SensorError {
    /// The error in words.
    pub fn message(&self) -> (s: String)
        ensures
            s@ == sensor_error_text(self@),
    {
        match self {
            SensorError::NoDevice =>
                "no R503 serial device at /dev/ttyACM* or /dev/ttyUSB*; is the Uno plugged in?".to_owned(),
            SensorError::OpenFailed { path, source } => {
                let mut s = "could not open ".to_owned();
                s.append(path.as_str());
                s.append(": ");
                s.append(source.as_str());
                s
            },
            SensorError::Io { kind: _, message } => {
                let mut s = "serial I/O error: ".to_owned();
                s.append(message.as_str());
                s
            },
            SensorError::Timeout(what) => {
                let mut s = "timed out waiting for response to: ".to_owned();
                s.append(what.as_str());
                s
            },
            SensorError::Command { code, detail } => {
                let mut s = "firmware ERR ".to_owned();
                s.append(code.as_str());
                let ghost before = s@;
                match detail {
                    Some(d) => {
                        s.append(" ");
                        s.append(d.as_str());
                        assert(s@ =~= before + (" "@ + d@));
                    },
                    None => {
                        assert(s@ =~= before + Seq::<char>::empty());
                    },
                }
                s
            },
            SensorError::Protocol(what) => {
                let mut s = "invalid response from firmware: ".to_owned();
                s.append(what.as_str());
                s
            },
        }
    }
}

// ---------- received bytes ----------

/// A line's bytes without the carriage return that may end them.
pub open spec fn without_cr(line: Seq<u8>) -> Seq<u8> {
    if line.len() > 0 && line.last() == 13 {
        line.drop_last()
    } else {
        line
    }
}

/// The first whole line in what was received, and what follows it.
pub open spec fn first_line(rx: Seq<u8>) -> Option<(Seq<u8>, Seq<u8>)> {
    let nl = crate::framing::find_byte(rx, 10);
    if nl < rx.len() {
        Some((without_cr(rx.take(nl as int)), rx.skip(nl as int + 1)))
    } else {
        None
    }
}

/// What waiting for a line comes to.
#[derive(Debug)]
pub enum LineStep {
    /// A line is there.
    Line(String),
    /// None came in time.
    Expired,
    /// Read more, for at most this many nanoseconds.
    Wait(u64),
}

/// Longest single wait for more bytes, in nanoseconds.
pub const READ_CHUNK_NS: u64 = 200_000_000;

/// Bytes received and not yet taken as lines.
#[derive(Debug)]
pub struct RxBuffer {
    bytes: Vec<u8>,
}

impl View for RxBuffer {
    type V = Seq<u8>;

    closed spec fn view(&self) -> Seq<u8> {
        self.bytes@
    }
}

impl RxBuffer {
    /// An empty buffer.
    pub fn new() -> (b: RxBuffer)
        ensures
            b@ == Seq::<u8>::empty(),
    {
        RxBuffer { bytes: Vec::new() }
    }

    /// Forgets everything received.
    pub fn clear(&mut self)
        ensures
            final(self)@ == Seq::<u8>::empty(),
    {
        self.bytes = Vec::new();
    }

    /// Takes in a chunk. A run of more than [`MAX_LINE`] bytes without a
    /// newline is dropped and reported.
    pub fn receive(&mut self, chunk: &[u8]) -> (r: Result<(), SensorError>)
        ensures
            ({
                let all = old(self)@ + chunk@;
                if all.len() > MAX_LINE && crate::framing::find_byte(all, 10) == all.len() {
                    &&& final(self)@ == Seq::<u8>::empty()
                    &&& r matches Err(e) && e@ == SensorErrorView::Protocol(
                        "line exceeds 4096 bytes without a newline"@,
                    )
                } else {
                    &&& final(self)@ == all
                    &&& r is Ok
                }
            }),
    {
        let mut i: usize = 0;
        while i < chunk.len()
            invariant
                0 <= i <= chunk@.len(),
                chunk.len() == chunk@.len(),
                self.bytes@ == old(self)@ + chunk@.take(i as int),
            decreases chunk@.len() - i,
        {
            self.bytes.push(chunk[i]);
            i = i + 1;
            assert(self.bytes@ =~= old(self)@ + chunk@.take(i as int));
        }
        assert(chunk@.take(i as int) =~= chunk@);
        if self.bytes.len() > MAX_LINE && find_newline(&self.bytes) == self.bytes.len() {
            self.bytes = Vec::new();
            return Err(SensorError::Protocol("line exceeds 4096 bytes without a newline".to_owned()));
        }
        Ok(())
    }

    /// Takes the bytes of the first whole line off the front.
    pub fn take_line_bytes(&mut self) -> (r: Option<Vec<u8>>)
        ensures
            match r {
                Some(line) => first_line(old(self)@) == Some((line@, final(self)@)),
                None => first_line(old(self)@) is None && final(self)@ == old(self)@,
            },
    {
        let nl: usize = find_newline(&self.bytes);
        if nl == self.bytes.len() {
            return None;
        }
        let rest = self.bytes.split_off(nl + 1);
        let mut line: Vec<u8> = Vec::new();
        std::mem::swap(&mut line, &mut self.bytes);
        self.bytes = rest;
        line.pop();
        assert(line@ =~= old(self)@.take(nl as int));
        assert(rest@ =~= old(self)@.skip(nl + 1));
        if line.len() > 0 && line[line.len() - 1] == 13 {
            line.pop();
            assert(line@ =~= old(self)@.take(nl as int).drop_last());
        }
        Some(line)
    }

    /// The next line, the end of the wait, or how long to read for more. Times
    /// are nanoseconds on one clock.
    pub fn poll_line(&mut self, now_ns: u64, deadline_ns: u64) -> (step: LineStep)
        ensures
            match first_line(old(self)@) {
                Some((line, rest)) => {
                    &&& step matches LineStep::Line(s) && s@ == crate::text::lossy_text(line) && (
                    vstd::utf8::valid_utf8(line) ==> s@ == vstd::utf8::decode_utf8(line))
                    &&& final(self)@ == rest
                },
                None => {
                    &&& final(self)@ == old(self)@
                    &&& if now_ns >= deadline_ns {
                        step is Expired
                    } else {
                        step == LineStep::Wait(
                            if deadline_ns - now_ns < READ_CHUNK_NS {
                                (deadline_ns - now_ns) as u64
                            } else {
                                READ_CHUNK_NS
                            },
                        )
                    }
                },
            },
    {
        match self.take_line_bytes() {
            Some(line) => LineStep::Line(decode_lossy(line.as_slice())),
            None => {
                if now_ns >= deadline_ns {
                    LineStep::Expired
                } else if deadline_ns - now_ns < READ_CHUNK_NS {
                    LineStep::Wait(deadline_ns - now_ns)
                } else {
                    LineStep::Wait(READ_CHUNK_NS)
                }
            },
        }
    }
}

/// The place of the first newline, or the length.
fn find_newline(b: &Vec<u8>) -> (i: usize)
    ensures
        i == crate::framing::find_byte(b@, 10),
        i <= b@.len(),
        i < b@.len() ==> b@[i as int] == 10,
{
    let mut i: usize = 0;
    assert(b@.skip(0) =~= b@);
    while i < b.len()
        invariant
            0 <= i <= b@.len(),
            crate::framing::find_byte(b@, 10) == i + crate::framing::find_byte(
                b@.skip(i as int),
                10,
            ),
        decreases b@.len() - i,
    {
        let ghost rest = b@.skip(i as int);
        assert(rest[0] == b@[i as int]);
        if b[i] == 10 {
            return i;
        }
        assert(rest.drop_first() =~= b@.skip(i + 1));
        i = i + 1;
    }
    i
}

/// A line that was sent with its newline is taken again as that line, whatever
/// came after it, and the rest stays.
pub proof fn lemma_sent_line_is_first_line(line: Seq<u8>, rest: Seq<u8>)
    requires
        forall|i: int| 0 <= i < line.len() ==> #[trigger] line[i] != 10,
        line.len() > 0 ==> line.last() != 13,
    ensures
        first_line(line + seq![10u8] + rest) == Some((line, rest)),
        first_line(line + seq![13u8, 10u8] + rest) == Some((line, rest)),
{
    let a = line + seq![10u8] + rest;
    crate::framing::lemma_find_byte_after(line, rest, 10);
    assert(a.take(line.len() as int) =~= line);
    assert(a.skip(line.len() as int + 1) =~= rest);
    let cr = line.push(13);
    assert forall|i: int| 0 <= i < cr.len() implies #[trigger] cr[i] != 10 by {
        if i < line.len() {
            assert(cr[i] == line[i]);
        }
    }
    let b = line + seq![13u8, 10u8] + rest;
    crate::framing::lemma_find_byte_after(cr, rest, 10);
    assert(b =~= cr + seq![10u8] + rest);
    assert(b.take(cr.len() as int) =~= cr);
    assert(b.skip(cr.len() as int + 1) =~= rest);
    assert(cr.drop_last() =~= line);
}

// ---------- coming into step with the board ----------

/// Silence, in nanoseconds, after which the board has finished booting.
pub const QUIET_NS: u64 = 300_000_000;

/// Longest wait for the answer to the first ping, in nanoseconds.
pub const PONG_NS: u64 = 2_000_000_000;

/// One attempt to read while the board boots.
#[derive(Debug)]
pub enum DrainRead {
    /// Nothing was read, and the port did not say that it waited in vain.
    Empty,
    /// Bytes came.
    Bytes,
    /// The read timed out.
    Silent,
    /// The read failed.
    Failed(SensorError),
}

/// What to do about it.
#[derive(Debug)]
pub enum DrainStep {
    /// Read again, unless the time is up.
    Again,
    /// The board is quiet.
    Quiet,
    /// Give up.
    Fail(SensorError),
}

/// Reading away what the board prints as it boots: until it has printed
/// something and then been quiet, or until the deadline.
#[derive(Debug)]
pub struct Drain {
    pub deadline_ns: u64,
    pub last_byte_ns: Option<u64>,
}

impl Drain {
    /// A drain that ends at the deadline at the latest.
    pub fn new(deadline_ns: u64) -> (d: Drain)
        ensures
            d.deadline_ns == deadline_ns,
            d.last_byte_ns is None,
    {
        Drain { deadline_ns, last_byte_ns: None }
    }

    /// Whether there is time for another read.
    pub fn wants_read(&self, now_ns: u64) -> (r: bool)
        ensures
            r == (now_ns < self.deadline_ns),
    {
        now_ns < self.deadline_ns
    }

    /// Takes note of a read that ended at `now_ns`.
    pub fn on_read(&mut self, now_ns: u64, read: DrainRead) -> (step: DrainStep)
        ensures
            final(self).deadline_ns == old(self).deadline_ns,
            final(self).last_byte_ns == if read is Bytes {
                Some(now_ns)
            } else {
                old(self).last_byte_ns
            },
            match read {
                DrainRead::Empty => step is Again,
                DrainRead::Bytes => step is Again,
                DrainRead::Silent => match old(self).last_byte_ns {
                    Some(t) => if now_ns - t > QUIET_NS {
                        step is Quiet
                    } else {
                        step is Again
                    },
                    None => step is Again,
                },
                DrainRead::Failed(e) => step == DrainStep::Fail(e),
            },
    {
        match read {
            DrainRead::Empty => DrainStep::Again,
            DrainRead::Bytes => {
                self.last_byte_ns = Some(now_ns);
                DrainStep::Again
            },
            DrainRead::Silent => {
                match self.last_byte_ns {
                    Some(t) => {
                        if now_ns > t && now_ns - t > QUIET_NS {
                            DrainStep::Quiet
                        } else {
                            DrainStep::Again
                        }
                    },
                    None => DrainStep::Again,
                }
            },
            DrainRead::Failed(e) => DrainStep::Fail(e),
        }
    }

    /// Until when the answer to the first ping counts.
    pub fn pong_deadline(&self, now_ns: u64) -> (t: u64)
        ensures
            t == if self.deadline_ns <= now_ns + PONG_NS {
                self.deadline_ns as int
            } else {
                now_ns + PONG_NS
            },
    {
        let latest: u64 = now_ns.saturating_add(PONG_NS);
        if self.deadline_ns <= latest {
            self.deadline_ns
        } else {
            latest
        }
    }
}

/// Whether a line answers the first ping.
pub fn is_sync_pong(line: &str) -> (r: bool)
    ensures
        r == (line@ == "OK pong"@),
{
    str_eq(line, "OK pong")
}

/// What is reported where the first ping stays unanswered; `within` is the time
/// allowed, in words.
pub fn sync_timeout(within: &str) -> (e: SensorError)
    ensures
        e@ == SensorErrorView::Timeout(
            "could not synchronize with firmware (no OK pong within "@ + within@ + ")"@,
        ),
{
    let mut s = "could not synchronize with firmware (no OK pong within ".to_owned();
    s.append(within);
    s.append(")");
    SensorError::Timeout(s)
}

// ---------- which port ----------

/// The name that comes first among those with the prefix.
pub open spec fn is_first_with_prefix(names: Seq<String>, prefix: Seq<char>, m: Seq<char>) -> bool {
    &&& exists|i: int| 0 <= i < names.len() && #[trigger] names[i]@ == m
    &&& crate::token::has_prefix(m, prefix)
    &&& forall|i: int|
        0 <= i < names.len() && crate::token::has_prefix(#[trigger] names[i]@, prefix)
            ==> crate::token::text_le(m, names[i]@)
}

/// Whether any name has the prefix.
pub open spec fn any_with_prefix(names: Seq<String>, prefix: Seq<char>) -> bool {
    exists|i: int| 0 <= i < names.len() && crate::token::has_prefix(#[trigger] names[i]@, prefix)
}

fn first_with_prefix(names: &Vec<String>, prefix: &str) -> (r: Option<usize>)
    ensures
        match r {
            Some(k) => k < names@.len() && is_first_with_prefix(
                names@,
                prefix@,
                names@[k as int]@,
            ),
            None => !any_with_prefix(names@, prefix@),
        },
{
    let mut best: Option<usize> = None;
    let mut i: usize = 0;
    while i < names.len()
        invariant
            0 <= i <= names@.len(),
            match best {
                Some(k) => {
                    &&& k < i
                    &&& crate::token::has_prefix(names@[k as int]@, prefix@)
                    &&& forall|j: int|
                        0 <= j < i && crate::token::has_prefix(#[trigger] names@[j]@, prefix@)
                            ==> crate::token::text_le(names@[k as int]@, names@[j]@)
                },
                None => forall|j: int|
                    0 <= j < i ==> !crate::token::has_prefix(#[trigger] names@[j]@, prefix@),
            },
        decreases names@.len() - i,
    {
        if starts_with(names[i].as_str(), prefix) {
            let ghost ni = names@[i as int]@;
            match best {
                None => {
                    best = Some(i);
                    proof {
                        crate::token::lemma_text_le_total(ni, ni);
                    }
                },
                Some(k) => {
                    let ghost nk = names@[k as int]@;
                    proof {
                        crate::token::lemma_text_le_total(nk, ni);
                    }
                    if !str_le(names[k].as_str(), names[i].as_str()) {
                        best = Some(i);
                        proof {
                            assert forall|j: int|
                                0 <= j < i + 1 && crate::token::has_prefix(
                                    #[trigger] names@[j]@,
                                    prefix@,
                                ) implies crate::token::text_le(ni, names@[j]@) by {
                                crate::token::lemma_text_le_total(ni, ni);
                                if j < i {
                                    crate::token::lemma_text_le_transitive(ni, nk, names@[j]@);
                                }
                            }
                        }
                    }
                },
            }
        }
        i = i + 1;
    }
    best
}

/// Picks the serial port among the names of the devices: the first `ttyACM*`,
/// or else the first `ttyUSB*`, in the order of their bytes.
pub fn find_port(names: &Vec<String>) -> (r: Result<String, SensorError>)
    ensures
        match r {
            Ok(path) => exists|m: Seq<char>|
                #![trigger "/dev/"@ + m]
                path@ == "/dev/"@ + m && if any_with_prefix(names@, "ttyACM"@) {
                    is_first_with_prefix(names@, "ttyACM"@, m)
                } else {
                    is_first_with_prefix(names@, "ttyUSB"@, m)
                },
            Err(e) => e@ == SensorErrorView::NoDevice && !any_with_prefix(names@, "ttyACM"@)
                && !any_with_prefix(names@, "ttyUSB"@),
        },
{
    let picked = match first_with_prefix(names, "ttyACM") {
        Some(k) => Some(k),
        None => first_with_prefix(names, "ttyUSB"),
    };
    match picked {
        Some(k) => {
            let mut path = "/dev/".to_owned();
            path.append(names[k].as_str());
            assert(path@ == "/dev/"@ + names@[k as int]@);
            Ok(path)
        },
        None => Err(SensorError::NoDevice),
    }
}

/// The port that is picked does not depend on the order of the names: no two
/// texts are both the first.
pub proof fn lemma_first_with_prefix_unique(
    names: Seq<String>,
    prefix: Seq<char>,
    m: Seq<char>,
    n: Seq<char>,
)
    requires
        is_first_with_prefix(names, prefix, m),
        is_first_with_prefix(names, prefix, n),
    ensures
        m == n,
{
    let i = choose|i: int| 0 <= i < names.len() && #[trigger] names[i]@ == m;
    let j = choose|j: int| 0 <= j < names.len() && #[trigger] names[j]@ == n;
    assert(crate::token::text_le(m, names[j]@));
    assert(crate::token::text_le(n, names[i]@));
    crate::token::lemma_text_le_total(m, n);
}

// ---------- replies ----------

/// What a final line says: the text after `OK`, or the code and the detail
/// after the first word. Each white space character ends a word.
pub open spec fn expect_ok_spec(line: Seq<char>) -> Result<Seq<char>, SensorErrorView> {
    if crate::token::has_prefix(line, "OK"@) {
        Ok(crate::token::trimmed(line.skip(2)))
    } else {
        let p = crate::token::word_len(line);
        if p >= line.len() {
            Err(SensorErrorView::Command { code: "unknown"@, detail: None })
        } else {
            let rest = line.skip(p as int + 1);
            let q = crate::token::word_len(rest);
            if q >= rest.len() {
                Err(SensorErrorView::Command { code: rest, detail: None })
            } else {
                Err(
                    SensorErrorView::Command {
                        code: rest.take(q as int),
                        detail: Some(rest.skip(q as int + 1)),
                    },
                )
            }
        }
    }
}

/// Reads a final line.
pub fn expect_ok(line: &str) -> (r: Result<String, SensorError>)
    ensures
        match r {
            Ok(body) => expect_ok_spec(line@) == Ok::<_, SensorErrorView>(body@),
            Err(e) => expect_ok_spec(line@) == Err::<Seq<char>, _>(e@),
        },
{
    proof {
        reveal_strlit("OK");
    }
    let n: usize = line.unicode_len();
    if starts_with(line, "OK") {
        let rest = line.substring_char(2, n);
        assert(rest@ =~= line@.skip(2));
        return Ok(trim(rest).to_owned());
    }
    let v = chars_of(line);
    let p: usize = word_end(&v, 0);
    assert(v@.skip(0) =~= v@);
    if p == n {
        return Err(SensorError::Command { code: "unknown".to_owned(), detail: None });
    }
    let q: usize = word_end(&v, p + 1);
    let code = line.substring_char(p + 1, q).to_owned();
    let ghost rest = line@.skip(p + 1);
    if q == n {
        assert(code@ =~= rest);
        return Err(SensorError::Command { code, detail: None });
    }
    assert(code@ =~= rest.take(q - p - 1));
    let detail = line.substring_char(q + 1, n).to_owned();
    assert(detail@ =~= rest.skip(q - p));
    Err(SensorError::Command { code, detail: Some(detail) })
}

/// The number that a field of a reply gives.
pub open spec fn number_field_spec(body: Seq<char>, key: Seq<char>, max: nat) -> Result<
    nat,
    SensorErrorView,
> {
    match crate::token::field_value(body, key) {
        None => Err(SensorErrorView::Protocol("missing "@ + key)),
        Some(v) => match crate::text::number_value(vstd::utf8::encode_utf8(v), max) {
            None => Err(SensorErrorView::Protocol("bad "@ + key)),
            Some(n) => Ok(n),
        },
    }
}

/// Reads a number of at most `max` from a field of a reply.
pub fn parse_field(body: &str, key: &str, max: u64) -> (r: Result<u64, SensorError>)
    ensures
        match r {
            Ok(n) => number_field_spec(body@, key@, max as nat) == Ok::<_, SensorErrorView>(
                n as nat,
            ) && n <= max,
            Err(e) => number_field_spec(body@, key@, max as nat) == Err::<nat, _>(e@),
        },
{
    match field(body, key) {
        None => {
            let mut s = "missing ".to_owned();
            s.append(key);
            Err(SensorError::Protocol(s))
        },
        Some(v) => match crate::text::parse_number(v.as_str().as_bytes(), max) {
            Some(n) => Ok(n),
            None => {
                let mut s = "bad ".to_owned();
                s.append(key);
                Err(SensorError::Protocol(s))
            },
        },
    }
}

/// What the board says of itself and its sensor.
#[derive(Clone, Debug)]
pub struct SensorInfo {
    pub fw: String,
    pub capacity: u16,
    pub enrolled: u16,
    pub sysid: String,
    pub security: u8,
    pub device_addr: String,
}

/// The slot that a finger matched, and how well.
#[derive(Clone, Copy, Debug, PartialEq, Eq, Structural)]
pub struct MatchResult {
    pub slot: u8,
    pub confidence: u16,
}

/// A [`SensorInfo`] as mathematics.
pub struct SensorInfoView {
    pub fw: Seq<char>,
    pub capacity: u16,
    pub enrolled: u16,
    pub sysid: Seq<char>,
    pub security: u8,
    pub device_addr: Seq<char>,
}

impl View for SensorInfo {
    type V = SensorInfoView;

    open spec fn view(&self) -> SensorInfoView {
        SensorInfoView {
            fw: self.fw@,
            capacity: self.capacity,
            enrolled: self.enrolled,
            sysid: self.sysid@,
            security: self.security,
            device_addr: self.device_addr@,
        }
    }
}

/// What the sensor can be asked.
#[derive(Clone, Copy, Debug, PartialEq, Eq, Structural)]
pub enum SensorCommand {
    Info,
    Count,
    Enroll(u8),
    Verify,
    Identify,
    Delete(u8),
    Clear,
    Wake,
    Ping,
    LedOff,
}

/// The line that asks it.
pub open spec fn command_text(c: SensorCommand) -> Seq<char> {
    match c {
        SensorCommand::Info => "info"@,
        SensorCommand::Count => "count"@,
        SensorCommand::Enroll(slot) => "enroll "@ + crate::text::decimal(slot as nat),
        SensorCommand::Verify => "verify"@,
        SensorCommand::Identify => "identify"@,
        SensorCommand::Delete(slot) => "delete "@ + crate::text::decimal(slot as nat),
        SensorCommand::Clear => "clear confirm"@,
        SensorCommand::Wake => "wake"@,
        SensorCommand::Ping => "ping"@,
        SensorCommand::LedOff => "led off"@,
    }
}

/// How long the answer may take, in milliseconds.
pub open spec fn command_timeout_ms(c: SensorCommand) -> u64 {
    match c {
        SensorCommand::Enroll(_) => 45_000,
        SensorCommand::Verify => 15_000,
        SensorCommand::Identify => 15_000,
        SensorCommand::Clear => 3_000,
        _ => 2_000,
    }
}

impl SensorCommand {
    /// The line that asks it.
    pub fn line(&self) -> (s: String)
        ensures
            s@ == command_text(*self),
    {
        match *self {
            SensorCommand::Info => "info".to_owned(),
            SensorCommand::Count => "count".to_owned(),
            SensorCommand::Enroll(slot) => {
                let mut s = "enroll ".to_owned();
                push_decimal(&mut s, slot as u64);
                s
            },
            SensorCommand::Verify => "verify".to_owned(),
            SensorCommand::Identify => "identify".to_owned(),
            SensorCommand::Delete(slot) => {
                let mut s = "delete ".to_owned();
                push_decimal(&mut s, slot as u64);
                s
            },
            SensorCommand::Clear => "clear confirm".to_owned(),
            SensorCommand::Wake => "wake".to_owned(),
            SensorCommand::Ping => "ping".to_owned(),
            SensorCommand::LedOff => "led off".to_owned(),
        }
    }

    /// How long the answer may take, in milliseconds.
    pub fn timeout_ms(&self) -> (ms: u64)
        ensures
            ms == command_timeout_ms(*self),
    {
        match *self {
            SensorCommand::Enroll(_) => 45_000,
            SensorCommand::Verify => 15_000,
            SensorCommand::Identify => 15_000,
            SensorCommand::Clear => 3_000,
            _ => 2_000,
        }
    }
}

/// What the sensor answers.
#[derive(Debug)]
pub enum SensorReply {
    Info(SensorInfo),
    Count(u16),
    Slot(u8),
    Match(MatchResult),
    Flag(bool),
    Done,
}

/// A [`SensorReply`] as mathematics.
pub enum SensorReplyView {
    Info(SensorInfoView),
    Count(u16),
    Slot(u8),
    Match(MatchResult),
    Flag(bool),
    Done,
}

impl View for SensorReply {
    type V = SensorReplyView;

    open spec fn view(&self) -> SensorReplyView {
        match *self {
            SensorReply::Info(i) => SensorReplyView::Info(i@),
            SensorReply::Count(n) => SensorReplyView::Count(n),
            SensorReply::Slot(n) => SensorReplyView::Slot(n),
            SensorReply::Match(m) => SensorReplyView::Match(m),
            SensorReply::Flag(b) => SensorReplyView::Flag(b),
            SensorReply::Done => SensorReplyView::Done,
        }
    }
}

/// A field's text, or nothing where the field is missing.
pub open spec fn text_or_empty(body: Seq<char>, key: Seq<char>) -> Seq<char> {
    match crate::token::field_value(body, key) {
        Some(v) => v,
        None => Seq::empty(),
    }
}

/// A field's number, or zero where the field is missing or no such number.
pub open spec fn number_or_zero(body: Seq<char>, key: Seq<char>, max: nat) -> nat {
    match number_field_spec(body, key, max) {
        Ok(n) => n,
        Err(_) => 0,
    }
}

/// The slot and the confidence in a reply.
pub open spec fn match_spec(body: Seq<char>) -> Result<SensorReplyView, SensorErrorView> {
    match number_field_spec(body, "match"@, 255) {
        Err(e) => Err(e),
        Ok(slot) => match number_field_spec(body, "confidence"@, 65535) {
            Err(e) => Err(e),
            Ok(confidence) => Ok(
                SensorReplyView::Match(
                    MatchResult { slot: slot as u8, confidence: confidence as u16 },
                ),
            ),
        },
    }
}

/// The slot that a reply names in a field.
pub open spec fn slot_spec(body: Seq<char>, key: Seq<char>) -> Result<
    SensorReplyView,
    SensorErrorView,
> {
    match number_field_spec(body, key, 255) {
        Err(e) => Err(e),
        Ok(slot) => Ok(SensorReplyView::Slot(slot as u8)),
    }
}

/// What a final line means as the answer to a command.
pub open spec fn reply_spec(c: SensorCommand, line: Seq<char>) -> Result<
    SensorReplyView,
    SensorErrorView,
> {
    if c == SensorCommand::Ping {
        Ok(SensorReplyView::Flag(crate::token::has_prefix(line, "OK pong"@)))
    } else {
        match expect_ok_spec(line) {
            Err(e) => Err(e),
            Ok(body) => match c {
                SensorCommand::Info => Ok(
                    SensorReplyView::Info(
                        SensorInfoView {
                            fw: text_or_empty(body, "fw"@),
                            capacity: number_or_zero(body, "capacity"@, 65535) as u16,
                            enrolled: number_or_zero(body, "enrolled"@, 65535) as u16,
                            sysid: text_or_empty(body, "sysid"@),
                            security: number_or_zero(body, "security"@, 255) as u8,
                            device_addr: text_or_empty(body, "device_addr"@),
                        },
                    ),
                ),
                SensorCommand::Count => match number_field_spec(body, "count"@, 65535) {
                    Err(e) => Err(e),
                    Ok(n) => Ok(SensorReplyView::Count(n as u16)),
                },
                SensorCommand::Enroll(_) => slot_spec(body, "enrolled"@),
                SensorCommand::Delete(_) => slot_spec(body, "deleted"@),
                SensorCommand::Verify => match_spec(body),
                SensorCommand::Identify => match_spec(body),
                SensorCommand::Wake => Ok(
                    SensorReplyView::Flag(
                        crate::token::field_value(body, "wake"@) == Some("1"@),
                    ),
                ),
                _ => Ok(SensorReplyView::Done),
            },
        }
    }
}

fn field_or_empty(body: &str, key: &str) -> (s: String)
    ensures
        s@ == text_or_empty(body@, key@),
{
    match field(body, key) {
        Some(v) => v,
        None => String::new(),
    }
}

fn parse_field_or_zero(body: &str, key: &str, max: u64) -> (n: u64)
    ensures
        n == number_or_zero(body@, key@, max as nat),
        n <= max,
{
    match parse_field(body, key, max) {
        Ok(n) => n,
        Err(_) => 0,
    }
}

fn parse_slot(body: &str, key: &str) -> (r: Result<SensorReply, SensorError>)
    ensures
        match r {
            Ok(x) => slot_spec(body@, key@) == Ok::<_, SensorErrorView>(x@),
            Err(e) => slot_spec(body@, key@) == Err::<SensorReplyView, _>(e@),
        },
{
    match parse_field(body, key, 255) {
        Ok(slot) => Ok(SensorReply::Slot(slot as u8)),
        Err(e) => Err(e),
    }
}

fn parse_match(body: &str) -> (r: Result<SensorReply, SensorError>)
    ensures
        match r {
            Ok(x) => match_spec(body@) == Ok::<_, SensorErrorView>(x@),
            Err(e) => match_spec(body@) == Err::<SensorReplyView, _>(e@),
        },
{
    match parse_field(body, "match", 255) {
        Ok(slot) => match parse_field(body, "confidence", 65535) {
            Ok(confidence) => Ok(
                SensorReply::Match(
                    MatchResult { slot: slot as u8, confidence: confidence as u16 },
                ),
            ),
            Err(e) => Err(e),
        },
        Err(e) => Err(e),
    }
}

/// Reads the final line that answers a command.
pub fn read_reply(c: SensorCommand, line: &str) -> (r: Result<SensorReply, SensorError>)
    ensures
        match r {
            Ok(x) => reply_spec(c, line@) == Ok::<_, SensorErrorView>(x@),
            Err(e) => reply_spec(c, line@) == Err::<SensorReplyView, _>(e@),
        },
{
    if let SensorCommand::Ping = c {
        return Ok(SensorReply::Flag(starts_with(line, "OK pong")));
    }
    let body = match expect_ok(line) {
        Ok(body) => body,
        Err(e) => {
            return Err(e);
        },
    };
    let b = body.as_str();
    match c {
        SensorCommand::Info => Ok(
            SensorReply::Info(
                SensorInfo {
                    fw: field_or_empty(b, "fw"),
                    capacity: parse_field_or_zero(b, "capacity", 65535) as u16,
                    enrolled: parse_field_or_zero(b, "enrolled", 65535) as u16,
                    sysid: field_or_empty(b, "sysid"),
                    security: parse_field_or_zero(b, "security", 255) as u8,
                    device_addr: field_or_empty(b, "device_addr"),
                },
            ),
        ),
        SensorCommand::Count => match parse_field(b, "count", 65535) {
            Ok(n) => Ok(SensorReply::Count(n as u16)),
            Err(e) => Err(e),
        },
        SensorCommand::Enroll(_) => parse_slot(b, "enrolled"),
        SensorCommand::Delete(_) => parse_slot(b, "deleted"),
        SensorCommand::Verify => parse_match(b),
        SensorCommand::Identify => parse_match(b),
        SensorCommand::Wake => match field(b, "wake") {
            Some(v) => {
                let on = str_eq(v.as_str(), "1");
                Ok(SensorReply::Flag(on))
            },
            None => Ok(SensorReply::Flag(false)),
        },
        _ => Ok(SensorReply::Done),
    }
}

// ---------- laws ----------

/// A line is there exactly where a newline was received. It is what stands before
/// the first of them, but for one carriage return at its end, and what follows
/// the newline is kept.
pub proof fn lemma_lines_are_cut_at_newlines(rx: Seq<u8>)
    ensures
        first_line(rx) is Some <==> rx.contains(10),
        first_line(rx) matches Some((line, rest)) ==> {
            &&& !line.contains(10)
            &&& rx == line + seq![10u8] + rest || rx == line + seq![13u8, 10u8] + rest
        },
    decreases rx.len(),
{
    crate::framing::lemma_find_byte(rx, 10);
    let nl = crate::framing::find_byte(rx, 10);
    if nl < rx.len() {
        let head = rx.take(nl as int);
        let rest = rx.skip(nl as int + 1);
        let line = without_cr(head);
        assert(rx.contains(rx[nl as int]));
        if line.contains(10) {
            let k = choose|k: int| 0 <= k < line.len() && line[k] == 10;
            assert(rx[k] == 10);
        }
        if head.len() > 0 && head.last() == 13 {
            assert(rx =~= line + seq![13u8, 10u8] + rest);
        } else {
            assert(rx =~= line + seq![10u8] + rest);
        }
    } else if rx.contains(10) {
        let k = choose|k: int| 0 <= k < rx.len() && rx[k] == 10;
        assert(rx[k] == 10);
    }
}

/// The line of a command that is about a slot names that slot: the command's word
/// and a blank, and then digits that read back as the slot, and nothing else.
pub proof fn lemma_commands_name_their_slot(slot: u8)
    ensures
        ({
            let line = command_text(SensorCommand::Delete(slot));
            let digits = line.skip(7);
            &&& crate::token::has_prefix(line, "delete "@)
            &&& digits.len() > 0
            &&& forall|i: int| 0 <= i < digits.len() ==> '0' <= #[trigger] digits[i] <= '9'
            &&& crate::text::number_value(vstd::utf8::encode_utf8(digits), u8::MAX as nat) == Some(
                slot as nat,
            )
        }),
        ({
            let line = command_text(SensorCommand::Enroll(slot));
            let digits = line.skip(7);
            &&& crate::token::has_prefix(line, "enroll "@)
            &&& digits.len() > 0
            &&& forall|i: int| 0 <= i < digits.len() ==> '0' <= #[trigger] digits[i] <= '9'
            &&& crate::text::number_value(vstd::utf8::encode_utf8(digits), u8::MAX as nat) == Some(
                slot as nat,
            )
        }),
{
    reveal_strlit("delete ");
    reveal_strlit("enroll ");
    let digits = crate::text::decimal(slot as nat);
    crate::text::lemma_decimal_is_digits(slot as nat);
    crate::text::lemma_number_of_decimal(slot as nat, u8::MAX as nat);
    let d = command_text(SensorCommand::Delete(slot));
    let e = command_text(SensorCommand::Enroll(slot));
    assert(d.take(7) =~= "delete "@);
    assert(d.skip(7) =~= digits);
    assert(e.take(7) =~= "enroll "@);
    assert(e.skip(7) =~= digits);
}

/// No two commands are asked by the same line; two about different slots are not
/// either.
pub proof fn lemma_commands_have_lines_of_their_own(a: SensorCommand, b: SensorCommand)
    requires
        command_text(a) == command_text(b),
    ensures
        a == b,
{
    reveal_strlit("info");
    reveal_strlit("count");
    reveal_strlit("enroll ");
    reveal_strlit("verify");
    reveal_strlit("identify");
    reveal_strlit("delete ");
    reveal_strlit("clear confirm");
    reveal_strlit("wake");
    reveal_strlit("ping");
    reveal_strlit("led off");
    let t = command_text(a);
    let u = command_text(b);
    assert(t.len() == u.len());
    assert(t[0] == u[0] && t[1] == u[1] && t[3] == u[3]);
    if let SensorCommand::Delete(s) = a {
        lemma_commands_name_their_slot(s);
    }
    if let SensorCommand::Delete(s) = b {
        lemma_commands_name_their_slot(s);
    }
    if let SensorCommand::Enroll(s) = a {
        lemma_commands_name_their_slot(s);
    }
    if let SensorCommand::Enroll(s) = b {
        lemma_commands_name_their_slot(s);
    }
}

/// Each question is asked by the word for it.
pub proof fn lemma_commands_are_asked_by_their_words(c: SensorCommand)
    ensures
        c == SensorCommand::Info <==> command_text(c) == "info"@,
        c == SensorCommand::Count <==> command_text(c) == "count"@,
        c == SensorCommand::Verify <==> command_text(c) == "verify"@,
        c == SensorCommand::Identify <==> command_text(c) == "identify"@,
        c == SensorCommand::Clear <==> command_text(c) == "clear confirm"@,
        c == SensorCommand::Wake <==> command_text(c) == "wake"@,
        c == SensorCommand::Ping <==> command_text(c) == "ping"@,
        c == SensorCommand::LedOff <==> command_text(c) == "led off"@,
        c is Enroll <==> crate::token::has_prefix(command_text(c), "enroll "@),
        c is Delete <==> crate::token::has_prefix(command_text(c), "delete "@),
{
    if command_text(c) == "info"@ {
        lemma_commands_have_lines_of_their_own(c, SensorCommand::Info);
    }
    if command_text(c) == "count"@ {
        lemma_commands_have_lines_of_their_own(c, SensorCommand::Count);
    }
    if command_text(c) == "verify"@ {
        lemma_commands_have_lines_of_their_own(c, SensorCommand::Verify);
    }
    if command_text(c) == "identify"@ {
        lemma_commands_have_lines_of_their_own(c, SensorCommand::Identify);
    }
    if command_text(c) == "clear confirm"@ {
        lemma_commands_have_lines_of_their_own(c, SensorCommand::Clear);
    }
    if command_text(c) == "wake"@ {
        lemma_commands_have_lines_of_their_own(c, SensorCommand::Wake);
    }
    if command_text(c) == "ping"@ {
        lemma_commands_have_lines_of_their_own(c, SensorCommand::Ping);
    }
    if command_text(c) == "led off"@ {
        lemma_commands_have_lines_of_their_own(c, SensorCommand::LedOff);
    }
    reveal_strlit("info");
    reveal_strlit("count");
    reveal_strlit("enroll ");
    reveal_strlit("verify");
    reveal_strlit("identify");
    reveal_strlit("delete ");
    reveal_strlit("clear confirm");
    reveal_strlit("wake");
    reveal_strlit("ping");
    reveal_strlit("led off");
    let t = command_text(c);
    if crate::token::has_prefix(t, "enroll "@) || crate::token::has_prefix(t, "delete "@) {
        assert(t.take(7)[0] == t[0] && t.take(7)[1] == t[1]);
    }
    if let SensorCommand::Delete(s) = c {
        lemma_commands_name_their_slot(s);
    }
    if let SensorCommand::Enroll(s) = c {
        lemma_commands_name_their_slot(s);
    }
}

/// What takes a finger is given the time for it; the rest is to be answered at
/// once.
pub proof fn lemma_time_for_an_answer(c: SensorCommand)
    ensures
        c is Enroll <==> command_timeout_ms(c) == 45_000,
        c is Verify || c is Identify <==> command_timeout_ms(c) == 15_000,
        c is Clear <==> command_timeout_ms(c) == 3_000,
        !(c is Enroll || c is Verify || c is Identify || c is Clear) <==> command_timeout_ms(c)
            == 2_000,
{
}

/// An answer that starts with `OK` is good, and its body is what follows, without
/// the white space around it; any other is a refusal, which hands on the code, and
/// all that follows the code, as they stand.
pub proof fn lemma_final_line_is_read(body: Seq<char>, code: Seq<char>, detail: Seq<char>)
    requires
        body.len() > 0 ==> !crate::token::is_space(body[0]) && !crate::token::is_space(body.last()),
        crate::token::is_unbroken(code),
    ensures
        expect_ok_spec("OK "@ + body) == Ok::<_, SensorErrorView>(body),
        expect_ok_spec("OK"@) == Ok::<_, SensorErrorView>(Seq::<char>::empty()),
        expect_ok_spec("ERR "@ + code) == Err::<Seq<char>, _>(
            SensorErrorView::Command { code, detail: None },
        ),
        expect_ok_spec("ERR "@ + code + " "@ + detail) == Err::<Seq<char>, _>(
            SensorErrorView::Command { code, detail: Some(detail) },
        ),
        expect_ok_spec("ERR"@) == Err::<Seq<char>, _>(
            SensorErrorView::Command { code: "unknown"@, detail: None },
        ),
{
    reveal_strlit("OK ");
    reveal_strlit("OK");
    reveal_strlit("ERR ");
    reveal_strlit("ERR");
    reveal_strlit(" ");
    let none = Seq::<char>::empty();
    let a = "OK "@ + body;
    assert(a.take(2) =~= "OK"@);
    assert(a.skip(2) =~= " "@ + body);
    crate::token::lemma_trimmed(body);
    assert("OK"@.take(2) =~= "OK"@);
    assert("OK"@.skip(2) =~= none);
    crate::token::lemma_trimmed(none);
    assert forall|i: int| 0 <= i < "ERR"@.len() implies !crate::token::is_space(
        #[trigger] "ERR"@[i],
    ) by {}
    let b = "ERR "@ + code;
    let c = "ERR "@ + code + " "@ + detail;
    assert(b.take(2)[0] == 'E');
    assert(c.take(2)[0] == 'E');
    assert("ERR"@.take(2)[0] == 'E');
    assert("OK"@[0] == 'O');
    crate::token::lemma_word_len("ERR"@, none);
    assert("ERR"@ + none =~= "ERR"@);
    crate::token::lemma_word_len("ERR"@, " "@ + code);
    assert("ERR"@ + (" "@ + code) =~= b);
    assert(b.skip(4) =~= code);
    crate::token::lemma_word_len(code, none);
    assert(code + none =~= code);
    let rest = code + " "@ + detail;
    crate::token::lemma_word_len("ERR"@, " "@ + rest);
    assert("ERR"@ + (" "@ + rest) =~= c);
    assert(c.skip(4) =~= rest);
    crate::token::lemma_word_len(code, " "@ + detail);
    assert(code + (" "@ + detail) =~= rest);
    assert(rest.take(code.len() as int) =~= code);
    assert(rest.skip(code.len() as int + 1) =~= detail);
}

/// An answer is good exactly where it starts with `OK`.
pub proof fn lemma_ok_or_refusal(line: Seq<char>)
    ensures
        expect_ok_spec(line) is Ok <==> crate::token::has_prefix(line, "OK"@),
        expect_ok_spec(line) matches Ok(body) ==> body == crate::token::trimmed(line.skip(2)),
        expect_ok_spec(line) matches Err(e) ==> e is Command,
{
}

/// A refusal is taken apart at its first two white space characters, whatever
/// they are and whatever word it starts with: the code stands between them, and
/// the detail is all that follows, as it stands.
pub proof fn lemma_refusal_is_taken_apart(
    first: Seq<char>,
    c: char,
    code: Seq<char>,
    d: char,
    detail: Seq<char>,
)
    requires
        crate::token::is_unbroken(first),
        crate::token::is_unbroken(code),
        crate::token::is_space(c),
        crate::token::is_space(d),
        !crate::token::has_prefix(first, "OK"@),
    ensures
        expect_ok_spec(first) == Err::<Seq<char>, _>(
            SensorErrorView::Command { code: "unknown"@, detail: None },
        ),
        expect_ok_spec(first + seq![c] + code) == Err::<Seq<char>, _>(
            SensorErrorView::Command { code, detail: None },
        ),
        expect_ok_spec(first + seq![c] + code + seq![d] + detail) == Err::<Seq<char>, _>(
            SensorErrorView::Command { code, detail: Some(detail) },
        ),
{
    reveal_strlit("OK");
    let none = Seq::<char>::empty();
    let n = first.len() as int;
    let rest = code + seq![d] + detail;
    let a = first + seq![c] + code;
    let b = first + seq![c] + code + seq![d] + detail;
    assert(first + none =~= first);
    assert(code + none =~= code);
    assert(a =~= first + (seq![c] + code));
    assert(b =~= first + (seq![c] + rest));
    assert(rest =~= code + (seq![d] + detail));
    crate::token::lemma_word_len(first, none);
    crate::token::lemma_word_len(first, seq![c] + code);
    crate::token::lemma_word_len(first, seq![c] + rest);
    crate::token::lemma_word_len(code, none);
    crate::token::lemma_word_len(code, seq![d] + detail);
    assert(a.skip(n + 1) =~= code);
    assert(b.skip(n + 1) =~= rest);
    assert(rest.take(code.len() as int) =~= code);
    assert(rest.skip(code.len() as int + 1) =~= detail);
    assert("OK"@[0] == 'O' && "OK"@[1] == 'K' && "OK"@.len() == 2);
    assert(!crate::token::is_space('O') && !crate::token::is_space('K'));
    if crate::token::has_prefix(a, "OK"@) {
        assert(a.take(2)[0] == a[0] && a.take(2)[1] == a[1]);
        if n >= 2 {
            assert(first.take(2) =~= "OK"@);
        } else if n == 1 {
            assert(a[1] == c);
        } else {
            assert(a[0] == c);
        }
    }
    if crate::token::has_prefix(b, "OK"@) {
        assert(b.take(2)[0] == b[0] && b.take(2)[1] == b[1]);
        if n >= 2 {
            assert(first.take(2) =~= "OK"@);
        } else if n == 1 {
            assert(b[1] == c);
        } else {
            assert(b[0] == c);
        }
    }
}

/// What is read of any answer is what stands in its fields: a slot or a count
/// where its field is a number that fits, and of what the board says of itself
/// the fields as they are, or nothing and zero in the place of those that are no
/// such number or not there. The sensor is awake only where the field is `1`.
pub proof fn lemma_replies_are_not_made_up(c: SensorCommand, line: Seq<char>)
    requires
        c != SensorCommand::Ping,
    ensures
        reply_spec(c, line) is Ok ==> crate::token::has_prefix(line, "OK"@),
        !crate::token::has_prefix(line, "OK"@) ==> (expect_ok_spec(line) matches Err(e)
            && reply_spec(c, line) == Err::<SensorReplyView, _>(e)),
        ({
            let body = crate::token::trimmed(line.skip(2));
            let number = |key: Seq<char>, max: nat|
                match crate::token::field_value(body, key) {
                    Some(v) => crate::text::number_value(vstd::utf8::encode_utf8(v), max),
                    None => None,
                };
            &&& reply_spec(c, line) matches Ok(SensorReplyView::Slot(x)) ==> {
                ||| c is Enroll && number("enrolled"@, 255) == Some(x as nat)
                ||| c is Delete && number("deleted"@, 255) == Some(x as nat)
            }
            &&& reply_spec(c, line) matches Ok(SensorReplyView::Count(n)) ==> c is Count && number(
                "count"@,
                65535,
            ) == Some(n as nat)
            &&& reply_spec(c, line) matches Ok(SensorReplyView::Flag(b)) ==> c is Wake && (b
                <==> crate::token::field_value(body, "wake"@) == Some("1"@))
            &&& reply_spec(c, line) matches Ok(SensorReplyView::Done) ==> c is Clear || c is LedOff
            &&& reply_spec(c, line) matches Ok(SensorReplyView::Info(i)) ==> {
                &&& c is Info
                &&& number("capacity"@, 65535) == Some(i.capacity as nat) || (number(
                    "capacity"@,
                    65535,
                ) is None && i.capacity == 0)
                &&& number("enrolled"@, 65535) == Some(i.enrolled as nat) || (number(
                    "enrolled"@,
                    65535,
                ) is None && i.enrolled == 0)
                &&& number("security"@, 255) == Some(i.security as nat) || (number(
                    "security"@,
                    255,
                ) is None && i.security == 0)
                &&& crate::token::field_value(body, "fw"@) == Some(i.fw) || i.fw.len() == 0
                &&& crate::token::field_value(body, "sysid"@) == Some(i.sysid) || i.sysid.len()
                    == 0
                &&& crate::token::field_value(body, "device_addr"@) == Some(i.device_addr)
                    || i.device_addr.len() == 0
            }
        }),
{
}

proof fn lemma_good_reply(fs: Seq<(Seq<char>, Seq<char>)>)
    requires
        crate::token::are_fields(fs),
    ensures
        expect_ok_spec("OK "@ + crate::token::fields_text(fs)) == Ok::<_, SensorErrorView>(
            crate::token::fields_text(fs),
        ),
{
    if fs.len() > 0 {
        crate::token::lemma_fields_have_no_outer_space(fs);
    }
    lemma_final_line_is_read(crate::token::fields_text(fs), Seq::empty(), Seq::empty());
}

/// A number that a field gives in decimal is read as that number, whatever other
/// fields stand beside it; a field that is missing is not made up.
pub proof fn lemma_number_field(
    fs: Seq<(Seq<char>, Seq<char>)>,
    key: Seq<char>,
    n: nat,
    max: nat,
)
    requires
        crate::token::are_fields(fs),
        n <= max,
    ensures
        crate::token::is_field(fs, key, crate::text::decimal(n)) ==> number_field_spec(
            crate::token::fields_text(fs),
            key,
            max,
        ) == Ok::<_, SensorErrorView>(n),
        crate::token::has_no_field(fs, key) ==> number_field_spec(
            crate::token::fields_text(fs),
            key,
            max,
        ) == Err::<nat, _>(SensorErrorView::Protocol("missing "@ + key)),
{
    crate::token::lemma_fields_read_back(fs, key, crate::text::decimal(n));
    crate::text::lemma_number_of_decimal(n, max);
}

/// The slot that a finger matched and how well it did are read as the board wrote
/// them; a reply that lacks either is no match.
pub proof fn lemma_match_is_read(
    c: SensorCommand,
    fs: Seq<(Seq<char>, Seq<char>)>,
    m: MatchResult,
)
    requires
        c is Verify || c is Identify,
        crate::token::are_fields(fs),
    ensures
        crate::token::is_field(fs, "match"@, crate::text::decimal(m.slot as nat))
            && crate::token::is_field(
            fs,
            "confidence"@,
            crate::text::decimal(m.confidence as nat),
        ) ==> reply_spec(c, "OK "@ + crate::token::fields_text(fs)) == Ok::<_, SensorErrorView>(
            SensorReplyView::Match(m),
        ),
        crate::token::has_no_field(fs, "match"@) || crate::token::has_no_field(fs, "confidence"@)
            ==> reply_spec(c, "OK "@ + crate::token::fields_text(fs)) is Err,
{
    lemma_good_reply(fs);
    lemma_number_field(fs, "match"@, m.slot as nat, 255);
    lemma_number_field(fs, "confidence"@, m.confidence as nat, 65535);
}

/// No match is read but out of a good answer that names it.
pub proof fn lemma_match_is_not_made_up(c: SensorCommand, line: Seq<char>)
    ensures
        reply_spec(c, line) matches Ok(SensorReplyView::Match(m)) ==> {
            let body = crate::token::trimmed(line.skip(2));
            &&& c is Verify || c is Identify
            &&& crate::token::has_prefix(line, "OK"@)
            &&& crate::token::field_value(body, "match"@) matches Some(v)
                && crate::text::number_value(vstd::utf8::encode_utf8(v), 255) == Some(
                m.slot as nat,
            )
            &&& crate::token::field_value(body, "confidence"@) matches Some(v)
                && crate::text::number_value(vstd::utf8::encode_utf8(v), 65535) == Some(
                m.confidence as nat,
            )
        },
{
}

/// The slot that was enrolled or deleted, and the number of prints, are read as
/// the board wrote them.
pub proof fn lemma_slots_and_counts_are_read(
    fs: Seq<(Seq<char>, Seq<char>)>,
    asked: u8,
    slot: u8,
    n: u16,
)
    requires
        crate::token::are_fields(fs),
    ensures
        crate::token::is_field(fs, "enrolled"@, crate::text::decimal(slot as nat)) ==> reply_spec(
            SensorCommand::Enroll(asked),
            "OK "@ + crate::token::fields_text(fs),
        ) == Ok::<_, SensorErrorView>(SensorReplyView::Slot(slot)),
        crate::token::is_field(fs, "deleted"@, crate::text::decimal(slot as nat)) ==> reply_spec(
            SensorCommand::Delete(asked),
            "OK "@ + crate::token::fields_text(fs),
        ) == Ok::<_, SensorErrorView>(SensorReplyView::Slot(slot)),
        crate::token::is_field(fs, "count"@, crate::text::decimal(n as nat)) ==> reply_spec(
            SensorCommand::Count,
            "OK "@ + crate::token::fields_text(fs),
        ) == Ok::<_, SensorErrorView>(SensorReplyView::Count(n)),
        crate::token::has_no_field(fs, "enrolled"@) ==> reply_spec(
            SensorCommand::Enroll(asked),
            "OK "@ + crate::token::fields_text(fs),
        ) is Err,
        crate::token::has_no_field(fs, "deleted"@) ==> reply_spec(
            SensorCommand::Delete(asked),
            "OK "@ + crate::token::fields_text(fs),
        ) is Err,
        crate::token::has_no_field(fs, "count"@) ==> reply_spec(
            SensorCommand::Count,
            "OK "@ + crate::token::fields_text(fs),
        ) is Err,
{
    lemma_good_reply(fs);
    lemma_number_field(fs, "enrolled"@, slot as nat, 255);
    lemma_number_field(fs, "deleted"@, slot as nat, 255);
    lemma_number_field(fs, "count"@, n as nat, 65535);
}

/// What the board says of itself is read as it wrote it, field by field.
pub proof fn lemma_info_is_read(fs: Seq<(Seq<char>, Seq<char>)>, i: SensorInfoView)
    requires
        crate::token::are_fields(fs),
        crate::token::is_field(fs, "fw"@, i.fw),
        crate::token::is_field(fs, "capacity"@, crate::text::decimal(i.capacity as nat)),
        crate::token::is_field(fs, "enrolled"@, crate::text::decimal(i.enrolled as nat)),
        crate::token::is_field(fs, "sysid"@, i.sysid),
        crate::token::is_field(fs, "security"@, crate::text::decimal(i.security as nat)),
        crate::token::is_field(fs, "device_addr"@, i.device_addr),
    ensures
        reply_spec(SensorCommand::Info, "OK "@ + crate::token::fields_text(fs)) == Ok::<
            _,
            SensorErrorView,
        >(SensorReplyView::Info(i)),
{
    lemma_good_reply(fs);
    crate::token::lemma_fields_read_back(fs, "fw"@, i.fw);
    crate::token::lemma_fields_read_back(fs, "sysid"@, i.sysid);
    crate::token::lemma_fields_read_back(fs, "device_addr"@, i.device_addr);
    lemma_number_field(fs, "capacity"@, i.capacity as nat, 65535);
    lemma_number_field(fs, "enrolled"@, i.enrolled as nat, 65535);
    lemma_number_field(fs, "security"@, i.security as nat, 255);
}

/// What the board leaves out of what it says of itself is empty, or zero.
pub proof fn lemma_info_left_out(fs: Seq<(Seq<char>, Seq<char>)>)
    requires
        crate::token::are_fields(fs),
    ensures
        reply_spec(SensorCommand::Info, "OK "@ + crate::token::fields_text(fs)) matches Ok(
            SensorReplyView::Info(i),
        ) && {
            &&& crate::token::has_no_field(fs, "fw"@) ==> i.fw.len() == 0
            &&& crate::token::has_no_field(fs, "capacity"@) ==> i.capacity == 0
            &&& crate::token::has_no_field(fs, "enrolled"@) ==> i.enrolled == 0
            &&& crate::token::has_no_field(fs, "sysid"@) ==> i.sysid.len() == 0
            &&& crate::token::has_no_field(fs, "security"@) ==> i.security == 0
            &&& crate::token::has_no_field(fs, "device_addr"@) ==> i.device_addr.len() == 0
        },
{
    let none = Seq::<char>::empty();
    lemma_good_reply(fs);
    crate::token::lemma_fields_read_back(fs, "fw"@, none);
    crate::token::lemma_fields_read_back(fs, "sysid"@, none);
    crate::token::lemma_fields_read_back(fs, "device_addr"@, none);
    lemma_number_field(fs, "capacity"@, 0, 65535);
    lemma_number_field(fs, "enrolled"@, 0, 65535);
    lemma_number_field(fs, "security"@, 0, 255);
}

/// The sensor is awake exactly where a good answer says so; the board is there
/// exactly where its answer starts as it should; and for the commands that only
/// succeed or fail, any good answer is success.
pub proof fn lemma_flags_are_read(fs: Seq<(Seq<char>, Seq<char>)>, line: Seq<char>)
    requires
        crate::token::are_fields(fs),
    ensures
        crate::token::is_field(fs, "wake"@, "1"@) ==> reply_spec(
            SensorCommand::Wake,
            "OK "@ + crate::token::fields_text(fs),
        ) == Ok::<_, SensorErrorView>(SensorReplyView::Flag(true)),
        crate::token::is_field(fs, "wake"@, "0"@) || crate::token::has_no_field(fs, "wake"@)
            ==> reply_spec(SensorCommand::Wake, "OK "@ + crate::token::fields_text(fs)) == Ok::<
            _,
            SensorErrorView,
        >(SensorReplyView::Flag(false)),
        reply_spec(SensorCommand::Ping, line) == Ok::<_, SensorErrorView>(
            SensorReplyView::Flag(crate::token::has_prefix(line, "OK pong"@)),
        ),
        crate::token::has_prefix(line, "OK"@) ==> reply_spec(SensorCommand::Clear, line) == Ok::<
            _,
            SensorErrorView,
        >(SensorReplyView::Done),
        crate::token::has_prefix(line, "OK"@) ==> reply_spec(SensorCommand::LedOff, line) == Ok::<
            _,
            SensorErrorView,
        >(SensorReplyView::Done),
{
    reveal_strlit("1");
    reveal_strlit("0");
    assert("1"@[0] != "0"@[0]);
    lemma_good_reply(fs);
    crate::token::lemma_fields_read_back(fs, "wake"@, "1"@);
    crate::token::lemma_fields_read_back(fs, "wake"@, "0"@);
}

/// A refusal of any command but the ping is handed on with its code and its
/// detail, and no command takes it for success.
pub proof fn lemma_refusal_is_read(c: SensorCommand, code: Seq<char>, detail: Seq<char>)
    requires
        c != SensorCommand::Ping,
        crate::token::is_unbroken(code),
    ensures
        reply_spec(c, "ERR "@ + code) == Err::<SensorReplyView, _>(
            SensorErrorView::Command { code, detail: None },
        ),
        reply_spec(c, "ERR "@ + code + " "@ + detail) == Err::<SensorReplyView, _>(
            SensorErrorView::Command { code, detail: Some(detail) },
        ),
{
    lemma_final_line_is_read(Seq::empty(), code, detail);
}

/// An error's words end with what went wrong, as it was told.
pub proof fn lemma_error_words(
    path: Seq<char>,
    what: Seq<char>,
    code: Seq<char>,
    kind: IoKind,
)
    ensures
        ({
            let t = sensor_error_text(SensorErrorView::OpenFailed { path, source: what });
            t == "could not open "@ + (path + ": "@ + what)
        }),
        ({
            let t = sensor_error_text(SensorErrorView::Io { kind, message: what });
            t.skip(t.len() - what.len()) == what
        }),
        ({
            let t = sensor_error_text(SensorErrorView::Timeout(what));
            t.skip(t.len() - what.len()) == what
        }),
        ({
            let t = sensor_error_text(SensorErrorView::Protocol(what));
            t.skip(t.len() - what.len()) == what
        }),
        ({
            let t = sensor_error_text(SensorErrorView::Command { code, detail: None });
            t.skip(t.len() - code.len()) == code
        }),
        ({
            let t = sensor_error_text(SensorErrorView::Command { code, detail: Some(what) });
            t.skip(t.len() - code.len() - 1 - what.len()) == code + " "@ + what
        }),
{
    reveal_strlit(" ");
    let a = sensor_error_text(SensorErrorView::OpenFailed { path, source: what });
    assert(a =~= "could not open "@ + (path + ": "@ + what));
    let b = sensor_error_text(SensorErrorView::Io { kind, message: what });
    assert(b.skip(b.len() - what.len()) =~= what);
    let c = sensor_error_text(SensorErrorView::Timeout(what));
    assert(c.skip(c.len() - what.len()) =~= what);
    let d = sensor_error_text(SensorErrorView::Protocol(what));
    assert(d.skip(d.len() - what.len()) =~= what);
    let e = sensor_error_text(SensorErrorView::Command { code, detail: None });
    assert(e.skip(e.len() - code.len()) =~= code);
    let f = sensor_error_text(SensorErrorView::Command { code, detail: Some(what) });
    assert(f.skip(f.len() - code.len() - 1 - what.len()) =~= code + " "@ + what);
}

/// The port that is picked is one of the names, has the prefix, and no name with
/// the prefix comes before it in the order of their bytes.
pub proof fn lemma_first_port(names: Seq<String>, prefix: Seq<char>, m: Seq<char>, i: int)
    requires
        is_first_with_prefix(names, prefix, m),
        0 <= i < names.len(),
        crate::token::has_prefix(names[i]@, prefix),
    ensures
        crate::token::texts(names).contains(m),
        crate::token::has_prefix(m, prefix),
        names[i]@ != m ==> !crate::token::text_le(names[i]@, m),
        any_with_prefix(names, prefix),
{
    let k = choose|k: int| 0 <= k < names.len() && #[trigger] names[k]@ == m;
    assert(crate::token::texts(names)[k] == m);
    assert(crate::token::text_le(m, names[i]@));
    crate::token::lemma_text_le_total(m, names[i]@);
}

} // verus!
