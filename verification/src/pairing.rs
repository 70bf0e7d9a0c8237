//! Pairing the sensor board with the host, undoing it, and repairing the
//! command counter, one step at a time.
//!
//! Each stage of a flow is a value that only the stage before can give, so that
//! no step comes before those that have to precede it.

use vstd::prelude::*;
use vstd::string::*;
use crate::channel::{ceiling_message, Channel, Ticket};
use crate::framing::{verify_response, FramingError, COUNTER_CEILING};
use crate::keystore::key_hex;
use crate::state::State;
use crate::text::{parse_number, push_decimal};
use crate::token::{field, push_text, starts_with, str_eq};
use crate::tpm::{parse_pcr_list, PcrError};

verus! {

// ---------- the link ----------

/// The words for a reply that did not come. They hold the label and nothing of
/// what was sent, which may be secret.
pub open spec fn timeout_text(label: Seq<char>) -> Seq<char> {
    "timeout reading reply to: "@ + label
}

/// The words for a reply that did not come to the command with this label.
pub fn timeout_context(label: &str) -> (s: String)
    ensures
        s@ == timeout_text(label@),
{
    let mut s = "timeout reading reply to: ".to_owned();
    s.append(label);
    s
}

/// Whether a line is a reply, rather than blank or news of progress.
pub fn is_reply(line: &str) -> (r: bool)
    ensures
        r == (line@.len() > 0 && !crate::token::has_prefix(line@, "PROGRESS "@)),
{
    line.unicode_len() > 0 && !starts_with(line, "PROGRESS ")
}

/// How long one ping may go unanswered, in nanoseconds.
pub const PING_NS: u64 = 800_000_000;

/// How long the board is pinged before the link is given up, in nanoseconds.
pub const HANDSHAKE_NS: u64 = 8_000_000_000;

/// Pinging the board until it answers.
#[derive(Debug)]
pub struct Handshake {
    deadline_ns: u64,
    attempt_ns: u64,
    last: Option<String>,
}

/// A [`Handshake`] as mathematics.
pub struct HandshakeView {
    /// When to give up.
    pub deadline_ns: u64,
    /// When to ping again.
    pub attempt_ns: u64,
    /// The last line that was no answer.
    pub last: Option<Seq<char>>,
}

impl View for Handshake {
    type V = HandshakeView;

    closed spec fn view(&self) -> HandshakeView {
        HandshakeView {
            deadline_ns: self.deadline_ns,
            attempt_ns: self.attempt_ns,
            last: crate::token::optional_text(self.last),
        }
    }
}

impl Handshake {
    /// A handshake that starts now.
    pub fn new(now_ns: u64) -> (h: Handshake)
        ensures
            h@.deadline_ns == if now_ns + HANDSHAKE_NS > u64::MAX {
                u64::MAX as int
            } else {
                now_ns + HANDSHAKE_NS
            },
            h@.attempt_ns == 0,
            h@.last is None,
    {
        let deadline_ns: u64 = now_ns.saturating_add(HANDSHAKE_NS);
        Handshake { deadline_ns, attempt_ns: 0, last: None }
    }

    /// Whether to ping; if so, the wait for the answer begins.
    pub fn ping(&mut self, now_ns: u64) -> (r: bool)
        ensures
            r == (now_ns < old(self)@.deadline_ns),
            final(self)@.deadline_ns == old(self)@.deadline_ns,
            final(self)@.last == old(self)@.last,
            final(self)@.attempt_ns == if !r {
                old(self)@.attempt_ns as int
            } else if now_ns + PING_NS > u64::MAX {
                u64::MAX as int
            } else {
                now_ns + PING_NS
            },
    {
        if now_ns < self.deadline_ns {
            self.attempt_ns = now_ns.saturating_add(PING_NS);
            true
        } else {
            false
        }
    }

    /// How long to wait for a line before pinging again, if at all.
    pub fn remaining(&self, now_ns: u64) -> (r: Option<u64>)
        ensures
            r == if now_ns < self@.attempt_ns {
                Some((self@.attempt_ns - now_ns) as u64)
            } else {
                None
            },
    {
        if now_ns < self.attempt_ns {
            Some(self.attempt_ns - now_ns)
        } else {
            None
        }
    }

    /// Whether a line is the answer; one that is not is remembered.
    pub fn on_line(&mut self, line: &str) -> (r: bool)
        ensures
            r == (line@ == "OK pong"@),
            final(self)@ == if r {
                old(self)@
            } else {
                HandshakeView { last: Some(line@), ..old(self)@ }
            },
    {
        if str_eq(line, "OK pong") {
            true
        } else {
            self.last = Some(line.to_owned());
            false
        }
    }

    /// The last line that was no answer.
    pub fn last_line(&self) -> (r: Option<&str>)
        ensures
            crate::token::optional_str(r) == self@.last,
    {
        match &self.last {
            Some(s) => Some(s.as_str()),
            None => None,
        }
    }
}

// ---------- the board's status ----------

/// What the board says of its pairing.
#[derive(Debug, Clone)]
pub struct FirmwareStatus {
    pub paired: bool,
    /// The last command counter that it took.
    pub counter: u64,
    pub fmt: u8,
    pub fw: String,
}

/// A [`FirmwareStatus`] as mathematics.
pub struct FirmwareStatusView {
    pub paired: bool,
    pub counter: u64,
    pub fmt: u8,
    pub fw: Seq<char>,
}

impl View for FirmwareStatus {
    type V = FirmwareStatusView;

    open spec fn view(&self) -> FirmwareStatusView {
        FirmwareStatusView {
            paired: self.paired,
            counter: self.counter,
            fmt: self.fmt,
            fw: self.fw@,
        }
    }
}

/// What is wrong with a status line.
#[derive(Debug)]
pub enum StatusError {
    /// The line does not start with `OK `.
    MissingOk(String),
    /// There is no such field, or it holds no such number.
    MissingPaired,
    MissingCounter,
    MissingFmt,
    MissingFw,
}

/// A [`StatusError`] as mathematics.
pub enum StatusErrorView {
    MissingOk(Seq<char>),
    MissingPaired,
    MissingCounter,
    MissingFmt,
    MissingFw,
}

impl View for StatusError {
    type V = StatusErrorView;

    open spec fn view(&self) -> StatusErrorView {
        match *self {
            StatusError::MissingOk(s) => StatusErrorView::MissingOk(s@),
            StatusError::MissingPaired => StatusErrorView::MissingPaired,
            StatusError::MissingCounter => StatusErrorView::MissingCounter,
            StatusError::MissingFmt => StatusErrorView::MissingFmt,
            StatusError::MissingFw => StatusErrorView::MissingFw,
        }
    }
}

/// The number of a field, where the field is there and holds one up to `max`.
pub open spec fn number_of(body: Seq<char>, key: Seq<char>, max: nat) -> Option<nat> {
    match crate::token::field_value(body, key) {
        None => None,
        Some(v) => crate::text::number_value(vstd::utf8::encode_utf8(v), max),
    }
}

/// What a status line says.
pub open spec fn status_spec(line: Seq<char>) -> Result<FirmwareStatusView, StatusErrorView> {
    if !crate::token::has_prefix(line, "OK "@) {
        Err(StatusErrorView::MissingOk(line))
    } else {
        let body = line.skip(3);
        match crate::token::field_value(body, "paired"@) {
            None => Err(StatusErrorView::MissingPaired),
            Some(paired) => match number_of(body, "counter"@, u64::MAX as nat) {
                None => Err(StatusErrorView::MissingCounter),
                Some(counter) => match number_of(body, "fmt"@, 255) {
                    None => Err(StatusErrorView::MissingFmt),
                    Some(fmt) => match crate::token::field_value(body, "fw"@) {
                        None => Err(StatusErrorView::MissingFw),
                        Some(fw) => Ok(
                            FirmwareStatusView {
                                paired: paired == "true"@,
                                counter: counter as u64,
                                fmt: fmt as u8,
                                fw,
                            },
                        ),
                    },
                },
            },
        }
    }
}

fn number_in(body: &str, key: &str, max: u64) -> (r: Option<u64>)
    ensures
        match r {
            Some(n) => number_of(body@, key@, max as nat) == Some(n as nat) && n <= max,
            None => number_of(body@, key@, max as nat) is None,
        },
{
    match field(body, key) {
        Some(v) => parse_number(v.as_str().as_bytes(), max),
        None => None,
    }
}

/// Reads a status line.
pub fn parse_status(line: &str) -> (r: Result<FirmwareStatus, StatusError>)
    ensures
        match r {
            Ok(s) => status_spec(line@) == Ok::<_, StatusErrorView>(s@),
            Err(e) => status_spec(line@) == Err::<FirmwareStatusView, _>(e@),
        },
{
    proof {
        reveal_strlit("OK ");
    }
    if !starts_with(line, "OK ") {
        return Err(StatusError::MissingOk(line.to_owned()));
    }
    let body = line.substring_char(3, line.unicode_len());
    assert(body@ =~= line@.skip(3));
    let paired = match field(body, "paired") {
        Some(v) => str_eq(v.as_str(), "true"),
        None => {
            return Err(StatusError::MissingPaired);
        },
    };
    let counter: u64 = match number_in(body, "counter", u64::MAX) {
        Some(n) => n,
        None => {
            return Err(StatusError::MissingCounter);
        },
    };
    let fmt: u8 = match number_in(body, "fmt", 255) {
        Some(n) => n as u8,
        None => {
            return Err(StatusError::MissingFmt);
        },
    };
    match field(body, "fw") {
        Some(fw) => Ok(FirmwareStatus { paired, counter, fmt, fw }),
        None => Err(StatusError::MissingFw),
    }
}

// ---------- the counter ----------

/// The words for a reported counter that is too high.
pub open spec fn reported_ceiling_text(reported: u64) -> Seq<char> {
    "reported counter "@ + crate::text::decimal(reported as nat)
        + " is at/above the reserved ceiling"@
}

/// The next command counter after the last one that the board reports; a report
/// that leads to the ceiling is refused, in words.
pub fn resync_target(reported_last_seen: u64) -> (r: Result<u64, String>)
    ensures
        match r {
            Ok(n) => reported_last_seen < COUNTER_CEILING - 1 && n == reported_last_seen + 1,
            Err(e) => reported_last_seen >= COUNTER_CEILING - 1 && e@ == reported_ceiling_text(
                reported_last_seen,
            ),
        },
{
    if reported_last_seen >= COUNTER_CEILING - 1 {
        let mut s = "reported counter ".to_owned();
        push_decimal(&mut s, reported_last_seen);
        s.append(" is at/above the reserved ceiling");
        Err(s)
    } else {
        Ok(reported_last_seen + 1)
    }
}

// ---------- why a flow stops ----------

/// Why a flow stops.
#[derive(Debug)]
#[allow(inconsistent_fields)]
pub enum FlowError {
    /// Nobody consented to pairing.
    OptInMissing,
    /// A key cannot be sealed without a TPM.
    NoTpm,
    /// The board's status makes no sense.
    Status(StatusError),
    /// The board is paired already.
    AlreadyPaired,
    /// The board did not take the key.
    RefusedPair(String),
    /// The board took the key and does not have it.
    NotCommitted,
    /// The list of PCRs is no such list.
    BadPcrs(PcrError),
    /// There is no TPM to seal anew to.
    NoTpmToReseal,
    /// Nobody consented to pairing anew.
    ResealOptInMissing,
    /// The board has not been wiped.
    NotWiped,
    /// Without a key there is nothing to bring back into step.
    NoKeyToResync,
    /// The board is not paired.
    NothingToResync,
    /// The board reports a counter that leads to the ceiling.
    ResyncCeiling(u64),
    /// Without a key the host cannot prove itself.
    NoKeyToUnpair,
    /// The host's counter has reached the ceiling.
    CounterCeiling(u64),
    /// The board answered without a frame.
    UnframedReply(String),
    /// The board's frame is not authentic.
    BadResponse { error: FramingError, line: String },
    /// The board answered another command.
    WrongCounter { got: u64, want: u64 },
    /// The board's frame is not the first of its answer.
    WrongSeq { got: u32, want: u32 },
    /// The board did not forget the key.
    RefusedUnpair(String),
    /// The board says that it forgot the key and still has it.
    StillPaired,
}

/// A [`FlowError`] as mathematics.
#[allow(inconsistent_fields)]
pub enum FlowErrorView {
    OptInMissing,
    NoTpm,
    Status(StatusErrorView),
    AlreadyPaired,
    RefusedPair(Seq<char>),
    NotCommitted,
    BadPcrs(crate::tpm::PcrErrorView),
    NoTpmToReseal,
    ResealOptInMissing,
    NotWiped,
    NoKeyToResync,
    NothingToResync,
    ResyncCeiling(u64),
    NoKeyToUnpair,
    CounterCeiling(u64),
    UnframedReply(Seq<char>),
    BadResponse { error: FramingError, line: Seq<char> },
    WrongCounter { got: u64, want: u64 },
    WrongSeq { got: u32, want: u32 },
    RefusedUnpair(Seq<char>),
    StillPaired,
}

impl View for FlowError {
    type V = FlowErrorView;

    open spec fn view(&self) -> FlowErrorView {
        match *self {
            FlowError::OptInMissing => FlowErrorView::OptInMissing,
            FlowError::NoTpm => FlowErrorView::NoTpm,
            FlowError::Status(e) => FlowErrorView::Status(e@),
            FlowError::AlreadyPaired => FlowErrorView::AlreadyPaired,
            FlowError::RefusedPair(s) => FlowErrorView::RefusedPair(s@),
            FlowError::NotCommitted => FlowErrorView::NotCommitted,
            FlowError::BadPcrs(e) => FlowErrorView::BadPcrs(e@),
            FlowError::NoTpmToReseal => FlowErrorView::NoTpmToReseal,
            FlowError::ResealOptInMissing => FlowErrorView::ResealOptInMissing,
            FlowError::NotWiped => FlowErrorView::NotWiped,
            FlowError::NoKeyToResync => FlowErrorView::NoKeyToResync,
            FlowError::NothingToResync => FlowErrorView::NothingToResync,
            FlowError::ResyncCeiling(n) => FlowErrorView::ResyncCeiling(n),
            FlowError::NoKeyToUnpair => FlowErrorView::NoKeyToUnpair,
            FlowError::CounterCeiling(n) => FlowErrorView::CounterCeiling(n),
            FlowError::UnframedReply(s) => FlowErrorView::UnframedReply(s@),
            FlowError::BadResponse { error, line } => FlowErrorView::BadResponse {
                error,
                line: line@,
            },
            FlowError::WrongCounter { got, want } => FlowErrorView::WrongCounter { got, want },
            FlowError::WrongSeq { got, want } => FlowErrorView::WrongSeq { got, want },
            FlowError::RefusedUnpair(s) => FlowErrorView::RefusedUnpair(s@),
            FlowError::StillPaired => FlowErrorView::StillPaired,
        }
    }
}

/// The three key files, as they stand in a message.
pub open spec fn key_paths_text() -> Seq<char> {
    crate::keystore::KEY_TPM_PATH@ + " / "@ + crate::keystore::KEY_PATH@ + " / "@
        + crate::keystore::KEY_BAK_PATH@
}

/// The variant of a framing error, with what it holds.
pub open spec fn framing_error_debug(e: FramingError) -> Seq<char> {
    match e {
        FramingError::TooShort(n) => "TooShort("@ + crate::text::decimal(n as nat) + ")"@,
        FramingError::WrongLeader { expected } => "WrongLeader { expected: '"@ + seq![expected]
            + "' }"@,
        FramingError::MissingMacSuffix => "MissingMacSuffix"@,
        FramingError::InvalidMac => "InvalidMac"@,
        FramingError::InvalidCounter => "InvalidCounter"@,
        FramingError::InvalidSeq => "InvalidSeq"@,
        FramingError::MacMismatch => "MacMismatch"@,
    }
}

/// A status error in words; `shown` is how the offending line is shown.
pub open spec fn status_error_text(e: StatusErrorView, shown: Seq<char>) -> Seq<char> {
    match e {
        StatusErrorView::MissingOk(_) => "status reply missing OK: "@ + shown,
        StatusErrorView::MissingPaired => "status missing paired"@,
        StatusErrorView::MissingCounter => "status missing counter"@,
        StatusErrorView::MissingFmt => "status missing fmt"@,
        StatusErrorView::MissingFw => "status missing fw"@,
    }
}

/// Why a flow stops, in words; `shown` is how the offending text is shown.
pub open spec fn flow_error_text(e: FlowErrorView, shown: Seq<char>) -> Seq<char> {
    match e {
        FlowErrorView::OptInMissing => "host opt-in missing: create "@
            + crate::keystore::ALLOW_PAIR_PATH@
            + " to authorize pairing\n(this gate defeats the attacker-races-to-pair scenario)"@,
        FlowErrorView::NoTpm => "--seal-tpm requested but "@ + crate::tpm::TPM_DEVICE@
            + " not present on this host"@,
        FlowErrorView::Status(s) => status_error_text(s, shown),
        FlowErrorView::AlreadyPaired =>
            "Nano already paired; run `--unpair` first or reflash-to-wipe"@,
        FlowErrorView::RefusedPair(_) => "Nano refused pair: "@ + shown,
        FlowErrorView::NotCommitted =>
            "paired ok but status still reports paired=false \u{2014} EEPROM not committed?"@,
        FlowErrorView::BadPcrs(p) => crate::tpm::pcr_error_text(p, shown),
        FlowErrorView::NoTpmToReseal => "no TPM device present at "@ + crate::tpm::TPM_DEVICE@
            + " \u{2014} nothing to reseal against"@,
        FlowErrorView::ResealOptInMissing => "host opt-in missing: create "@
            + crate::keystore::ALLOW_PAIR_PATH@
            + " before reseal\n(the reseal flow re-pairs the Nano with a fresh key; same gate as --pair)"@,
        FlowErrorView::NotWiped =>
            "Nano still reports paired=true \u{2014} the reseal flow expects a wiped Nano.\nRun `dist/reseal-tpm.sh` instead of calling --reseal-tpm directly, or reflash firmware/r503fp_wipe/ + firmware/r503fp/ manually first."@,
        FlowErrorView::NoKeyToResync => "no host key at "@ + key_paths_text()
            + "; --resync only recovers a lost state.json while the key still exists.\nWith no key, re-pair instead (`--unpair` then `--pair`, or reflash-to-wipe + `--pair`)."@,
        FlowErrorView::NothingToResync =>
            "Nano reports paired=false \u{2014} nothing to resync against. Pair first with `--pair`."@,
        FlowErrorView::ResyncCeiling(n) => "Nano reported counter "@ + crate::text::decimal(
            n as nat,
        )
            + " in the reserved ceiling band \u{2014} refusing to resync (suspected MITM or corrupt EEPROM). Reflash-to-wipe (firmware/r503fp_wipe) + re-pair to reset."@,
        FlowErrorView::NoKeyToUnpair => "no host key at "@ + key_paths_text()
            + "; cannot authenticate unpair.\nFor the lost-key case, use reflash-to-wipe (firmware/r503fp_wipe/)."@,
        FlowErrorView::CounterCeiling(n) => crate::channel::ceiling_text(n),
        FlowErrorView::UnframedReply(_) => "Nano refused framed unpair (unframed reply): "@
            + shown,
        FlowErrorView::BadResponse { error, line } => "response framing: "@ + framing_error_debug(
            error,
        ) + " (line: "@ + shown + ")"@,
        FlowErrorView::WrongCounter { got, want } => "unpair response counter mismatch: got "@
            + crate::text::decimal(got as nat) + ", want "@ + crate::text::decimal(want as nat),
        FlowErrorView::WrongSeq { got, want } => "unpair response seq mismatch: got "@
            + crate::text::decimal(got as nat) + ", want "@ + crate::text::decimal(want as nat),
        FlowErrorView::RefusedUnpair(_) => "Nano refused unpair: "@ + shown,
        FlowErrorView::StillPaired =>
            "unpair ok but status still reports paired=true \u{2014} EEPROM not committed?"@,
    }
}

fn three(a: &str, b: &str, c: &str) -> (s: String)
    ensures
        s@ == a@ + b@ + c@,
{
    let mut s = a.to_owned();
    s.append(b);
    s.append(c);
    s
}

fn key_paths() -> (s: String)
    ensures
        s@ == key_paths_text(),
{
    let mut s = crate::keystore::KEY_TPM_PATH.to_owned();
    s.append(" / ");
    s.append(crate::keystore::KEY_PATH);
    s.append(" / ");
    s.append(crate::keystore::KEY_BAK_PATH);
    s
}

fn framing_debug(e: FramingError) -> (s: String)
    ensures
        s@ == framing_error_debug(e),
{
    match e {
        FramingError::TooShort(n) => {
            let mut s = "TooShort(".to_owned();
            push_decimal(&mut s, n as u64);
            s.append(")");
            s
        },
        FramingError::WrongLeader { expected } => {
            let mut s = "WrongLeader { expected: '".to_owned();
            s.push(expected);
            s.append("' }");
            assert(s@ =~= "WrongLeader { expected: '"@ + seq![expected] + "' }"@);
            s
        },
        FramingError::MissingMacSuffix => "MissingMacSuffix".to_owned(),
        FramingError::InvalidMac => "InvalidMac".to_owned(),
        FramingError::InvalidCounter => "InvalidCounter".to_owned(),
        FramingError::InvalidSeq => "InvalidSeq".to_owned(),
        FramingError::MacMismatch => "MacMismatch".to_owned(),
    }
}

impl StatusError {
    /// The error in words; `shown` is how the offending line is shown.
    pub fn message(&self, shown: &str) -> (s: String)
        ensures
            s@ == status_error_text(self@, shown@),
    {
        match self {
            StatusError::MissingOk(_) => {
                let mut s = "status reply missing OK: ".to_owned();
                s.append(shown);
                s
            },
            StatusError::MissingPaired => "status missing paired".to_owned(),
            StatusError::MissingCounter => "status missing counter".to_owned(),
            StatusError::MissingFmt => "status missing fmt".to_owned(),
            StatusError::MissingFw => "status missing fw".to_owned(),
        }
    }
}

impl FlowError {
    /// Why the flow stops, in words; `shown` is how the offending text is shown.
    pub fn message(&self, shown: &str) -> (s: String)
        ensures
            s@ == flow_error_text(self@, shown@),
    {
        match self {
            FlowError::OptInMissing => three(
                "host opt-in missing: create ",
                crate::keystore::ALLOW_PAIR_PATH,
                " to authorize pairing\n(this gate defeats the attacker-races-to-pair scenario)",
            ),
            FlowError::NoTpm => three(
                "--seal-tpm requested but ",
                crate::tpm::TPM_DEVICE,
                " not present on this host",
            ),
            FlowError::Status(e) => e.message(shown),
            FlowError::AlreadyPaired =>
                "Nano already paired; run `--unpair` first or reflash-to-wipe".to_owned(),
            FlowError::RefusedPair(_) => {
                let mut s = "Nano refused pair: ".to_owned();
                s.append(shown);
                s
            },
            FlowError::NotCommitted =>
                "paired ok but status still reports paired=false \u{2014} EEPROM not committed?".to_owned(),
            FlowError::BadPcrs(e) => e.message(shown),
            FlowError::NoTpmToReseal => three(
                "no TPM device present at ",
                crate::tpm::TPM_DEVICE,
                " \u{2014} nothing to reseal against",
            ),
            FlowError::ResealOptInMissing => three(
                "host opt-in missing: create ",
                crate::keystore::ALLOW_PAIR_PATH,
                " before reseal\n(the reseal flow re-pairs the Nano with a fresh key; same gate as --pair)",
            ),
            FlowError::NotWiped =>
                "Nano still reports paired=true \u{2014} the reseal flow expects a wiped Nano.\nRun `dist/reseal-tpm.sh` instead of calling --reseal-tpm directly, or reflash firmware/r503fp_wipe/ + firmware/r503fp/ manually first.".to_owned(),
            FlowError::NoKeyToResync => three(
                "no host key at ",
                key_paths().as_str(),
                "; --resync only recovers a lost state.json while the key still exists.\nWith no key, re-pair instead (`--unpair` then `--pair`, or reflash-to-wipe + `--pair`).",
            ),
            FlowError::NothingToResync =>
                "Nano reports paired=false \u{2014} nothing to resync against. Pair first with `--pair`.".to_owned(),
            FlowError::ResyncCeiling(n) => {
                let mut s = "Nano reported counter ".to_owned();
                push_decimal(&mut s, *n);
                s.append(
                    " in the reserved ceiling band \u{2014} refusing to resync (suspected MITM or corrupt EEPROM). Reflash-to-wipe (firmware/r503fp_wipe) + re-pair to reset.",
                );
                s
            },
            FlowError::NoKeyToUnpair => three(
                "no host key at ",
                key_paths().as_str(),
                "; cannot authenticate unpair.\nFor the lost-key case, use reflash-to-wipe (firmware/r503fp_wipe/).",
            ),
            FlowError::CounterCeiling(n) => ceiling_message(*n),
            FlowError::UnframedReply(_) => {
                let mut s = "Nano refused framed unpair (unframed reply): ".to_owned();
                s.append(shown);
                s
            },
            FlowError::BadResponse { error, line: _ } => {
                let mut s = "response framing: ".to_owned();
                s.append(framing_debug(*error).as_str());
                s.append(" (line: ");
                s.append(shown);
                s.append(")");
                s
            },
            FlowError::WrongCounter { got, want } => {
                let mut s = "unpair response counter mismatch: got ".to_owned();
                push_decimal(&mut s, *got);
                s.append(", want ");
                push_decimal(&mut s, *want);
                s
            },
            FlowError::WrongSeq { got, want } => {
                let mut s = "unpair response seq mismatch: got ".to_owned();
                push_decimal(&mut s, *got as u64);
                s.append(", want ");
                push_decimal(&mut s, *want as u64);
                s
            },
            FlowError::RefusedUnpair(_) => {
                let mut s = "Nano refused unpair: ".to_owned();
                s.append(shown);
                s
            },
            FlowError::StillPaired =>
                "unpair ok but status still reports paired=true \u{2014} EEPROM not committed?".to_owned(),
        }
    }
}

/// The board's status, or why a flow stops at it.
pub open spec fn flow_status(line: Seq<char>) -> Result<FirmwareStatusView, FlowErrorView> {
    match status_spec(line) {
        Ok(s) => Ok(s),
        Err(e) => Err(FlowErrorView::Status(e)),
    }
}

fn read_status(line: &str) -> (r: Result<FirmwareStatus, FlowError>)
    ensures
        match r {
            Ok(s) => flow_status(line@) == Ok::<_, FlowErrorView>(s@),
            Err(e) => flow_status(line@) == Err::<FirmwareStatusView, _>(e@),
        },
{
    match parse_status(line) {
        Ok(s) => Ok(s),
        Err(e) => Err(FlowError::Status(e)),
    }
}

// ---------- pairing ----------

/// A request to pair that the host consents to.
pub struct PairRequest {
    seal: bool,
}

/// A board that can be offered a key.
pub struct PairOffer {
    seal: bool,
}

/// A board that can be sent a key, once the consent has been withdrawn.
pub struct PairGate {
    seal: bool,
}

/// A key on its way to the board.
pub struct PairSent {
    seal: bool,
    key: [u8; 16],
}

/// A key that the board says it took.
pub struct PairTaken {
    seal: bool,
    key: [u8; 16],
}

/// A board that has the key.
pub struct Paired {
    seal: bool,
    key: [u8; 16],
    status: FirmwareStatus,
}

impl PairRequest {
    /// Whether the key is to be sealed.
    pub closed spec fn seals(self) -> bool {
        self.seal
    }

    /// Starts pairing. Without the host's consent nothing happens, nor where a
    /// key is to be sealed and there is no TPM.
    pub fn new(allow_pair: bool, seal: bool, tpm_present: bool) -> (r: Result<
        PairRequest,
        FlowError,
    >)
        ensures
            match r {
                Ok(q) => allow_pair && (seal ==> tpm_present) && q.seals() == seal,
                Err(e) => e@ == if !allow_pair {
                    FlowErrorView::OptInMissing
                } else {
                    FlowErrorView::NoTpm
                } && !(allow_pair && (seal ==> tpm_present)),
            },
    {
        if !allow_pair {
            return Err(FlowError::OptInMissing);
        }
        if seal && !tpm_present {
            return Err(FlowError::NoTpm);
        }
        Ok(PairRequest { seal })
    }

    /// Goes on if the board, by its status line, is not paired yet.
    pub fn probed(self, status_line: &str) -> (r: Result<PairOffer, FlowError>)
        ensures
            match flow_status(status_line@) {
                Err(e) => r matches Err(x) && x@ == e,
                Ok(s) => if s.paired {
                    r matches Err(x) && x@ == FlowErrorView::AlreadyPaired
                } else {
                    r matches Ok(o) && o.seals() == self.seals()
                },
            },
    {
        match read_status(status_line) {
            Err(e) => Err(e),
            Ok(s) => {
                if s.paired {
                    Err(FlowError::AlreadyPaired)
                } else {
                    Ok(PairOffer { seal: self.seal })
                }
            },
        }
    }
}

/// The steps that withdraw the consent to pairing.
pub open spec fn gate_ops() -> Seq<crate::files::FileOpView> {
    seq![crate::files::FileOpView::Remove(crate::keystore::ALLOW_PAIR_PATH@)]
}

impl PairOffer {
    /// Whether the key is to be sealed.
    pub closed spec fn seals(self) -> bool {
        self.seal
    }

    /// The steps that withdraw the consent, and what follows once they are done.
    /// There is no other way to send a key: a failure from here on needs a new
    /// consent.
    pub fn close_gate(self) -> (r: (Vec<crate::files::FileOp>, PairGate))
        ensures
            crate::files::ops_view(r.0@) == gate_ops(),
            r.1.seals() == self.seals(),
    {
        (crate::keystore::remove_allow_pair(), PairGate { seal: self.seal })
    }
}

impl PairGate {
    /// Whether the key is to be sealed.
    pub closed spec fn seals(self) -> bool {
        self.seal
    }

    /// Goes on with a fresh key, now that the consent has been withdrawn.
    pub fn closed(self, key: [u8; 16]) -> (s: PairSent)
        ensures
            s.seals() == self.seals(),
            s.key_bytes() == key@,
    {
        PairSent { seal: self.seal, key }
    }
}

impl PairSent {
    /// Whether the key is to be sealed.
    pub closed spec fn seals(self) -> bool {
        self.seal
    }

    /// The key.
    pub closed spec fn key_bytes(self) -> Seq<u8> {
        self.key@
    }

    /// The line that offers the key. It is secret; its label is not.
    pub fn wire(&self) -> (s: String)
        ensures
            s@ == "pair "@ + crate::text::hex_text(self.key_bytes()),
            crate::token::has_prefix(s@, "pair "@),
            crate::keystore::parse_key_spec(s@.skip(5)) == Ok::<_, crate::keystore::KeyErrorView>(
                self.key_bytes(),
            ),
    {
        proof {
            reveal_strlit("pair ");
            let t = "pair "@ + crate::text::hex_text(self.key@);
            assert(t.take(5) =~= "pair "@);
            assert(t.skip(5) =~= crate::text::hex_text(self.key@));
            crate::keystore::lemma_key_round_trip(self.key@);
        }
        let mut s = "pair ".to_owned();
        s.append(key_hex(&self.key).as_str());
        s
    }

    /// The label of that line.
    pub fn label(&self) -> (s: &'static str)
        ensures
            s@ == "pair"@,
    {
        "pair"
    }

    /// Goes on if the board, by its reply, took the key.
    pub fn replied(self, line: &str) -> (r: Result<PairTaken, FlowError>)
        ensures
            match r {
                Ok(t) => line@ == "OK paired"@ && t.seals() == self.seals() && t.key_bytes()
                    == self.key_bytes(),
                Err(e) => line@ != "OK paired"@ && e@ == FlowErrorView::RefusedPair(line@),
            },
    {
        if str_eq(line, "OK paired") {
            Ok(PairTaken { seal: self.seal, key: self.key })
        } else {
            Err(FlowError::RefusedPair(line.to_owned()))
        }
    }
}

impl PairTaken {
    /// Whether the key is to be sealed.
    pub closed spec fn seals(self) -> bool {
        self.seal
    }

    /// The key.
    pub closed spec fn key_bytes(self) -> Seq<u8> {
        self.key@
    }

    /// Goes on if the board, by its status line, has the key.
    pub fn confirmed(self, status_line: &str) -> (r: Result<Paired, FlowError>)
        ensures
            match flow_status(status_line@) {
                Err(e) => r matches Err(x) && x@ == e,
                Ok(s) => if !s.paired {
                    r matches Err(x) && x@ == FlowErrorView::NotCommitted
                } else {
                    r matches Ok(p) && p.seals() == self.seals() && p.key_bytes()
                        == self.key_bytes() && p.board() == s
                },
            },
    {
        match read_status(status_line) {
            Err(e) => Err(e),
            Ok(s) => {
                if !s.paired {
                    Err(FlowError::NotCommitted)
                } else {
                    Ok(Paired { seal: self.seal, key: self.key, status: s })
                }
            },
        }
    }
}

/// The PCRs to seal to, as they stand in a message.
pub open spec fn pcrs_label(list: Option<Seq<char>>) -> Seq<char> {
    match list {
        Some(s) => s,
        None => "7"@,
    }
}

/// What the operator is told of a pairing.
pub open spec fn pair_report(
    board: FirmwareStatusView,
    seal: bool,
    list: Option<Seq<char>>,
) -> Seq<Seq<char>> {
    let first = seq![
        "paired: fw="@ + board.fw + " fmt="@ + crate::text::decimal(board.fmt as nat)
            + " counter="@ + crate::text::decimal(board.counter as nat),
    ];
    let key = if seal {
        seq![
            "host key SEALED to TPM (PCRs "@ + pcrs_label(list) + "); blob at "@
                + crate::keystore::KEY_TPM_PATH@ + " (mode 0600)"@,
            "plaintext key + .bak removed \u{2014} recovery via `sudo dist/reseal-tpm.sh --pcrs "@
                + pcrs_label(list) + "` if any bound PCR changes"@,
        ]
    } else {
        seq![
            "host key written to "@ + crate::keystore::KEY_PATH@ + " (mode 0600)"@,
            "backup written to "@ + crate::keystore::KEY_BAK_PATH@ + " (mode 0400)"@,
        ]
    };
    first + key + seq![
        "state initialized at "@ + crate::state::STATE_PATH@ + " (next_cmd_counter=1)"@,
        "opt-in marker "@ + crate::keystore::ALLOW_PAIR_PATH@ + " closed before key send"@,
    ]
}

/// How a key is saved.
#[derive(Debug)]
pub enum KeyPlan {
    /// By these steps.
    Clear(Vec<crate::files::FileOp>),
    /// Sealed to these PCRs, and then as [`crate::keystore::save_key_sealed`]
    /// says.
    Seal(Vec<u8>),
}

impl Paired {
    /// Whether the key is to be sealed.
    pub closed spec fn seals(self) -> bool {
        self.seal
    }

    /// The key.
    pub closed spec fn key_bytes(self) -> Seq<u8> {
        self.key@
    }

    /// What the board says of itself.
    pub closed spec fn board(self) -> FirmwareStatusView {
        self.status@
    }

    /// The key to seal.
    pub fn key(&self) -> (k: &[u8; 16])
        ensures
            k@ == self.key_bytes(),
    {
        &self.key
    }

    /// How the key is saved: in the clear with its backup, or sealed to the PCRs
    /// of the list, or to PCR 7 where there is no list.
    pub fn key_plan(&self, list: Option<&str>) -> (r: Result<KeyPlan, FlowError>)
        ensures
            if !self.seals() {
                r matches Ok(KeyPlan::Clear(ops)) && crate::files::ops_view(ops@)
                    == crate::keystore::save_key_ops(self.key_bytes())
            } else {
                match list {
                    None => r matches Ok(KeyPlan::Seal(v)) && v@ == crate::tpm::DEFAULT_PCRS@,
                    Some(s) => match crate::tpm::parse_pcr_list_spec(s@) {
                        Ok(v) => r matches Ok(KeyPlan::Seal(w)) && w@ == v,
                        Err(e) => r matches Err(x) && x@ == FlowErrorView::BadPcrs(e),
                    },
                }
            },
    {
        if !self.seal {
            return Ok(KeyPlan::Clear(crate::keystore::save_key(&self.key)));
        }
        match list {
            None => {
                let mut v: Vec<u8> = Vec::new();
                v.push(7);
                assert(v@ =~= crate::tpm::DEFAULT_PCRS@);
                Ok(KeyPlan::Seal(v))
            },
            Some(s) => match parse_pcr_list(s) {
                Ok(v) => Ok(KeyPlan::Seal(v)),
                Err(e) => Err(FlowError::BadPcrs(e)),
            },
        }
    }

    /// The state to save: the board has seen no counter, so counting starts at
    /// one.
    pub fn state(&self) -> (s: State)
        ensures
            s.next_cmd_counter == 1,
    {
        State::fresh()
    }

    /// What the operator is told.
    pub fn report(&self, list: Option<&str>) -> (v: Vec<String>)
        ensures
            crate::token::texts(v@) == pair_report(
                self.board(),
                self.seals(),
                crate::token::optional_str(list),
            ),
    {
        let label: &str = match list {
            Some(s) => s,
            None => "7",
        };
        let mut v: Vec<String> = Vec::new();
        push_text(&mut v, status_line_of("paired: fw=", &self.status));
        if self.seal {
            let mut a = three("host key SEALED to TPM (PCRs ", label, "); blob at ");
            a.append(crate::keystore::KEY_TPM_PATH);
            a.append(" (mode 0600)");
            push_text(&mut v, a);
            push_text(
                &mut v,
                three(
                    "plaintext key + .bak removed \u{2014} recovery via `sudo dist/reseal-tpm.sh --pcrs ",
                    label,
                    "` if any bound PCR changes",
                ),
            );
        } else {
            push_text(
                &mut v,
                three("host key written to ", crate::keystore::KEY_PATH, " (mode 0600)"),
            );
            push_text(
                &mut v,
                three("backup written to ", crate::keystore::KEY_BAK_PATH, " (mode 0400)"),
            );
        }
        push_text(
            &mut v,
            three("state initialized at ", crate::state::STATE_PATH, " (next_cmd_counter=1)"),
        );
        push_text(
            &mut v,
            three("opt-in marker ", crate::keystore::ALLOW_PAIR_PATH, " closed before key send"),
        );
        assert(crate::token::texts(v@) =~= pair_report(
            self.board(),
            self.seals(),
            crate::token::optional_str(list),
        ));
        v
    }
}

fn status_line_of(lead: &str, s: &FirmwareStatus) -> (r: String)
    ensures
        r@ == lead@ + s@.fw + " fmt="@ + crate::text::decimal(s@.fmt as nat) + " counter="@
            + crate::text::decimal(s@.counter as nat),
{
    let mut r = lead.to_owned();
    r.append(s.fw.as_str());
    r.append(" fmt=");
    push_decimal(&mut r, s.fmt as u64);
    r.append(" counter=");
    push_decimal(&mut r, s.counter);
    r
}

// ---------- sealing anew ----------

/// A request to seal anew on a host with a TPM that consents to pairing anew.
pub struct ResealRequest {
    tpm_present: bool,
    allow_pair: bool,
}

impl ResealRequest {
    #[verifier::type_invariant]
    spec fn granted(self) -> bool {
        self.tpm_present && self.allow_pair
    }

    /// Whether the host has a TPM.
    pub closed spec fn has_tpm(self) -> bool {
        self.tpm_present
    }

    /// Whether the host consents to pairing.
    pub closed spec fn consented(self) -> bool {
        self.allow_pair
    }
}

/// Starts sealing anew, which pairs a wiped board anew.
pub fn reseal_allowed(tpm_present: bool, allow_pair: bool) -> (r: Result<ResealRequest, FlowError>)
    ensures
        match r {
            Ok(q) => tpm_present && allow_pair && q.has_tpm() && q.consented(),
            Err(e) => !(tpm_present && allow_pair) && e@ == if !tpm_present {
                FlowErrorView::NoTpmToReseal
            } else {
                FlowErrorView::ResealOptInMissing
            },
        },
{
    if !tpm_present {
        return Err(FlowError::NoTpmToReseal);
    }
    if !allow_pair {
        return Err(FlowError::ResealOptInMissing);
    }
    Ok(ResealRequest { tpm_present, allow_pair })
}

/// Goes on with sealing anew if the board, by its status line, was wiped: the
/// steps that clear away the keys of the last pairing, and those that clear away
/// its counter. They are handed out only where there is a TPM and consent, too.
/// A failure of either is tolerated. Pairing follows.
pub fn run_reseal_tpm(request: ResealRequest, status_line: &str) -> (r: Result<
    (Vec<crate::files::FileOp>, Vec<crate::files::FileOp>),
    FlowError,
>)
    ensures
        r is Ok ==> request.has_tpm() && request.consented(),
        match flow_status(status_line@) {
            Err(e) => r matches Err(x) && x@ == e,
            Ok(s) => if s.paired {
                r matches Err(x) && x@ == FlowErrorView::NotWiped
            } else {
                r matches Ok((keys, state)) && crate::files::ops_view(keys@)
                    == crate::keystore::delete_all_ops() && crate::files::ops_view(state@) == seq![
                    crate::files::FileOpView::Remove(crate::state::STATE_PATH@),
                ]
            },
        },
{
    proof {
        use_type_invariant(&request);
    }
    match read_status(status_line) {
        Err(e) => Err(e),
        Ok(s) => {
            if s.paired {
                Err(FlowError::NotWiped)
            } else {
                Ok((crate::keystore::delete_all_keys(), crate::state::delete()))
            }
        },
    }
}

// ---------- bringing the counter back into step ----------

/// A request to bring the counter back into step, on a host that has the key.
pub struct ResyncRequest {
    has_key: bool,
}

impl ResyncRequest {
    #[verifier::type_invariant]
    spec fn granted(self) -> bool {
        self.has_key
    }

    /// Whether the host has the key.
    pub closed spec fn keyed(self) -> bool {
        self.has_key
    }
}

/// Starts bringing the counter back into step: the key has to be there.
pub fn resync_allowed(has_key: bool) -> (r: Result<ResyncRequest, FlowError>)
    ensures
        match r {
            Ok(q) => has_key && q.keyed(),
            Err(e) => !has_key && e@ == FlowErrorView::NoKeyToResync,
        },
{
    if has_key {
        Ok(ResyncRequest { has_key })
    } else {
        Err(FlowError::NoKeyToResync)
    }
}

/// The state to save, and the counter that the board reported, from its status
/// line.
pub open spec fn resync_spec(line: Seq<char>) -> Result<(State, u64), FlowErrorView> {
    match flow_status(line) {
        Err(e) => Err(e),
        Ok(s) => if !s.paired {
            Err(FlowErrorView::NothingToResync)
        } else if s.counter >= COUNTER_CEILING - 1 {
            Err(FlowErrorView::ResyncCeiling(s.counter))
        } else {
            Ok((State { next_cmd_counter: (s.counter + 1) as u64 }, s.counter))
        },
    }
}

/// The state to save, and the counter that the board reported, from its status
/// line. The counter moves past what the board has seen, and stays below the
/// ceiling. It is handed out only where the key is there, too.
pub fn run_resync(request: ResyncRequest, status_line: &str) -> (r: Result<
    (State, u64),
    FlowError,
>)
    ensures
        r is Ok ==> request.keyed(),
        match r {
            Ok(p) => resync_spec(status_line@) == Ok::<_, FlowErrorView>(p),
            Err(e) => resync_spec(status_line@) == Err::<(State, u64), _>(e@),
        },
{
    proof {
        use_type_invariant(&request);
    }
    match read_status(status_line) {
        Err(e) => Err(e),
        Ok(s) => {
            if !s.paired {
                return Err(FlowError::NothingToResync);
            }
            match resync_target(s.counter) {
                Ok(n) => Ok((State { next_cmd_counter: n }, s.counter)),
                Err(_) => Err(FlowError::ResyncCeiling(s.counter)),
            }
        },
    }
}

/// What the operator is told of a counter brought back into step.
pub open spec fn resync_report_spec(
    previous: Option<State>,
    next: State,
    last_seen: u64,
) -> Seq<Seq<char>> {
    let n = crate::text::decimal(next.next_cmd_counter as nat);
    let l = crate::text::decimal(last_seen as nat);
    seq![
        match previous {
            Some(s) => "resynced: next_cmd_counter "@ + crate::text::decimal(
                s.next_cmd_counter as nat,
            ) + " \u{2192} "@ + n + " (Nano last_seen="@ + l + ")"@,
            None => "resynced: next_cmd_counter set to "@ + n
                + " (state was missing; Nano last_seen="@ + l + ")"@,
        },
        "state written to "@ + crate::state::STATE_PATH@,
        "restart the daemon to pick up the new counter: systemctl start r503d"@,
    ]
}

/// What the operator is told of a counter brought back into step.
pub fn resync_report(previous: Option<State>, next: State, last_seen: u64) -> (v: Vec<String>)
    ensures
        crate::token::texts(v@) == resync_report_spec(previous, next, last_seen),
{
    let mut v: Vec<String> = Vec::new();
    let line = match previous {
        Some(s) => {
            let mut r = "resynced: next_cmd_counter ".to_owned();
            push_decimal(&mut r, s.next_cmd_counter);
            r.append(" \u{2192} ");
            push_decimal(&mut r, next.next_cmd_counter);
            r.append(" (Nano last_seen=");
            push_decimal(&mut r, last_seen);
            r.append(")");
            r
        },
        None => {
            let mut r = "resynced: next_cmd_counter set to ".to_owned();
            push_decimal(&mut r, next.next_cmd_counter);
            r.append(" (state was missing; Nano last_seen=");
            push_decimal(&mut r, last_seen);
            r.append(")");
            r
        },
    };
    push_text(&mut v, line);
    let mut at = "state written to ".to_owned();
    at.append(crate::state::STATE_PATH);
    push_text(&mut v, at);
    push_text(
        &mut v,
        "restart the daemon to pick up the new counter: systemctl start r503d".to_owned(),
    );
    assert(crate::token::texts(v@) =~= resync_report_spec(previous, next, last_seen));
    v
}

// ---------- unpairing ----------

/// A request to unpair, with the key to prove it.
pub struct UnpairRequest {
    key: [u8; 16],
}

/// What the board's status makes of a request to unpair.
pub enum UnpairProbe {
    /// The board has forgotten the key already: clear away the host's files in
    /// the clear by these steps. A failure is tolerated.
    AlreadyUnpaired(Vec<crate::files::FileOp>),
    /// Go on.
    Proceed(UnpairReady),
}

/// A board that can be asked to forget the key.
pub struct UnpairReady {
    key: [u8; 16],
}

/// The request with its counter; the state has to be on disk before it goes
/// out.
pub struct UnpairTicket {
    key: [u8; 16],
    counter: u64,
    ticket: Ticket,
}

/// The request on its way.
pub struct UnpairSent {
    key: [u8; 16],
    counter: u64,
}

/// A request that the board says it met.
pub struct UnpairTaken(());

impl UnpairRequest {
    /// The key.
    pub closed spec fn key_bytes(self) -> Seq<u8> {
        self.key@
    }

    /// Starts unpairing with the host's key, if there is one.
    pub fn new(key: Option<[u8; 16]>) -> (r: Result<UnpairRequest, FlowError>)
        ensures
            match key {
                Some(k) => r matches Ok(q) && q.key_bytes() == k@,
                None => r matches Err(e) && e@ == FlowErrorView::NoKeyToUnpair,
            },
    {
        match key {
            Some(key) => Ok(UnpairRequest { key }),
            None => Err(FlowError::NoKeyToUnpair),
        }
    }

    /// Goes on by the board's status line.
    pub fn probed(self, status_line: &str) -> (r: Result<UnpairProbe, FlowError>)
        ensures
            match flow_status(status_line@) {
                Err(e) => r matches Err(x) && x@ == e,
                Ok(s) => if s.paired {
                    r matches Ok(UnpairProbe::Proceed(u)) && u.key_bytes() == self.key_bytes()
                } else {
                    r matches Ok(UnpairProbe::AlreadyUnpaired(ops)) && crate::files::ops_view(ops@)
                        == crate::keystore::delete_key_ops()
                },
            },
    {
        match read_status(status_line) {
            Err(e) => Err(e),
            Ok(s) => {
                if s.paired {
                    Ok(UnpairProbe::Proceed(UnpairReady { key: self.key }))
                } else {
                    Ok(UnpairProbe::AlreadyUnpaired(crate::keystore::delete_key()))
                }
            },
        }
    }
}

/// The counter that a saved state gives, or the first one.
pub open spec fn counter_of(state: Option<State>) -> u64 {
    match state {
        Some(s) => s.next_cmd_counter,
        None => 1,
    }
}

impl UnpairReady {
    /// The key.
    pub closed spec fn key_bytes(self) -> Seq<u8> {
        self.key@
    }

    /// Gives the request its counter; one that has reached the ceiling is
    /// refused.
    pub fn ticket(self, state: Option<State>) -> (r: Result<UnpairTicket, FlowError>)
        ensures
            if counter_of(state) >= COUNTER_CEILING {
                r matches Err(e) && e@ == FlowErrorView::CounterCeiling(counter_of(state))
            } else {
                r matches Ok(t) && t.key_bytes() == self.key_bytes() && t.counter_value()
                    == counter_of(state)
            },
    {
        let mut channel = Channel::new(Some(self.key), state);
        let counter: u64 = match state {
            Some(s) => s.next_cmd_counter,
            None => 1,
        };
        match channel.begin("unpair") {
            Ok(ticket) => Ok(UnpairTicket { key: self.key, counter, ticket }),
            Err(_) => Err(FlowError::CounterCeiling(counter)),
        }
    }
}

impl UnpairTicket {
    #[verifier::type_invariant]
    spec fn consistent(self) -> bool {
        self.ticket@ == (crate::channel::TicketView {
            cmd: "unpair"@,
            key: Some(self.key@),
            counter: self.counter,
        })
    }

    /// The key.
    pub closed spec fn key_bytes(self) -> Seq<u8> {
        self.key@
    }

    /// The counter.
    pub closed spec fn counter_value(self) -> u64 {
        self.counter
    }

    /// The state that has to be on disk before the request goes out.
    pub fn to_persist(&self) -> (r: Option<State>)
        ensures
            r matches Some(s) && s.next_cmd_counter == self.counter_value() + 1,
    {
        proof {
            use_type_invariant(self);
        }
        self.ticket.to_persist()
    }

    /// The line to send, now that the state is on disk.
    pub fn persisted(self) -> (r: (String, UnpairSent))
        ensures
            r.0@ == crate::framing::command_frame(
                self.key_bytes(),
                self.counter_value(),
                "unpair"@,
            ),
            r.1.key_bytes() == self.key_bytes(),
            r.1.counter_value() == self.counter_value(),
    {
        proof {
            use_type_invariant(&self);
        }
        let key = self.key;
        let counter: u64 = self.counter;
        let (wire, _) = self.ticket.persisted();
        (wire, UnpairSent { key, counter })
    }
}

/// Why the board's reply to a request to unpair is none, if so. The reply has to
/// be authentic, for this very request, and the first line of its answer.
pub open spec fn unpair_refusal(key: Seq<u8>, counter: u64, line: Seq<char>) -> Option<
    FlowErrorView,
> {
    if !crate::token::has_prefix(line, "R "@) {
        Some(FlowErrorView::UnframedReply(line))
    } else {
        match crate::framing::verify_response_spec(key, line) {
            Err(error) => Some(FlowErrorView::BadResponse { error, line }),
            Ok((got, seq, body)) => if got != counter {
                Some(FlowErrorView::WrongCounter { got, want: counter })
            } else if seq != 0 {
                Some(FlowErrorView::WrongSeq { got: seq, want: 0 })
            } else if body != "OK unpaired"@ {
                Some(FlowErrorView::RefusedUnpair(body))
            } else {
                None
            },
        }
    }
}

impl UnpairSent {
    /// The key.
    pub closed spec fn key_bytes(self) -> Seq<u8> {
        self.key@
    }

    /// The counter.
    pub closed spec fn counter_value(self) -> u64 {
        self.counter
    }

    /// The label of the line on its way.
    pub fn label(&self) -> (s: &'static str)
        ensures
            s@ == "unpair"@,
    {
        "unpair"
    }

    /// Goes on if the board, by an authentic reply to this very request, forgot
    /// the key.
    pub fn replied(self, line: &str) -> (r: Result<UnpairTaken, FlowError>)
        ensures
            match r {
                Ok(_) => unpair_refusal(self.key_bytes(), self.counter_value(), line@) is None,
                Err(e) => unpair_refusal(self.key_bytes(), self.counter_value(), line@) == Some(
                    e@,
                ),
            },
    {
        if !starts_with(line, "R ") {
            return Err(FlowError::UnframedReply(line.to_owned()));
        }
        match verify_response(&self.key, line) {
            Err(error) => Err(FlowError::BadResponse { error, line: line.to_owned() }),
            Ok((got, seq, body)) => {
                if got != self.counter {
                    Err(FlowError::WrongCounter { got, want: self.counter })
                } else if seq != 0 {
                    Err(FlowError::WrongSeq { got: seq, want: 0 })
                } else if !str_eq(body, "OK unpaired") {
                    Err(FlowError::RefusedUnpair(body.to_owned()))
                } else {
                    Ok(UnpairTaken(()))
                }
            },
        }
    }
}

/// What the operator is told of an unpairing.
pub open spec fn unpair_report_spec(board: FirmwareStatusView) -> Seq<Seq<char>> {
    seq![
        "unpaired. fw="@ + board.fw + " fmt="@ + crate::text::decimal(board.fmt as nat)
            + " counter="@ + crate::text::decimal(board.counter as nat),
        "host key + state files removed (plaintext + sealed)."@,
    ]
}

/// The steps that remove every trace of a pairing from the host.
pub open spec fn forget_ops() -> Seq<crate::files::FileOpView> {
    crate::keystore::delete_all_ops().push(
        crate::files::FileOpView::Remove(crate::state::STATE_PATH@),
    )
}

fn forget_pairing() -> (ops: Vec<crate::files::FileOp>)
    ensures
        crate::files::ops_view(ops@) == forget_ops(),
{
    let ops = crate::files::then_ops(crate::keystore::delete_all_keys(), crate::state::delete());
    assert(crate::files::ops_view(ops@) =~= forget_ops());
    ops
}

impl UnpairTaken {
    /// Ends unpairing if the board, by its status line, has forgotten the key:
    /// what the board says of itself, and the steps that remove every trace of
    /// the pairing from the host.
    pub fn confirmed(self, status_line: &str) -> (r: Result<
        (FirmwareStatus, Vec<crate::files::FileOp>),
        FlowError,
    >)
        ensures
            match flow_status(status_line@) {
                Err(e) => r matches Err(x) && x@ == e,
                Ok(s) => if s.paired {
                    r matches Err(x) && x@ == FlowErrorView::StillPaired
                } else {
                    r matches Ok((b, ops)) && b@ == s && crate::files::ops_view(ops@) == forget_ops()
                },
            },
    {
        match read_status(status_line) {
            Err(e) => Err(e),
            Ok(s) => {
                if s.paired {
                    Err(FlowError::StillPaired)
                } else {
                    Ok((s, forget_pairing()))
                }
            },
        }
    }
}

/// What the operator is told of an unpairing.
pub fn unpair_report(board: &FirmwareStatus) -> (v: Vec<String>)
    ensures
        crate::token::texts(v@) == unpair_report_spec(board@),
{
    let mut v: Vec<String> = Vec::new();
    push_text(&mut v, status_line_of("unpaired. fw=", board));
    push_text(&mut v, "host key + state files removed (plaintext + sealed).".to_owned());
    assert(crate::token::texts(v@) =~= unpair_report_spec(board@));
    v
}

// ---------- reporting the pairing ----------

/// What is on the host.
#[derive(Clone, Copy, Debug, PartialEq, Eq, Structural)]
pub struct HostFacts {
    pub key: bool,
    pub backup: bool,
    pub sealed: bool,
    pub tpm_device: bool,
    pub allow_pair: bool,
    pub state: bool,
}

/// A path, or what stands in its place.
pub open spec fn path_or(there: bool, path: Seq<char>, otherwise: Seq<char>) -> Seq<char> {
    if there {
        path
    } else {
        otherwise
    }
}

/// Whether the host has the key in any form.
pub open spec fn host_has_key(h: HostFacts) -> bool {
    h.key || h.backup || h.sealed
}

/// The warnings about a pairing that is not in order.
pub open spec fn status_warnings(paired: bool, h: HostFacts) -> Seq<Seq<char>> {
    let mismatch = if paired && !host_has_key(h) {
        seq!["\nWARNING: firmware paired but no host key. Re-pair or reflash-to-wipe."@]
    } else if !paired && host_has_key(h) {
        seq![
            "\nWARNING: host key present but firmware unpaired. Stale key \u{2014} `--unpair` cannot succeed; delete host files manually."@,
        ]
    } else {
        Seq::empty()
    };
    let doubled = if h.sealed && (h.key || h.backup) {
        seq![
            "\nWARNING: both sealed and plaintext key files present. Sealed takes priority; the plaintext copies are stale and should be removed."@,
        ]
    } else {
        Seq::empty()
    };
    let lost = if paired && host_has_key(h) && !h.state {
        seq![
            "\nNOTE: paired with a host key but "@ + crate::state::STATE_PATH@
                + " is missing \u{2014} the next command would hit ERR replay. Run `r503d --resync` to recover the counter without re-pairing."@,
        ]
    } else {
        Seq::empty()
    };
    mismatch + doubled + lost
}

/// The pairing, as both sides have it.
pub open spec fn status_lines(port: Seq<char>, board: FirmwareStatusView, h: HostFacts) -> Seq<
    Seq<char>,
> {
    seq![
        "port:             "@ + port,
        "firmware:         fw="@ + board.fw + " fmt="@ + crate::text::decimal(board.fmt as nat),
        "firmware paired:  "@ + path_or(board.paired, "true"@, "false"@),
        "firmware counter: "@ + crate::text::decimal(board.counter as nat),
        "host key.tpm:     "@ + path_or(h.sealed, crate::keystore::KEY_TPM_PATH@, "(absent)"@),
        "host key:         "@ + path_or(h.key, crate::keystore::KEY_PATH@, "(missing)"@),
        "host key.bak:     "@ + path_or(h.backup, crate::keystore::KEY_BAK_PATH@, "(missing)"@),
        "tpm device:       "@ + path_or(h.tpm_device, crate::tpm::TPM_DEVICE@, "(absent)"@),
        "allow-pair:       "@ + path_or(
            h.allow_pair,
            crate::keystore::ALLOW_PAIR_PATH@,
            "(absent)"@,
        ),
    ] + status_warnings(board.paired, h)
}

fn two(a: &str, b: &str) -> (s: String)
    ensures
        s@ == a@ + b@,
{
    let mut s = a.to_owned();
    s.append(b);
    s
}

fn either<'a>(there: bool, path: &'a str, otherwise: &'a str) -> (s: &'a str)
    ensures
        s@ == path_or(there, path@, otherwise@),
{
    if there {
        path
    } else {
        otherwise
    }
}

fn push_warnings(v: &mut Vec<String>, paired: bool, h: HostFacts)
    ensures
        crate::token::texts(final(v)@) == crate::token::texts(old(v)@) + status_warnings(
            paired,
            h,
        ),
{
    let has_key = h.key || h.backup || h.sealed;
    if paired && !has_key {
        push_text(
            v,
            "\nWARNING: firmware paired but no host key. Re-pair or reflash-to-wipe.".to_owned(),
        );
    } else if !paired && has_key {
        push_text(
            v,
            "\nWARNING: host key present but firmware unpaired. Stale key \u{2014} `--unpair` cannot succeed; delete host files manually.".to_owned(),
        );
    }
    if h.sealed && (h.key || h.backup) {
        push_text(
            v,
            "\nWARNING: both sealed and plaintext key files present. Sealed takes priority; the plaintext copies are stale and should be removed.".to_owned(),
        );
    }
    if paired && has_key && !h.state {
        push_text(
            v,
            three(
                "\nNOTE: paired with a host key but ",
                crate::state::STATE_PATH,
                " is missing \u{2014} the next command would hit ERR replay. Run `r503d --resync` to recover the counter without re-pairing.",
            ),
        );
    }
    assert(crate::token::texts(v@) =~= crate::token::texts(old(v)@) + status_warnings(paired, h));
}

/// The pairing, as both sides have it: the lines to print.
pub fn run_status(port: &str, board: &FirmwareStatus, h: HostFacts) -> (v: Vec<String>)
    ensures
        crate::token::texts(v@) == status_lines(port@, board@, h),
{
    let mut v: Vec<String> = Vec::new();
    push_text(&mut v, two("port:             ", port));
    let mut fw = two("firmware:         fw=", board.fw.as_str());
    fw.append(" fmt=");
    push_decimal(&mut fw, board.fmt as u64);
    push_text(&mut v, fw);
    push_text(&mut v, two("firmware paired:  ", either(board.paired, "true", "false")));
    let mut counter = "firmware counter: ".to_owned();
    push_decimal(&mut counter, board.counter);
    push_text(&mut v, counter);
    push_text(
        &mut v,
        two("host key.tpm:     ", either(h.sealed, crate::keystore::KEY_TPM_PATH, "(absent)")),
    );
    push_text(
        &mut v,
        two("host key:         ", either(h.key, crate::keystore::KEY_PATH, "(missing)")),
    );
    push_text(
        &mut v,
        two("host key.bak:     ", either(h.backup, crate::keystore::KEY_BAK_PATH, "(missing)")),
    );
    push_text(
        &mut v,
        two("tpm device:       ", either(h.tpm_device, crate::tpm::TPM_DEVICE, "(absent)")),
    );
    push_text(
        &mut v,
        two(
            "allow-pair:       ",
            either(h.allow_pair, crate::keystore::ALLOW_PAIR_PATH, "(absent)"),
        ),
    );
    push_warnings(&mut v, board.paired, h);
    assert(crate::token::texts(v@) =~= status_lines(port@, board@, h));
    v
}

// ---------- laws ----------

/// Whatever the board reports, the counter brought back into step is above what
/// the board has seen, and the next command can use it.
pub proof fn lemma_resync_moves_past_the_board(line: Seq<char>, next: State, last_seen: u64)
    requires
        resync_spec(line) == Ok::<_, FlowErrorView>((next, last_seen)),
    ensures
        next.next_cmd_counter == last_seen + 1,
        next.next_cmd_counter < COUNTER_CEILING,
{
}

/// A reply is accepted as the end of a pairing exactly where the key vouches for
/// it, for the counter of this very request, for its place at the start of the
/// answer, and for the words.
pub proof fn lemma_unpair_needs_an_authentic_reply(key: Seq<u8>, counter: u64, line: Seq<char>)
    ensures
        unpair_refusal(key, counter, line) is None <==> crate::framing::parse_response_spec(line)
            == Ok::<_, FramingError>(
            (
                counter,
                0u32,
                "OK unpaired"@,
                crate::framing::response_mac(key, counter, 0, "OK unpaired"@),
            ),
        ),
{
    if crate::framing::parse_response_spec(line) is Ok {
        crate::framing::lemma_response_leader(line);
    }
}

/// What the holder of the key answers first to a request to unpair ends the
/// pairing, and the same words later in the answer do not.
pub proof fn lemma_first_reply_unpairs(key: Seq<u8>, counter: u64, seq: u32)
    ensures
        unpair_refusal(
            key,
            counter,
            crate::framing::response_frame(key, counter, seq, "OK unpaired"@),
        ) == if seq == 0 {
            None
        } else {
            Some(FlowErrorView::WrongSeq { got: seq, want: 0 })
        },
{
    let f = crate::framing::response_frame(key, counter, seq, "OK unpaired"@);
    crate::framing::lemma_response_round_trip(key, counter, seq, "OK unpaired"@);
    crate::framing::lemma_response_leader(f);
}

/// Once a board is paired, the consent is gone, whatever was on disk before; and
/// a key that is not sealed is the one that is loaded, from the key file and from
/// its backup alike.
pub proof fn lemma_pairing_uses_up_the_consent(d: crate::files::Disk, key: Seq<u8>)
    requires
        key.len() == 16,
    ensures
        ({
            let closed = crate::files::apply_ops(d, gate_ops(), 1);
            let saved = crate::files::apply_ops(closed, crate::keystore::save_key_ops(key), 6);
            let live = saved[crate::keystore::KEY_PATH@].data;
            let backup = saved[crate::keystore::KEY_BAK_PATH@].data;
            &&& !closed.dom().contains(crate::keystore::ALLOW_PAIR_PATH@)
            &&& !saved.dom().contains(crate::keystore::ALLOW_PAIR_PATH@)
            &&& saved.dom().contains(crate::keystore::KEY_PATH@)
            &&& saved.dom().contains(crate::keystore::KEY_BAK_PATH@)
            &&& crate::keystore::key_in_file(Some(vstd::utf8::decode_utf8(live))) == Some(key)
            &&& crate::keystore::key_in_file(Some(vstd::utf8::decode_utf8(backup))) == Some(key)
        }),
{
    reveal_with_fuel(crate::files::apply_ops, 7);
    let closed = crate::files::apply_ops(d, gate_ops(), 1);
    crate::keystore::lemma_saved_key_is_loaded(closed, key);
    reveal_strlit("/etc/r503d/allow-pair");
    reveal_strlit("/var/lib/r503d");
    reveal_strlit("/var/lib/r503d/key");
    reveal_strlit("/var/lib/r503d/key.tmp");
    reveal_strlit("/var/lib/r503d/key.bak");
    assert(crate::keystore::ALLOW_PAIR_PATH@[1] == 'e');
    assert(crate::keystore::KEY_PATH@[1] == 'v');
    assert(crate::keystore::KEY_TMP_PATH@[1] == 'v');
    assert(crate::keystore::KEY_BAK_PATH@[1] == 'v');
    assert(crate::keystore::KEY_DIR@[1] == 'v');
}

/// The words for a reply that did not come, to the request that holds the key
/// and to the one that holds a MAC, hold neither: no key in hexadecimal and no
/// MAC in hexadecimal occurs in them.
pub proof fn lemma_timeout_text_holds_no_secret(key: Seq<u8>, mac: u64)
    requires
        key.len() == 16,
    ensures
        !crate::token::contains_text(timeout_text("pair"@), crate::text::hex_text(key)),
        !crate::token::contains_text(timeout_text("unpair"@), crate::text::hex_text(key)),
        !crate::token::contains_text(timeout_text("pair"@), crate::crypto::mac_text(mac)),
        !crate::token::contains_text(timeout_text("unpair"@), crate::crypto::mac_text(mac)),
{
    reveal_with_fuel(crate::bytes::pow256, 9);
    crate::bytes::lemma_le_value_of_le_bytes(mac as nat, 8);
    lemma_no_hex_run(timeout_text("pair"@), key);
    lemma_no_hex_run(timeout_text("unpair"@), key);
    lemma_no_hex_run(timeout_text("pair"@), crate::bytes::le_bytes(mac as nat, 8));
    lemma_no_hex_run(timeout_text("unpair"@), crate::bytes::le_bytes(mac as nat, 8));
}

/// A text that is one of the two holds no eight bytes or more in hexadecimal:
/// among any sixteen of its characters there is a space.
proof fn lemma_no_hex_run(t: Seq<char>, b: Seq<u8>)
    requires
        t == timeout_text("pair"@) || t == timeout_text("unpair"@),
        b.len() >= 8,
    ensures
        !crate::token::contains_text(t, crate::text::hex_text(b)),
{
    reveal_strlit("timeout reading reply to: ");
    reveal_strlit("pair");
    reveal_strlit("unpair");
    let h = crate::text::hex_text(b);
    if crate::token::contains_text(t, h) {
        let i = choose|i: int|
            0 <= i <= t.len() - h.len() && #[trigger] t.subrange(i, i + h.len()) == h;
        assert forall|k: int| 0 <= k < h.len() implies (#[trigger] h[k]) as nat != 32 by {}
        assert(t[7] == ' ' && t[15] == ' ' && t[21] == ' ');
        let at: int = if i <= 7 {
            7
        } else if i <= 15 {
            15
        } else {
            21
        };
        assert(t.subrange(i, i + h.len())[at - i] == t[at]);
        assert(h[at - i] == ' ');
    }
}

spec fn no_key_warning() -> Seq<char> {
    "\nWARNING: firmware paired but no host key. Re-pair or reflash-to-wipe."@
}

spec fn stale_key_warning() -> Seq<char> {
    "\nWARNING: host key present but firmware unpaired. Stale key \u{2014} `--unpair` cannot succeed; delete host files manually."@
}

spec fn doubled_key_warning() -> Seq<char> {
    "\nWARNING: both sealed and plaintext key files present. Sealed takes priority; the plaintext copies are stale and should be removed."@
}

spec fn lost_counter_note() -> Seq<char> {
    "\nNOTE: paired with a host key but "@ + crate::state::STATE_PATH@
        + " is missing \u{2014} the next command would hit ERR replay. Run `r503d --resync` to recover the counter without re-pairing."@
}

proof fn lemma_warnings_differ()
    ensures
        no_key_warning().len() > 10,
        stale_key_warning().len() > 10,
        doubled_key_warning().len() > 10,
        lost_counter_note().len() > 10,
        no_key_warning()[0] == '\n',
        stale_key_warning()[0] == '\n',
        doubled_key_warning()[0] == '\n',
        lost_counter_note()[0] == '\n',
        no_key_warning()[1] == 'W',
        stale_key_warning()[1] == 'W',
        doubled_key_warning()[1] == 'W',
        lost_counter_note()[1] == 'N',
        no_key_warning()[10] == 'f',
        stale_key_warning()[10] == 'h',
        doubled_key_warning()[10] == 'b',
{
    reveal_strlit("\nWARNING: firmware paired but no host key. Re-pair or reflash-to-wipe.");
    reveal_strlit(
        "\nWARNING: host key present but firmware unpaired. Stale key \u{2014} `--unpair` cannot succeed; delete host files manually.",
    );
    reveal_strlit(
        "\nWARNING: both sealed and plaintext key files present. Sealed takes priority; the plaintext copies are stale and should be removed.",
    );
    reveal_strlit("\nNOTE: paired with a host key but ");
}

proof fn lemma_facts_are_no_warnings(port: Seq<char>, board: FirmwareStatusView, h: HostFacts)
    ensures
        ({
            let v = status_lines(port, board, h);
            &&& v.len() == 9 + status_warnings(board.paired, h).len()
            &&& v.skip(9) == status_warnings(board.paired, h)
            &&& forall|i: int| 0 <= i < 9 ==> (#[trigger] v[i]).len() > 0 && v[i][0] != '\n'
        }),
{
    reveal_strlit("port:             ");
    reveal_strlit("firmware:         fw=");
    reveal_strlit("firmware paired:  ");
    reveal_strlit("firmware counter: ");
    reveal_strlit("host key.tpm:     ");
    reveal_strlit("host key:         ");
    reveal_strlit("host key.bak:     ");
    reveal_strlit("tpm device:       ");
    reveal_strlit("allow-pair:       ");
    let v = status_lines(port, board, h);
    assert(v.skip(9) =~= status_warnings(board.paired, h));
}

/// The operator is warned exactly of what is out of order, by what is there:
/// of a missing host key where a paired board finds none of the key file, the
/// backup and the sealed key; of a stale one where any of them is there for a
/// board that is not paired; of a copy in the clear beside a sealed key; and of
/// a lost counter where a paired board and the key are there without it.
pub proof fn lemma_warnings(port: Seq<char>, board: FirmwareStatusView, h: HostFacts)
    ensures
        ({
            let v = status_lines(port, board, h);
            let none = !h.key && !h.backup && !h.sealed;
            &&& v.contains(
                "\nWARNING: firmware paired but no host key. Re-pair or reflash-to-wipe."@,
            ) <==> board.paired && none
            &&& v.contains(
                "\nWARNING: host key present but firmware unpaired. Stale key \u{2014} `--unpair` cannot succeed; delete host files manually."@,
            ) <==> !board.paired && !none
            &&& v.contains(
                "\nWARNING: both sealed and plaintext key files present. Sealed takes priority; the plaintext copies are stale and should be removed."@,
            ) <==> h.sealed && (h.key || h.backup)
            &&& v.contains(
                "\nNOTE: paired with a host key but "@ + crate::state::STATE_PATH@
                    + " is missing \u{2014} the next command would hit ERR replay. Run `r503d --resync` to recover the counter without re-pairing."@,
            ) <==> board.paired && !none && !h.state
        }),
{
    lemma_warnings_differ();
    lemma_facts_are_no_warnings(port, board, h);
    let v = status_lines(port, board, h);
    let w = status_warnings(board.paired, h);
    assert forall|t: Seq<char>| t.len() > 0 && t[0] == '\n' implies (#[trigger] v.contains(t)
        <==> w.contains(t)) by {
        if v.contains(t) {
            let i = choose|i: int| 0 <= i < v.len() && v[i] == t;
            assert(i >= 9);
            assert(v.skip(9)[i - 9] == t);
        }
        if w.contains(t) {
            let i = choose|i: int| 0 <= i < w.len() && w[i] == t;
            assert(v.skip(9)[i] == v[i + 9]);
        }
    }
    let none = !h.key && !h.backup && !h.sealed;
    let mismatch = (board.paired && none) || (!board.paired && !none);
    let doubled = h.sealed && (h.key || h.backup);
    let lost = board.paired && !none && !h.state;
    let a: int = if mismatch {
        1
    } else {
        0
    };
    let b: int = a + if doubled {
        1int
    } else {
        0
    };
    let c: int = b + if lost {
        1int
    } else {
        0
    };
    assert(w.len() == c);
    if mismatch {
        assert(w[0] == if board.paired {
            no_key_warning()
        } else {
            stale_key_warning()
        });
    }
    if doubled {
        assert(w[a] == doubled_key_warning());
    }
    if lost {
        assert(w[b] == lost_counter_note());
    }
    assert(v.contains(no_key_warning()) <==> w.contains(no_key_warning()));
    assert(v.contains(stale_key_warning()) <==> w.contains(stale_key_warning()));
    assert(v.contains(doubled_key_warning()) <==> w.contains(doubled_key_warning()));
    assert(v.contains(lost_counter_note()) <==> w.contains(lost_counter_note()));
}

/// The first nine lines tell what each side has: the port and the firmware as
/// they were named, whether the board is paired, its counter in decimal, and of
/// each file the path exactly where it is there.
pub proof fn lemma_status_tells_the_facts(port: Seq<char>, board: FirmwareStatusView, h: HostFacts)
    ensures
        ({
            let v = status_lines(port, board, h);
            &&& v.len() >= 9
            &&& v[0].skip(18) == port
            &&& crate::token::has_prefix(v[1].skip(21), board.fw)
            &&& v[2].skip(18) == "true"@ <==> board.paired
            &&& v[2].skip(18) == "false"@ <==> !board.paired
            &&& crate::text::number_value(
                vstd::utf8::encode_utf8(v[3].skip(18)),
                u64::MAX as nat,
            ) == Some(board.counter as nat)
            &&& v[4].skip(18) == crate::keystore::KEY_TPM_PATH@ <==> h.sealed
            &&& v[5].skip(18) == crate::keystore::KEY_PATH@ <==> h.key
            &&& v[6].skip(18) == crate::keystore::KEY_BAK_PATH@ <==> h.backup
            &&& v[7].skip(18) == crate::tpm::TPM_DEVICE@ <==> h.tpm_device
            &&& v[8].skip(18) == crate::keystore::ALLOW_PAIR_PATH@ <==> h.allow_pair
        }),
{
    lemma_facts_are_no_warnings(port, board, h);
    reveal_strlit("port:             ");
    reveal_strlit("firmware:         fw=");
    reveal_strlit("firmware paired:  ");
    reveal_strlit("firmware counter: ");
    reveal_strlit("host key.tpm:     ");
    reveal_strlit("host key:         ");
    reveal_strlit("host key.bak:     ");
    reveal_strlit("tpm device:       ");
    reveal_strlit("allow-pair:       ");
    reveal_strlit("true");
    reveal_strlit("false");
    reveal_strlit("(absent)");
    reveal_strlit("(missing)");
    reveal_strlit("/etc/r503d/allow-pair");
    reveal_strlit("/var/lib/r503d/key");
    reveal_strlit("/var/lib/r503d/key.bak");
    reveal_strlit("/var/lib/r503d/key.tpm");
    reveal_strlit("/dev/tpmrm0");
    let v = status_lines(port, board, h);
    assert("true"@.len() == 4 && "false"@.len() == 5);
    assert("(absent)"@[0] == '(' && "(missing)"@[0] == '(');
    assert(crate::keystore::ALLOW_PAIR_PATH@[0] == '/');
    assert(crate::keystore::KEY_PATH@[0] == '/');
    assert(crate::keystore::KEY_BAK_PATH@[0] == '/');
    assert(crate::keystore::KEY_TPM_PATH@[0] == '/');
    assert(crate::tpm::TPM_DEVICE@[0] == '/');
    assert(v[0].skip(18) =~= port);
    assert(v[1].skip(21).take(board.fw.len() as int) =~= board.fw);
    assert(v[2].skip(18) =~= path_or(board.paired, "true"@, "false"@));
    assert(v[3].skip(18) =~= crate::text::decimal(board.counter as nat));
    crate::text::lemma_number_of_decimal(board.counter as nat, u64::MAX as nat);
    assert(v[4].skip(18) =~= path_or(h.sealed, crate::keystore::KEY_TPM_PATH@, "(absent)"@));
    assert(v[5].skip(18) =~= path_or(h.key, crate::keystore::KEY_PATH@, "(missing)"@));
    assert(v[6].skip(18) =~= path_or(h.backup, crate::keystore::KEY_BAK_PATH@, "(missing)"@));
    assert(v[7].skip(18) =~= path_or(h.tpm_device, crate::tpm::TPM_DEVICE@, "(absent)"@));
    assert(v[8].skip(18) =~= path_or(
        h.allow_pair,
        crate::keystore::ALLOW_PAIR_PATH@,
        "(absent)"@,
    ));
}

/// What the board says of its pairing is read as it wrote it, whatever other
/// fields stand beside it: it is paired exactly where it says `true`.
pub proof fn lemma_status_is_read(
    fs: Seq<(Seq<char>, Seq<char>)>,
    paired: Seq<char>,
    board: FirmwareStatusView,
)
    requires
        crate::token::are_fields(fs),
        crate::token::is_field(fs, "paired"@, paired),
        crate::token::is_field(fs, "counter"@, crate::text::decimal(board.counter as nat)),
        crate::token::is_field(fs, "fmt"@, crate::text::decimal(board.fmt as nat)),
        crate::token::is_field(fs, "fw"@, board.fw),
        board.paired <==> paired == "true"@,
    ensures
        status_spec("OK "@ + crate::token::fields_text(fs)) == Ok::<_, StatusErrorView>(board),
{
    reveal_strlit("OK ");
    let line = "OK "@ + crate::token::fields_text(fs);
    assert(line.take(3) =~= "OK "@);
    assert(line.skip(3) =~= crate::token::fields_text(fs));
    crate::token::lemma_fields_read_back(fs, "paired"@, paired);
    crate::token::lemma_fields_read_back(
        fs,
        "counter"@,
        crate::text::decimal(board.counter as nat),
    );
    crate::token::lemma_fields_read_back(fs, "fmt"@, crate::text::decimal(board.fmt as nat));
    crate::token::lemma_fields_read_back(fs, "fw"@, board.fw);
    crate::text::lemma_number_of_decimal(board.counter as nat, u64::MAX as nat);
    crate::text::lemma_number_of_decimal(board.fmt as nat, 255);
}

/// A status is never made up: a line that does not start with `OK `, or lacks
/// any of the four fields, is refused.
pub proof fn lemma_status_needs_its_fields(line: Seq<char>)
    ensures
        status_spec(line) matches Ok(board) ==> {
            let body = line.skip(3);
            &&& crate::token::has_prefix(line, "OK "@)
            &&& crate::token::field_value(body, "paired"@) is Some
            &&& board.paired <==> crate::token::field_value(body, "paired"@) == Some("true"@)
            &&& crate::token::field_value(body, "counter"@) matches Some(v)
                && crate::text::number_value(vstd::utf8::encode_utf8(v), u64::MAX as nat) == Some(
                board.counter as nat,
            )
            &&& crate::token::field_value(body, "fmt"@) matches Some(v)
                && crate::text::number_value(vstd::utf8::encode_utf8(v), u8::MAX as nat) == Some(
                board.fmt as nat,
            )
            &&& crate::token::field_value(body, "fw"@) == Some(board.fw)
        },
        status_spec(line) is Err && crate::token::has_prefix(line, "OK "@) ==> {
            let body = line.skip(3);
            ||| crate::token::field_value(body, "paired"@) is None
            ||| crate::token::field_value(body, "fw"@) is None
            ||| number_of(body, "counter"@, u64::MAX as nat) is None
            ||| number_of(body, "fmt"@, u8::MAX as nat) is None
        },
        flow_status(line) is Ok <==> status_spec(line) is Ok,
        flow_status(line) matches Ok(board) ==> status_spec(line) == Ok::<_, StatusErrorView>(
            board,
        ),
{
}

/// The counter is brought back into step exactly with a board that says it is
/// paired and whose counter leaves room below the ceiling; what the board
/// reported is what the operator is told.
pub proof fn lemma_resync_iff(line: Seq<char>)
    ensures
        resync_spec(line) is Ok <==> (status_spec(line) matches Ok(board) && board.paired
            && board.counter + 1 < COUNTER_CEILING),
        resync_spec(line) matches Ok((next, seen)) ==> (status_spec(line) matches Ok(board) && seen
            == board.counter && next.next_cmd_counter == board.counter + 1),
        resync_spec(line) matches Err(e) ==> {
            ||| e is Status && status_spec(line) is Err
            ||| e is NothingToResync && (status_spec(line) matches Ok(board) && !board.paired)
            ||| (e matches FlowErrorView::ResyncCeiling(n) && (status_spec(line) matches Ok(board)
                && board.paired && n == board.counter))
        },
{
}

/// Unpairing counts on from the same counter as any other command.
pub proof fn lemma_unpair_counts_on(key: Seq<u8>, state: Option<State>)
    ensures
        counter_of(state) == crate::channel::restored(Some(key), state).next_counter,
        state matches Some(s) ==> counter_of(state) == s.next_cmd_counter,
        state is None ==> counter_of(state) == 1,
{
}

/// Why a reply does not end the pairing is told in this order: it has no frame,
/// its frame is not authentic, it is for another counter, it is not the first of
/// its answer, or it says something else.
pub proof fn lemma_why_a_reply_does_not_unpair(
    key: Seq<u8>,
    counter: u64,
    got: u64,
    seq: u32,
    body: Seq<char>,
    line: Seq<char>,
)
    ensures
        !crate::token::has_prefix(line, "R "@) ==> unpair_refusal(key, counter, line) == Some(
            FlowErrorView::UnframedReply(line),
        ),
        ({
            let r = unpair_refusal(
                key,
                counter,
                crate::framing::response_frame(key, got, seq, body),
            );
            &&& got != counter ==> r == Some(FlowErrorView::WrongCounter { got, want: counter })
            &&& got == counter && seq != 0 ==> r == Some(
                FlowErrorView::WrongSeq { got: seq, want: 0 },
            )
            &&& got == counter && seq == 0 && body != "OK unpaired"@ ==> r == Some(
                FlowErrorView::RefusedUnpair(body),
            )
            &&& got == counter && seq == 0 && body == "OK unpaired"@ ==> r is None
        }),
{
    let f = crate::framing::response_frame(key, got, seq, body);
    crate::framing::lemma_response_round_trip(key, got, seq, body);
    crate::framing::lemma_response_leader(f);
}

/// Once the host has forgotten a pairing, no key is left on disk in any form,
/// and no counter, whatever was there before; and nothing else is gone.
pub proof fn lemma_forgetting_leaves_nothing(d: crate::files::Disk, path: Seq<char>)
    ensures
        ({
            let ops = forget_ops();
            let e = crate::files::apply_ops(d, ops, ops.len());
            &&& !e.dom().contains(crate::keystore::KEY_PATH@)
            &&& !e.dom().contains(crate::keystore::KEY_BAK_PATH@)
            &&& !e.dom().contains(crate::keystore::KEY_TPM_PATH@)
            &&& !e.dom().contains(crate::state::STATE_PATH@)
            &&& path != crate::keystore::KEY_PATH@ && path != crate::keystore::KEY_BAK_PATH@
                && path != crate::keystore::KEY_TPM_PATH@ && path != crate::state::STATE_PATH@ ==> {
                &&& e.dom().contains(path) <==> d.dom().contains(path)
                &&& d.dom().contains(path) ==> e[path] == d[path]
            }
        }),
{
    reveal_with_fuel(crate::files::apply_ops, 10);
    reveal_strlit("/var/lib/r503d/key");
    reveal_strlit("/var/lib/r503d/key.bak");
    reveal_strlit("/var/lib/r503d/key.tpm");
    reveal_strlit("/var/lib/r503d/state.json");
}

/// The operator is told of a pairing with what the board says of itself, of the
/// sealed key exactly where it is sealed and of the key files exactly where it is
/// not.
pub proof fn lemma_pair_report(board: FirmwareStatusView, seal: bool, list: Option<Seq<char>>)
    ensures
        ({
            let v = pair_report(board, seal, list);
            &&& v.len() == 5
            &&& v[0] == "paired: fw="@ + board.fw + " fmt="@ + crate::text::decimal(
                board.fmt as nat,
            ) + " counter="@ + crate::text::decimal(board.counter as nat)
            &&& seal <==> crate::token::has_prefix(v[1], "host key SEALED to TPM (PCRs "@)
            &&& seal ==> crate::token::contains_text(v[1], crate::keystore::KEY_TPM_PATH@)
            &&& seal && list is Some ==> crate::token::contains_text(v[1], list->0)
                && crate::token::contains_text(v[2], list->0)
            &&& seal && list is None ==> crate::token::has_prefix(
                v[1],
                "host key SEALED to TPM (PCRs 7)"@,
            )
            &&& !seal ==> v[1] == "host key written to "@ + crate::keystore::KEY_PATH@
                + " (mode 0600)"@
            &&& !seal ==> v[2] == "backup written to "@ + crate::keystore::KEY_BAK_PATH@
                + " (mode 0400)"@
            &&& crate::token::contains_text(v[3], crate::state::STATE_PATH@)
            &&& crate::token::contains_text(v[4], crate::keystore::ALLOW_PAIR_PATH@)
        }),
{
    reveal_strlit("host key SEALED to TPM (PCRs ");
    reveal_strlit("host key SEALED to TPM (PCRs 7)");
    reveal_strlit("7");
    reveal_strlit("); blob at ");
    reveal_strlit(" (mode 0600)");
    reveal_strlit("host key written to ");
    reveal_strlit("state initialized at ");
    reveal_strlit("opt-in marker ");
    reveal_strlit(
        "plaintext key + .bak removed \u{2014} recovery via `sudo dist/reseal-tpm.sh --pcrs ",
    );
    let v = pair_report(board, seal, list);
    let label = pcrs_label(list);
    let p = crate::keystore::KEY_TPM_PATH@;
    let lead = "host key SEALED to TPM (PCRs "@;
    let again =
        "plaintext key + .bak removed \u{2014} recovery via `sudo dist/reseal-tpm.sh --pcrs "@;
    if seal {
        let t = v[1];
        assert(t.take(lead.len() as int) =~= lead);
        let k = t.len() - " (mode 0600)"@.len() - p.len();
        assert(t.subrange(k, k + p.len()) =~= p);
        let l: int = lead.len() as int;
        assert(t.subrange(l, l + label.len()) =~= label);
        let m: int = again.len() as int;
        assert(v[2].subrange(m, m + label.len()) =~= label);
        if list is None {
            assert(t.take(31) =~= "host key SEALED to TPM (PCRs 7)"@);
        }
    } else {
        assert(v[1][9] == 'w');
        assert(lead[9] == 'S');
        if crate::token::has_prefix(v[1], lead) {
            assert(v[1].take(lead.len() as int)[9] == v[1][9]);
        }
    }
    let s = crate::state::STATE_PATH@;
    let i: int = "state initialized at "@.len() as int;
    assert(v[3].subrange(i, i + s.len()) =~= s);
    let a = crate::keystore::ALLOW_PAIR_PATH@;
    let j: int = "opt-in marker "@.len() as int;
    assert(v[4].subrange(j, j + a.len()) =~= a);
}

/// The words for a reply that did not come end with the command's label.
pub proof fn lemma_timeout_names_the_command(label: Seq<char>)
    ensures
        timeout_text(label).skip(timeout_text(label).len() - label.len()) == label,
{
    let t = timeout_text(label);
    assert(t.skip(t.len() - label.len()) =~= label);
}

/// The operator is told of a counter brought back into step with the number that
/// commands go on from, what the board has seen, and what the host had before, if
/// anything.
pub proof fn lemma_resync_report(previous: Option<State>, next: State, last_seen: u64)
    ensures
        ({
            let v = resync_report_spec(previous, next, last_seen);
            let n = crate::text::decimal(next.next_cmd_counter as nat);
            let l = crate::text::decimal(last_seen as nat);
            let end = "Nano last_seen="@ + l + ")"@;
            &&& v.len() == 3
            &&& crate::token::contains_text(v[0], n)
            &&& v[0].skip(v[0].len() - end.len()) == end
            &&& previous matches Some(s) ==> crate::token::has_prefix(
                v[0],
                "resynced: next_cmd_counter "@ + crate::text::decimal(s.next_cmd_counter as nat),
            )
            &&& previous is None ==> crate::token::has_prefix(
                v[0],
                "resynced: next_cmd_counter set to "@ + n,
            )
            &&& v[1] == "state written to "@ + crate::state::STATE_PATH@
        }),
{
    reveal_strlit("Nano last_seen=");
    reveal_strlit(")");
    reveal_strlit(" (Nano last_seen=");
    reveal_strlit(" (state was missing; Nano last_seen=");
    reveal_strlit("resynced: next_cmd_counter ");
    reveal_strlit("resynced: next_cmd_counter set to ");
    reveal_strlit(" \u{2192} ");
    let v = resync_report_spec(previous, next, last_seen);
    let n = crate::text::decimal(next.next_cmd_counter as nat);
    let l = crate::text::decimal(last_seen as nat);
    let end = "Nano last_seen="@ + l + ")"@;
    assert(v[0].skip(v[0].len() - end.len()) =~= end);
    match previous {
        Some(s) => {
            let lead = "resynced: next_cmd_counter "@ + crate::text::decimal(
                s.next_cmd_counter as nat,
            );
            assert(v[0].take(lead.len() as int) =~= lead);
            let k: int = lead.len() as int + 3;
            assert(v[0].subrange(k, k + n.len()) =~= n);
        },
        None => {
            let lead = "resynced: next_cmd_counter set to "@;
            assert(v[0].take(lead.len() as int + n.len()) =~= lead + n);
            let k: int = lead.len() as int;
            assert(v[0].subrange(k, k + n.len()) =~= n);
        },
    }
}

/// The operator is told of an unpairing with what the board says of itself.
pub proof fn lemma_unpair_report(board: FirmwareStatusView)
    ensures
        ({
            let v = unpair_report_spec(board);
            let end = " counter="@ + crate::text::decimal(board.counter as nat);
            &&& v.len() == 2
            &&& crate::token::has_prefix(v[0], "unpaired. fw="@ + board.fw)
            &&& v[0].skip(v[0].len() - end.len()) == end
        }),
{
    let v = unpair_report_spec(board);
    let lead = "unpaired. fw="@ + board.fw;
    let end = " counter="@ + crate::text::decimal(board.counter as nat);
    assert(v[0].take(lead.len() as int) =~= lead);
    assert(v[0].skip(v[0].len() - end.len()) =~= end);
}

/// What the board said, where that is why a flow stops, and the numbers that do
/// not agree, are in the words for it.
pub proof fn lemma_flow_errors_tell_why(
    text: Seq<char>,
    error: FramingError,
    shown: Seq<char>,
    got: u64,
    want: u64,
)
    ensures
        ({
            let t = flow_error_text(FlowErrorView::RefusedPair(text), shown);
            t.skip(t.len() - shown.len()) == shown
        }),
        ({
            let t = flow_error_text(FlowErrorView::UnframedReply(text), shown);
            t.skip(t.len() - shown.len()) == shown
        }),
        ({
            let t = flow_error_text(FlowErrorView::RefusedUnpair(text), shown);
            t.skip(t.len() - shown.len()) == shown
        }),
        crate::token::contains_text(
            flow_error_text(FlowErrorView::BadResponse { error, line: text }, shown),
            shown,
        ),
        flow_error_text(FlowErrorView::WrongCounter { got, want }, shown)
            == "unpair response counter mismatch: got "@ + crate::text::decimal(got as nat)
            + ", want "@ + crate::text::decimal(want as nat),
        flow_error_text(FlowErrorView::CounterCeiling(got), shown) == crate::channel::ceiling_text(
            got,
        ),
        crate::token::has_prefix(
            flow_error_text(FlowErrorView::ResyncCeiling(got), shown),
            "Nano reported counter "@ + crate::text::decimal(got as nat),
        ),
        crate::token::contains_text(
            flow_error_text(FlowErrorView::OptInMissing, shown),
            crate::keystore::ALLOW_PAIR_PATH@,
        ),
{
    reveal_strlit(" (line: ");
    reveal_strlit(")");
    reveal_strlit("host opt-in missing: create ");
    let a = flow_error_text(FlowErrorView::RefusedPair(text), shown);
    assert(a.skip(a.len() - shown.len()) =~= shown);
    let b = flow_error_text(FlowErrorView::UnframedReply(text), shown);
    assert(b.skip(b.len() - shown.len()) =~= shown);
    let c = flow_error_text(FlowErrorView::RefusedUnpair(text), shown);
    assert(c.skip(c.len() - shown.len()) =~= shown);
    let d = flow_error_text(FlowErrorView::BadResponse { error, line: text }, shown);
    let k = d.len() - 1 - shown.len();
    assert(d.subrange(k, k + shown.len()) =~= shown);
    let e = flow_error_text(FlowErrorView::ResyncCeiling(got), shown);
    let lead = "Nano reported counter "@ + crate::text::decimal(got as nat);
    assert(e.take(lead.len() as int) =~= lead);
    let f = flow_error_text(FlowErrorView::OptInMissing, shown);
    let p = crate::keystore::ALLOW_PAIR_PATH@;
    let m: int = "host opt-in missing: create "@.len() as int;
    assert(f.subrange(m, m + p.len()) =~= p);
}

} // verus!
