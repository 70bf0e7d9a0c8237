//! One command's exchange with the sensor board, in the clear or under a key.
//!
//! A command becomes a [`Ticket`]. The ticket says which counter has to be on
//! disk before anything is sent; once it is, the ticket turns into the line to
//! send and an [`Awaiting`] that judges what comes back.

use vstd::prelude::*;
use vstd::string::*;
use crate::framing::{encode_command, verify_response, COUNTER_CEILING};
use crate::sensor::SensorError;
use crate::state::State;
use crate::text::push_decimal;
use crate::token::starts_with;

verus! {

/// The words for a counter that has come too far to be used.
pub open spec fn ceiling_text(counter: u64) -> Seq<char> {
    "v2 counter "@ + crate::text::decimal(counter as nat)
        + " is at/above the reserved ceiling; reflash-to-wipe (firmware/r503fp_wipe) + re-pair to reset"@
}

/// The words for a counter that has come too far to be used.
pub fn ceiling_message(counter: u64) -> (s: String)
    ensures
        s@ == ceiling_text(counter),
{
    let mut s = "v2 counter ".to_owned();
    push_decimal(&mut s, counter);
    s.append(
        " is at/above the reserved ceiling; reflash-to-wipe (firmware/r503fp_wipe) + re-pair to reset",
    );
    s
}

/// What the host holds of the channel: the key, if it is paired, and the
/// counter of the next framed command.
pub struct Channel {
    key: Option<[u8; 16]>,
    next_counter: u64,
}

/// A [`Channel`] as mathematics.
pub struct ChannelView {
    pub key: Option<Seq<u8>>,
    pub next_counter: u64,
}

/// The bytes of an optional key.
pub open spec fn optional_key(k: Option<[u8; 16]>) -> Option<Seq<u8>> {
    match k {
        Some(k) => Some(k@),
        None => None,
    }
}

impl View for Channel {
    type V = ChannelView;

    closed spec fn view(&self) -> ChannelView {
        ChannelView { key: optional_key(self.key), next_counter: self.next_counter }
    }
}

/// A command that was given its counter.
pub struct Ticket {
    cmd: String,
    key: Option<[u8; 16]>,
    counter: u64,
}

/// A [`Ticket`] as mathematics.
pub struct TicketView {
    pub cmd: Seq<char>,
    pub key: Option<Seq<u8>>,
    pub counter: u64,
}

impl View for Ticket {
    type V = TicketView;

    closed spec fn view(&self) -> TicketView {
        TicketView { cmd: self.cmd@, key: optional_key(self.key), counter: self.counter }
    }
}

/// A command whose answer is awaited.
pub struct Awaiting {
    cmd: String,
    key: Option<[u8; 16]>,
    counter: u64,
    next_seq: u64,
}

/// An [`Awaiting`] as mathematics.
pub struct AwaitingView {
    pub cmd: Seq<char>,
    pub key: Option<Seq<u8>>,
    pub counter: u64,
    /// The sequence number that the next line has to carry.
    pub next_seq: nat,
}

impl View for Awaiting {
    type V = AwaitingView;

    closed spec fn view(&self) -> AwaitingView {
        AwaitingView {
            cmd: self.cmd@,
            key: optional_key(self.key),
            counter: self.counter,
            next_seq: self.next_seq as nat,
        }
    }
}

/// What a received line is.
#[derive(Debug)]
pub enum LineVerdict {
    /// Nothing.
    Ignore,
    /// News of an operation that goes on.
    Progress(String),
    /// The answer.
    Final(String),
    /// Not from the peer.
    Rejected(SensorError),
}

/// A [`LineVerdict`] as mathematics.
pub enum LineVerdictView {
    Ignore,
    Progress(Seq<char>),
    Final(Seq<char>),
    Rejected(crate::sensor::SensorErrorView),
}

impl View for LineVerdict {
    type V = LineVerdictView;

    open spec fn view(&self) -> LineVerdictView {
        match *self {
            LineVerdict::Ignore => LineVerdictView::Ignore,
            LineVerdict::Progress(s) => LineVerdictView::Progress(s@),
            LineVerdict::Final(s) => LineVerdictView::Final(s@),
            LineVerdict::Rejected(e) => LineVerdictView::Rejected(e@),
        }
    }
}

// ---------- what is sent, and what a line means ----------

/// The line that goes out.
pub open spec fn wire_text(t: TicketView) -> Seq<char> {
    match t.key {
        None => t.cmd,
        Some(k) => crate::framing::command_frame(k, t.counter, t.cmd),
    }
}

/// What a reply line in the clear is.
pub open spec fn body_verdict(body: Seq<char>) -> LineVerdictView {
    if body.len() == 0 {
        LineVerdictView::Ignore
    } else if crate::token::has_prefix(body, "PROGRESS "@) {
        LineVerdictView::Progress(body.skip(9))
    } else if crate::token::has_prefix(body, "OK"@) || crate::token::has_prefix(body, "ERR"@) {
        LineVerdictView::Final(body)
    } else {
        LineVerdictView::Progress("[unhandled] "@ + body)
    }
}

/// The refusal of a line.
pub open spec fn framing_rejected(detail: Seq<char>) -> LineVerdictView {
    LineVerdictView::Rejected(
        crate::sensor::SensorErrorView::Command {
            code: "framing_rejected"@,
            detail: Some(detail),
        },
    )
}

/// The words for a number that is not the one awaited.
pub open spec fn mismatch_text(what: Seq<char>, got: nat, want: nat) -> Seq<char> {
    what + " mismatch: got "@ + crate::text::decimal(got) + ", want "@ + crate::text::decimal(want)
}

/// What a received line is, and the sequence number awaited after it. Under a
/// key, only a line that the key authenticates, with the command's counter and
/// the sequence number that is due, is let through.
pub open spec fn line_verdict(a: AwaitingView, line: Seq<char>) -> (LineVerdictView, nat) {
    match a.key {
        None => (body_verdict(line), a.next_seq),
        Some(k) => if line.len() == 0 {
            (LineVerdictView::Ignore, a.next_seq)
        } else if !crate::token::has_prefix(line, "R "@) {
            (framing_rejected(line), a.next_seq)
        } else {
            match crate::framing::verify_response_spec(k, line) {
                Err(e) => (framing_rejected(crate::framing::framing_error_text(e)), a.next_seq),
                Ok((counter, seq, body)) => if counter != a.counter {
                    (
                        framing_rejected(
                            mismatch_text("counter"@, counter as nat, a.counter as nat),
                        ),
                        a.next_seq,
                    )
                } else if seq != a.next_seq {
                    (
                        framing_rejected(mismatch_text("seq"@, seq as nat, a.next_seq)),
                        a.next_seq,
                    )
                } else {
                    (body_verdict(body), a.next_seq + 1)
                },
            }
        },
    }
}

/// The channel that a key and a saved counter give.
pub open spec fn restored(key: Option<Seq<u8>>, state: Option<State>) -> ChannelView {
    ChannelView {
        key,
        next_counter: match state {
            Some(s) => s.next_cmd_counter,
            None => 1,
        },
    }
}

/// The state that has to be on disk before a framed command goes out.
pub open spec fn state_to_save(t: TicketView) -> State {
    State { next_cmd_counter: (t.counter + 1) as u64 }
}

/// The channel once a command has been given its counter: under a key the
/// counter is used up, and there is none at the ceiling.
pub open spec fn begun(c: ChannelView) -> Option<ChannelView> {
    if c.key is None {
        Some(c)
    } else if c.next_counter >= COUNTER_CEILING {
        None
    } else {
        Some(ChannelView { next_counter: (c.next_counter + 1) as u64, ..c })
    }
}

// ---------- the exchange ----------

impl Channel {
    /// The channel that a key and a saved counter give. Without a key
    /// everything goes in the clear; without a saved counter counting starts
    /// anew.
    pub fn new(key: Option<[u8; 16]>, state: Option<State>) -> (c: Channel)
        ensures
            c@ == restored(optional_key(key), state),
    {
        let s = match state {
            Some(s) => s,
            None => State::fresh(),
        };
        Channel { key, next_counter: s.next_cmd_counter }
    }

    /// Gives a command its counter. Under a key the counter is used up, whatever
    /// becomes of the command; one that has reached the ceiling is refused.
    pub fn begin(&mut self, cmd: &str) -> (r: Result<Ticket, SensorError>)
        ensures
            match begun(old(self)@) {
                Some(c) => {
                    &&& final(self)@ == c
                    &&& r matches Ok(t) && t@ == (TicketView {
                        cmd: cmd@,
                        key: old(self)@.key,
                        counter: old(self)@.next_counter,
                    })
                },
                None => {
                    &&& final(self)@ == old(self)@
                    &&& r matches Err(e) && e@ == crate::sensor::SensorErrorView::Protocol(
                        ceiling_text(old(self)@.next_counter),
                    )
                },
            },
            r matches Ok(t) ==> t@.cmd == cmd@ && t@.key == final(self)@.key,
            r matches Ok(t) ==> t@.key is Some ==> old(self)@.next_counter <= t@.counter
                && t@.counter < final(self)@.next_counter,
    {
        let counter: u64 = self.next_counter;
        if self.key.is_some() {
            if counter >= COUNTER_CEILING {
                return Err(SensorError::Protocol(ceiling_message(counter)));
            }
            self.next_counter = counter + 1;
        }
        Ok(Ticket { cmd: cmd.to_owned(), key: self.key, counter })
    }
}

impl Ticket {
    #[verifier::type_invariant]
    spec fn counter_is_usable(self) -> bool {
        self.key is Some ==> self.counter < COUNTER_CEILING
    }

    /// The state that has to be on disk before the command goes out.
    pub fn to_persist(&self) -> (r: Option<State>)
        ensures
            r == if self@.key is Some {
                Some(state_to_save(self@))
            } else {
                None
            },
            self@.key is Some ==> self@.counter < COUNTER_CEILING,
            self@.key is Some ==> (r matches Some(s) && s.next_cmd_counter > self@.counter),
    {
        proof {
            use_type_invariant(self);
        }
        if self.key.is_some() {
            Some(State { next_cmd_counter: self.counter + 1 })
        } else {
            None
        }
    }

    /// The line to send, now that the state is on disk, and what its answer has
    /// to be.
    pub fn persisted(self) -> (r: (String, Awaiting))
        ensures
            r.0@ == wire_text(self@),
            r.1@ == (AwaitingView {
                cmd: self@.cmd,
                key: self@.key,
                counter: self@.counter,
                next_seq: 0,
            }),
            r.1@.key is None ==> r.0@ == self@.cmd,
            r.1@.key is Some ==> crate::framing::verify_command_spec(r.1@.key->0, r.0@) == Ok::<
                _,
                crate::framing::FramingError,
            >((r.1@.counter, self@.cmd)),
    {
        proof {
            if self@.key is Some {
                lemma_wire_is_authentic(self@);
            }
        }
        let wire = match &self.key {
            Some(k) => encode_command(k, self.counter, self.cmd.as_str()),
            None => self.cmd.clone(),
        };
        let awaiting = Awaiting {
            cmd: self.cmd.clone(),
            key: self.key,
            counter: self.counter,
            next_seq: 0,
        };
        (wire, awaiting)
    }
}

fn judge_body(body: &str) -> (v: LineVerdict)
    ensures
        v@ == body_verdict(body@),
{
    proof {
        reveal_strlit("PROGRESS ");
    }
    let n: usize = body.unicode_len();
    if n == 0 {
        LineVerdict::Ignore
    } else if starts_with(body, "PROGRESS ") {
        let rest = body.substring_char(9, n);
        assert(rest@ =~= body@.skip(9));
        LineVerdict::Progress(rest.to_owned())
    } else if starts_with(body, "OK") || starts_with(body, "ERR") {
        LineVerdict::Final(body.to_owned())
    } else {
        let mut s = "[unhandled] ".to_owned();
        s.append(body);
        LineVerdict::Progress(s)
    }
}

fn reject(detail: String) -> (v: LineVerdict)
    ensures
        v@ == framing_rejected(detail@),
{
    LineVerdict::Rejected(
        SensorError::Command { code: "framing_rejected".to_owned(), detail: Some(detail) },
    )
}

/// The words for a number that is not the one awaited.
pub fn mismatch_message(what: &str, got: u64, want: u64) -> (s: String)
    ensures
        s@ == mismatch_text(what@, got as nat, want as nat),
{
    let mut s = what.to_owned();
    s.append(" mismatch: got ");
    push_decimal(&mut s, got);
    s.append(", want ");
    push_decimal(&mut s, want);
    s
}

impl Awaiting {
    #[verifier::type_invariant]
    spec fn seq_has_room(self) -> bool {
        self.next_seq <= 0x1_0000_0000
    }

    /// Judges a received line.
    pub fn on_line(&mut self, line: &str) -> (v: LineVerdict)
        ensures
            (v@, final(self)@.next_seq) == line_verdict(old(self)@, line@),
            final(self)@.cmd == old(self)@.cmd,
            final(self)@.key == old(self)@.key,
            final(self)@.counter == old(self)@.counter,
    {
        proof {
            use_type_invariant(&*self);
        }
        let key = match &self.key {
            None => {
                return judge_body(line);
            },
            Some(k) => *k,
        };
        if line.unicode_len() == 0 {
            return LineVerdict::Ignore;
        }
        if !starts_with(line, "R ") {
            return reject(line.to_owned());
        }
        match verify_response(&key, line) {
            Err(e) => reject(e.message()),
            Ok((counter, seq, body)) => {
                if counter != self.counter {
                    reject(mismatch_message("counter", counter, self.counter))
                } else if seq as u64 != self.next_seq {
                    reject(mismatch_message("seq", seq as u64, self.next_seq))
                } else {
                    self.next_seq = self.next_seq + 1;
                    judge_body(body)
                }
            },
        }
    }

    /// What is reported where no answer comes in time.
    pub fn expired(&self) -> (e: SensorError)
        ensures
            e@ == crate::sensor::SensorErrorView::Timeout(self@.cmd),
    {
        SensorError::Timeout(self.cmd.clone())
    }
}

// ---------- laws ----------

/// The channel after commands, if there was a counter for each.
pub open spec fn begun_times(c: ChannelView, n: nat) -> Option<ChannelView>
    decreases n,
{
    if n == 0 {
        Some(c)
    } else {
        match begun_times(c, (n - 1) as nat) {
            Some(d) => begun(d),
            None => None,
        }
    }
}

/// Under a key each command has a counter of its own: a later command's counter
/// is above that of every earlier one, and none is at the ceiling.
pub proof fn lemma_counters_never_repeat(c: ChannelView, i: nat, j: nat)
    requires
        c.key is Some,
        i < j,
        begun_times(c, j) is Some,
    ensures
        begun_times(c, i) is Some,
        begun_times(c, i)->0.next_counter < begun_times(c, j)->0.next_counter,
        begun_times(c, i)->0.next_counter < COUNTER_CEILING,
        begun_times(c, j)->0.key == c.key,
    decreases j,
{
    if j == i + 1 {
        lemma_key_stays(c, i);
    } else {
        lemma_counters_never_repeat(c, i, (j - 1) as nat);
    }
}

proof fn lemma_key_stays(c: ChannelView, n: nat)
    requires
        begun_times(c, n) is Some,
    ensures
        begun_times(c, n)->0.key == c.key,
    decreases n,
{
    if n > 0 {
        lemma_key_stays(c, (n - 1) as nat);
    }
}

/// A host that starts again from the state saved for a command gives every
/// later command a counter above that command's, wherever it crashed after
/// saving: no counter that may have been sent is sent again.
pub proof fn lemma_restart_is_past_the_sent_counter(t: TicketView, n: nat)
    requires
        t.key is Some,
        t.counter < COUNTER_CEILING,
        begun_times(restored(t.key, Some(state_to_save(t))), n) is Some,
    ensures
        begun_times(restored(t.key, Some(state_to_save(t))), n)->0.next_counter > t.counter,
{
    let c = restored(t.key, Some(state_to_save(t)));
    if n > 0 {
        lemma_counters_never_repeat(c, 0, n);
    }
}

/// What the host sends under a key, the holder of the key reads as that command
/// with that counter.
pub proof fn lemma_wire_is_authentic(t: TicketView)
    requires
        t.key is Some,
    ensures
        crate::framing::verify_command_spec(t.key->0, wire_text(t)) == Ok::<
            _,
            crate::framing::FramingError,
        >((t.counter, t.cmd)),
{
    crate::framing::lemma_command_round_trip(t.key->0, t.counter, t.cmd);
}

/// What the holder of the key answers to a command, in its turn, is taken for
/// what it says.
pub proof fn lemma_authentic_reply_is_taken(a: AwaitingView, body: Seq<char>)
    requires
        a.key is Some,
        a.next_seq <= u32::MAX,
    ensures
        line_verdict(
            a,
            crate::framing::response_frame(a.key->0, a.counter, a.next_seq as u32, body),
        ) == (body_verdict(body), a.next_seq + 1),
{
    let f = crate::framing::response_frame(a.key->0, a.counter, a.next_seq as u32, body);
    crate::framing::lemma_response_round_trip(a.key->0, a.counter, a.next_seq as u32, body);
    reveal_strlit("R ");
    assert(f.take(2) =~= "R "@);
}

/// Under a key, no line gets past other than one whose MAC the key gives, with
/// the counter of the command in flight and the sequence number that is due.
pub proof fn lemma_only_authentic_lines_pass(a: AwaitingView, line: Seq<char>)
    requires
        a.key is Some,
        line_verdict(a, line).0 is Progress || line_verdict(a, line).0 is Final,
    ensures
        exists|body: Seq<char>| #[trigger]
            crate::framing::parse_response_spec(line) == Ok::<_, crate::framing::FramingError>(
                (
                    a.counter,
                    a.next_seq as u32,
                    body,
                    crate::framing::response_mac(
                        a.key->0,
                        a.counter,
                        a.next_seq as u32,
                        body,
                    ),
                ),
            ) && line_verdict(a, line) == (body_verdict(body), a.next_seq + 1),
{
    match crate::framing::verify_response_spec(a.key->0, line) {
        Ok((counter, seq, body)) => {
            assert(crate::framing::parse_response_spec(line) == Ok::<
                _,
                crate::framing::FramingError,
            >(
                (
                    a.counter,
                    a.next_seq as u32,
                    body,
                    crate::framing::response_mac(a.key->0, a.counter, a.next_seq as u32, body),
                ),
            ));
        },
        Err(e) => {},
    }
}

/// A line is taken once: once it has been, the same line is turned away.
pub proof fn lemma_reply_is_not_taken_twice(a: AwaitingView, line: Seq<char>)
    requires
        a.key is Some,
        line_verdict(a, line).0 is Progress || line_verdict(a, line).0 is Final,
    ensures
        line_verdict(AwaitingView { next_seq: line_verdict(a, line).1, ..a }, line).0 is Rejected,
{
}

/// A reply to one command is turned away as the reply to any other.
pub proof fn lemma_reply_is_bound_to_its_command(a: AwaitingView, b: AwaitingView, line: Seq<char>)
    requires
        a.key is Some,
        b.key == a.key,
        b.counter != a.counter,
        line_verdict(a, line).0 is Progress || line_verdict(a, line).0 is Final,
    ensures
        line_verdict(b, line).0 is Rejected,
{
}

/// What a line in the clear is: nothing is told of an empty one; one that starts
/// with `OK` or `ERR` is the answer, character for character, whatever its length,
/// and no other is; any other is news, without the word that marks it as such, or
/// marked as not understood.
pub proof fn lemma_lines_in_the_clear(body: Seq<char>, news: Seq<char>)
    ensures
        body_verdict(body) is Ignore <==> body.len() == 0,
        crate::token::has_prefix(body, "OK"@) ==> body_verdict(body) == LineVerdictView::Final(
            body,
        ),
        crate::token::has_prefix(body, "ERR"@) ==> body_verdict(body) == LineVerdictView::Final(
            body,
        ),
        body_verdict(body) is Final ==> crate::token::has_prefix(body, "OK"@)
            || crate::token::has_prefix(body, "ERR"@),
        body_verdict("PROGRESS "@ + news) == LineVerdictView::Progress(news),
        body_verdict(body) matches LineVerdictView::Progress(t) ==> if crate::token::has_prefix(
            body,
            "PROGRESS "@,
        ) {
            body == "PROGRESS "@ + t
        } else {
            t == "[unhandled] "@ + body
        },
        !(body_verdict(body) is Rejected),
{
    reveal_strlit("OK");
    reveal_strlit("ERR");
    reveal_strlit("PROGRESS ");
    if crate::token::has_prefix(body, "OK"@) {
        assert(body.take(2)[0] == 'O');
    }
    if crate::token::has_prefix(body, "ERR"@) {
        assert(body.take(3)[0] == 'E');
    }
    if crate::token::has_prefix(body, "PROGRESS "@) {
        assert(body.take(9)[0] == 'P');
        assert(body =~= "PROGRESS "@ + body.skip(9));
    }
    let told = "PROGRESS "@ + news;
    assert(told.take(9) =~= "PROGRESS "@);
    assert(told.skip(9) =~= news);
}

/// The board's answer reaches whoever awaits it as it is, character for
/// character: in the clear where there is no key, and in a frame that the key
/// authenticates, in its turn, where there is one.
pub proof fn lemma_answer_is_handed_on_whole(a: AwaitingView, body: Seq<char>)
    requires
        crate::token::has_prefix(body, "OK"@) || crate::token::has_prefix(body, "ERR"@),
        a.next_seq <= u32::MAX,
    ensures
        a.key is None ==> line_verdict(a, body).0 == LineVerdictView::Final(body),
        a.key is Some ==> line_verdict(
            a,
            crate::framing::response_frame(a.key->0, a.counter, a.next_seq as u32, body),
        ) == (LineVerdictView::Final(body), a.next_seq + 1),
{
    lemma_lines_in_the_clear(body, body);
    if a.key is Some {
        lemma_authentic_reply_is_taken(a, body);
    }
}

/// The turn moves on by one with each line that the key authenticates, in its
/// turn and for the command in flight, and with no other. In the clear there are
/// no turns. A line under a key is turned away exactly where it holds something
/// and is not such a line; what is turned away is told as a framing failure.
pub proof fn lemma_turns(a: AwaitingView, line: Seq<char>)
    requires
        a.next_seq <= u32::MAX,
    ensures
        ({
            let authentic = a.key is Some && crate::token::has_prefix(line, "R "@) && (
            crate::framing::verify_response_spec(a.key->0, line) matches Ok((counter, seq, body))
                && counter == a.counter && seq == a.next_seq);
            &&& line_verdict(a, line).1 == if authentic {
                a.next_seq + 1
            } else {
                a.next_seq
            }
            &&& line_verdict(a, line).0 is Rejected <==> a.key is Some && line.len() > 0
                && !authentic
        }),
        line_verdict(a, line).0 matches LineVerdictView::Rejected(e) ==> (e matches
            crate::sensor::SensorErrorView::Command { code, detail } && code
            == "framing_rejected"@ && detail is Some),
{
    reveal_strlit("R ");
    if a.key is Some {
        if let Ok((_, _, body)) = crate::framing::verify_response_spec(a.key->0, line) {
            lemma_lines_in_the_clear(body, body);
        }
    } else {
        lemma_lines_in_the_clear(line, line);
    }
}

/// A channel without a key stays as it is. One with a key uses up one counter
/// for each command, keeps its key, and gives out none from the ceiling on.
pub proof fn lemma_begun(c: ChannelView)
    ensures
        c.key is None ==> begun(c) == Some(c),
        c.key is Some ==> (begun(c) is Some <==> c.next_counter < COUNTER_CEILING),
        c.key is Some ==> (begun(c) matches Some(d) ==> d.key == c.key && d.next_counter
            == c.next_counter + 1),
{
}

/// A host takes up counting where it was saved, and at one where nothing was;
/// and it saves the number after the one that it is about to send.
pub proof fn lemma_counting_is_taken_up(key: Option<Seq<u8>>, s: State, t: TicketView)
    requires
        t.counter < COUNTER_CEILING,
    ensures
        restored(key, Some(s)).next_counter == s.next_cmd_counter,
        restored(key, None).next_counter == 1,
        restored(key, Some(s)).key == key,
        restored(key, None).key == key,
        state_to_save(t).next_cmd_counter == t.counter + 1,
{
}

/// Without a key the command goes out as it is.
pub proof fn lemma_command_in_the_clear(t: TicketView)
    requires
        t.key is None,
    ensures
        wire_text(t) == t.cmd,
{
}

/// Why a line was turned away is told: without a frame, by the line itself; with
/// one that is not authentic, by what is wrong with it; and otherwise by the
/// number that it has and the one awaited.
pub proof fn lemma_why_a_line_is_turned_away(a: AwaitingView, line: Seq<char>)
    requires
        a.key is Some,
    ensures
        line_verdict(a, line).0 matches LineVerdictView::Rejected(
            crate::sensor::SensorErrorView::Command { code, detail },
        ) ==> (detail matches Some(why) && {
            &&& !crate::token::has_prefix(line, "R "@) ==> why == line
            &&& crate::token::has_prefix(line, "R "@) ==> match crate::framing::verify_response_spec(
                a.key->0,
                line,
            ) {
                Err(e) => why == crate::framing::framing_error_text(e),
                Ok((counter, seq, _)) => if counter != a.counter {
                    why == "counter mismatch: got "@ + crate::text::decimal(counter as nat)
                        + ", want "@ + crate::text::decimal(a.counter as nat)
                } else {
                    why == "seq mismatch: got "@ + crate::text::decimal(seq as nat) + ", want "@
                        + crate::text::decimal(a.next_seq)
                },
            }
        }),
{
    reveal_strlit("counter");
    reveal_strlit("seq");
    reveal_strlit(" mismatch: got ");
    reveal_strlit("counter mismatch: got ");
    reveal_strlit("seq mismatch: got ");
    assert("counter"@ + " mismatch: got "@ =~= "counter mismatch: got "@);
    assert("seq"@ + " mismatch: got "@ =~= "seq mismatch: got "@);
    if let Ok((_, _, body)) = crate::framing::verify_response_spec(a.key->0, line) {
        lemma_lines_in_the_clear(body, body);
    }
}

/// A counter that has come too far is named.
pub proof fn lemma_ceiling_is_told(counter: u64)
    ensures
        crate::token::has_prefix(
            ceiling_text(counter),
            "v2 counter "@ + crate::text::decimal(counter as nat),
        ),
        COUNTER_CEILING == u64::MAX - 1,
{
    let lead = "v2 counter "@ + crate::text::decimal(counter as nat);
    assert(ceiling_text(counter).take(lead.len() as int) =~= lead);
}

/// The bytes of a key that is there are that key's.
pub proof fn lemma_optional_key(k: [u8; 16])
    ensures
        optional_key(Some(k)) == Some(k@),
        optional_key(None) is None,
{
}

} // verus!
