//! The fingerprint reader as clients on the bus see it: claiming it, verifying
//! and enrolling fingers with it, and deleting prints.
//!
//! Every call here decides and keeps state; asking the sensor, saving the
//! registry and emitting signals is left to the caller, who hands the outcome
//! back.

use vstd::prelude::*;
use vstd::string::*;
use crate::error::FprintError;
use crate::sensor::{MatchResult, SensorError};
use crate::sensor_actor::is_fatal_io;
use crate::storage::{FingerSlots, Storage};
use crate::text::{lowercase, push_decimal};
use crate::token::{contains, starts_with, str_eq};

verus! {

/// Where the manager lives on the bus.
pub const MANAGER_PATH: &'static str = "/net/reactivated/Fprint/Manager";

/// Where the reader lives on the bus.
pub const DEVICE_PATH: &'static str = "/net/reactivated/Fprint/Device/0";

// ---------- fingers ----------

/// The finger names that the bus interface knows.
pub open spec fn finger_names() -> Set<Seq<char>> {
    set![
        "left-thumb"@,
        "left-index-finger"@,
        "left-middle-finger"@,
        "left-ring-finger"@,
        "left-little-finger"@,
        "right-thumb"@,
        "right-index-finger"@,
        "right-middle-finger"@,
        "right-ring-finger"@,
        "right-little-finger"@
    ]
}

fn is_finger_name(name: &str) -> (r: bool)
    ensures
        r == finger_names().contains(name@),
{
    str_eq(name, "left-thumb") || str_eq(name, "left-index-finger") || str_eq(
        name,
        "left-middle-finger",
    ) || str_eq(name, "left-ring-finger") || str_eq(name, "left-little-finger") || str_eq(
        name,
        "right-thumb",
    ) || str_eq(name, "right-index-finger") || str_eq(name, "right-middle-finger") || str_eq(
        name,
        "right-ring-finger",
    ) || str_eq(name, "right-little-finger")
}

/// Whether a name is taken for a finger.
pub open spec fn finger_ok(name: Seq<char>, allow_any: bool) -> bool {
    (allow_any && name == "any"@) || finger_names().contains(name)
}

/// Turns away names that are no finger's; `any` is let through where allowed.
pub fn validate_finger(name: &str, allow_any: bool) -> (r: Result<(), FprintError>)
    ensures
        match r {
            Ok(_) => finger_ok(name@, allow_any),
            Err(e) => !finger_ok(name@, allow_any) && e@
                == crate::error::FprintErrorView::InvalidFingername(name@),
        },
{
    if allow_any && str_eq(name, "any") {
        return Ok(());
    }
    if is_finger_name(name) {
        Ok(())
    } else {
        Err(FprintError::InvalidFingername(name.to_owned()))
    }
}

// ---------- the reader's state ----------

/// What the reader can be busy with.
#[derive(Clone, Copy, Debug, PartialEq, Eq, Structural)]
pub enum ActionKind {
    Enroll,
    Verify,
}

/// The action in words.
pub open spec fn action_text(k: ActionKind) -> Seq<char> {
    match k {
        ActionKind::Enroll => "enroll"@,
        ActionKind::Verify => "verify"@,
    }
}

impl ActionKind {
    /// The action in words.
    pub fn as_str(self) -> (s: &'static str)
        ensures
            s@ == action_text(self),
    {
        match self {
            ActionKind::Enroll => "enroll",
            ActionKind::Verify => "verify",
        }
    }
}

/// One action, told apart from every other of its kind by its epoch.
#[derive(Clone, Copy, Debug, PartialEq, Eq, Structural)]
pub struct ActionToken {
    pub kind: ActionKind,
    pub epoch: u64,
}

/// Who has the reader, and what it is doing.
#[derive(Debug)]
pub struct DeviceState {
    claimed_by: Option<String>,
    claim_sender: Option<String>,
    action: Option<ActionToken>,
    next_epoch: u64,
    finger_present: bool,
    finger_needed: bool,
}

/// A [`DeviceState`] as mathematics.
pub struct DeviceStateView {
    /// The user that the reader is claimed for.
    pub claimed_by: Option<Seq<char>>,
    /// The bus name of the client that claimed it.
    pub claim_sender: Option<Seq<char>>,
    /// What it is busy with.
    pub action: Option<ActionToken>,
    /// The epoch of the next action.
    pub next_epoch: u64,
    pub finger_present: bool,
    pub finger_needed: bool,
}

impl View for DeviceState {
    type V = DeviceStateView;

    closed spec fn view(&self) -> DeviceStateView {
        DeviceStateView {
            claimed_by: crate::token::optional_text(self.claimed_by),
            claim_sender: crate::token::optional_text(self.claim_sender),
            action: self.action,
            next_epoch: self.next_epoch,
            finger_present: self.finger_present,
            finger_needed: self.finger_needed,
        }
    }
}

/// Only a claimed reader is busy.
pub open spec fn busy_only_if_claimed(s: DeviceStateView) -> bool {
    s.action is Some ==> s.claimed_by is Some
}

/// The state of a reader that nobody has.
pub open spec fn unclaimed(s: DeviceStateView) -> DeviceStateView {
    DeviceStateView {
        claimed_by: None,
        claim_sender: None,
        action: None,
        finger_needed: false,
        finger_present: false,
        ..s
    }
}

/// The state with no action going on.
pub open spec fn idle(s: DeviceStateView) -> DeviceStateView {
    DeviceStateView { action: None, finger_needed: false, finger_present: false, ..s }
}

/// Whether the sender is known to be another than the claimer.
pub open spec fn other_sender(s: DeviceStateView, sender: Option<Seq<char>>) -> bool {
    sender is Some && s.claim_sender is Some && sender != s.claim_sender
}

/// The user that the reader is claimed for, or why the sender may not use it.
pub open spec fn claim_of(s: DeviceStateView, sender: Option<Seq<char>>) -> Result<
    Seq<char>,
    crate::error::FprintErrorView,
> {
    match s.claimed_by {
        None => Err(crate::error::FprintErrorView::ClaimDevice("device not claimed"@)),
        Some(user) => if other_sender(s, sender) {
            Err(
                crate::error::FprintErrorView::ClaimDevice(
                    "device claimed by a different sender"@,
                ),
            )
        } else {
            Ok(user)
        },
    }
}

/// What comes of claiming the reader for a user.
pub open spec fn claim_spec(
    s: DeviceStateView,
    user: Seq<char>,
    sender: Option<Seq<char>>,
) -> Result<DeviceStateView, crate::error::FprintErrorView> {
    let taken = DeviceStateView { claimed_by: Some(user), claim_sender: sender, ..s };
    match s.claimed_by {
        None => Ok(taken),
        Some(existing) => if existing != user {
            Err(crate::error::FprintErrorView::AlreadyInUse("already claimed by "@ + existing))
        } else {
            match s.action {
                Some(a) => Err(
                    crate::error::FprintErrorView::AlreadyInUse(
                        action_text(a.kind) + " in progress for "@ + existing,
                    ),
                ),
                None => Ok(taken),
            }
        },
    }
}

/// What comes of releasing the reader.
pub open spec fn release_spec(s: DeviceStateView, sender: Option<Seq<char>>) -> Result<
    DeviceStateView,
    crate::error::FprintErrorView,
> {
    if s.claimed_by is None {
        Err(crate::error::FprintErrorView::ClaimDevice("device not claimed"@))
    } else if other_sender(s, sender) {
        Err(crate::error::FprintErrorView::ClaimDevice("claimed by a different sender"@))
    } else {
        Ok(unclaimed(s))
    }
}

/// What comes of stopping an action.
pub open spec fn stop_spec(
    s: DeviceStateView,
    sender: Option<Seq<char>>,
    kind: ActionKind,
) -> Result<DeviceStateView, crate::error::FprintErrorView> {
    match claim_of(s, sender) {
        Err(e) => Err(e),
        Ok(_) => if s.action matches Some(a) && a.kind == kind {
            Ok(idle(s))
        } else {
            Err(
                crate::error::FprintErrorView::NoActionInProgress(
                    "no "@ + action_text(kind) + " in progress"@,
                ),
            )
        },
    }
}

/// The state with a fresh action.
pub open spec fn started(s: DeviceStateView, kind: ActionKind) -> DeviceStateView {
    DeviceStateView {
        action: Some(ActionToken { kind, epoch: s.next_epoch }),
        next_epoch: s.next_epoch.wrapping_add(1),
        ..s
    }
}

/// The state once an action is over: idle, unless another action has taken its
/// place.
pub open spec fn ended(s: DeviceStateView, token: ActionToken) -> DeviceStateView {
    if s.action == Some(token) {
        idle(s)
    } else {
        s
    }
}

/// What the finger hints become on news from the sensor, in lowercase.
pub open spec fn hinted(s: DeviceStateView, low: Seq<char>) -> DeviceStateView {
    if crate::token::contains_text(low, "place_finger"@) || crate::token::contains_text(
        low,
        "place_again"@,
    ) {
        DeviceStateView { finger_needed: true, finger_present: false, ..s }
    } else if lifts_finger(low) {
        DeviceStateView { finger_needed: false, finger_present: true, ..s }
    } else {
        s
    }
}

/// Whether news, in lowercase, says that a capture is done and the finger may
/// be lifted.
pub open spec fn lifts_finger(low: Seq<char>) -> bool {
    crate::token::contains_text(low, "remove_finger"@) || crate::token::contains_text(
        low,
        "remove finger"@,
    )
}

fn in_use(a: ActionToken) -> (e: FprintError)
    ensures
        e@ == crate::error::FprintErrorView::AlreadyInUse(
            action_text(a.kind) + " already in progress"@,
        ),
{
    let mut s = a.kind.as_str().to_owned();
    s.append(" already in progress");
    FprintError::AlreadyInUse(s)
}

fn same_text(a: &Option<String>, b: Option<&str>) -> (r: bool)
    ensures
        r == (crate::token::optional_text(*a) == crate::token::optional_str(b)),
{
    match (a, b) {
        (Some(x), Some(y)) => str_eq(x.as_str(), y),
        (None, None) => true,
        _ => false,
    }
}

impl DeviceState {
    /// A reader that nobody has.
    pub fn new() -> (s: DeviceState)
        ensures
            s@ == (DeviceStateView {
                claimed_by: None,
                claim_sender: None,
                action: None,
                next_epoch: 0,
                finger_present: false,
                finger_needed: false,
            }),
            busy_only_if_claimed(s@),
    {
        DeviceState {
            claimed_by: None,
            claim_sender: None,
            action: None,
            next_epoch: 0,
            finger_present: false,
            finger_needed: false,
        }
    }

    /// Whether a finger is thought to be on the sensor.
    pub fn finger_present(&self) -> (r: bool)
        ensures
            r == self@.finger_present,
    {
        self.finger_present
    }

    /// Whether the sensor waits for a finger.
    pub fn finger_needed(&self) -> (r: bool)
        ensures
            r == self@.finger_needed,
    {
        self.finger_needed
    }

    /// Whether the action is still the one going on.
    pub fn owns(&self, token: ActionToken) -> (r: bool)
        ensures
            r == (self@.action == Some(token)),
    {
        match self.action {
            Some(a) => a == token,
            None => false,
        }
    }

    fn is_other_sender(&self, sender: Option<&str>) -> (r: bool)
        ensures
            r == other_sender(self@, crate::token::optional_str(sender)),
    {
        match sender {
            Some(_) => self.claim_sender.is_some() && !same_text(&self.claim_sender, sender),
            None => false,
        }
    }

    /// The user that the reader is claimed for, if the sender may use it.
    pub fn ensure_claim(&self, sender: Option<&str>) -> (r: Result<String, FprintError>)
        ensures
            match r {
                Ok(u) => claim_of(self@, crate::token::optional_str(sender)) == Ok::<
                    _,
                    crate::error::FprintErrorView,
                >(u@),
                Err(e) => claim_of(self@, crate::token::optional_str(sender)) == Err::<Seq<char>, _>(e@),
            },
    {
        match &self.claimed_by {
            None => Err(FprintError::ClaimDevice("device not claimed".to_owned())),
            Some(user) => {
                if self.is_other_sender(sender) {
                    Err(
                        FprintError::ClaimDevice("device claimed by a different sender".to_owned()),
                    )
                } else {
                    Ok(user.clone())
                }
            },
        }
    }

    fn set_unclaimed(&mut self)
        ensures
            final(self)@ == unclaimed(old(self)@),
    {
        self.action = None;
        self.claimed_by = None;
        self.claim_sender = None;
        self.finger_needed = false;
        self.finger_present = false;
    }

    fn set_idle(&mut self)
        ensures
            final(self)@ == idle(old(self)@),
    {
        self.action = None;
        self.finger_needed = false;
        self.finger_present = false;
    }

    /// Claims the reader for a user that the sender may act as. A user's own
    /// claim can be taken over while nothing goes on.
    pub fn claim(&mut self, user: String, sender: Option<String>) -> (r: Result<(), FprintError>)
        ensures
            match r {
                Ok(_) => claim_spec(
                    old(self)@,
                    user@,
                    crate::token::optional_text(sender),
                ) == Ok::<_, crate::error::FprintErrorView>(final(self)@),
                Err(e) => claim_spec(
                    old(self)@,
                    user@,
                    crate::token::optional_text(sender),
                ) == Err::<DeviceStateView, _>(e@) && final(self)@ == old(self)@,
            },
            busy_only_if_claimed(old(self)@) ==> busy_only_if_claimed(final(self)@),
    {
        if let Some(existing) = &self.claimed_by {
            if !str_eq(existing.as_str(), user.as_str()) {
                let mut s = "already claimed by ".to_owned();
                s.append(existing.as_str());
                return Err(FprintError::AlreadyInUse(s));
            }
            if let Some(a) = self.action {
                let mut s = a.kind.as_str().to_owned();
                s.append(" in progress for ");
                s.append(existing.as_str());
                return Err(FprintError::AlreadyInUse(s));
            }
        }
        self.claimed_by = Some(user);
        self.claim_sender = sender;
        Ok(())
    }

    /// Releases the reader.
    pub fn release(&mut self, sender: Option<&str>) -> (r: Result<(), FprintError>)
        ensures
            match r {
                Ok(_) => release_spec(old(self)@, crate::token::optional_str(sender)) == Ok::<
                    _,
                    crate::error::FprintErrorView,
                >(final(self)@),
                Err(e) => release_spec(old(self)@, crate::token::optional_str(sender)) == Err::<
                    DeviceStateView,
                    _,
                >(e@) && final(self)@ == old(self)@,
            },
            busy_only_if_claimed(old(self)@) ==> busy_only_if_claimed(final(self)@),
    {
        if self.claimed_by.is_none() {
            return Err(FprintError::ClaimDevice("device not claimed".to_owned()));
        }
        if self.is_other_sender(sender) {
            return Err(FprintError::ClaimDevice("claimed by a different sender".to_owned()));
        }
        self.set_unclaimed();
        Ok(())
    }

    /// Releases the reader where the client that left the bus had it.
    pub fn handle_client_disconnect(&mut self, unique_name: &str)
        ensures
            final(self)@ == if old(self)@.claim_sender == Some(unique_name@) {
                unclaimed(old(self)@)
            } else {
                old(self)@
            },
            busy_only_if_claimed(old(self)@) ==> busy_only_if_claimed(final(self)@),
    {
        if same_text(&self.claim_sender, Some(unique_name)) {
            self.set_unclaimed();
        }
    }

    fn stop(&mut self, sender: Option<&str>, kind: ActionKind, none: FprintError) -> (r: Result<
        (),
        FprintError,
    >)
        requires
            none@ == crate::error::FprintErrorView::NoActionInProgress(
                "no "@ + action_text(kind) + " in progress"@,
            ),
        ensures
            match r {
                Ok(_) => stop_spec(old(self)@, crate::token::optional_str(sender), kind) == Ok::<
                    _,
                    crate::error::FprintErrorView,
                >(final(self)@),
                Err(e) => stop_spec(old(self)@, crate::token::optional_str(sender), kind) == Err::<
                    DeviceStateView,
                    _,
                >(e@) && final(self)@ == old(self)@,
            },
    {
        match self.ensure_claim(sender) {
            Err(e) => Err(e),
            Ok(_) => {
                if let Some(a) = self.action {
                    if a.kind == kind {
                        self.set_idle();
                        return Ok(());
                    }
                }
                Err(none)
            },
        }
    }

    /// Stops the verification going on.
    pub fn verify_stop(&mut self, sender: Option<&str>) -> (r: Result<(), FprintError>)
        ensures
            match r {
                Ok(_) => stop_spec(old(self)@, crate::token::optional_str(sender), ActionKind::Verify) == Ok::<
                    _,
                    crate::error::FprintErrorView,
                >(final(self)@),
                Err(e) => stop_spec(old(self)@, crate::token::optional_str(sender), ActionKind::Verify) == Err::<
                    DeviceStateView,
                    _,
                >(e@) && final(self)@ == old(self)@,
            },
            busy_only_if_claimed(old(self)@) ==> busy_only_if_claimed(final(self)@),
    {
        proof {
            reveal_strlit("no ");
            reveal_strlit("verify");
            reveal_strlit(" in progress");
            reveal_strlit("no verify in progress");
            assert("no "@ + "verify"@ + " in progress"@ =~= "no verify in progress"@);
        }
        self.stop(
            sender,
            ActionKind::Verify,
            FprintError::NoActionInProgress("no verify in progress".to_owned()),
        )
    }

    /// Stops the enrolment going on.
    pub fn enroll_stop(&mut self, sender: Option<&str>) -> (r: Result<(), FprintError>)
        ensures
            match r {
                Ok(_) => stop_spec(old(self)@, crate::token::optional_str(sender), ActionKind::Enroll) == Ok::<
                    _,
                    crate::error::FprintErrorView,
                >(final(self)@),
                Err(e) => stop_spec(old(self)@, crate::token::optional_str(sender), ActionKind::Enroll) == Err::<
                    DeviceStateView,
                    _,
                >(e@) && final(self)@ == old(self)@,
            },
            busy_only_if_claimed(old(self)@) ==> busy_only_if_claimed(final(self)@),
    {
        proof {
            reveal_strlit("no ");
            reveal_strlit("enroll");
            reveal_strlit(" in progress");
            reveal_strlit("no enroll in progress");
            assert("no "@ + "enroll"@ + " in progress"@ =~= "no enroll in progress"@);
        }
        self.stop(
            sender,
            ActionKind::Enroll,
            FprintError::NoActionInProgress("no enroll in progress".to_owned()),
        )
    }

    /// Starts an action: gives it the next epoch and makes it the one going on.
    fn start_action(&mut self, kind: ActionKind) -> (token: ActionToken)
        ensures
            final(self)@ == started(old(self)@, kind),
            token == (ActionToken { kind, epoch: old(self)@.next_epoch }),
    {
        let epoch: u64 = self.next_epoch;
        let token = ActionToken { kind, epoch };
        self.next_epoch = epoch.wrapping_add(1);
        self.action = Some(token);
        token
    }

    /// Ends an action, if it is still the one going on. Returns whether it was.
    pub fn end_action_if_owner(&mut self, expected: ActionToken) -> (r: bool)
        ensures
            r == (old(self)@.action == Some(expected)),
            final(self)@ == ended(old(self)@, expected),
            busy_only_if_claimed(old(self)@) ==> busy_only_if_claimed(final(self)@),
    {
        if self.owns(expected) {
            self.set_idle();
            true
        } else {
            false
        }
    }

    /// Ends a verification with its status, if it has one. Returns the status to
    /// tell the client: none where another action has taken the verification's
    /// place.
    pub fn verify_done(&mut self, token: ActionToken, outcome: Option<VerifyStatus>) -> (r: Option<
        VerifyStatus,
    >)
        ensures
            final(self)@ == ended(old(self)@, token),
            r == if old(self)@.action == Some(token) {
                outcome
            } else {
                None
            },
            busy_only_if_claimed(old(self)@) ==> busy_only_if_claimed(final(self)@),
    {
        if self.end_action_if_owner(token) {
            outcome
        } else {
            None
        }
    }

    fn expect_finger(&mut self)
        ensures
            final(self)@ == (DeviceStateView {
                finger_needed: true,
                finger_present: false,
                ..old(self)@
            }),
    {
        self.finger_needed = true;
        self.finger_present = false;
    }

    /// Takes the hints in news from the sensor; `low` is the news in lowercase.
    pub fn apply_hint(&mut self, low: &str)
        ensures
            final(self)@ == hinted(old(self)@, low@),
            busy_only_if_claimed(old(self)@) ==> busy_only_if_claimed(final(self)@),
    {
        if contains(low, "place_finger") || contains(low, "place_again") {
            self.finger_needed = true;
            self.finger_present = false;
        } else if is_lift(low) {
            self.finger_needed = false;
            self.finger_present = true;
        }
    }

    /// Takes the hints in news from the sensor. Returns whether a capture is
    /// done.
    pub fn on_progress(&mut self, msg: &str) -> (stage_passed: bool)
        ensures
            final(self)@ == hinted(old(self)@, crate::text::lowercase_text(msg@)),
            stage_passed == lifts_finger(crate::text::lowercase_text(msg@)),
            vstd::utf8::is_ascii_chars(msg@) ==> {
                &&& final(self)@ == hinted(old(self)@, crate::text::ascii_lowercase(msg@))
                &&& stage_passed == lifts_finger(crate::text::ascii_lowercase(msg@))
            },
            busy_only_if_claimed(old(self)@) ==> busy_only_if_claimed(final(self)@),
    {
        let low = lowercase(msg);
        self.apply_hint(low.as_str());
        is_lift(low.as_str())
    }
}

/// Whether news, in lowercase, says that a capture is done.
pub fn is_lift(low: &str) -> (r: bool)
    ensures
        r == lifts_finger(low@),
{
    contains(low, "remove_finger") || contains(low, "remove finger")
}

/// Whether a change of a bus name's owner is a client leaving: a unique name
/// that had an owner and has none now.
pub fn client_left(name: &str, old_owner: &str, new_owner: &str) -> (r: bool)
    ensures
        r == (name@.len() > 0 && name@[0] == ':' && old_owner@.len() > 0 && new_owner@.len() == 0),
{
    name.unicode_len() > 0 && name.get_char(0) == ':' && old_owner.unicode_len() > 0
        && new_owner.unicode_len() == 0
}

// ---------- verifying ----------

/// What a verification is told of, on the bus.
#[derive(Clone, Copy, Debug, PartialEq, Eq, Structural)]
pub enum VerifyStatus {
    Match,
    NoMatch,
    RetryScan,
    Disconnected,
    UnknownError,
}

/// The status as it stands in the signal.
pub open spec fn verify_status_text(s: VerifyStatus) -> Seq<char> {
    match s {
        VerifyStatus::Match => "verify-match"@,
        VerifyStatus::NoMatch => "verify-no-match"@,
        VerifyStatus::RetryScan => "verify-retry-scan"@,
        VerifyStatus::Disconnected => "verify-disconnected"@,
        VerifyStatus::UnknownError => "verify-unknown-error"@,
    }
}

impl VerifyStatus {
    /// The status as it stands in the signal.
    pub fn as_str(self) -> (s: &'static str)
        ensures
            s@ == verify_status_text(self),
    {
        match self {
            VerifyStatus::Match => "verify-match",
            VerifyStatus::NoMatch => "verify-no-match",
            VerifyStatus::RetryScan => "verify-retry-scan",
            VerifyStatus::Disconnected => "verify-disconnected",
            VerifyStatus::UnknownError => "verify-unknown-error",
        }
    }
}

/// How often a verification is tried again.
pub const MAX_RETRIES: u32 = 5;

/// How long a verification may go on being tried again, in nanoseconds.
pub const RETRY_BUDGET_NS: u64 = 30_000_000_000;

/// The pause after the sensor asked for another try, in milliseconds.
pub const RETRY_PAUSE_MS: u64 = 100;

/// What the code of a refused scan calls for.
#[derive(Clone, Copy, Debug, PartialEq, Eq, Structural)]
pub enum CodeClass {
    /// The finger is nobody's.
    NoMatch,
    /// The scan was bad; try again.
    Retry,
    /// Anything else.
    Other,
}

/// What a code, in lowercase, calls for.
pub open spec fn code_class(low: Seq<char>) -> CodeClass {
    if low == "no_match"@ {
        CodeClass::NoMatch
    } else if low == "timeout"@ || low == "poor_quality"@ || crate::token::has_prefix(
        low,
        "capture_failed"@,
    ) || crate::token::has_prefix(low, "image2tz_failed"@) {
        CodeClass::Retry
    } else {
        CodeClass::Other
    }
}

/// What a code, in lowercase, calls for.
pub fn classify_code(low: &str) -> (c: CodeClass)
    ensures
        c == code_class(low@),
{
    if str_eq(low, "no_match") {
        CodeClass::NoMatch
    } else if str_eq(low, "timeout") || str_eq(low, "poor_quality") || starts_with(
        low,
        "capture_failed",
    ) || starts_with(low, "image2tz_failed") {
        CodeClass::Retry
    } else {
        CodeClass::Other
    }
}

/// How a scan went.
#[derive(Clone, Copy, Debug, PartialEq, Eq, Structural)]
pub enum ScanOutcome {
    /// The sensor knew a finger.
    Match(MatchResult),
    /// The sensor refused.
    Refused(CodeClass),
    /// The sensor did not answer.
    TimedOut,
    /// The port is gone.
    Lost,
    /// Anything else.
    Broken,
}

/// How a scan went, from the sensor's answer.
pub open spec fn scan_outcome(
    r: Result<MatchResult, crate::sensor::SensorErrorView>,
) -> ScanOutcome {
    match r {
        Ok(m) => ScanOutcome::Match(m),
        Err(crate::sensor::SensorErrorView::Command { code, detail }) => ScanOutcome::Refused(
            code_class(crate::text::lowercase_text(code)),
        ),
        Err(crate::sensor::SensorErrorView::Timeout(_)) => ScanOutcome::TimedOut,
        Err(e) => if crate::sensor_actor::is_fatal(e) {
            ScanOutcome::Lost
        } else {
            ScanOutcome::Broken
        },
    }
}

/// How a scan went, from the sensor's answer.
pub fn read_scan(r: &Result<MatchResult, SensorError>) -> (o: ScanOutcome)
    ensures
        o == scan_outcome(
            match *r {
                Ok(m) => Ok(m),
                Err(e) => Err(e@),
            },
        ),
        r matches Err(SensorError::Command { code, detail }) ==> vstd::utf8::is_ascii_chars(code@)
            ==> o == ScanOutcome::Refused(code_class(crate::text::ascii_lowercase(code@))),
{
    match r {
        Ok(m) => ScanOutcome::Match(*m),
        Err(SensorError::Command { code, detail: _ }) => {
            let low = lowercase(code.as_str());
            ScanOutcome::Refused(classify_code(low.as_str()))
        },
        Err(SensorError::Timeout(_)) => ScanOutcome::TimedOut,
        Err(e) => {
            if is_fatal_io(e) {
                ScanOutcome::Lost
            } else {
                ScanOutcome::Broken
            }
        },
    }
}

/// What a verification does after a scan.
#[derive(Clone, Copy, Debug, PartialEq, Eq, Structural)]
pub enum VerifyStep {
    /// It is over, with this status.
    Done(VerifyStatus),
    /// Say that the scan is to be repeated, wait this many milliseconds, and
    /// scan again.
    Retry { pause_ms: u64 },
}

/// Whether a match is accepted: one of the slots asked for, and good enough.
pub open spec fn accepts(expected: Set<u8>, threshold: u16, m: MatchResult) -> bool {
    expected.contains(m.slot) && m.confidence >= threshold
}

/// What a verification does after a scan, and how often it has been tried again
/// then.
pub open spec fn verify_next(
    expected: Set<u8>,
    threshold: u16,
    retries: u32,
    o: ScanOutcome,
    elapsed_ns: u64,
) -> (u32, VerifyStep) {
    let spent = retries >= MAX_RETRIES || elapsed_ns > RETRY_BUDGET_NS;
    match o {
        ScanOutcome::Match(m) => (
            retries,
            VerifyStep::Done(
                if accepts(expected, threshold, m) {
                    VerifyStatus::Match
                } else {
                    VerifyStatus::NoMatch
                },
            ),
        ),
        ScanOutcome::Refused(CodeClass::NoMatch) => (
            retries,
            VerifyStep::Done(VerifyStatus::NoMatch),
        ),
        ScanOutcome::Refused(CodeClass::Retry) => if spent {
            (retries, VerifyStep::Done(VerifyStatus::NoMatch))
        } else {
            ((retries + 1) as u32, VerifyStep::Retry { pause_ms: RETRY_PAUSE_MS })
        },
        ScanOutcome::Refused(CodeClass::Other) => (
            retries,
            VerifyStep::Done(VerifyStatus::UnknownError),
        ),
        ScanOutcome::TimedOut => if spent {
            (retries, VerifyStep::Done(VerifyStatus::NoMatch))
        } else {
            ((retries + 1) as u32, VerifyStep::Retry { pause_ms: 0 })
        },
        ScanOutcome::Lost => (retries, VerifyStep::Done(VerifyStatus::Disconnected)),
        ScanOutcome::Broken => (retries, VerifyStep::Done(VerifyStatus::UnknownError)),
    }
}

/// A verification going on.
#[derive(Debug)]
pub struct VerifyTask {
    /// The action that it is.
    pub token: ActionToken,
    /// What clients are told to present.
    pub selected: String,
    /// The slots that count.
    pub expected: Vec<u8>,
    /// How good a match has to be.
    pub threshold: u16,
    /// How often it has been tried again.
    pub retries: u32,
}

fn has_slot(v: &Vec<u8>, slot: u8) -> (r: bool)
    ensures
        r == v@.to_set().contains(slot),
{
    let mut i: usize = 0;
    while i < v.len()
        invariant
            0 <= i <= v@.len(),
            forall|k: int| 0 <= k < i ==> v@[k] != slot,
        decreases v@.len() - i,
    {
        if v[i] == slot {
            assert(v@.contains(slot));
            return true;
        }
        i = i + 1;
    }
    assert(!v@.contains(slot));
    false
}

impl VerifyTask {
    /// Decides what follows a scan, `elapsed_ns` nanoseconds after the start.
    pub fn on_scan(&mut self, o: ScanOutcome, elapsed_ns: u64) -> (step: VerifyStep)
        ensures
            (final(self).retries, step) == verify_next(
                old(self).expected@.to_set(),
                old(self).threshold,
                old(self).retries,
                o,
                elapsed_ns,
            ),
            final(self).token == old(self).token,
            final(self).selected == old(self).selected,
            final(self).expected == old(self).expected,
            final(self).threshold == old(self).threshold,
    {
        let spent = self.retries >= MAX_RETRIES || elapsed_ns > RETRY_BUDGET_NS;
        match o {
            ScanOutcome::Match(m) => {
                if has_slot(&self.expected, m.slot) && m.confidence >= self.threshold {
                    VerifyStep::Done(VerifyStatus::Match)
                } else {
                    VerifyStep::Done(VerifyStatus::NoMatch)
                }
            },
            ScanOutcome::Refused(CodeClass::NoMatch) => VerifyStep::Done(VerifyStatus::NoMatch),
            ScanOutcome::Refused(CodeClass::Retry) => {
                if spent {
                    VerifyStep::Done(VerifyStatus::NoMatch)
                } else {
                    self.retries = self.retries + 1;
                    VerifyStep::Retry { pause_ms: RETRY_PAUSE_MS }
                }
            },
            ScanOutcome::Refused(CodeClass::Other) => VerifyStep::Done(VerifyStatus::UnknownError),
            ScanOutcome::TimedOut => {
                if spent {
                    VerifyStep::Done(VerifyStatus::NoMatch)
                } else {
                    self.retries = self.retries + 1;
                    VerifyStep::Retry { pause_ms: 0 }
                }
            },
            ScanOutcome::Lost => VerifyStep::Done(VerifyStatus::Disconnected),
            ScanOutcome::Broken => VerifyStep::Done(VerifyStatus::UnknownError),
        }
    }
}

// ---------- enrolling ----------

/// What an enrolment is told of, on the bus.
#[derive(Clone, Copy, Debug, PartialEq, Eq, Structural)]
pub enum EnrollStatus {
    Completed,
    StagePassed,
    Failed,
    Disconnected,
    DataFull,
}

/// The status as it stands in the signal.
pub open spec fn enroll_status_text(s: EnrollStatus) -> Seq<char> {
    match s {
        EnrollStatus::Completed => "enroll-completed"@,
        EnrollStatus::StagePassed => "enroll-stage-passed"@,
        EnrollStatus::Failed => "enroll-failed"@,
        EnrollStatus::Disconnected => "enroll-disconnected"@,
        EnrollStatus::DataFull => "enroll-data-full"@,
    }
}

impl EnrollStatus {
    /// The status as it stands in the signal.
    pub fn as_str(self) -> (s: &'static str)
        ensures
            s@ == enroll_status_text(self),
    {
        match self {
            EnrollStatus::Completed => "enroll-completed",
            EnrollStatus::StagePassed => "enroll-stage-passed",
            EnrollStatus::Failed => "enroll-failed",
            EnrollStatus::Disconnected => "enroll-disconnected",
            EnrollStatus::DataFull => "enroll-data-full",
        }
    }
}

/// An enrolment going on.
#[derive(Debug)]
pub struct EnrollTask {
    /// The action that it is.
    pub token: ActionToken,
    pub user: String,
    pub finger: String,
    /// The slot that the template goes to.
    pub slot: u8,
}

/// What starting an enrolment comes to.
#[derive(Debug)]
pub enum EnrollStart {
    /// No slot is free: say so, then end the action.
    DataFull(ActionToken),
    /// Ask the sensor to enrol.
    Begin(EnrollTask),
}

/// What the end of an enrolment calls for.
#[derive(Clone, Copy, Debug, PartialEq, Eq, Structural)]
pub enum EnrollEnd {
    /// Nothing: another action has taken its place.
    Dropped,
    /// Save the registry, and say how that went.
    Save,
    /// Say this.
    Emit(EnrollStatus),
}

/// The status of an enrolment that the sensor completed, once the registry was
/// saved or not.
pub fn saved_status(saved: bool) -> (s: EnrollStatus)
    ensures
        s == if saved {
            EnrollStatus::Completed
        } else {
            EnrollStatus::Failed
        },
{
    if saved {
        EnrollStatus::Completed
    } else {
        EnrollStatus::Failed
    }
}

// ---------- the reader ----------

/// The reader: the registry, the state, and how good a match has to be.
pub struct Device {
    pub storage: Storage,
    pub confidence_threshold: u16,
    pub state: DeviceState,
}

/// A [`VerifyTask`] that has just begun, as mathematics.
pub struct VerifyPlan {
    pub token: ActionToken,
    pub selected: Seq<char>,
    pub expected: Set<u8>,
}

/// The words for a user without prints.
pub open spec fn no_prints_text(user: Seq<char>) -> Seq<char> {
    "no enrolled prints for "@ + user
}

/// The words for a finger without a print.
pub open spec fn not_enrolled_text(finger: Seq<char>, user: Seq<char>) -> Seq<char> {
    finger + " not enrolled for "@ + user
}

/// What comes of starting a verification. An attempt that finds no print still
/// uses up an epoch and clears the finger hints.
pub open spec fn verify_start_spec(
    s: DeviceStateView,
    slots: crate::storage::Slots,
    sender: Option<Seq<char>>,
    finger: Seq<char>,
) -> (DeviceStateView, Result<VerifyPlan, crate::error::FprintErrorView>) {
    if !finger_ok(finger, true) {
        (s, Err(crate::error::FprintErrorView::InvalidFingername(finger)))
    } else {
        match claim_of(s, sender) {
            Err(e) => (s, Err(e)),
            Ok(user) => match s.action {
                Some(a) => (
                    s,
                    Err(
                        crate::error::FprintErrorView::AlreadyInUse(
                            action_text(a.kind) + " already in progress"@,
                        ),
                    ),
                ),
                None => {
                    let token = ActionToken { kind: ActionKind::Verify, epoch: s.next_epoch };
                    let t = started(s, ActionKind::Verify);
                    let prints = crate::storage::fingers_of(slots, user);
                    if prints == Map::<Seq<char>, u8>::empty() {
                        (
                            idle(t),
                            Err(
                                crate::error::FprintErrorView::NoEnrolledPrints(
                                    no_prints_text(user),
                                ),
                            ),
                        )
                    } else if finger != "any"@ && !prints.dom().contains(finger) {
                        (
                            idle(t),
                            Err(
                                crate::error::FprintErrorView::NoEnrolledPrints(
                                    not_enrolled_text(finger, user),
                                ),
                            ),
                        )
                    } else {
                        (
                            DeviceStateView { finger_needed: true, finger_present: false, ..t },
                            Ok(
                                VerifyPlan {
                                    token,
                                    selected: finger,
                                    expected: if finger == "any"@ {
                                        prints.values()
                                    } else {
                                        set![prints[finger]]
                                    },
                                },
                            ),
                        )
                    }
                },
            },
        }
    }
}

/// The slot for a user's finger: its own where it has one, else the lowest free
/// one.
pub open spec fn is_slot_for(
    slots: crate::storage::Slots,
    capacity: u16,
    user: Seq<char>,
    finger: Seq<char>,
    slot: u8,
) -> bool {
    match crate::storage::slot_of(slots, user, finger) {
        Some(own) => slot == own,
        None => {
            &&& slot < crate::storage::usable_slots(capacity)
            &&& !crate::storage::slot_used(slots, slot as int)
            &&& forall|k: int| 0 <= k < slot ==> #[trigger] crate::storage::slot_used(slots, k)
        },
    }
}

/// Whether a user's finger has no slot, and none is free.
pub open spec fn is_full_for(
    slots: crate::storage::Slots,
    capacity: u16,
    user: Seq<char>,
    finger: Seq<char>,
) -> bool {
    &&& crate::storage::slot_of(slots, user, finger) is None
    &&& forall|k: int|
        0 <= k < crate::storage::usable_slots(capacity) ==> #[trigger] crate::storage::slot_used(
            slots,
            k,
        )
}

/// Why an enrolment cannot start, if it cannot.
pub open spec fn enroll_refusal(
    s: DeviceStateView,
    sender: Option<Seq<char>>,
    finger: Seq<char>,
) -> Option<crate::error::FprintErrorView> {
    if !finger_ok(finger, false) {
        Some(crate::error::FprintErrorView::InvalidFingername(finger))
    } else {
        match claim_of(s, sender) {
            Err(e) => Some(e),
            Ok(user) => match s.action {
                Some(a) => Some(
                    crate::error::FprintErrorView::AlreadyInUse(
                        action_text(a.kind) + " already in progress"@,
                    ),
                ),
                None => None,
            },
        }
    }
}

fn values_of(fs: &FingerSlots) -> (v: Vec<u8>)
    requires
        crate::assoc::unique_keys(fs@),
    ensures
        v@.to_set() == crate::assoc::assoc_map(fs@).values(),
{
    let mut v: Vec<u8> = Vec::new();
    let mut i: usize = 0;
    while i < fs.len()
        invariant
            0 <= i <= fs@.len(),
            v@.len() == i,
            forall|k: int| 0 <= k < i ==> v@[k] == (#[trigger] fs@[k]).1,
        decreases fs@.len() - i,
    {
        v.push(fs[i].1);
        i = i + 1;
    }
    proof {
        crate::assoc::lemma_assoc_dom(fs@);
        crate::assoc::lemma_assoc_value(fs@);
        let m = crate::assoc::assoc_map(fs@);
        assert forall|x: u8| v@.to_set().contains(x) <==> #[trigger] m.values().contains(x) by {
            if v@.contains(x) {
                let k = choose|k: int| 0 <= k < v@.len() && v@[k] == x;
                assert(fs@[k].1 == x);
                assert(m.dom().contains(fs@[k].0@) && m[fs@[k].0@] == x);
            }
            if m.values().contains(x) {
                let f = choose|f: Seq<char>| m.dom().contains(f) && #[trigger] m[f] == x;
                let k = choose|k: int| 0 <= k < fs@.len() && #[trigger] fs@[k].0@ == f;
                assert(m[fs@[k].0@] == fs@[k].1);
                assert(v@[k] == x);
                assert(v@.contains(x));
            }
        }
        assert(v@.to_set() =~= m.values());
    }
    v
}

impl Device {
    /// A reader that nobody has.
    pub fn new(storage: Storage, confidence_threshold: u16) -> (d: Device)
        ensures
            d.storage == storage,
            d.confidence_threshold == confidence_threshold,
            d.state@.claimed_by is None,
            d.state@.claim_sender is None,
            d.state@.action is None,
            d.state@.next_epoch == 0,
            !d.state@.finger_present,
            !d.state@.finger_needed,
            busy_only_if_claimed(d.state@),
    {
        Device { storage, confidence_threshold, state: DeviceState::new() }
    }

    /// What clients are told that the reader is.
    pub fn name(&self) -> (s: &'static str)
        ensures
            s@ == "R503 fingerprint reader"@,
    {
        "R503 fingerprint reader"
    }

    /// How often a finger is presented for one template.
    pub fn num_enroll_stages(&self) -> (n: i32)
        ensures
            n == 2,
    {
        2
    }

    /// How a finger is presented.
    pub fn scan_type(&self) -> (s: &'static str)
        ensures
            s@ == "press"@,
    {
        "press"
    }

    /// The fingers of a user that the caller may act as.
    pub fn list_enrolled_fingers(&self, user: &str) -> (r: Result<Vec<String>, FprintError>)
        ensures
            match r {
                Ok(v) => v@.len() > 0 && crate::storage::is_sorted_listing(
                    v@,
                    crate::storage::fingers_of(self.storage@, user@),
                ),
                Err(e) => {
                    &&& crate::storage::fingers_of(self.storage@, user@) == Map::<
                        Seq<char>,
                        u8,
                    >::empty()
                    &&& e@ == crate::error::FprintErrorView::NoEnrolledPrints(
                        no_prints_text(user@),
                    )
                },
            },
    {
        let v = self.storage.list_fingers(user);
        if v.len() == 0 {
            proof {
                let m = crate::storage::fingers_of(self.storage@, user@);
                assert forall|f: Seq<char>| !m.dom().contains(f) by {}
                assert(m =~= Map::empty());
            }
            let mut s = "no enrolled prints for ".to_owned();
            s.append(user);
            return Err(FprintError::NoEnrolledPrints(s));
        }
        Ok(v)
    }

    /// Starts a verification.
    pub fn verify_start(&mut self, sender: Option<&str>, finger: &str) -> (r: Result<
        VerifyTask,
        FprintError,
    >)
        ensures
            final(self).storage == old(self).storage,
            final(self).confidence_threshold == old(self).confidence_threshold,
            match r {
                Ok(t) => {
                    &&& verify_start_spec(
                        old(self).state@,
                        old(self).storage@,
                        crate::token::optional_str(sender),
                        finger@,
                    ) == (
                        final(self).state@,
                        Ok::<_, crate::error::FprintErrorView>(
                            VerifyPlan {
                                token: t.token,
                                selected: t.selected@,
                                expected: t.expected@.to_set(),
                            },
                        ),
                    )
                    &&& t.threshold == old(self).confidence_threshold
                    &&& t.retries == 0
                },
                Err(e) => verify_start_spec(
                    old(self).state@,
                    old(self).storage@,
                    crate::token::optional_str(sender),
                    finger@,
                ) == (final(self).state@, Err::<VerifyPlan, _>(e@)),
            },
            r matches Ok(t) ==> forall|x: u8| #[trigger]
                t.expected@.contains(x) ==> exists|f: Seq<char>|
                    (finger@ == "any"@ || f == finger@) && #[trigger] crate::storage::slot_of(
                        old(self).storage@,
                        old(self).state@.claimed_by->0,
                        f,
                    ) == Some(x),
            r matches Ok(t) ==> forall|f: Seq<char>|
                (finger@ == "any"@ || f == finger@) && (#[trigger] crate::storage::slot_of(
                    old(self).storage@,
                    old(self).state@.claimed_by->0,
                    f,
                )) is Some ==> t.expected@.contains(
                    crate::storage::slot_of(
                        old(self).storage@,
                        old(self).state@.claimed_by->0,
                        f,
                    )->0,
                ),
            busy_only_if_claimed(old(self).state@) ==> busy_only_if_claimed(final(self).state@),
    {
        if let Err(e) = validate_finger(finger, true) {
            return Err(e);
        }
        let user = match self.state.ensure_claim(sender) {
            Ok(user) => user,
            Err(e) => {
                return Err(e);
            },
        };
        if let Some(a) = self.state.action {
            return Err(in_use(a));
        }
        let fs = self.storage.get_user_slots(user.as_str());
        let token = self.state.start_action(ActionKind::Verify);
        proof {
            crate::assoc::lemma_assoc_dom(fs@);
        }
        if fs.len() == 0 {
            self.state.end_action_if_owner(token);
            let mut s = "no enrolled prints for ".to_owned();
            s.append(user.as_str());
            return Err(FprintError::NoEnrolledPrints(s));
        }
        assert(crate::assoc::assoc_map(fs@).dom().contains(fs@[0].0@));
        assert(!Map::<Seq<char>, u8>::empty().dom().contains(fs@[0].0@));
        let expected: Vec<u8> = if str_eq(finger, "any") {
            values_of(&fs)
        } else {
            match crate::assoc::assoc_find(&fs, finger) {
                Some(i) => {
                    let mut one: Vec<u8> = Vec::new();
                    one.push(fs[i].1);
                    proof {
                        let m = crate::assoc::assoc_map(fs@);
                        assert forall|x: u8| one@.to_set().contains(x) <==> #[trigger] set![
                            m[finger@],
                        ].contains(x) by {
                            if x == m[finger@] {
                                assert(one@[0] == x);
                                assert(one@.contains(x));
                            }
                        }
                        assert(one@.to_set() =~= set![m[finger@]]);
                    }
                    one
                },
                None => {
                    self.state.end_action_if_owner(token);
                    let mut s = finger.to_owned();
                    s.append(" not enrolled for ");
                    s.append(user.as_str());
                    return Err(FprintError::NoEnrolledPrints(s));
                },
            }
        };
        self.state.expect_finger();
        proof {
            lemma_verification_expects_the_claimers_prints(
                old(self).state@,
                old(self).storage@,
                crate::token::optional_str(sender),
                finger@,
            );
            let plan = verify_start_spec(
                old(self).state@,
                old(self).storage@,
                crate::token::optional_str(sender),
                finger@,
            ).1->Ok_0;
            assert(plan.expected == expected@.to_set());
            assert forall|x: u8| #[trigger] expected@.contains(x) implies exists|f: Seq<char>|
                (finger@ == "any"@ || f == finger@) && #[trigger] crate::storage::slot_of(
                    old(self).storage@,
                    old(self).state@.claimed_by->0,
                    f,
                ) == Some(x) by {
                assert(plan.expected.contains(x));
            }
        }
        Ok(
            VerifyTask {
                token,
                selected: finger.to_owned(),
                expected,
                threshold: self.confidence_threshold,
                retries: 0,
            },
        )
    }

    /// Starts an enrolment. A finger that has a slot keeps it: the sensor
    /// replaces the template only once the new one is good.
    pub fn enroll_start(&mut self, sender: Option<&str>, finger: &str) -> (r: Result<
        EnrollStart,
        FprintError,
    >)
        ensures
            final(self).storage == old(self).storage,
            final(self).confidence_threshold == old(self).confidence_threshold,
            match r {
                Err(e) => {
                    &&& enroll_refusal(old(self).state@, crate::token::optional_str(sender), finger@) == Some(e@)
                    &&& final(self).state@ == old(self).state@
                },
                Ok(EnrollStart::DataFull(token)) => {
                    &&& enroll_refusal(old(self).state@, crate::token::optional_str(sender), finger@) is None
                    &&& is_full_for(
                        old(self).storage@,
                        old(self).storage.slot_capacity(),
                        old(self).state@.claimed_by->0,
                        finger@,
                    )
                    &&& token == (ActionToken {
                        kind: ActionKind::Enroll,
                        epoch: old(self).state@.next_epoch,
                    })
                    &&& final(self).state@ == started(old(self).state@, ActionKind::Enroll)
                },
                Ok(EnrollStart::Begin(t)) => {
                    &&& enroll_refusal(old(self).state@, crate::token::optional_str(sender), finger@) is None
                    &&& old(self).state@.claimed_by == Some(t.user@)
                    &&& t.finger@ == finger@
                    &&& is_slot_for(
                        old(self).storage@,
                        old(self).storage.slot_capacity(),
                        t.user@,
                        finger@,
                        t.slot,
                    )
                    &&& t.token == (ActionToken {
                        kind: ActionKind::Enroll,
                        epoch: old(self).state@.next_epoch,
                    })
                    &&& final(self).state@ == (DeviceStateView {
                        finger_needed: true,
                        finger_present: false,
                        ..started(old(self).state@, ActionKind::Enroll)
                    })
                },
            },
            busy_only_if_claimed(old(self).state@) ==> busy_only_if_claimed(final(self).state@),
    {
        if let Err(e) = validate_finger(finger, false) {
            return Err(e);
        }
        let user = match self.state.ensure_claim(sender) {
            Ok(user) => user,
            Err(e) => {
                return Err(e);
            },
        };
        if let Some(a) = self.state.action {
            return Err(in_use(a));
        }
        let token = self.state.start_action(ActionKind::Enroll);
        let slot: u8 = match self.storage.get_slot(user.as_str(), finger) {
            Some(own) => own,
            None => match self.storage.allocate_slot() {
                Ok(free) => free,
                Err(_) => {
                    return Ok(EnrollStart::DataFull(token));
                },
            },
        };
        self.state.expect_finger();
        Ok(EnrollStart::Begin(EnrollTask { token, user, finger: finger.to_owned(), slot }))
    }

    /// Ends an enrolment with the sensor's answer. A finger that was enrolled
    /// is registered, unless another action has taken the enrolment's place.
    pub fn enroll_done(&mut self, task: &EnrollTask, r: Result<u8, SensorError>) -> (end: EnrollEnd)
        ensures
            final(self).confidence_threshold == old(self).confidence_threshold,
            final(self).state@ == ended(old(self).state@, task.token),
            busy_only_if_claimed(old(self).state@) ==> busy_only_if_claimed(final(self).state@),
            final(self).storage.slot_capacity() == old(self).storage.slot_capacity(),
            ({
                let ours = old(self).state@.action == Some(task.token);
                &&& end == if !ours {
                    EnrollEnd::Dropped
                } else {
                    match r {
                        Ok(_) => EnrollEnd::Save,
                        Err(e) => EnrollEnd::Emit(
                            if crate::sensor_actor::is_fatal(e@) {
                                EnrollStatus::Disconnected
                            } else {
                                EnrollStatus::Failed
                            },
                        ),
                    }
                }
                &&& final(self).storage@ == if ours && r is Ok {
                    crate::storage::with_slot(
                        old(self).storage@,
                        task.user@,
                        task.finger@,
                        task.slot,
                    )
                } else {
                    old(self).storage@
                }
            }),
            end is Save ==> r is Ok && crate::storage::slot_of(
                final(self).storage@,
                task.user@,
                task.finger@,
            ) == Some(task.slot),
            forall|u: Seq<char>, f: Seq<char>|
                end != EnrollEnd::Save || u != task.user@ || f != task.finger@ ==> (
                #[trigger] crate::storage::slot_of(final(self).storage@, u, f))
                    == crate::storage::slot_of(old(self).storage@, u, f),
    {
        proof {
            assert forall|u: Seq<char>, f: Seq<char>|
                u != task.user@ || f != task.finger@ implies #[trigger] crate::storage::slot_of(
                crate::storage::with_slot(self.storage@, task.user@, task.finger@, task.slot),
                u,
                f,
            ) == crate::storage::slot_of(self.storage@, u, f) by {
                crate::storage::lemma_set_then_get(
                    self.storage@,
                    task.user@,
                    task.finger@,
                    task.slot,
                    u,
                    f,
                );
            }
        }
        if !self.state.end_action_if_owner(task.token) {
            return EnrollEnd::Dropped;
        }
        match r {
            Ok(_) => {
                self.storage.set_slot(task.user.as_str(), task.finger.as_str(), task.slot);
                EnrollEnd::Save
            },
            Err(e) => {
                if is_fatal_io(&e) {
                    EnrollEnd::Emit(EnrollStatus::Disconnected)
                } else {
                    EnrollEnd::Emit(EnrollStatus::Failed)
                }
            },
        }
    }

    /// The user and the slot of the print that a claimer wants deleted.
    pub fn find_print(&self, sender: Option<&str>, finger: &str) -> (r: Result<
        (String, u8),
        FprintError,
    >)
        ensures
            find_print_spec(self.state@, self.storage@, crate::token::optional_str(sender), finger@) == match r {
                Ok((user, slot)) => Ok::<_, crate::error::FprintErrorView>((user@, slot)),
                Err(e) => Err(e@),
            },
    {
        if let Err(e) = validate_finger(finger, false) {
            return Err(e);
        }
        let user = match self.state.ensure_claim(sender) {
            Ok(user) => user,
            Err(e) => {
                return Err(e);
            },
        };
        match self.storage.get_slot(user.as_str(), finger) {
            Some(slot) => Ok((user, slot)),
            None => {
                let mut s = finger.to_owned();
                s.append(" not enrolled for ");
                s.append(user.as_str());
                Err(FprintError::NoEnrolledPrints(s))
            },
        }
    }

    /// Ends the deletion of one print with the sensor's answer: a print that is
    /// gone is forgotten.
    pub fn print_deleted(
        &mut self,
        user: &str,
        finger: &str,
        slot: u8,
        r: Result<u8, SensorError>,
    ) -> (res: Result<(), FprintError>)
        ensures
            final(self).confidence_threshold == old(self).confidence_threshold,
            final(self).state == old(self).state,
            final(self).storage.slot_capacity() == old(self).storage.slot_capacity(),
            match r {
                Ok(_) => res is Ok && final(self).storage@ == crate::storage::without_finger(
                    old(self).storage@,
                    user@,
                    finger@,
                ),
                Err(e) => {
                    &&& final(self).storage@ == old(self).storage@
                    &&& res matches Err(f) && f@
                        == crate::error::FprintErrorView::PrintsNotDeleted(
                        "sensor delete failed for slot "@ + crate::text::decimal(slot as nat)
                            + ": "@ + crate::sensor::sensor_error_text(e@),
                    )
                },
            },
            r is Ok ==> crate::storage::slot_of(final(self).storage@, user@, finger@) is None,
            forall|u: Seq<char>, f: Seq<char>|
                r is Err || u != user@ || f != finger@ ==> (#[trigger] crate::storage::slot_of(
                    final(self).storage@,
                    u,
                    f,
                )) == crate::storage::slot_of(old(self).storage@, u, f),
    {
        proof {
            lemma_forgetting_one_finger(self.storage@, user@, finger@);
        }
        match r {
            Ok(_) => {
                self.storage.remove_finger(user, finger);
                Ok(())
            },
            Err(e) => {
                let mut s = "sensor delete failed for slot ".to_owned();
                push_decimal(&mut s, slot as u64);
                s.append(": ");
                s.append(e.message().as_str());
                Err(FprintError::PrintsNotDeleted(s))
            },
        }
    }
}

/// The user and the slot of the print that a claimer wants deleted.
pub open spec fn find_print_spec(
    s: DeviceStateView,
    slots: crate::storage::Slots,
    sender: Option<Seq<char>>,
    finger: Seq<char>,
) -> Result<(Seq<char>, u8), crate::error::FprintErrorView> {
    if !finger_ok(finger, false) {
        Err(crate::error::FprintErrorView::InvalidFingername(finger))
    } else {
        match claim_of(s, sender) {
            Err(e) => Err(e),
            Ok(user) => match crate::storage::slot_of(slots, user, finger) {
                Some(slot) => Ok((user, slot)),
                None => Err(
                    crate::error::FprintErrorView::NoEnrolledPrints(
                        not_enrolled_text(finger, user),
                    ),
                ),
            },
        }
    }
}

// ---------- deleting every print of a user ----------

/// A user's prints being deleted, sensor first: a print that the sensor still
/// has stays registered.
#[derive(Debug)]
pub struct Purge {
    user: String,
    left: FingerSlots,
    gone: Vec<String>,
    errors: Vec<String>,
}

/// A [`Purge`] as mathematics.
pub struct PurgeView {
    pub user: Seq<char>,
    /// What the sensor still has to delete.
    pub left: Seq<(Seq<char>, u8)>,
    /// What it has deleted and the registry still has to forget.
    pub gone: Seq<Seq<char>>,
    /// What went wrong so far.
    pub errors: Seq<Seq<char>>,
}

/// Pairs with their texts.
pub open spec fn pair_texts(s: Seq<(String, u8)>) -> Seq<(Seq<char>, u8)> {
    Seq::new(s.len(), |i: int| (s[i].0@, s[i].1))
}

impl View for Purge {
    type V = PurgeView;

    closed spec fn view(&self) -> PurgeView {
        PurgeView {
            user: self.user@,
            left: pair_texts(self.left@),
            gone: crate::token::texts(self.gone@),
            errors: crate::token::texts(self.errors@),
        }
    }
}

/// Texts with `; ` between them.
pub open spec fn joined(es: Seq<Seq<char>>) -> Seq<char>
    decreases es.len(),
{
    if es.len() == 0 {
        Seq::empty()
    } else if es.len() == 1 {
        es[0]
    } else {
        joined(es.drop_last()) + "; "@ + es.last()
    }
}

/// The words for a print that the sensor did not delete.
pub open spec fn kept_text(finger: Seq<char>, slot: u8, why: Seq<char>) -> Seq<char> {
    finger + " (slot "@ + crate::text::decimal(slot as nat) + "): "@ + why
}

/// The purge after the sensor's answer for its next print; `failure` says why
/// it failed, if it did.
pub open spec fn purge_next(p: PurgeView, failure: Option<Seq<char>>) -> PurgeView {
    if p.left.len() == 0 {
        p
    } else {
        let (finger, slot) = p.left[0];
        match failure {
            None => PurgeView { left: p.left.drop_first(), gone: p.gone.push(finger), ..p },
            Some(why) => PurgeView {
                left: p.left.drop_first(),
                errors: p.errors.push(kept_text(finger, slot, why)),
                ..p
            },
        }
    }
}

impl Purge {
    /// The slot that the sensor is to delete next.
    pub fn next_slot(&self) -> (r: Option<u8>)
        ensures
            r == if self@.left.len() > 0 {
                Some(self@.left[0].1)
            } else {
                None
            },
    {
        if self.left.len() > 0 {
            Some(self.left[0].1)
        } else {
            None
        }
    }

    /// Takes note of the sensor's answer for that slot.
    pub fn on_deleted(&mut self, r: Result<u8, SensorError>)
        ensures
            final(self)@ == purge_next(
                old(self)@,
                match r {
                    Ok(_) => None,
                    Err(e) => Some(crate::sensor::sensor_error_text(e@)),
                },
            ),
    {
        if self.left.len() == 0 {
            return;
        }
        let (finger, slot) = self.left.remove(0);
        assert(pair_texts(self.left@) =~= old(self)@.left.drop_first());
        match r {
            Ok(_) => {
                self.gone.push(finger);
                assert(crate::token::texts(self.gone@) =~= old(self)@.gone.push(finger@));
            },
            Err(e) => {
                let mut s = finger;
                s.append(" (slot ");
                push_decimal(&mut s, slot as u64);
                s.append("): ");
                s.append(e.message().as_str());
                self.errors.push(s);
                assert(crate::token::texts(self.errors@) =~= old(self)@.errors.push(s@));
            },
        }
    }

    /// Takes note that the registry could not be saved without a finger.
    pub fn on_unsaved(&mut self, finger: &str, e: &crate::storage::StorageError)
        ensures
            final(self)@ == (PurgeView {
                errors: old(self)@.errors.push(
                    finger@ + " (registry write): "@ + crate::storage::storage_error_text(e@),
                ),
                ..old(self)@
            }),
    {
        let mut s = finger.to_owned();
        s.append(" (registry write): ");
        s.append(e.message().as_str());
        self.errors.push(s);
        assert(crate::token::texts(self.errors@) =~= old(self)@.errors.push(s@));
    }

    /// What the client is told.
    pub fn finish(&self) -> (r: Result<(), FprintError>)
        ensures
            match r {
                Ok(_) => self@.errors.len() == 0,
                Err(e) => self@.errors.len() > 0 && e@
                    == crate::error::FprintErrorView::PrintsNotDeleted(
                    "partial delete: "@ + joined(self@.errors),
                ),
            },
    {
        if self.errors.len() == 0 {
            return Ok(());
        }
        let mut s = "partial delete: ".to_owned();
        let ghost es = self@.errors;
        let mut i: usize = 0;
        while i < self.errors.len()
            invariant
                0 <= i <= self.errors@.len(),
                es == crate::token::texts(self.errors@),
                s@ == "partial delete: "@ + joined(es.take(i as int)),
            decreases self.errors@.len() - i,
        {
            if i > 0 {
                s.append("; ");
            }
            s.append(self.errors[i].as_str());
            proof {
                let t = es.take(i + 1);
                assert(t.drop_last() =~= es.take(i as int));
                assert(t.last() == self.errors@[i as int]@);
                assert(s@ =~= "partial delete: "@ + joined(t));
            }
            i = i + 1;
        }
        assert(es.take(i as int) =~= es);
        Err(FprintError::PrintsNotDeleted(s))
    }
}

impl Device {
    /// Starts deleting every print of a user.
    pub fn purge_start(&self, user: &str) -> (p: Purge)
        ensures
            p@.user == user@,
            p@.gone == Seq::<Seq<char>>::empty(),
            p@.errors == Seq::<Seq<char>>::empty(),
            forall|f: Seq<char>, slot: u8| #[trigger]
                p@.left.contains((f, slot)) <==> crate::storage::slot_of(self.storage@, user@, f)
                    == Some(slot),
            forall|i: int, j: int|
                0 <= i < p@.left.len() && 0 <= j < p@.left.len() && i != j ==> (
                #[trigger] p@.left[i]).0 != (#[trigger] p@.left[j]).0,
    {
        let left = self.storage.get_user_slots(user);
        proof {
            crate::assoc::lemma_assoc_dom(left@);
            crate::assoc::lemma_assoc_value(left@);
            let l = pair_texts(left@);
            assert forall|f: Seq<char>, slot: u8| #[trigger]
                l.contains((f, slot)) <==> crate::storage::slot_of(self.storage@, user@, f) == Some(
                slot,
            ) by {
                if l.contains((f, slot)) {
                    let k = choose|k: int| 0 <= k < l.len() && l[k] == (f, slot);
                    assert(left@[k].0@ == f);
                }
                if crate::storage::slot_of(self.storage@, user@, f) == Some(slot) {
                    let k = choose|k: int| 0 <= k < left@.len() && #[trigger] left@[k].0@ == f;
                    assert(l[k] == (f, slot));
                }
            }
            assert forall|i: int, j: int| 0 <= i < l.len() && 0 <= j < l.len() && i != j implies (
            #[trigger] l[i]).0 != (#[trigger] l[j]).0 by {
                assert(left@[i].0@ != left@[j].0@);
            }
        }
        let p = Purge { user: user.to_owned(), left, gone: Vec::new(), errors: Vec::new() };
        assert(p@.gone =~= Seq::<Seq<char>>::empty());
        assert(p@.errors =~= Seq::<Seq<char>>::empty());
        p
    }

    /// Forgets the next finger whose print is gone, and returns it; the caller
    /// saves the registry.
    pub fn purge_forget(&mut self, p: &mut Purge) -> (r: Option<String>)
        ensures
            final(self).confidence_threshold == old(self).confidence_threshold,
            final(self).state == old(self).state,
            final(self).storage.slot_capacity() == old(self).storage.slot_capacity(),
            match r {
                None => {
                    &&& old(p)@.gone.len() == 0
                    &&& final(p)@ == old(p)@
                    &&& final(self).storage@ == old(self).storage@
                },
                Some(f) => {
                    &&& old(p)@.gone.len() > 0
                    &&& f@ == old(p)@.gone[0]
                    &&& final(p)@ == (PurgeView { gone: old(p)@.gone.drop_first(), ..old(p)@ })
                    &&& final(self).storage@ == crate::storage::without_finger(
                        old(self).storage@,
                        old(p)@.user,
                        f@,
                    )
                },
            },
            r matches Some(f) ==> crate::storage::slot_of(
                final(self).storage@,
                old(p)@.user,
                f@,
            ) is None,
            forall|u: Seq<char>, g: Seq<char>|
                (r is None || u != old(p)@.user || g != r->0@) ==> (
                #[trigger] crate::storage::slot_of(final(self).storage@, u, g))
                    == crate::storage::slot_of(old(self).storage@, u, g),
    {
        if p.gone.len() == 0 {
            return None;
        }
        let finger = p.gone.remove(0);
        proof {
            lemma_forgetting_one_finger(self.storage@, p.user@, finger@);
        }
        assert(crate::token::texts(p.gone@) =~= old(p)@.gone.drop_first());
        self.storage.remove_finger(p.user.as_str(), finger.as_str());
        Some(finger)
    }
}

// ---------- the manager ----------

/// The list of readers: there is one.
pub struct Manager;

impl Manager {
    /// Every reader there is.
    pub fn get_devices(&self) -> (v: Vec<&'static str>)
        ensures
            v@.len() == 1,
            v@[0]@ == DEVICE_PATH@,
    {
        let mut v: Vec<&'static str> = Vec::new();
        v.push(DEVICE_PATH);
        v
    }

    /// The reader to use.
    pub fn get_default_device(&self) -> (s: &'static str)
        ensures
            s@ == DEVICE_PATH@,
    {
        DEVICE_PATH
    }
}

// ---------- laws ----------

proof fn lemma_forgetting_one_finger(
    slots: crate::storage::Slots,
    user: Seq<char>,
    finger: Seq<char>,
)
    ensures
        ({
            let t = crate::storage::without_finger(slots, user, finger);
            &&& crate::storage::slot_of(t, user, finger) is None
            &&& forall|u: Seq<char>, f: Seq<char>|
                u != user || f != finger ==> (#[trigger] crate::storage::slot_of(t, u, f))
                    == crate::storage::slot_of(slots, u, f)
        }),
{
    let t = crate::storage::without_finger(slots, user, finger);
    crate::storage::lemma_remove_then_get(slots, user, finger, user, finger);
    assert forall|u: Seq<char>, f: Seq<char>| u != user || f != finger implies (
    #[trigger] crate::storage::slot_of(t, u, f)) == crate::storage::slot_of(slots, u, f) by {
        crate::storage::lemma_remove_then_get(slots, user, finger, u, f);
    }
}

/// Only a claimed reader is ever busy: nothing that happens to it changes that.
pub proof fn lemma_busy_only_if_claimed(
    s: DeviceStateView,
    slots: crate::storage::Slots,
    user: Seq<char>,
    sender: Option<Seq<char>>,
    finger: Seq<char>,
    token: ActionToken,
    low: Seq<char>,
)
    requires
        busy_only_if_claimed(s),
    ensures
        claim_spec(s, user, sender) matches Ok(t) ==> busy_only_if_claimed(t),
        release_spec(s, sender) matches Ok(t) ==> busy_only_if_claimed(t),
        stop_spec(s, sender, token.kind) matches Ok(t) ==> busy_only_if_claimed(t),
        busy_only_if_claimed(unclaimed(s)),
        busy_only_if_claimed(ended(s, token)),
        busy_only_if_claimed(hinted(s, low)),
        busy_only_if_claimed(verify_start_spec(s, slots, sender, finger).0),
        enroll_refusal(s, sender, finger) is None ==> busy_only_if_claimed(
            started(s, ActionKind::Enroll),
        ),
{
}

/// While an action goes on, no other starts, nobody takes over the claim, and
/// the state stays as it is.
pub proof fn lemma_one_action_at_a_time(
    s: DeviceStateView,
    slots: crate::storage::Slots,
    user: Seq<char>,
    sender: Option<Seq<char>>,
    finger: Seq<char>,
)
    requires
        s.action is Some,
        s.claimed_by is Some,
    ensures
        claim_spec(s, user, sender) is Err,
        verify_start_spec(s, slots, sender, finger).0 == s,
        verify_start_spec(s, slots, sender, finger).1 is Err,
        enroll_refusal(s, sender, finger) is Some,
{
}

/// The state after actions that were each started once the one before was over.
pub open spec fn after_actions(s: DeviceStateView, kinds: Seq<ActionKind>) -> DeviceStateView
    decreases kinds.len(),
{
    if kinds.len() == 0 {
        s
    } else {
        started(idle(after_actions(s, kinds.drop_last())), kinds.last())
    }
}

proof fn lemma_epochs_count_actions(s: DeviceStateView, kinds: Seq<ActionKind>)
    ensures
        after_actions(s, kinds).next_epoch == (s.next_epoch + kinds.len()) % 0x1_0000_0000_0000_0000,
    decreases kinds.len(),
{
    if kinds.len() > 0 {
        lemma_epochs_count_actions(s, kinds.drop_last());
    }
}

/// An action that was replaced cannot end any of the next 2^64 - 1 actions:
/// their tokens are others, and ending the old one changes nothing.
pub proof fn lemma_stale_action_is_harmless(
    s: DeviceStateView,
    first: ActionKind,
    later: Seq<ActionKind>,
)
    requires
        0 < later.len() <= u64::MAX,
    ensures
        ({
            let a = started(s, first);
            let b = after_actions(a, later);
            let stale = a.action->0;
            &&& b.action is Some
            &&& b.action != Some(stale)
            &&& ended(b, stale) == b
        }),
{
    lemma_epochs_count_actions(started(s, first), later.drop_last());
}

/// A reader whose claimer has left the bus can be claimed for anyone, by
/// anyone.
pub proof fn lemma_disconnect_frees_the_reader(
    s: DeviceStateView,
    user: Seq<char>,
    sender: Option<Seq<char>>,
)
    ensures
        claim_spec(unclaimed(s), user, sender) is Ok,
{
}

/// Another client than the claimer gets nothing done with a claimed reader.
pub proof fn lemma_other_senders_are_refused(
    s: DeviceStateView,
    slots: crate::storage::Slots,
    sender: Option<Seq<char>>,
    finger: Seq<char>,
    kind: ActionKind,
)
    requires
        s.claimed_by is Some,
        other_sender(s, sender),
    ensures
        release_spec(s, sender) is Err,
        stop_spec(s, sender, kind) is Err,
        verify_start_spec(s, slots, sender, finger).1 is Err,
        verify_start_spec(s, slots, sender, finger).0 == s,
        enroll_refusal(s, sender, finger) is Some,
        find_print_spec(s, slots, sender, finger) is Err,
{
}

/// A verification succeeds only on a match of a slot that was asked for, with
/// at least the confidence that was asked for; and on each such match.
pub proof fn lemma_match_iff_accepted(
    expected: Set<u8>,
    threshold: u16,
    retries: u32,
    o: ScanOutcome,
    elapsed_ns: u64,
)
    ensures
        verify_next(expected, threshold, retries, o, elapsed_ns).1 == VerifyStep::Done(
            VerifyStatus::Match,
        ) <==> (o matches ScanOutcome::Match(m) && expected.contains(m.slot) && m.confidence
            >= threshold),
{
}

/// How often a verification that saw these scans was tried again.
pub open spec fn retries_after(
    expected: Set<u8>,
    threshold: u16,
    scans: Seq<(ScanOutcome, u64)>,
) -> u32
    decreases scans.len(),
{
    if scans.len() == 0 {
        0
    } else {
        verify_next(
            expected,
            threshold,
            retries_after(expected, threshold, scans.drop_last()),
            scans.last().0,
            scans.last().1,
        ).0
    }
}

/// However the scans go, a verification is tried again at most five times; and
/// none is after its time is up.
pub proof fn lemma_retries_are_bounded(
    expected: Set<u8>,
    threshold: u16,
    scans: Seq<(ScanOutcome, u64)>,
    o: ScanOutcome,
    elapsed_ns: u64,
)
    ensures
        retries_after(expected, threshold, scans) <= MAX_RETRIES,
        elapsed_ns > RETRY_BUDGET_NS ==> verify_next(
            expected,
            threshold,
            retries_after(expected, threshold, scans),
            o,
            elapsed_ns,
        ).1 is Done,
    decreases scans.len(),
{
    if scans.len() > 0 {
        lemma_retries_are_bounded(
            expected,
            threshold,
            scans.drop_last(),
            scans.last().0,
            scans.last().1,
        );
    }
}

/// An enrolment goes to a slot of nobody else's: registering it keeps the slots
/// apart.
pub proof fn lemma_enrolment_keeps_slots_apart(
    slots: crate::storage::Slots,
    capacity: u16,
    user: Seq<char>,
    finger: Seq<char>,
    slot: u8,
)
    requires
        crate::storage::slots_distinct(slots),
        is_slot_for(slots, capacity, user, finger, slot),
    ensures
        crate::storage::slots_distinct(crate::storage::with_slot(slots, user, finger, slot)),
{
    crate::storage::lemma_slots_stay_distinct(slots, user, finger, slot);
}

/// A purge after the sensor's answers, one by one.
pub open spec fn purge_run(p: PurgeView, failures: Seq<Option<Seq<char>>>) -> PurgeView
    decreases failures.len(),
{
    if failures.len() == 0 {
        p
    } else {
        purge_next(purge_run(p, failures.drop_last()), failures.last())
    }
}

/// The registry once it has forgotten fingers of a user, one by one.
pub open spec fn forget_all(
    slots: crate::storage::Slots,
    user: Seq<char>,
    fingers: Seq<Seq<char>>,
) -> crate::storage::Slots
    decreases fingers.len(),
{
    if fingers.len() == 0 {
        slots
    } else {
        crate::storage::without_finger(
            forget_all(slots, user, fingers.drop_last()),
            user,
            fingers.last(),
        )
    }
}

/// Once the sensor has answered for every print, exactly those that it deleted
/// are up for being forgotten, and the client is told of each of the others, and
/// of nothing else.
pub proof fn lemma_purge_outcome(p: PurgeView, failures: Seq<Option<Seq<char>>>)
    requires
        p.gone.len() == 0,
        p.errors.len() == 0,
        failures.len() <= p.left.len(),
    ensures
        purge_run(p, failures).user == p.user,
        purge_run(p, failures).left == p.left.skip(failures.len() as int),
        forall|f: Seq<char>| #[trigger]
            purge_run(p, failures).gone.contains(f) <==> exists|i: int|
                0 <= i < failures.len() && #[trigger] failures[i] is None && p.left[i].0 == f,
        forall|t: Seq<char>| #[trigger]
            purge_run(p, failures).errors.contains(t) <==> exists|i: int|
                0 <= i < failures.len() && #[trigger] failures[i] is Some && t == kept_text(
                    p.left[i].0,
                    p.left[i].1,
                    failures[i]->0,
                ),
        purge_run(p, failures).errors.len() == 0 <==> forall|i: int|
            0 <= i < failures.len() ==> #[trigger] failures[i] is None,
    decreases failures.len(),
{
    if failures.len() == 0 {
        assert(p.left.skip(0) =~= p.left);
    } else {
        let before = failures.drop_last();
        lemma_purge_outcome(p, before);
        let q = purge_run(p, before);
        let r = purge_run(p, failures);
        let n = before.len() as int;
        assert(q.left[0] == p.left[n]);
        assert(q.left.drop_first() =~= p.left.skip(n + 1));
        assert forall|f: Seq<char>| #[trigger] r.gone.contains(f) <==> exists|i: int|
            0 <= i < failures.len() && #[trigger] failures[i] is None && p.left[i].0 == f by {
            if r.gone.contains(f) {
                let k = choose|k: int| 0 <= k < r.gone.len() && r.gone[k] == f;
                if k < q.gone.len() {
                    assert(q.gone[k] == f);
                    assert(q.gone.contains(f));
                    let i = choose|i: int|
                        0 <= i < before.len() && #[trigger] before[i] is None && p.left[i].0 == f;
                    assert(failures[i] is None);
                } else {
                    assert(failures[n] is None);
                }
            }
            if exists|i: int|
                0 <= i < failures.len() && #[trigger] failures[i] is None && p.left[i].0 == f {
                let i = choose|i: int|
                    0 <= i < failures.len() && #[trigger] failures[i] is None && p.left[i].0 == f;
                if i < n {
                    assert(before[i] is None);
                    assert(q.gone.contains(f));
                    let k = choose|k: int| 0 <= k < q.gone.len() && q.gone[k] == f;
                    assert(r.gone[k] == f);
                } else {
                    assert(r.gone[r.gone.len() - 1] == f);
                }
            }
        }
        assert forall|t: Seq<char>| #[trigger] r.errors.contains(t) <==> exists|i: int|
            0 <= i < failures.len() && #[trigger] failures[i] is Some && t == kept_text(
                p.left[i].0,
                p.left[i].1,
                failures[i]->0,
            ) by {
            if r.errors.contains(t) {
                let k = choose|k: int| 0 <= k < r.errors.len() && r.errors[k] == t;
                if k < q.errors.len() {
                    assert(q.errors[k] == t);
                    assert(q.errors.contains(t));
                    let i = choose|i: int|
                        0 <= i < before.len() && #[trigger] before[i] is Some && t == kept_text(
                            p.left[i].0,
                            p.left[i].1,
                            before[i]->0,
                        );
                    assert(failures[i] is Some);
                } else {
                    assert(failures[n] is Some);
                }
            }
            if exists|i: int|
                0 <= i < failures.len() && #[trigger] failures[i] is Some && t == kept_text(
                    p.left[i].0,
                    p.left[i].1,
                    failures[i]->0,
                ) {
                let i = choose|i: int|
                    0 <= i < failures.len() && #[trigger] failures[i] is Some && t == kept_text(
                        p.left[i].0,
                        p.left[i].1,
                        failures[i]->0,
                    );
                if i < n {
                    assert(before[i] is Some);
                    assert(q.errors.contains(t));
                    let k = choose|k: int| 0 <= k < q.errors.len() && q.errors[k] == t;
                    assert(r.errors[k] == t);
                } else {
                    assert(r.errors[r.errors.len() - 1] == t);
                }
            }
        }
        if forall|i: int| 0 <= i < failures.len() ==> #[trigger] failures[i] is None {
            assert forall|i: int| 0 <= i < before.len() implies #[trigger] before[i] is None by {
                assert(failures[i] is None);
            }
            assert(failures[n] is None);
        }
        if r.errors.len() == 0 {
            assert forall|i: int| 0 <= i < failures.len() implies #[trigger] failures[i] is None by {
                if i < n {
                    assert(before[i] is None);
                }
            }
        }
    }
}

/// Forgetting fingers of a user forgets those and touches no other finger.
pub proof fn lemma_forget_all(
    slots: crate::storage::Slots,
    user: Seq<char>,
    fingers: Seq<Seq<char>>,
    u: Seq<char>,
    f: Seq<char>,
)
    ensures
        crate::storage::slot_of(forget_all(slots, user, fingers), u, f) == if u == user
            && fingers.contains(f) {
            None
        } else {
            crate::storage::slot_of(slots, u, f)
        },
    decreases fingers.len(),
{
    if fingers.len() > 0 {
        let before = fingers.drop_last();
        lemma_forget_all(slots, user, before, u, f);
        crate::storage::lemma_remove_then_get(
            forget_all(slots, user, before),
            user,
            fingers.last(),
            u,
            f,
        );
        if before.contains(f) {
            let k = choose|k: int| 0 <= k < before.len() && before[k] == f;
            assert(fingers[k] == f);
        }
        if fingers.contains(f) && f != fingers.last() {
            let k = choose|k: int| 0 <= k < fingers.len() && fingers[k] == f;
            assert(before[k] == f);
        }
        if f == fingers.last() {
            assert(fingers[fingers.len() - 1] == f);
        }
    }
}

/// A verification starts exactly where the name is a finger's or `any`, the
/// reader is claimed and not for another client, nothing goes on, and the user
/// that it is claimed for has a print that was asked for.
pub proof fn lemma_verification_starts_iff(
    s: DeviceStateView,
    slots: crate::storage::Slots,
    sender: Option<Seq<char>>,
    finger: Seq<char>,
)
    ensures
        verify_start_spec(s, slots, sender, finger).1 is Ok <==> {
            &&& finger == "any"@ || finger_names().contains(finger)
            &&& s.claimed_by is Some
            &&& sender is None || s.claim_sender is None || sender == s.claim_sender
            &&& s.action is None
            &&& exists|f: Seq<char>|
                (finger == "any"@ || f == finger) && #[trigger] crate::storage::slot_of(
                    slots,
                    s.claimed_by->0,
                    f,
                ) is Some
        },
{
    if s.claimed_by is Some {
        let user = s.claimed_by->0;
        let prints = crate::storage::fingers_of(slots, user);
        if forall|f: Seq<char>| crate::storage::slot_of(slots, user, f) is None {
            assert forall|f: Seq<char>| !prints.dom().contains(f) by {
                assert(crate::storage::slot_of(slots, user, f) is None);
            }
            assert(prints =~= Map::<Seq<char>, u8>::empty());
        } else {
            let f = choose|f: Seq<char>| crate::storage::slot_of(slots, user, f) is Some;
            assert(prints.dom().contains(f));
            assert(!Map::<Seq<char>, u8>::empty().dom().contains(f));
        }
        if prints.dom().contains(finger) {
            assert(crate::storage::slot_of(slots, user, finger) is Some);
        }
        if prints != Map::<Seq<char>, u8>::empty() {
            let f = choose|f: Seq<char>| crate::storage::slot_of(slots, user, f) is Some;
            assert(crate::storage::slot_of(slots, user, f) is Some);
        }
    }
}

/// A verification counts the prints of the user that the reader is claimed for,
/// and nobody else's: every slot that it expects is that of a finger of that user
/// which was asked for, and every such slot is expected. The reader is busy with
/// it then, and waits for a finger.
pub proof fn lemma_verification_expects_the_claimers_prints(
    s: DeviceStateView,
    slots: crate::storage::Slots,
    sender: Option<Seq<char>>,
    finger: Seq<char>,
)
    ensures
        verify_start_spec(s, slots, sender, finger) matches (t, Ok(plan)) ==> {
            &&& s.claimed_by is Some
            &&& forall|x: u8| #[trigger]
                plan.expected.contains(x) ==> exists|f: Seq<char>|
                    (finger == "any"@ || f == finger) && #[trigger] crate::storage::slot_of(
                        slots,
                        s.claimed_by->0,
                        f,
                    ) == Some(x)
            &&& forall|f: Seq<char>|
                (finger == "any"@ || f == finger) && (#[trigger] crate::storage::slot_of(
                    slots,
                    s.claimed_by->0,
                    f,
                )) is Some ==> plan.expected.contains(
                    crate::storage::slot_of(slots, s.claimed_by->0, f)->0,
                )
            &&& plan.selected == finger
            &&& plan.token.kind is Verify
            &&& plan.token.epoch == s.next_epoch
            &&& t.action == Some(plan.token)
            &&& t.next_epoch != s.next_epoch
            &&& t.claimed_by == s.claimed_by
            &&& t.claim_sender == s.claim_sender
            &&& t.finger_needed
            &&& !t.finger_present
        },
{
    if let (t, Ok(plan)) = verify_start_spec(s, slots, sender, finger) {
        let user = s.claimed_by->0;
        let prints = crate::storage::fingers_of(slots, user);
        assert forall|x: u8| #[trigger] plan.expected.contains(x) implies exists|f: Seq<char>|
            (finger == "any"@ || f == finger) && #[trigger] crate::storage::slot_of(
                slots,
                user,
                f,
            ) == Some(x) by {
            if finger == "any"@ {
                let f = choose|f: Seq<char>| prints.dom().contains(f) && #[trigger] prints[f] == x;
                assert(crate::storage::slot_of(slots, user, f) == Some(x));
            } else {
                assert(crate::storage::slot_of(slots, user, finger) == Some(x));
            }
        }
        assert forall|f: Seq<char>|
            (finger == "any"@ || f == finger) && (#[trigger] crate::storage::slot_of(
                slots,
                user,
                f,
            )) is Some implies plan.expected.contains(
            crate::storage::slot_of(slots, user, f)->0,
        ) by {
            assert(prints.dom().contains(f));
            assert(prints.values().contains(prints[f]));
        }
    }
}

/// Where no two fingers share a slot, another user's finger never passes for
/// that of the user that the reader is claimed for, however well it matches; nor
/// does another finger of the same user, where one was asked for by name.
pub proof fn lemma_other_fingers_never_match(
    s: DeviceStateView,
    slots: crate::storage::Slots,
    sender: Option<Seq<char>>,
    finger: Seq<char>,
    threshold: u16,
    retries: u32,
    m: MatchResult,
    elapsed_ns: u64,
    owner: Seq<char>,
    f: Seq<char>,
)
    requires
        crate::storage::slots_distinct(slots),
        crate::storage::slot_of(slots, owner, f) == Some(m.slot),
        s.claimed_by != Some(owner) || (finger != "any"@ && finger != f),
    ensures
        verify_start_spec(s, slots, sender, finger).1 matches Ok(plan) ==> verify_next(
            plan.expected,
            threshold,
            retries,
            ScanOutcome::Match(m),
            elapsed_ns,
        ).1 == VerifyStep::Done(VerifyStatus::NoMatch),
{
    lemma_verification_expects_the_claimers_prints(s, slots, sender, finger);
    if let Ok(plan) = verify_start_spec(s, slots, sender, finger).1 {
        if plan.expected.contains(m.slot) {
            let g = choose|g: Seq<char>|
                (finger == "any"@ || g == finger) && #[trigger] crate::storage::slot_of(
                    slots,
                    s.claimed_by->0,
                    g,
                ) == Some(m.slot);
            assert(crate::storage::slot_of(slots, s.claimed_by->0, g) == Some(m.slot));
        }
    }
}

/// A finger that was asked for, of the user that the reader is claimed for, is
/// recognised whenever the sensor knows it well enough, and turned away whenever
/// it does not.
pub proof fn lemma_own_finger_matches(
    s: DeviceStateView,
    slots: crate::storage::Slots,
    sender: Option<Seq<char>>,
    finger: Seq<char>,
    threshold: u16,
    retries: u32,
    m: MatchResult,
    elapsed_ns: u64,
    f: Seq<char>,
)
    requires
        s.claimed_by is Some,
        crate::storage::slot_of(slots, s.claimed_by->0, f) == Some(m.slot),
        finger == "any"@ || finger == f,
    ensures
        verify_start_spec(s, slots, sender, finger).1 matches Ok(plan) ==> verify_next(
            plan.expected,
            threshold,
            retries,
            ScanOutcome::Match(m),
            elapsed_ns,
        ).1 == VerifyStep::Done(
            if m.confidence >= threshold {
                VerifyStatus::Match
            } else {
                VerifyStatus::NoMatch
            },
        ),
{
    lemma_verification_expects_the_claimers_prints(s, slots, sender, finger);
}

/// A verification that does not start says why, in this order: no such finger,
/// not claimed or claimed by another client, busy, no such print. Only the last
/// leaves a trace: an epoch is used up, and the reader waits for nothing.
pub proof fn lemma_refused_verification(
    s: DeviceStateView,
    slots: crate::storage::Slots,
    sender: Option<Seq<char>>,
    finger: Seq<char>,
)
    ensures
        verify_start_spec(s, slots, sender, finger) matches (t, Err(e)) ==> {
            &&& e is InvalidFingername <==> finger != "any"@ && !finger_names().contains(finger)
            &&& e is InvalidFingername ==> e->InvalidFingername_0 == finger
            &&& e is ClaimDevice ==> s.claimed_by is None || (sender is Some && s.claim_sender
                is Some && sender != s.claim_sender)
            &&& e is AlreadyInUse ==> s.action is Some && s.claimed_by is Some
            &&& e is NoEnrolledPrints ==> {
                &&& s.action is None
                &&& s.claimed_by is Some
                &&& t.action is None
                &&& t.claimed_by == s.claimed_by
                &&& t.claim_sender == s.claim_sender
                &&& t.next_epoch == (s.next_epoch + 1) % 0x1_0000_0000_0000_0000
                &&& !t.finger_needed
                &&& !t.finger_present
                &&& crate::token::contains_text(e->NoEnrolledPrints_0, s.claimed_by->0)
            }
            &&& !(e is NoEnrolledPrints) ==> t == s
            &&& e is InvalidFingername || e is ClaimDevice || e is AlreadyInUse
                || e is NoEnrolledPrints
        },
{
    if let (t, Err(e)) = verify_start_spec(s, slots, sender, finger) {
        if e is NoEnrolledPrints {
            let user = s.claimed_by->0;
            let w = e->NoEnrolledPrints_0;
            let k = w.len() - user.len();
            assert(w.subrange(k, k + user.len()) =~= user);
        }
    }
}

/// After a scan, a verification is tried again exactly where the scan was bad or
/// the sensor silent, it was tried again fewer than five times, and no more than
/// thirty seconds have passed; that counts as one try, and after a bad scan there
/// is a tenth of a second's pause. Otherwise it is over, and the count stays.
pub proof fn lemma_verification_is_tried_again_iff(
    expected: Set<u8>,
    threshold: u16,
    retries: u32,
    o: ScanOutcome,
    elapsed_ns: u64,
)
    ensures
        ({
            let (n, step) = verify_next(expected, threshold, retries, o, elapsed_ns);
            let bad = o == ScanOutcome::Refused(CodeClass::Retry) || o == ScanOutcome::TimedOut;
            &&& step is Retry <==> bad && retries < 5 && elapsed_ns <= 30_000_000_000
            &&& n == if step is Retry {
                retries + 1
            } else {
                retries as int
            }
            &&& step matches VerifyStep::Retry { pause_ms } ==> pause_ms == if o
                == ScanOutcome::TimedOut {
                0int
            } else {
                100
            }
        }),
{
}

/// How a verification ends, by the scan: a finger that is nobody's, or of which
/// no good scan came in time, is no match; a port that is gone is told as such;
/// and whatever else goes wrong is an unknown error.
pub proof fn lemma_how_a_verification_ends(
    expected: Set<u8>,
    threshold: u16,
    retries: u32,
    o: ScanOutcome,
    elapsed_ns: u64,
)
    ensures
        verify_next(expected, threshold, retries, o, elapsed_ns).1 matches VerifyStep::Done(st) ==> {
            &&& st is Disconnected <==> o is Lost
            &&& st is UnknownError <==> o is Broken || o == ScanOutcome::Refused(CodeClass::Other)
            &&& st is NoMatch <==> {
                ||| o matches ScanOutcome::Match(m) && (!expected.contains(m.slot) || m.confidence
                    < threshold)
                ||| o == ScanOutcome::Refused(CodeClass::NoMatch)
                ||| o == ScanOutcome::Refused(CodeClass::Retry)
                ||| o is TimedOut
            }
            &&& !(st is RetryScan)
        },
{
}

/// What the sensor's answer to a scan is taken for: a match is handed on as it
/// is; a code stands for nobody's finger or for a bad scan exactly where it is
/// one of those, in upper or lower case; a timeout is one; and the port is gone
/// exactly where the error says so.
pub proof fn lemma_scan_answers(
    r: Result<MatchResult, crate::sensor::SensorErrorView>,
    code: Seq<char>,
    detail: Option<Seq<char>>,
)
    ensures
        forall|m: MatchResult| #[trigger]
            scan_outcome(r) == ScanOutcome::Match(m) <==> r
                == Ok::<_, crate::sensor::SensorErrorView>(m),
        scan_outcome(r) is Refused <==> (r matches Err(e) && e is Command),
        scan_outcome(r) is TimedOut <==> (r matches Err(e) && e is Timeout),
        scan_outcome(r) is Lost <==> (r matches Err(e) && crate::sensor_actor::is_fatal(e)),
        ({
            let low = crate::text::lowercase_text(code);
            let o = scan_outcome(
                Err(crate::sensor::SensorErrorView::Command { code, detail }),
            );
            &&& o == ScanOutcome::Refused(CodeClass::NoMatch) <==> low == "no_match"@
            &&& o == ScanOutcome::Refused(CodeClass::Retry) <==> {
                ||| low == "timeout"@
                ||| low == "poor_quality"@
                ||| crate::token::has_prefix(low, "capture_failed"@)
                ||| crate::token::has_prefix(low, "image2tz_failed"@)
            }
        }),
{
    reveal_strlit("no_match");
    reveal_strlit("timeout");
    reveal_strlit("poor_quality");
    reveal_strlit("capture_failed");
    reveal_strlit("image2tz_failed");
    assert("no_match"@.len() == 8 && "timeout"@.len() == 7 && "poor_quality"@.len() == 12);
    assert("capture_failed"@.len() == 14 && "image2tz_failed"@.len() == 15);
}

/// A reader is claimed exactly where nobody has it, or where the user has it
/// already and nothing goes on. It is claimed for that user and by that client
/// then, and nothing else about it has changed.
pub proof fn lemma_claim(s: DeviceStateView, user: Seq<char>, sender: Option<Seq<char>>)
    ensures
        claim_spec(s, user, sender) is Ok <==> s.claimed_by is None || (s.claimed_by == Some(user)
            && s.action is None),
        claim_spec(s, user, sender) matches Ok(t) ==> {
            &&& t.claimed_by == Some(user)
            &&& t.claim_sender == sender
            &&& t.action == s.action
            &&& t.next_epoch == s.next_epoch
            &&& t.finger_present == s.finger_present
            &&& t.finger_needed == s.finger_needed
        },
        claim_spec(s, user, sender) matches Err(e) ==> (e matches
            crate::error::FprintErrorView::AlreadyInUse(why) && crate::token::contains_text(
            why,
            s.claimed_by->0,
        )),
{
    if let Err(crate::error::FprintErrorView::AlreadyInUse(why)) = claim_spec(s, user, sender) {
        let u = s.claimed_by->0;
        let k = why.len() - u.len();
        assert(why.subrange(k, k + u.len()) =~= u);
    }
}

/// A claim is used by the client that made it, or where either side is unknown
/// to the bus; and it is the user of the claim that counts.
pub proof fn lemma_claim_is_for_its_client(s: DeviceStateView, sender: Option<Seq<char>>)
    ensures
        claim_of(s, sender) is Ok <==> s.claimed_by is Some && (sender is None || s.claim_sender
            is None || sender == s.claim_sender),
        claim_of(s, sender) matches Ok(u) ==> s.claimed_by == Some(u),
        claim_of(s, sender) matches Err(e) ==> e is ClaimDevice,
{
}

/// A reader is released exactly by whom its claim is for. Nobody has it then, it
/// does nothing, it waits for nothing, and its epochs go on.
pub proof fn lemma_release(s: DeviceStateView, sender: Option<Seq<char>>)
    ensures
        release_spec(s, sender) is Ok <==> s.claimed_by is Some && (sender is None
            || s.claim_sender is None || sender == s.claim_sender),
        release_spec(s, sender) matches Ok(t) ==> {
            &&& t.claimed_by is None
            &&& t.claim_sender is None
            &&& t.action is None
            &&& !t.finger_present
            &&& !t.finger_needed
            &&& t.next_epoch == s.next_epoch
        },
        release_spec(s, sender) matches Err(e) ==> e is ClaimDevice,
{
}

/// Nothing is left of a claim whose client is gone but the count of actions.
pub proof fn lemma_unclaimed(s: DeviceStateView)
    ensures
        unclaimed(s).claimed_by is None,
        unclaimed(s).claim_sender is None,
        unclaimed(s).action is None,
        !unclaimed(s).finger_present,
        !unclaimed(s).finger_needed,
        unclaimed(s).next_epoch == s.next_epoch,
{
}

/// An action is stopped exactly where it is of the kind to be stopped and the
/// client may use the claim. The claim stays, and the reader is free for the next
/// action.
pub proof fn lemma_stop(s: DeviceStateView, sender: Option<Seq<char>>, kind: ActionKind)
    ensures
        stop_spec(s, sender, kind) is Ok <==> {
            &&& s.claimed_by is Some
            &&& sender is None || s.claim_sender is None || sender == s.claim_sender
            &&& s.action is Some
            &&& s.action->0.kind == kind
        },
        stop_spec(s, sender, kind) matches Ok(t) ==> {
            &&& t.action is None
            &&& !t.finger_present
            &&& !t.finger_needed
            &&& t.claimed_by == s.claimed_by
            &&& t.claim_sender == s.claim_sender
            &&& t.next_epoch == s.next_epoch
        },
{
}

/// Ending an action frees the reader and keeps the claim where the action is the
/// one going on, and changes nothing where it is not.
pub proof fn lemma_end(s: DeviceStateView, token: ActionToken)
    ensures
        s.action != Some(token) ==> ended(s, token) == s,
        s.action == Some(token) ==> {
            let t = ended(s, token);
            &&& t.action is None
            &&& !t.finger_present
            &&& !t.finger_needed
            &&& t.claimed_by == s.claimed_by
            &&& t.claim_sender == s.claim_sender
            &&& t.next_epoch == s.next_epoch
        },
{
}

/// News of a finger to be placed makes the reader wait for one; news of one to
/// be lifted makes it think that one is there; other news change nothing; and no
/// news touch the claim or the action.
pub proof fn lemma_hints(s: DeviceStateView, low: Seq<char>)
    ensures
        ({
            let t = hinted(s, low);
            let place = crate::token::contains_text(low, "place_finger"@)
                || crate::token::contains_text(low, "place_again"@);
            let lift = crate::token::contains_text(low, "remove_finger"@)
                || crate::token::contains_text(low, "remove finger"@);
            &&& lifts_finger(low) == lift
            &&& place ==> t.finger_needed && !t.finger_present
            &&& !place && lift ==> !t.finger_needed && t.finger_present
            &&& !place && !lift ==> t.finger_needed == s.finger_needed && t.finger_present
                == s.finger_present
            &&& t.claimed_by == s.claimed_by
            &&& t.claim_sender == s.claim_sender
            &&& t.action == s.action
            &&& t.next_epoch == s.next_epoch
        }),
{
}

/// An enrolment is let through exactly where the name is a finger's, the reader
/// is claimed and not for another client, and nothing goes on.
pub proof fn lemma_enrolment_starts_iff(
    s: DeviceStateView,
    sender: Option<Seq<char>>,
    finger: Seq<char>,
)
    ensures
        enroll_refusal(s, sender, finger) is None <==> {
            &&& finger_names().contains(finger)
            &&& s.claimed_by is Some
            &&& sender is None || s.claim_sender is None || sender == s.claim_sender
            &&& s.action is None
        },
        enroll_refusal(s, sender, finger) matches Some(e) ==> {
            &&& e is InvalidFingername <==> !finger_names().contains(finger)
            &&& e is AlreadyInUse ==> s.action is Some
            &&& e is InvalidFingername || e is ClaimDevice || e is AlreadyInUse
        },
{
}

/// A fresh action is the one going on, and the claim and the hints are as they
/// were.
pub proof fn lemma_started(s: DeviceStateView, kind: ActionKind)
    ensures
        started(s, kind).action == Some(ActionToken { kind, epoch: s.next_epoch }),
        started(s, kind).next_epoch == (s.next_epoch + 1) % 0x1_0000_0000_0000_0000,
        started(s, kind).claimed_by == s.claimed_by,
        started(s, kind).claim_sender == s.claim_sender,
        started(s, kind).finger_present == s.finger_present,
        started(s, kind).finger_needed == s.finger_needed,
{
}

/// The slot for a finger is its own where it has one. Else it is one that the
/// sensor has and no finger lives in, and there is none such below it. No slot is
/// handed out exactly where the sensor is full and the finger has none.
pub proof fn lemma_slot_for_a_finger(
    slots: crate::storage::Slots,
    capacity: u16,
    user: Seq<char>,
    finger: Seq<char>,
    slot: u8,
    other: u8,
    u: Seq<char>,
    f: Seq<char>,
)
    requires
        is_slot_for(slots, capacity, user, finger, slot),
    ensures
        crate::storage::slot_of(slots, user, finger) is Some ==> crate::storage::slot_of(
            slots,
            user,
            finger,
        ) == Some(slot),
        crate::storage::slot_of(slots, user, finger) is None ==> {
            &&& slot < capacity
            &&& crate::storage::slot_of(slots, u, f) != Some(slot)
            &&& other < slot ==> exists|v: Seq<char>, g: Seq<char>| #[trigger]
                crate::storage::slot_of(slots, v, g) == Some(other)
        },
        crate::storage::slots_distinct(slots) && crate::storage::slot_of(slots, u, f) == Some(slot)
            ==> u == user && f == finger,
        !is_full_for(slots, capacity, user, finger),
{
    if crate::storage::slot_of(slots, user, finger) is None {
        if crate::storage::slot_of(slots, u, f) == Some(slot) {
            assert(crate::storage::slot_used(slots, slot as int));
        }
        if other < slot {
            assert(crate::storage::slot_used(slots, other as int));
            let (v, g) = choose|v: Seq<char>, g: Seq<char>|
                #[trigger] crate::storage::slot_of(slots, v, g) matches Some(x) && x == other as int;
            assert(crate::storage::slot_of(slots, v, g) == Some(other));
        }
        assert(!crate::storage::slot_used(slots, slot as int));
    }
}

/// The sensor is full for a finger exactly where the finger has no slot and some
/// finger lives in each slot that the sensor has and one byte can name.
pub proof fn lemma_full_for_a_finger(
    slots: crate::storage::Slots,
    capacity: u16,
    user: Seq<char>,
    finger: Seq<char>,
)
    ensures
        is_full_for(slots, capacity, user, finger) <==> {
            &&& crate::storage::slot_of(slots, user, finger) is None
            &&& forall|x: u8| x < capacity ==> #[trigger] crate::storage::slot_used(slots, x as int)
        },
{
    if forall|x: u8| x < capacity ==> #[trigger] crate::storage::slot_used(slots, x as int) {
        assert forall|k: int| 0 <= k < crate::storage::usable_slots(capacity) implies #[trigger]
        crate::storage::slot_used(slots, k) by {
            let x = k as u8;
            assert(x < capacity ==> crate::storage::slot_used(slots, x as int));
        }
    }
}

/// A print to delete is one of the user that the reader is claimed for, in the
/// slot where that very finger lives; and each of them can be deleted, but by no
/// other client.
pub proof fn lemma_print_to_delete(
    s: DeviceStateView,
    slots: crate::storage::Slots,
    sender: Option<Seq<char>>,
    finger: Seq<char>,
)
    ensures
        find_print_spec(s, slots, sender, finger) matches Ok((u, x)) ==> s.claimed_by == Some(u)
            && crate::storage::slot_of(slots, u, finger) == Some(x),
        find_print_spec(s, slots, sender, finger) is Ok <==> {
            &&& finger_names().contains(finger)
            &&& s.claimed_by is Some
            &&& sender is None || s.claim_sender is None || sender == s.claim_sender
            &&& crate::storage::slot_of(slots, s.claimed_by->0, finger) is Some
        },
        find_print_spec(s, slots, sender, finger) matches Err(e) ==> e is InvalidFingername
            || e is ClaimDevice || e is NoEnrolledPrints,
{
}

/// What a client is told of a print that the sensor kept starts with the finger
/// and ends with the reason, and the slot stands between them in digits.
pub proof fn lemma_kept_print_is_named(finger: Seq<char>, slot: u8, why: Seq<char>)
    ensures
        ({
            let t = kept_text(finger, slot, why);
            let from = finger.len() + 7int;
            let to = t.len() - why.len() - 3;
            &&& crate::token::has_prefix(t, finger)
            &&& t.skip(t.len() - why.len()) == why
            &&& from < to
            &&& crate::text::number_value(
                vstd::utf8::encode_utf8(t.subrange(from, to)),
                u8::MAX as nat,
            ) == Some(slot as nat)
        }),
{
    reveal_strlit(" (slot ");
    reveal_strlit("): ");
    let t = kept_text(finger, slot, why);
    let digits = crate::text::decimal(slot as nat);
    assert(t.take(finger.len() as int) =~= finger);
    assert(t.skip(t.len() - why.len()) =~= why);
    crate::text::lemma_decimal_is_digits(slot as nat);
    crate::text::lemma_number_of_decimal(slot as nat, u8::MAX as nat);
    assert(t.subrange(finger.len() + 7int, t.len() - why.len() - 3) =~= digits);
}

/// Whatever went wrong is in what the client is told.
pub proof fn lemma_every_error_is_told(es: Seq<Seq<char>>, i: int)
    requires
        0 <= i < es.len(),
    ensures
        crate::token::contains_text(joined(es), es[i]),
    decreases es.len(),
{
    let all = joined(es);
    if es.len() == 1 {
        assert(all.subrange(0, 0int + es[0].len()) =~= es[0]);
    } else {
        let head = joined(es.drop_last());
        if i == es.len() - 1 {
            let k = all.len() - es[i].len();
            assert(all.subrange(k, k + es[i].len()) =~= es[i]);
        } else {
            lemma_every_error_is_told(es.drop_last(), i);
            assert(es.drop_last()[i] == es[i]);
            let k = choose|k: int|
                0 <= k <= head.len() - es[i].len() && #[trigger] head.subrange(
                    k,
                    k + es[i].len(),
                ) == es[i];
            assert(all.subrange(k, k + es[i].len()) =~= head.subrange(k, k + es[i].len()));
        }
    }
}

/// The fingers are the five of either hand, and no others.
pub proof fn lemma_ten_fingers(name: Seq<char>)
    ensures
        finger_names().contains(name) <==> exists|hand: Seq<char>, finger: Seq<char>|
            {
                &&& name == #[trigger] (hand + finger)
                &&& hand == "left-"@ || hand == "right-"@
                &&& {
                    ||| finger == "thumb"@
                    ||| finger == "index-finger"@
                    ||| finger == "middle-finger"@
                    ||| finger == "ring-finger"@
                    ||| finger == "little-finger"@
                }
            },
        finger_ok(name, false) <==> finger_names().contains(name),
        finger_ok(name, true) <==> name == "any"@ || finger_names().contains(name),
        !finger_names().contains("any"@),
{
    reveal_strlit("any");
    reveal_strlit("left-");
    reveal_strlit("right-");
    reveal_strlit("thumb");
    reveal_strlit("index-finger");
    reveal_strlit("middle-finger");
    reveal_strlit("ring-finger");
    reveal_strlit("little-finger");
    reveal_strlit("left-thumb");
    reveal_strlit("left-index-finger");
    reveal_strlit("left-middle-finger");
    reveal_strlit("left-ring-finger");
    reveal_strlit("left-little-finger");
    reveal_strlit("right-thumb");
    reveal_strlit("right-index-finger");
    reveal_strlit("right-middle-finger");
    reveal_strlit("right-ring-finger");
    reveal_strlit("right-little-finger");
    assert("left-thumb"@ =~= "left-"@ + "thumb"@);
    assert("left-index-finger"@ =~= "left-"@ + "index-finger"@);
    assert("left-middle-finger"@ =~= "left-"@ + "middle-finger"@);
    assert("left-ring-finger"@ =~= "left-"@ + "ring-finger"@);
    assert("left-little-finger"@ =~= "left-"@ + "little-finger"@);
    assert("right-thumb"@ =~= "right-"@ + "thumb"@);
    assert("right-index-finger"@ =~= "right-"@ + "index-finger"@);
    assert("right-middle-finger"@ =~= "right-"@ + "middle-finger"@);
    assert("right-ring-finger"@ =~= "right-"@ + "ring-finger"@);
    assert("right-little-finger"@ =~= "right-"@ + "little-finger"@);
    assert("any"@.len() == 3);
}

/// Each status has a word of its own on the bus: success is told by the word for
/// it, and by no other.
pub proof fn lemma_status_words(v: VerifyStatus, e: EnrollStatus)
    ensures
        verify_status_text(v) == "verify-match"@ <==> v is Match,
        verify_status_text(v) == "verify-no-match"@ <==> v is NoMatch,
        verify_status_text(v) == "verify-retry-scan"@ <==> v is RetryScan,
        verify_status_text(v) == "verify-disconnected"@ <==> v is Disconnected,
        verify_status_text(v) == "verify-unknown-error"@ <==> v is UnknownError,
        enroll_status_text(e) == "enroll-completed"@ <==> e is Completed,
        enroll_status_text(e) == "enroll-stage-passed"@ <==> e is StagePassed,
        enroll_status_text(e) == "enroll-failed"@ <==> e is Failed,
        enroll_status_text(e) == "enroll-disconnected"@ <==> e is Disconnected,
        enroll_status_text(e) == "enroll-data-full"@ <==> e is DataFull,
{
    reveal_strlit("verify-match");
    reveal_strlit("verify-no-match");
    reveal_strlit("verify-retry-scan");
    reveal_strlit("verify-disconnected");
    reveal_strlit("verify-unknown-error");
    reveal_strlit("enroll-completed");
    reveal_strlit("enroll-stage-passed");
    reveal_strlit("enroll-failed");
    reveal_strlit("enroll-disconnected");
    reveal_strlit("enroll-data-full");
    assert("verify-match"@.len() == 12 && "verify-no-match"@.len() == 15);
    assert("verify-retry-scan"@.len() == 17 && "verify-disconnected"@.len() == 19);
    assert("verify-unknown-error"@.len() == 20);
    assert("enroll-completed"@.len() == 16 && "enroll-data-full"@.len() == 16);
    assert("enroll-completed"@[7] == 'c' && "enroll-data-full"@[7] == 'd');
    assert("enroll-stage-passed"@.len() == 19 && "enroll-disconnected"@.len() == 19);
    assert("enroll-stage-passed"@[7] == 's' && "enroll-disconnected"@[7] == 'd');
    assert("enroll-failed"@.len() == 13);
}

/// A finger that was enrolled for the user of the claim can be verified, and its
/// slot is the one that counts; one that was forgotten cannot.
pub proof fn lemma_enrolled_fingers_verify(
    s: DeviceStateView,
    slots: crate::storage::Slots,
    sender: Option<Seq<char>>,
    finger: Seq<char>,
    slot: u8,
)
    requires
        finger_names().contains(finger),
        s.claimed_by is Some,
        sender is None || s.claim_sender is None || sender == s.claim_sender,
        s.action is None,
    ensures
        ({
            let with = crate::storage::with_slot(slots, s.claimed_by->0, finger, slot);
            verify_start_spec(s, with, sender, finger).1 matches Ok(plan) && forall|x: u8| #[trigger]
                plan.expected.contains(x) <==> x == slot
        }),
        ({
            let without = crate::storage::without_finger(slots, s.claimed_by->0, finger);
            verify_start_spec(s, without, sender, finger).1 is Err
        }),
{
    let user = s.claimed_by->0;
    let with = crate::storage::with_slot(slots, user, finger, slot);
    let without = crate::storage::without_finger(slots, user, finger);
    crate::storage::lemma_set_then_get(slots, user, finger, slot, user, finger);
    crate::storage::lemma_remove_then_get(slots, user, finger, user, finger);
    lemma_ten_fingers(finger);
    lemma_verification_starts_iff(s, with, sender, finger);
    lemma_verification_starts_iff(s, without, sender, finger);
    lemma_verification_expects_the_claimers_prints(s, with, sender, finger);
    assert(crate::storage::slot_of(with, user, finger) is Some);
    assert(verify_start_spec(s, with, sender, finger).1 is Ok);
    let plan = verify_start_spec(s, with, sender, finger).1->Ok_0;
    assert forall|x: u8| #[trigger] plan.expected.contains(x) <==> x == slot by {
        if plan.expected.contains(x) {
            let f = choose|f: Seq<char>|
                (finger == "any"@ || f == finger) && #[trigger] crate::storage::slot_of(
                    with,
                    user,
                    f,
                ) == Some(x);
            assert(f == finger);
        }
    }
}

/// The sensor is asked to delete the slot where the finger to delete lives: that
/// is the number in the line that is sent.
pub proof fn lemma_deletion_asks_for_the_registered_slot(
    s: DeviceStateView,
    slots: crate::storage::Slots,
    sender: Option<Seq<char>>,
    finger: Seq<char>,
)
    ensures
        find_print_spec(s, slots, sender, finger) matches Ok((u, x)) ==> {
            let line = crate::sensor::command_text(crate::sensor::SensorCommand::Delete(x));
            &&& crate::token::has_prefix(line, "delete "@)
            &&& crate::storage::slot_of(slots, s.claimed_by->0, finger) matches Some(own)
                && crate::text::number_value(
                vstd::utf8::encode_utf8(line.skip(7)),
                u8::MAX as nat,
            ) == Some(own as nat)
        },
{
    if let Ok((u, x)) = find_print_spec(s, slots, sender, finger) {
        crate::sensor::lemma_commands_name_their_slot(x);
    }
}

/// What is told of an action, of a user without prints and of a finger without
/// one names them.
pub proof fn lemma_words_name_what_they_are_about(
    k: ActionKind,
    user: Seq<char>,
    finger: Seq<char>,
)
    ensures
        action_text(k) == "enroll"@ <==> k is Enroll,
        action_text(k) == "verify"@ <==> k is Verify,
        no_prints_text(user).skip(no_prints_text(user).len() - user.len()) == user,
        crate::token::has_prefix(not_enrolled_text(finger, user), finger),
        not_enrolled_text(finger, user).skip(
            not_enrolled_text(finger, user).len() - user.len(),
        ) == user,
{
    reveal_strlit("enroll");
    reveal_strlit("verify");
    assert("enroll"@[0] == 'e' && "verify"@[0] == 'v');
    let a = no_prints_text(user);
    assert(a.skip(a.len() - user.len()) =~= user);
    let b = not_enrolled_text(finger, user);
    assert(b.take(finger.len() as int) =~= finger);
    assert(b.skip(b.len() - user.len()) =~= user);
}

} // verus!
