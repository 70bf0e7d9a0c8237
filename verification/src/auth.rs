//! Who may act as whom.
//!
//! A caller may act as themselves, and root as anybody. Anyone else needs the
//! word of polkit, which is asked without leave to put up a dialog.

use vstd::prelude::*;
use vstd::string::*;
use crate::error::FprintError;
use crate::text::push_decimal;
use crate::token::{chars_of, str_eq};

verus! {

/// The polkit action for acting as another user.
pub const ACTION_SETUSERNAME: &'static str = "net.reactivated.fprint.device.setusername";

/// Whether an account name has a shape that no account has: empty, a directory
/// name, or with a path separator or a control character in it.
pub open spec fn unsafe_username(u: Seq<char>) -> bool {
    ||| u.len() == 0
    ||| u == "."@
    ||| u == ".."@
    ||| exists|i: int| 0 <= i < u.len() && #[trigger] unsafe_char(u[i])
}

/// Whether no account name holds the character.
pub open spec fn unsafe_char(c: char) -> bool {
    c == '/' || c == '\\' || (c as u32) < 32 || c as u32 == 127
}

/// Turns away account names of an unsafe shape.
pub fn validate_username(user: &str) -> (r: Result<(), FprintError>)
    ensures
        match r {
            Ok(_) => !unsafe_username(user@),
            Err(e) => unsafe_username(user@) && e@
                == crate::error::FprintErrorView::Internal("unsafe username"@),
        },
{
    let mut bad = user.unicode_len() == 0 || str_eq(user, ".") || str_eq(user, "..");
    let v = chars_of(user);
    let mut i: usize = 0;
    while i < v.len()
        invariant
            0 <= i <= v@.len(),
            v@ == user@,
            bad == (user@.len() == 0 || user@ == "."@ || user@ == ".."@ || exists|k: int|
                0 <= k < i && #[trigger] unsafe_char(user@[k])),
        decreases v@.len() - i,
    {
        let c: char = v[i];
        if c == '/' || c == '\\' || (c as u32) < 32 || c as u32 == 127 {
            assert(unsafe_char(user@[i as int]));
            bad = true;
        }
        i = i + 1;
    }
    if bad {
        Err(FprintError::Internal("unsafe username".to_owned()))
    } else {
        Ok(())
    }
}

/// A caller on the bus.
#[derive(Debug)]
pub struct Caller {
    pub uid: u32,
    pub user: String,
}

/// Whether a character may stand in a name on the bus.
pub open spec fn is_name_char(c: char) -> bool {
    'a' <= c <= 'z' || 'A' <= c <= 'Z' || '0' <= c <= '9' || c == '_' || c == '-'
}

/// Whether a text is two or more elements with dots between them: each one or
/// more characters, the first of them a digit only where `digit_first` allows it.
pub open spec fn is_dotted(s: Seq<char>, digit_first: bool) -> bool {
    let es = crate::token::split_on(s, '.');
    &&& es.len() >= 2
    &&& forall|i: int|
        0 <= i < es.len() ==> {
            let e = #[trigger] es[i];
            &&& e.len() > 0
            &&& forall|k: int| 0 <= k < e.len() ==> is_name_char(#[trigger] e[k])
            &&& digit_first || !('0' <= e[0] <= '9')
        }
}

/// Whether a text is the name of a client on the bus: a unique one, behind a
/// colon, or a well-known one, of at most 255 characters.
pub open spec fn is_bus_name(s: Seq<char>) -> bool {
    &&& s.len() <= 255
    &&& is_dotted(s, false) || (s.len() > 0 && s[0] == ':' && is_dotted(s.skip(1), true))
}

/// What is wrong with a text as the name of a client on the bus, in words.
pub uninterp spec fn bus_name_error(name: Seq<char>) -> Option<Seq<char>>;

/// `zbus::names::BusName::try_from` takes exactly the unique and the well-known
/// names of the bus; for any other text its error is given in words, the same
/// for every such text. How they start is stated; the rest, which points to the
/// bus's own documentation, is left to the name.
#[verifier::external_body]
fn bus_name_problem(name: &str) -> (r: Option<String>)
    ensures
        crate::token::optional_text(r) == bus_name_error(name@),
        r is None <==> is_bus_name(name@),
        r matches Some(why) ==> crate::token::has_prefix(why@, "Invalid bus name. See "@),
        r matches Some(why) ==> forall|other: Seq<char>|
            !is_bus_name(other) ==> #[trigger] bus_name_error(other) == Some(why@),
{
    match zbus::names::BusName::try_from(name) {
        Ok(_) => None,
        Err(e) => Some(format!("{}", e)),
    }
}

/// The sender of a message, where it is one; `problem` is what is wrong with its
/// name, if anything.
pub open spec fn sender_verdict(
    sender: Option<Seq<char>>,
    problem: Option<Seq<char>>,
) -> Result<Seq<char>, crate::error::FprintErrorView> {
    match sender {
        None => Err(crate::error::FprintErrorView::Internal("missing sender"@)),
        Some(s) => match problem {
            None => Ok(s),
            Some(why) => Err(
                crate::error::FprintErrorView::Internal("invalid sender "@ + s + ": "@ + why),
            ),
        },
    }
}

/// The sender of a message, unless something is wrong with its name.
pub fn sender_unless<'a>(sender: Option<&'a str>, problem: Option<String>) -> (r: Result<
    &'a str,
    FprintError,
>)
    ensures
        match r {
            Ok(s) => sender_verdict(
                crate::token::optional_str(sender),
                crate::token::optional_text(problem),
            ) == Ok::<_, crate::error::FprintErrorView>(s@),
            Err(e) => sender_verdict(
                crate::token::optional_str(sender),
                crate::token::optional_text(problem),
            ) == Err::<Seq<char>, _>(e@),
        },
{
    match sender {
        None => Err(FprintError::Internal("missing sender".to_owned())),
        Some(name) => match problem {
            None => Ok(name),
            Some(why) => {
                let mut s = "invalid sender ".to_owned();
                s.append(name);
                s.append(": ");
                s.append(why.as_str());
                Err(FprintError::Internal(s))
            },
        },
    }
}

/// The sender of a message. A message without one is refused, and one whose
/// sender cannot be a client on the bus.
pub fn check_sender<'a>(sender: Option<&'a str>) -> (r: Result<&'a str, FprintError>)
    ensures
        ({
            let name = crate::token::optional_str(sender);
            let problem = match name {
                Some(n) => bus_name_error(n),
                None => None,
            };
            match r {
                Ok(s) => sender_verdict(name, problem) == Ok::<_, crate::error::FprintErrorView>(
                    s@,
                ),
                Err(e) => sender_verdict(name, problem) == Err::<Seq<char>, _>(e@),
            }
        }),
        r is Ok <==> (sender matches Some(name) && is_bus_name(name@)),
        r matches Ok(s) ==> sender matches Some(name) && s@ == name@,
{
    let problem = match sender {
        Some(name) => bus_name_problem(name),
        None => None,
    };
    sender_unless(sender, problem)
}

/// The caller that a user id stands for; `account` is the account's name, if
/// there is such an account.
pub fn resolve_caller(uid: u32, account: Option<String>) -> (r: Result<Caller, FprintError>)
    ensures
        match account {
            None => r matches Err(e) && e@ == crate::error::FprintErrorView::Internal(
                "uid "@ + crate::text::decimal(uid as nat) + " not in passwd"@,
            ),
            Some(name) => if unsafe_username(name@) {
                r matches Err(e) && e@ == crate::error::FprintErrorView::Internal(
                    "unsafe username"@,
                )
            } else {
                r matches Ok(c) && c.uid == uid && c.user@ == name@
            },
        },
{
    match account {
        None => {
            let mut s = "uid ".to_owned();
            push_decimal(&mut s, uid as u64);
            s.append(" not in passwd");
            Err(FprintError::Internal(s))
        },
        Some(name) => match validate_username(name.as_str()) {
            Ok(_) => Ok(Caller { uid, user: name }),
            Err(e) => Err(e),
        },
    }
}

/// What is known before polkit is asked.
#[derive(Debug)]
pub enum Standing {
    /// The caller may act as this user.
    Allowed(String),
    /// Only polkit can tell.
    AskPolkit,
}

/// The user that a caller may act as without further ado, if any: themselves
/// where they name no one or themselves, anyone where they are root.
pub open spec fn allowed_outright(uid: u32, user: Seq<char>, requested: Seq<char>) -> Option<
    Seq<char>,
> {
    if requested.len() == 0 || requested == user {
        Some(user)
    } else if uid == 0 {
        Some(requested)
    } else {
        None
    }
}

/// Whether a caller may act as the user they name, as far as that can be told
/// without polkit.
pub fn standing(caller: &Caller, requested: &str) -> (r: Standing)
    ensures
        match allowed_outright(caller.uid, caller.user@, requested@) {
            Some(u) => r matches Standing::Allowed(s) && s@ == u,
            None => r is AskPolkit,
        },
{
    if requested.unicode_len() == 0 || str_eq(requested, caller.user.as_str()) {
        Standing::Allowed(caller.user.clone())
    } else if caller.uid == 0 {
        Standing::Allowed(requested.to_owned())
    } else {
        Standing::AskPolkit
    }
}

/// The user that a caller acts as, or why they may not. `polkit` is what polkit
/// said, where it was asked.
pub open spec fn authorized_user(
    uid: u32,
    user: Seq<char>,
    requested: Seq<char>,
    polkit: bool,
) -> Result<Seq<char>, crate::error::FprintErrorView> {
    match allowed_outright(uid, user, requested) {
        Some(u) => Ok(u),
        None => if polkit {
            Ok(requested)
        } else {
            Err(
                crate::error::FprintErrorView::PermissionDenied(
                    "uid "@ + crate::text::decimal(uid as nat) + " not authorized to act as user "@
                        + requested,
                ),
            )
        },
    }
}

/// The user that a caller acts as, once polkit has said what it says; its word
/// counts only where the caller's standing leaves it open.
pub fn authorize_username(caller: &Caller, requested: &str, polkit: bool) -> (r: Result<
    String,
    FprintError,
>)
    ensures
        match r {
            Ok(s) => authorized_user(caller.uid, caller.user@, requested@, polkit) == Ok::<
                _,
                crate::error::FprintErrorView,
            >(s@),
            Err(e) => authorized_user(caller.uid, caller.user@, requested@, polkit) == Err::<
                Seq<char>,
                _,
            >(e@),
        },
{
    match standing(caller, requested) {
        Standing::Allowed(s) => Ok(s),
        Standing::AskPolkit => {
            if polkit {
                Ok(requested.to_owned())
            } else {
                let mut s = "uid ".to_owned();
                push_decimal(&mut s, caller.uid as u64);
                s.append(" not authorized to act as user ");
                s.append(requested);
                Err(FprintError::PermissionDenied(s))
            }
        },
    }
}

// ---------- laws ----------

/// Without polkit's leave nobody but root acts as anybody but themselves.
pub proof fn lemma_no_cross_user_without_polkit(uid: u32, user: Seq<char>, requested: Seq<char>)
    requires
        uid != 0,
    ensures
        match authorized_user(uid, user, requested, false) {
            Ok(u) => u == user,
            Err(_) => requested.len() > 0 && requested != user,
        },
{
}

/// Whatever polkit says, everyone may act as themselves, and root as anyone
/// they name.
pub proof fn lemma_self_and_root_always_allowed(
    uid: u32,
    user: Seq<char>,
    requested: Seq<char>,
    polkit: bool,
)
    ensures
        authorized_user(uid, user, user, polkit) == Ok::<_, crate::error::FprintErrorView>(user),
        authorized_user(uid, user, Seq::empty(), polkit) == Ok::<
            _,
            crate::error::FprintErrorView,
        >(user),
        requested.len() > 0 ==> authorized_user(0, user, requested, polkit) == Ok::<
            _,
            crate::error::FprintErrorView,
        >(requested),
{
}

/// No account has a name that is empty, names a directory, or holds a separator
/// or a control character; any other name is let through.
pub proof fn lemma_unsafe_usernames(u: Seq<char>)
    ensures
        unsafe_username(Seq::<char>::empty()),
        unsafe_username("."@),
        unsafe_username(".."@),
        u.contains('/') ==> unsafe_username(u),
        u.contains('\\') ==> unsafe_username(u),
        (exists|i: int| 0 <= i < u.len() && (((#[trigger] u[i]) as u32) < 32 || u[i] as u32 == 127))
            ==> unsafe_username(u),
        u.len() > 0 && u != "."@ && u != ".."@ && (forall|i: int|
            0 <= i < u.len() ==> (#[trigger] u[i]) as u32 >= 32 && u[i] != '/' && u[i] != '\\' && u[i] as u32
                != 127) ==> !unsafe_username(u),
{
    if u.contains('/') {
        let i = choose|i: int| 0 <= i < u.len() && u[i] == '/';
        assert(unsafe_char(u[i]));
    }
    if u.contains('\\') {
        let i = choose|i: int| 0 <= i < u.len() && u[i] == '\\';
        assert(unsafe_char(u[i]));
    }
    if exists|i: int| 0 <= i < u.len() && (((#[trigger] u[i]) as u32) < 32 || u[i] as u32 == 127) {
        let i = choose|i: int| 0 <= i < u.len() && (((#[trigger] u[i]) as u32) < 32 || u[i] as u32 == 127);
        assert(unsafe_char(u[i]));
    }
    if unsafe_username(u) && u.len() > 0 && u != "."@ && u != ".."@ {
        let i = choose|i: int| 0 <= i < u.len() && #[trigger] unsafe_char(u[i]);
        let c = u[i];
        assert(c == '/' || c == '\\' || (c as u32) < 32 || c as u32 == 127);
    }
}

/// With polkit's leave a caller acts as whom they name, and without it a refusal
/// says who asked and for whom.
pub proof fn lemma_polkit_decides(uid: u32, user: Seq<char>, requested: Seq<char>)
    requires
        uid != 0,
        requested.len() > 0,
        requested != user,
    ensures
        authorized_user(uid, user, requested, true) == Ok::<_, crate::error::FprintErrorView>(
            requested,
        ),
        authorized_user(uid, user, requested, false) matches Err(
            crate::error::FprintErrorView::PermissionDenied(why),
        ) && why == "uid "@ + crate::text::decimal(uid as nat) + " not authorized to act as user "@
            + requested,
        allowed_outright(uid, user, requested) is None,
{
}

/// A sender is taken exactly where it is there and nothing is wrong with its
/// name, and then as it is; a refusal says what is wrong.
pub proof fn lemma_senders(name: Seq<char>, why: Seq<char>)
    ensures
        sender_verdict(Some(name), None) == Ok::<_, crate::error::FprintErrorView>(name),
        sender_verdict(None, None) is Err,
        sender_verdict(None, Some(why)) is Err,
        sender_verdict(Some(name), Some(why)) matches Err(
            crate::error::FprintErrorView::Internal(t),
        ) && t.skip(t.len() - why.len()) == why && crate::token::contains_text(t, name),
{
    reveal_strlit("invalid sender ");
    let t = "invalid sender "@ + name + ": "@ + why;
    assert(t.skip(t.len() - why.len()) =~= why);
    assert(t.subrange(15, 15 + name.len() as int) =~= name);
}

} // verus!
