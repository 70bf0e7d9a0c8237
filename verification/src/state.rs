//! The host's command counter.
//!
//! One number is kept on disk: the counter of the next framed command. It is
//! advanced on disk before the command goes out, so that a crash can skip a
//! counter but never use one twice.

use vstd::prelude::*;
use vstd::string::*;
use crate::files::{push_op, replace_file, require_private, then_ops, FileOp};

verus! {

/// Where the state lives.
pub const STATE_DIR: &'static str = "/var/lib/r503d";

/// The state file.
pub const STATE_PATH: &'static str = "/var/lib/r503d/state.json";

/// Where the state is written before it gets its name.
pub const STATE_TMP_PATH: &'static str = "/var/lib/r503d/state.json.tmp";

/// The counter state.
#[derive(Clone, Copy, Debug, PartialEq, Eq, Structural)]
pub struct State {
    /// The counter of the next framed command.
    pub next_cmd_counter: u64,
}

impl State {
    /// The state right after pairing, when the board has seen no counter yet
    /// and takes any above zero.
    pub fn fresh() -> (s: State)
        ensures
            s.next_cmd_counter == 1,
    {
        State { next_cmd_counter: 1 }
    }
}

/// What loading the state comes to. `file` is the state file's permission bits
/// and what reading it gave, where there is such a file.
pub open spec fn load_spec(file: Option<(u32, Result<State, Seq<char>>)>) -> Result<
    Option<State>,
    Seq<char>,
> {
    match file {
        None => Ok(None),
        Some((mode, read)) => if !crate::files::is_private_mode(mode) {
            Err(crate::files::insecure_mode_text(mode, STATE_PATH@))
        } else {
            match read {
                Ok(s) => Ok(Some(s)),
                Err(e) => Err(e),
            }
        },
    }
}

/// Loads the state. `file` is the state file's permission bits and what reading
/// it gave, where there is such a file. One that others than its owner can use
/// is refused, whatever it holds.
pub fn load(file: Option<(u32, Result<State, String>)>) -> (r: Result<Option<State>, String>)
    ensures
        load_spec(
            match file {
                None => None,
                Some((mode, Ok(s))) => Some((mode, Ok(s))),
                Some((mode, Err(e))) => Some((mode, Err(e@))),
            },
        ) == match r {
            Ok(s) => Ok::<_, Seq<char>>(s),
            Err(e) => Err(e@),
        },
{
    match file {
        None => Ok(None),
        Some((mode, read)) => match require_private(mode, STATE_PATH) {
            Err(e) => Err(e),
            Ok(_) => match read {
                Ok(s) => Ok(Some(s)),
                Err(e) => Err(e),
            },
        },
    }
}

/// The steps that save the state.
pub open spec fn save_ops(json: Seq<u8>) -> Seq<crate::files::FileOpView> {
    seq![
        crate::files::FileOpView::MakeDir(STATE_DIR@),
        crate::files::FileOpView::SetMode { path: STATE_DIR@, mode: 0o700 },
        crate::files::FileOpView::WriteSync {
            path: STATE_TMP_PATH@,
            mode: 0o600,
            data: json.push(10),
        },
        crate::files::FileOpView::Rename { from: STATE_TMP_PATH@, to: STATE_PATH@ },
    ]
}

/// The steps that save the state, given as JSON.
pub fn save(json: Vec<u8>) -> (r: Vec<FileOp>)
    ensures
        crate::files::ops_view(r@) == save_ops(json@),
{
    let mut data: Vec<u8> = json;
    data.push(10);
    assert(data@ == json@.push(10));
    let mut dir: Vec<FileOp> = Vec::new();
    push_op(&mut dir, FileOp::MakeDir(STATE_DIR.to_owned()));
    push_op(&mut dir, FileOp::SetMode { path: STATE_DIR.to_owned(), mode: 0o700 });
    let r = then_ops(dir, replace_file(STATE_TMP_PATH, STATE_PATH, data));
    assert(crate::files::ops_view(r@) =~= save_ops(json@));
    r
}

/// The steps that remove the state.
pub fn delete() -> (r: Vec<FileOp>)
    ensures
        crate::files::ops_view(r@) == seq![crate::files::FileOpView::Remove(STATE_PATH@)],
{
    let mut r: Vec<FileOp> = Vec::new();
    push_op(&mut r, FileOp::Remove(STATE_PATH.to_owned()));
    assert(crate::files::ops_view(r@) =~= seq![crate::files::FileOpView::Remove(STATE_PATH@)]);
    r
}

/// Wherever saving is cut short, the state file is as it was or holds the whole
/// new state; and once saving is done, the new state.
pub proof fn lemma_save_is_atomic(d: crate::files::Disk, json: Seq<u8>, n: nat)
    requires
        n <= 4,
    ensures
        ({
            let e = crate::files::apply_ops(d, save_ops(json), n);
            ||| e.dom().contains(STATE_PATH@) == d.dom().contains(STATE_PATH@) && (d.dom().contains(
                STATE_PATH@,
            ) ==> e[STATE_PATH@] == d[STATE_PATH@])
            ||| e.dom().contains(STATE_PATH@) && e[STATE_PATH@].data == json.push(10)
        }),
        n == 4 ==> ({
            let e = crate::files::apply_ops(d, save_ops(json), n);
            &&& e.dom().contains(STATE_PATH@)
            &&& e[STATE_PATH@].data == json.push(10)
            &&& !d.dom().contains(STATE_TMP_PATH@) ==> e[STATE_PATH@].mode == 0o600
        }),
{
    reveal_with_fuel(crate::files::apply_ops, 5);
    reveal_strlit("/var/lib/r503d");
    reveal_strlit("/var/lib/r503d/state.json");
    reveal_strlit("/var/lib/r503d/state.json.tmp");
    assert(STATE_DIR@.len() == 14);
    assert(STATE_PATH@.len() == 25);
    assert(STATE_TMP_PATH@.len() == 29);
}

/// A state that was saved is loaded again: its file holds what was saved, with
/// permissions that loading takes, so that whatever the file is read as is the
/// state. A file left where the state is written first keeps its own
/// permissions.
pub proof fn lemma_saved_state_is_loaded(d: crate::files::Disk, json: Seq<u8>, s: State)
    requires
        !d.dom().contains(STATE_TMP_PATH@),
    ensures
        ({
            let e = crate::files::apply_ops(d, save_ops(json), 4);
            &&& e.dom().contains(STATE_PATH@)
            &&& e[STATE_PATH@].data == json.push(10)
            &&& load_spec(Some((e[STATE_PATH@].mode, Ok(s)))) == Ok::<_, Seq<char>>(Some(s))
        }),
{
    lemma_save_is_atomic(d, json, 4);
}

/// A state file is refused, whatever it holds, exactly where anybody but its
/// owner has a permission for it, or the owner lacks one. Otherwise what is read
/// is what is loaded, and a failure to read it is the failure; and no file is no
/// state.
pub proof fn lemma_loading(mode: u32, read: Result<State, Seq<char>>)
    ensures
        load_spec(None) == Ok::<Option<State>, Seq<char>>(None),
        mode % 512 != 0o600 ==> (load_spec(Some((mode, read))) matches Err(e)
            && crate::token::contains_text(e, STATE_PATH@)),
        mode % 512 == 0o600 ==> load_spec(Some((mode, read))) == match read {
            Ok(s) => Ok::<_, Seq<char>>(Some(s)),
            Err(e) => Err(e),
        },
{
    crate::files::lemma_insecure_mode_is_told(mode, STATE_PATH@);
}

/// Saving the state touches no other file, leaves none that it wrote aside, and
/// closes the directory to others before anything is written.
pub proof fn lemma_saving_the_state(d: crate::files::Disk, json: Seq<u8>, path: Seq<char>)
    requires
        path != STATE_PATH@,
        path != STATE_TMP_PATH@,
        path != STATE_DIR@,
    ensures
        ({
            let e = crate::files::apply_ops(d, save_ops(json), 4);
            &&& save_ops(json).len() == 4
            &&& e.dom().contains(path) <==> d.dom().contains(path)
            &&& d.dom().contains(path) ==> e[path] == d[path]
            &&& !e.dom().contains(STATE_TMP_PATH@)
            &&& save_ops(json).take(2).contains(
                crate::files::FileOpView::SetMode { path: STATE_DIR@, mode: 0o700 },
            )
            &&& !(save_ops(json)[0] is WriteSync) && !(save_ops(json)[1] is WriteSync)
        }),
{
    reveal_with_fuel(crate::files::apply_ops, 5);
    reveal_strlit("/var/lib/r503d");
    reveal_strlit("/var/lib/r503d/state.json");
    reveal_strlit("/var/lib/r503d/state.json.tmp");
    assert(STATE_PATH@.len() == 25);
    assert(STATE_TMP_PATH@.len() == 29);
    assert(save_ops(json).take(2)[1] == save_ops(json)[1]);
}

} // verus!
