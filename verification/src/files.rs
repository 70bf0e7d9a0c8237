//! What is done to files, as lists of steps, and what the steps leave on disk.
//!
//! The lists are made here and carried out elsewhere. A step whose failure is
//! not tolerated ends its list.

use vstd::prelude::*;
use vstd::string::*;

verus! {

/// One step.
#[derive(Debug)]
pub enum FileOp {
    /// Make a directory and those above it.
    MakeDir(String),
    /// Set a file's permission bits; a failure is tolerated.
    SetMode { path: String, mode: u32 },
    /// Write a file from its start, cutting off what it held, and flush it to
    /// disk. The permission bits are for a file that was not there.
    WriteSync { path: String, mode: u32, data: Vec<u8> },
    /// Give a file another name, replacing what had it.
    Rename { from: String, to: String },
    /// Copy a file with its permission bits.
    Copy { from: String, to: String },
    /// Overwrite the start of a file with this; a failure, and a file that is
    /// not there, are tolerated.
    Shred { path: String, data: Vec<u8> },
    /// Remove a file; one that is not there is tolerated.
    Remove(String),
}

/// A [`FileOp`] as mathematics.
pub enum FileOpView {
    MakeDir(Seq<char>),
    SetMode { path: Seq<char>, mode: u32 },
    WriteSync { path: Seq<char>, mode: u32, data: Seq<u8> },
    Rename { from: Seq<char>, to: Seq<char> },
    Copy { from: Seq<char>, to: Seq<char> },
    Shred { path: Seq<char>, data: Seq<u8> },
    Remove(Seq<char>),
}

impl View for FileOp {
    type V = FileOpView;

    open spec fn view(&self) -> FileOpView {
        match *self {
            FileOp::MakeDir(p) => FileOpView::MakeDir(p@),
            FileOp::SetMode { path, mode } => FileOpView::SetMode { path: path@, mode },
            FileOp::WriteSync { path, mode, data } => FileOpView::WriteSync {
                path: path@,
                mode,
                data: data@,
            },
            FileOp::Rename { from, to } => FileOpView::Rename { from: from@, to: to@ },
            FileOp::Copy { from, to } => FileOpView::Copy { from: from@, to: to@ },
            FileOp::Shred { path, data } => FileOpView::Shred { path: path@, data: data@ },
            FileOp::Remove(p) => FileOpView::Remove(p@),
        }
    }
}

/// A list of steps as mathematics.
pub open spec fn ops_view(s: Seq<FileOp>) -> Seq<FileOpView> {
    Seq::new(s.len(), |i: int| s[i]@)
}

/// The steps of the first list, then those of the second.
pub fn then_ops(first: Vec<FileOp>, second: Vec<FileOp>) -> (r: Vec<FileOp>)
    ensures
        ops_view(r@) == ops_view(first@) + ops_view(second@),
{
    let mut r: Vec<FileOp> = first;
    let mut rest: Vec<FileOp> = second;
    r.append(&mut rest);
    assert(ops_view(r@) =~= ops_view(first@) + ops_view(second@));
    r
}

/// Adds a step to a list.
pub fn push_op(r: &mut Vec<FileOp>, op: FileOp)
    ensures
        ops_view(final(r)@) == ops_view(old(r)@).push(op@),
{
    r.push(op);
    assert(ops_view(r@) =~= ops_view(old(r)@).push(op@));
}

/// A file on disk.
pub struct FileOnDisk {
    pub data: Seq<u8>,
    pub mode: u32,
}

/// The files on a disk, by path.
pub type Disk = Map<Seq<char>, FileOnDisk>;

/// The bytes `over` on top of the start of `under`.
pub open spec fn overwritten(under: Seq<u8>, over: Seq<u8>) -> Seq<u8> {
    if under.len() <= over.len() {
        over
    } else {
        over + under.skip(over.len() as int)
    }
}

/// The disk after a step that did not fail.
pub open spec fn apply_op(d: Disk, op: FileOpView) -> Disk {
    match op {
        FileOpView::MakeDir(_) => d,
        FileOpView::SetMode { path, mode } => if d.dom().contains(path) {
            d.insert(path, FileOnDisk { data: d[path].data, mode })
        } else {
            d
        },
        FileOpView::WriteSync { path, mode, data } => d.insert(
            path,
            FileOnDisk {
                data,
                mode: if d.dom().contains(path) {
                    d[path].mode
                } else {
                    mode
                },
            },
        ),
        FileOpView::Rename { from, to } => if d.dom().contains(from) {
            d.remove(from).insert(to, d[from])
        } else {
            d
        },
        FileOpView::Copy { from, to } => if d.dom().contains(from) {
            d.insert(to, d[from])
        } else {
            d
        },
        FileOpView::Shred { path, data } => if d.dom().contains(path) {
            d.insert(
                path,
                FileOnDisk { data: overwritten(d[path].data, data), mode: d[path].mode },
            )
        } else {
            d
        },
        FileOpView::Remove(path) => d.remove(path),
    }
}

/// The disk after the first `n` steps.
pub open spec fn apply_ops(d: Disk, ops: Seq<FileOpView>, n: nat) -> Disk
    decreases n,
{
    if n == 0 {
        d
    } else {
        apply_op(apply_ops(d, ops, (n - 1) as nat), ops[n - 1])
    }
}

/// A file's permission bits, where they are exactly read and write for the
/// owner and nothing for anyone else.
pub open spec fn is_private_mode(mode: u32) -> bool {
    mode % 512 == 384
}

/// Whether a file is readable and writable by its owner and by nobody else.
pub fn private_mode(mode: u32) -> (r: bool)
    ensures
        r == is_private_mode(mode),
{
    mode % 512 == 384
}

/// A number in octal, without leading zeros.
pub open spec fn octal(n: nat) -> Seq<char>
    decreases n,
{
    if n < 8 {
        seq![crate::text::digit_char(n)]
    } else {
        octal(n / 8).push(crate::text::digit_char(n % 8))
    }
}

fn push_octal(out: &mut String, n: u32)
    ensures
        final(out)@ == old(out)@ + octal(n as nat),
    decreases n,
{
    if n >= 8 {
        push_octal(out, n / 8);
    }
    crate::text::push_decimal(out, (n % 8) as u64);
    assert(crate::text::decimal((n % 8) as nat) =~= seq![crate::text::digit_char((n % 8) as nat)]);
    assert(out@ =~= old(out)@ + octal(n as nat));
}

/// The words for a file that others than its owner can use.
pub open spec fn insecure_mode_text(mode: u32, path: Seq<char>) -> Seq<char> {
    "insecure mode "@ + octal((mode % 512) as nat) + " on "@ + path + " (expected 0600)"@
}

/// Checks that a file is readable and writable by its owner and by nobody else;
/// otherwise says so.
pub fn require_private(mode: u32, path: &str) -> (r: Result<(), String>)
    ensures
        match r {
            Ok(_) => is_private_mode(mode),
            Err(e) => !is_private_mode(mode) && e@ == insecure_mode_text(mode, path@),
        },
{
    if private_mode(mode) {
        Ok(())
    } else {
        let mut s = "insecure mode ".to_owned();
        push_octal(&mut s, mode % 512);
        s.append(" on ");
        s.append(path);
        s.append(" (expected 0600)");
        Err(s)
    }
}

/// Replaces a file's content without ever leaving half of it: writes it aside,
/// then gives it the name.
pub open spec fn replace_ops(tmp: Seq<char>, path: Seq<char>, data: Seq<u8>) -> Seq<FileOpView> {
    seq![
        FileOpView::WriteSync { path: tmp, mode: 0o600, data },
        FileOpView::Rename { from: tmp, to: path },
    ]
}

/// The steps that replace a file's content.
pub fn replace_file(tmp: &str, path: &str, data: Vec<u8>) -> (r: Vec<FileOp>)
    ensures
        ops_view(r@) == replace_ops(tmp@, path@, data@),
{
    let mut r: Vec<FileOp> = Vec::new();
    r.push(FileOp::WriteSync { path: tmp.to_owned(), mode: 0o600, data });
    r.push(FileOp::Rename { from: tmp.to_owned(), to: path.to_owned() });
    assert(ops_view(r@) =~= replace_ops(tmp@, path@, data@));
    r
}

/// Wherever the steps that replace a file are cut short, the file is as it was
/// or holds the whole new content; and where they are not, the new content.
pub proof fn lemma_replace_is_atomic(
    d: Disk,
    tmp: Seq<char>,
    path: Seq<char>,
    data: Seq<u8>,
    n: nat,
)
    requires
        tmp != path,
        n <= 2,
    ensures
        ({
            let e = apply_ops(d, replace_ops(tmp, path, data), n);
            ||| e.dom().contains(path) == d.dom().contains(path) && (d.dom().contains(path)
                ==> e[path] == d[path])
            ||| e.dom().contains(path) && e[path].data == data
        }),
        n == 2 ==> ({
            let e = apply_ops(d, replace_ops(tmp, path, data), n);
            &&& e.dom().contains(path)
            &&& e[path].data == data
            &&& !d.dom().contains(tmp) ==> e[path].mode == 0o600
        }),
        forall|p: Seq<char>| #![trigger d[p]]
            p != tmp && p != path && d.dom().contains(p) ==> apply_ops(
                d,
                replace_ops(tmp, path, data),
                n,
            ).dom().contains(p) && apply_ops(d, replace_ops(tmp, path, data), n)[p] == d[p],
{
    reveal_with_fuel(apply_ops, 3);
}

/// The number that octal digits write.
pub open spec fn octal_value(t: Seq<char>) -> int
    decreases t.len(),
{
    if t.len() == 0 {
        0
    } else {
        8 * octal_value(t.drop_last()) + (t.last() as int - 48)
    }
}

/// A number in octal reads back, and has no leading zero.
pub proof fn lemma_octal_reads_back(n: nat)
    ensures
        octal_value(octal(n)) == n,
        octal(n).len() > 0,
        n > 0 ==> octal(n)[0] != '0',
        forall|i: int| 0 <= i < octal(n).len() ==> '0' <= #[trigger] octal(n)[i] <= '7',
    decreases n,
{
    if n >= 8 {
        lemma_octal_reads_back(n / 8);
        assert(octal(n).drop_last() =~= octal(n / 8));
    } else {
        reveal_with_fuel(octal_value, 2);
        assert(octal(n).drop_last() =~= Seq::<char>::empty());
    }
}

/// A file is private exactly where its owner may read and write it, nobody may
/// execute it, and nobody else may do anything, whatever other kind of file it
/// is.
pub proof fn lemma_private_mode(mode: u32)
    ensures
        is_private_mode(mode) <==> mode & 0o777 == 0o600,
{
    assert((mode % 512 == 384) == (mode & 0o777u32 == 0o600u32)) by (bit_vector);
}

/// The words for a file that is not private name its permissions, in octal, and
/// the file.
pub proof fn lemma_insecure_mode_is_told(mode: u32, path: Seq<char>)
    ensures
        ({
            let t = insecure_mode_text(mode, path);
            &&& crate::token::has_prefix(t, "insecure mode "@ + octal((mode & 0o777) as nat))
            &&& crate::token::contains_text(t, path)
        }),
{
    reveal_strlit("insecure mode ");
    reveal_strlit(" on ");
    reveal_strlit(" (expected 0600)");
    assert(mode % 512 == mode & 0o777u32) by (bit_vector);
    let t = insecure_mode_text(mode, path);
    let lead = "insecure mode "@ + octal((mode % 512) as nat);
    assert(t.take(lead.len() as int) =~= lead);
    let k: int = lead.len() as int + 4;
    assert(t.subrange(k, k + path.len()) =~= path);
}

} // verus!
