//! The host's copy of the pairing key: its text form, where it comes from, and
//! the files that hold it.

use vstd::prelude::*;
use vstd::string::*;
use crate::files::{push_op, replace_file, then_ops, FileOp};
use crate::text::{nybble, push_decimal, push_hex};
use crate::token::trim;

verus! {

/// Where the key files live.
pub const KEY_DIR: &'static str = "/var/lib/r503d";

/// The key.
pub const KEY_PATH: &'static str = "/var/lib/r503d/key";

/// Where the key is written before it gets its name.
pub const KEY_TMP_PATH: &'static str = "/var/lib/r503d/key.tmp";

/// The backup of the key.
pub const KEY_BAK_PATH: &'static str = "/var/lib/r503d/key.bak";

/// The key, sealed to the TPM. Where this file is there it is the only one used.
pub const KEY_TPM_PATH: &'static str = "/var/lib/r503d/key.tpm";

/// Where the sealed key is written before it gets its name.
pub const KEY_TPM_TMP_PATH: &'static str = "/var/lib/r503d/key.tpm.tmp";

/// Where the consent to pairing lives.
pub const ALLOW_PAIR_DIR: &'static str = "/etc/r503d";

/// The file whose presence is the consent to pairing.
pub const ALLOW_PAIR_PATH: &'static str = "/etc/r503d/allow-pair";

// ---------- random keys ----------

/// The error of the system's random source.
#[verifier::external_type_specification]
#[verifier::external_body]
pub struct ExRandomError(getrandom::Error);

/// `getrandom::fill` puts random bytes into the buffer, or says that it could
/// not. Nothing is claimed of the bytes, nor of when it fails.
#[verifier::external_body]
fn fill_random(buf: &mut [u8; 16]) -> (r: Result<(), getrandom::Error>) {
    getrandom::fill(buf)
}

/// `Zeroize::zeroize` of an array of bytes sets each of them to zero.
#[verifier::external_body]
fn wipe(buf: &mut [u8; 16])
    ensures
        final(buf)@ == Seq::new(16, |i: int| 0u8),
{
    zeroize::Zeroize::zeroize(buf);
}

/// The words that `getrandom::Error` displays. Nothing is claimed of them: for an
/// error of the operating system they are that system's own.
#[verifier::external_body]
fn random_error_words(e: getrandom::Error) -> (s: String) {
    format!("{}", e)
}

/// Why there is no key.
#[derive(Debug, PartialEq, Eq)]
pub enum KeyError {
    /// The system gave no random bytes, and says why.
    Random(String),
    /// The text has not 32 bytes, but this many.
    WrongLength(usize),
    /// The text has this byte, which is no hexadecimal digit.
    NotHex(u8),
}

/// A [`KeyError`] as mathematics.
pub enum KeyErrorView {
    Random(Seq<char>),
    WrongLength(nat),
    NotHex(u8),
}

impl View for KeyError {
    type V = KeyErrorView;

    open spec fn view(&self) -> KeyErrorView {
        match *self {
            KeyError::Random(why) => KeyErrorView::Random(why@),
            KeyError::WrongLength(n) => KeyErrorView::WrongLength(n as nat),
            KeyError::NotHex(c) => KeyErrorView::NotHex(c),
        }
    }
}

/// The error in words; `shown` is how the byte that is no digit is shown.
pub open spec fn key_error_text(e: KeyErrorView, shown: Seq<char>) -> Seq<char> {
    match e {
        KeyErrorView::Random(why) => "getrandom(2) failed: "@ + why,
        KeyErrorView::WrongLength(n) => "key must be 32 hex chars, got "@ + crate::text::decimal(
            n,
        ),
        KeyErrorView::NotHex(_) => "non-hex byte: "@ + shown,
    }
}

impl KeyError {
    /// The error in words; `shown` is how the byte that is no digit is shown.
    pub fn message(&self, shown: &str) -> (s: String)
        ensures
            s@ == key_error_text(self@, shown@),
    {
        match self {
            KeyError::Random(why) => {
                let mut s = "getrandom(2) failed: ".to_owned();
                s.append(why.as_str());
                s
            },
            KeyError::WrongLength(n) => {
                let mut s = "key must be 32 hex chars, got ".to_owned();
                push_decimal(&mut s, *n as u64);
                s
            },
            KeyError::NotHex(_) => {
                let mut s = "non-hex byte: ".to_owned();
                s.append(shown);
                s
            },
        }
    }
}

/// The key in a buffer that the random source was asked to fill; `failure` says
/// why it could not, if so. A buffer that it could not fill gives no key and is
/// wiped.
pub fn key_if_filled(failure: Option<String>, buf: &mut [u8; 16]) -> (r: Result<
    [u8; 16],
    KeyError,
>)
    ensures
        match failure {
            None => {
                &&& r matches Ok(k) && k@ == old(buf)@
                &&& final(buf)@ == old(buf)@
            },
            Some(why) => {
                &&& r matches Err(e) && e@ == KeyErrorView::Random(why@)
                &&& final(buf)@ == Seq::new(16, |i: int| 0u8)
            },
        },
{
    match failure {
        None => Ok(*buf),
        Some(why) => {
            wipe(buf);
            Err(KeyError::Random(why))
        },
    }
}

/// A fresh key from the system's random source. It fails only where the source
/// does.
pub fn generate_key() -> (r: Result<[u8; 16], KeyError>)
    ensures
        r matches Err(e) ==> e is Random,
{
    let mut key: [u8; 16] = [0u8; 16];
    let failure = match fill_random(&mut key) {
        Ok(_) => None,
        Err(e) => Some(random_error_words(e)),
    };
    key_if_filled(failure, &mut key)
}

// ---------- keys as text ----------

/// A key in hexadecimal: 32 characters.
pub fn key_hex(key: &[u8; 16]) -> (s: String)
    ensures
        s@ == crate::text::hex_text(key@),
{
    let mut s = String::new();
    push_hex(&mut s, key);
    assert(s@ =~= crate::text::hex_text(key@));
    s
}

/// The first byte that is no hexadecimal digit.
pub open spec fn first_non_hex(h: Seq<u8>) -> Option<u8>
    decreases h.len(),
{
    if h.len() == 0 {
        None
    } else if crate::text::nybble_value(h[0]) is None {
        Some(h[0])
    } else {
        first_non_hex(h.drop_first())
    }
}

/// The key that a text writes.
pub open spec fn parse_key_spec(s: Seq<char>) -> Result<Seq<u8>, KeyErrorView> {
    let h = vstd::utf8::encode_utf8(s);
    if h.len() != 32 {
        Err(KeyErrorView::WrongLength(h.len()))
    } else {
        match first_non_hex(h) {
            Some(c) => Err(KeyErrorView::NotHex(c)),
            None => Ok(crate::text::hex_bytes(h)),
        }
    }
}

proof fn lemma_first_non_hex_after(h: Seq<u8>, n: int)
    requires
        0 <= n <= h.len(),
        forall|k: int| 0 <= k < n ==> crate::text::nybble_value(#[trigger] h[k]) is Some,
    ensures
        first_non_hex(h) == first_non_hex(h.skip(n)),
    decreases n,
{
    if n == 0 {
        assert(h.skip(0) =~= h);
    } else {
        let t = h.drop_first();
        assert forall|k: int| 0 <= k < n - 1 implies crate::text::nybble_value(
            #[trigger] t[k],
        ) is Some by {
            assert(t[k] == h[k + 1]);
        }
        assert(crate::text::nybble_value(h[0]) is Some);
        lemma_first_non_hex_after(t, n - 1);
        assert(t.skip(n - 1) =~= h.skip(n));
    }
}

/// Reads a key from its text. What was read of a key before a byte that is no
/// digit is wiped.
pub fn parse_key_hex(s: &str) -> (r: Result<[u8; 16], KeyError>)
    ensures
        match r {
            Ok(k) => parse_key_spec(s@) == Ok::<_, KeyErrorView>(k@),
            Err(e) => parse_key_spec(s@) == Err::<Seq<u8>, _>(e@),
        },
{
    let b = s.as_bytes();
    if b.len() != 32 {
        return Err(KeyError::WrongLength(b.len()));
    }
    let mut out: [u8; 16] = [0u8; 16];
    let mut i: usize = 0;
    while i < 16
        invariant
            0 <= i <= 16,
            b@ == vstd::utf8::encode_utf8(s@),
            b@.len() == 32,
            forall|k: int|
                0 <= k < 2 * i ==> crate::text::nybble_value(#[trigger] b@[k]) is Some,
            forall|k: int| 0 <= k < i ==> #[trigger] out@[k] == crate::text::hex_bytes(b@)[k],
        decreases 16 - i,
    {
        let hi: u8 = match nybble(b[2 * i]) {
            Some(v) => v,
            None => {
                proof {
                    lemma_first_non_hex_after(b@, 2 * i);
                    assert(b@.skip(2 * i)[0] == b@[2 * i as int]);
                }
                wipe(&mut out);
                return Err(KeyError::NotHex(b[2 * i]));
            },
        };
        let lo: u8 = match nybble(b[2 * i + 1]) {
            Some(v) => v,
            None => {
                proof {
                    lemma_first_non_hex_after(b@, 2 * i + 1);
                    assert(b@.skip(2 * i + 1)[0] == b@[2 * i + 1]);
                }
                wipe(&mut out);
                return Err(KeyError::NotHex(b[2 * i + 1]));
            },
        };
        assert(hi < 16 && lo < 16);
        out[i] = hi * 16 + lo;
        i = i + 1;
    }
    proof {
        lemma_first_non_hex_after(b@, 32);
        assert(b@.skip(32) =~= Seq::empty());
        assert(out@ =~= crate::text::hex_bytes(b@));
    }
    Ok(out)
}

/// A key in hexadecimal reads back as that key.
pub proof fn lemma_key_round_trip(key: Seq<u8>)
    requires
        key.len() == 16,
    ensures
        parse_key_spec(crate::text::hex_text(key)) == Ok::<_, KeyErrorView>(key),
{
    crate::text::lemma_hex_round_trip(key);
    let h = vstd::utf8::encode_utf8(crate::text::hex_text(key));
    lemma_first_non_hex_after(h, 32);
    assert(h.skip(32) =~= Seq::empty());
}

// ---------- which key ----------

/// Where a key came from.
#[derive(Debug, Clone, Copy, PartialEq, Eq, Structural)]
pub enum KeySource {
    /// A file in the clear.
    Plaintext,
    /// A file sealed to the TPM.
    Tpm,
}

/// What is known of a file before it is opened.
#[derive(Debug, Clone, Copy, PartialEq, Eq, Structural)]
pub struct FileFacts {
    pub is_symlink: bool,
    pub uid: u32,
    pub mode: u32,
}

/// Whether a key file may be trusted: no link, root's own, and without any of
/// the permission bits in `mask`.
pub open spec fn is_trusted_key_file(f: FileFacts, mask: u32) -> bool {
    !f.is_symlink && f.uid == 0 && f.mode & mask == 0
}

/// The permission bits that no key file may have: anything for others than the
/// owner.
pub const KEY_FORBIDDEN_BITS: u32 = 0o077;

/// The permission bits that no backup may have: those, and execution.
pub const BAK_FORBIDDEN_BITS: u32 = 0o177;

/// Whether the file may be taken for the key, or for its backup.
pub fn trusted_key_file(f: FileFacts, backup: bool) -> (r: bool)
    ensures
        r == is_trusted_key_file(
            f,
            if backup {
                BAK_FORBIDDEN_BITS
            } else {
                KEY_FORBIDDEN_BITS
            },
        ),
{
    let mask: u32 = if backup {
        BAK_FORBIDDEN_BITS
    } else {
        KEY_FORBIDDEN_BITS
    };
    !f.is_symlink && f.uid == 0 && f.mode & mask == 0
}

/// The key in the text of a key file.
pub open spec fn key_in_file(text: Option<Seq<char>>) -> Option<Seq<u8>> {
    match text {
        None => None,
        Some(t) => match parse_key_spec(crate::token::trimmed(t)) {
            Ok(k) => Some(k),
            Err(_) => None,
        },
    }
}

/// The key in the key file, or else the one in the backup. A file that is not
/// there, or not to be trusted, has no text.
pub open spec fn plain_key(live: Option<Seq<char>>, backup: Option<Seq<char>>) -> Option<Seq<u8>> {
    match key_in_file(live) {
        Some(k) => Some(k),
        None => key_in_file(backup),
    }
}

fn read_key_file(text: Option<&str>) -> (r: Option<[u8; 16]>)
    ensures
        key_in_file(crate::token::optional_str(text)) == crate::channel::optional_key(r),
{
    match text {
        None => None,
        Some(t) => match parse_key_hex(trim(t)) {
            Ok(k) => Some(k),
            Err(_) => None,
        },
    }
}

/// The key in the key files; `live` and `backup` are their texts.
pub fn load_key(live: Option<&str>, backup: Option<&str>) -> (r: Option<[u8; 16]>)
    ensures
        crate::channel::optional_key(r) == plain_key(
            crate::token::optional_str(live),
            crate::token::optional_str(backup),
        ),
{
    match read_key_file(live) {
        Some(k) => Some(k),
        None => read_key_file(backup),
    }
}

/// The key, and where it came from. `sealed` is what unsealing gave, where there
/// is a sealed key: then that is the key, or its failure is the failure, and the
/// files in the clear do not count.
pub fn load_key_with_source(
    sealed: Option<Result<[u8; 16], String>>,
    live: Option<&str>,
    backup: Option<&str>,
) -> (r: Result<Option<([u8; 16], KeySource)>, String>)
    ensures
        match sealed {
            Some(Ok(k)) => r matches Ok(Some((x, KeySource::Tpm))) && x == k,
            Some(Err(e)) => r matches Err(f) && f == e,
            None => match plain_key(
                crate::token::optional_str(live),
                crate::token::optional_str(backup),
            ) {
                Some(k) => r matches Ok(Some((x, KeySource::Plaintext))) && x@ == k,
                None => r matches Ok(None),
            },
        },
{
    match sealed {
        Some(Ok(k)) => Ok(Some((k, KeySource::Tpm))),
        Some(Err(e)) => Err(e),
        None => match load_key(live, backup) {
            Some(k) => Ok(Some((k, KeySource::Plaintext))),
            None => Ok(None),
        },
    }
}

// ---------- key files ----------

/// What a key file holds: the key in hexadecimal and a newline.
pub open spec fn key_file_bytes(key: Seq<u8>) -> Seq<u8> {
    vstd::utf8::encode_utf8(crate::text::hex_text(key)).push(10)
}

/// What a key file is overwritten with before it is removed.
pub open spec fn shred_bytes() -> Seq<u8> {
    Seq::new(33, |i: int| 255u8)
}

/// The steps that save a key and its backup.
pub open spec fn save_key_ops(key: Seq<u8>) -> Seq<crate::files::FileOpView> {
    seq![
        crate::files::FileOpView::MakeDir(KEY_DIR@),
        crate::files::FileOpView::SetMode { path: KEY_DIR@, mode: 0o700 },
        crate::files::FileOpView::WriteSync {
            path: KEY_TMP_PATH@,
            mode: 0o600,
            data: key_file_bytes(key),
        },
        crate::files::FileOpView::Rename { from: KEY_TMP_PATH@, to: KEY_PATH@ },
        crate::files::FileOpView::Copy { from: KEY_PATH@, to: KEY_BAK_PATH@ },
        crate::files::FileOpView::SetMode { path: KEY_BAK_PATH@, mode: 0o400 },
    ]
}

/// The steps that remove the files in the clear, each made writable and
/// overwritten first.
pub open spec fn delete_key_ops() -> Seq<crate::files::FileOpView> {
    seq![
        crate::files::FileOpView::SetMode { path: KEY_PATH@, mode: 0o600 },
        crate::files::FileOpView::Shred { path: KEY_PATH@, data: shred_bytes() },
        crate::files::FileOpView::Remove(KEY_PATH@),
        crate::files::FileOpView::SetMode { path: KEY_BAK_PATH@, mode: 0o600 },
        crate::files::FileOpView::Shred { path: KEY_BAK_PATH@, data: shred_bytes() },
        crate::files::FileOpView::Remove(KEY_BAK_PATH@),
    ]
}

/// The steps that put a sealed key on disk.
pub open spec fn put_sealed_ops(blob: Seq<u8>) -> Seq<crate::files::FileOpView> {
    seq![
        crate::files::FileOpView::MakeDir(KEY_DIR@),
        crate::files::FileOpView::SetMode { path: KEY_DIR@, mode: 0o700 },
        crate::files::FileOpView::WriteSync { path: KEY_TPM_TMP_PATH@, mode: 0o600, data: blob },
        crate::files::FileOpView::Rename { from: KEY_TPM_TMP_PATH@, to: KEY_TPM_PATH@ },
    ]
}

/// The steps that save a sealed key and then remove the files in the clear.
pub open spec fn save_sealed_ops(blob: Seq<u8>) -> Seq<crate::files::FileOpView> {
    put_sealed_ops(blob) + delete_key_ops()
}

/// The steps that remove every file that holds the key.
pub open spec fn delete_all_ops() -> Seq<crate::files::FileOpView> {
    delete_key_ops().push(crate::files::FileOpView::Remove(KEY_TPM_PATH@))
}

fn in_key_dir() -> (r: Vec<FileOp>)
    ensures
        crate::files::ops_view(r@) == seq![
            crate::files::FileOpView::MakeDir(KEY_DIR@),
            crate::files::FileOpView::SetMode { path: KEY_DIR@, mode: 0o700 },
        ],
{
    let mut r: Vec<FileOp> = Vec::new();
    r.push(FileOp::MakeDir(KEY_DIR.to_owned()));
    r.push(FileOp::SetMode { path: KEY_DIR.to_owned(), mode: 0o700 });
    assert(crate::files::ops_view(r@) =~= seq![
        crate::files::FileOpView::MakeDir(KEY_DIR@),
        crate::files::FileOpView::SetMode { path: KEY_DIR@, mode: 0o700 },
    ]);
    r
}

/// The steps that save a key and its backup.
pub fn save_key(key: &[u8; 16]) -> (r: Vec<FileOp>)
    ensures
        crate::files::ops_view(r@) == save_key_ops(key@),
{
    let hex = key_hex(key);
    let mut data: Vec<u8> = hex.as_str().as_bytes_vec();
    data.push(10);
    assert(data@ == key_file_bytes(key@));
    let mut r = then_ops(in_key_dir(), replace_file(KEY_TMP_PATH, KEY_PATH, data));
    push_op(&mut r, FileOp::Copy { from: KEY_PATH.to_owned(), to: KEY_BAK_PATH.to_owned() });
    push_op(&mut r, FileOp::SetMode { path: KEY_BAK_PATH.to_owned(), mode: 0o400 });
    assert(crate::files::ops_view(r@) =~= save_key_ops(key@));
    r
}

fn shredding() -> (v: Vec<u8>)
    ensures
        v@ == shred_bytes(),
{
    let mut v: Vec<u8> = Vec::new();
    let mut i: usize = 0;
    while i < 33
        invariant
            0 <= i <= 33,
            v@ == Seq::new(i as nat, |k: int| 255u8),
        decreases 33 - i,
    {
        v.push(255);
        i = i + 1;
        assert(v@ =~= Seq::new(i as nat, |k: int| 255u8));
    }
    v
}

/// The steps that remove the files in the clear.
pub fn delete_key() -> (r: Vec<FileOp>)
    ensures
        crate::files::ops_view(r@) == delete_key_ops(),
{
    let mut r: Vec<FileOp> = Vec::new();
    r.push(FileOp::SetMode { path: KEY_PATH.to_owned(), mode: 0o600 });
    r.push(FileOp::Shred { path: KEY_PATH.to_owned(), data: shredding() });
    r.push(FileOp::Remove(KEY_PATH.to_owned()));
    r.push(FileOp::SetMode { path: KEY_BAK_PATH.to_owned(), mode: 0o600 });
    r.push(FileOp::Shred { path: KEY_BAK_PATH.to_owned(), data: shredding() });
    r.push(FileOp::Remove(KEY_BAK_PATH.to_owned()));
    assert(crate::files::ops_view(r@) =~= delete_key_ops());
    r
}

/// The steps that put a sealed key, as its file's bytes, on disk; and those that
/// then remove the files in the clear. The key is saved once the first are done:
/// a failure of the second is tolerated.
pub fn save_key_sealed(blob: Vec<u8>) -> (r: (Vec<FileOp>, Vec<FileOp>))
    ensures
        crate::files::ops_view(r.0@) == put_sealed_ops(blob@),
        crate::files::ops_view(r.1@) == delete_key_ops(),
        crate::files::ops_view(r.0@) + crate::files::ops_view(r.1@) == save_sealed_ops(blob@),
{
    let saved = then_ops(in_key_dir(), replace_file(KEY_TPM_TMP_PATH, KEY_TPM_PATH, blob));
    assert(crate::files::ops_view(saved@) =~= put_sealed_ops(blob@));
    (saved, delete_key())
}

/// The steps that remove the sealed key.
pub fn delete_sealed_key() -> (r: Vec<FileOp>)
    ensures
        crate::files::ops_view(r@) == seq![crate::files::FileOpView::Remove(KEY_TPM_PATH@)],
{
    let mut r: Vec<FileOp> = Vec::new();
    r.push(FileOp::Remove(KEY_TPM_PATH.to_owned()));
    assert(crate::files::ops_view(r@) =~= seq![crate::files::FileOpView::Remove(KEY_TPM_PATH@)]);
    r
}

/// The steps that remove every file that holds the key.
pub fn delete_all_keys() -> (r: Vec<FileOp>)
    ensures
        crate::files::ops_view(r@) == delete_all_ops(),
{
    let r = then_ops(delete_key(), delete_sealed_key());
    assert(crate::files::ops_view(r@) =~= delete_all_ops());
    r
}

/// The steps that withdraw the consent to pairing.
pub fn remove_allow_pair() -> (r: Vec<FileOp>)
    ensures
        crate::files::ops_view(r@) == seq![crate::files::FileOpView::Remove(ALLOW_PAIR_PATH@)],
{
    let mut r: Vec<FileOp> = Vec::new();
    r.push(FileOp::Remove(ALLOW_PAIR_PATH.to_owned()));
    assert(crate::files::ops_view(r@) =~= seq![crate::files::FileOpView::Remove(ALLOW_PAIR_PATH@)]);
    r
}

// ---------- laws ----------

proof fn lemma_paths_differ()
    ensures
        KEY_DIR@ != KEY_PATH@,
        KEY_DIR@ != KEY_TMP_PATH@,
        KEY_DIR@ != KEY_BAK_PATH@,
        KEY_DIR@ != KEY_TPM_PATH@,
        KEY_DIR@ != KEY_TPM_TMP_PATH@,
        KEY_PATH@ != KEY_TMP_PATH@,
        KEY_PATH@ != KEY_BAK_PATH@,
        KEY_PATH@ != KEY_TPM_PATH@,
        KEY_PATH@ != KEY_TPM_TMP_PATH@,
        KEY_TMP_PATH@ != KEY_BAK_PATH@,
        KEY_BAK_PATH@ != KEY_TPM_PATH@,
        KEY_BAK_PATH@ != KEY_TPM_TMP_PATH@,
        KEY_TPM_PATH@ != KEY_TPM_TMP_PATH@,
{
    reveal_strlit("/var/lib/r503d");
    reveal_strlit("/var/lib/r503d/key");
    reveal_strlit("/var/lib/r503d/key.tmp");
    reveal_strlit("/var/lib/r503d/key.bak");
    reveal_strlit("/var/lib/r503d/key.tpm");
    reveal_strlit("/var/lib/r503d/key.tpm.tmp");
    assert(KEY_DIR@.len() == 14);
    assert(KEY_PATH@.len() == 18);
    assert(KEY_TMP_PATH@.len() == 22);
    assert(KEY_BAK_PATH@.len() == 22);
    assert(KEY_TPM_PATH@.len() == 22);
    assert(KEY_TPM_TMP_PATH@.len() == 26);
    assert(KEY_TMP_PATH@[20] == 'm');
    assert(KEY_BAK_PATH@[20] == 'a');
    assert(KEY_TPM_PATH@[20] == 'p');
    assert(KEY_TPM_TMP_PATH@[20] == 'p');
}

/// A key that was saved is the key that is loaded, from the key file and from
/// its backup alike, and neither has more permissions than it should.
pub proof fn lemma_saved_key_is_loaded(d: crate::files::Disk, key: Seq<u8>)
    requires
        key.len() == 16,
    ensures
        ({
            let e = crate::files::apply_ops(d, save_key_ops(key), 6);
            &&& e.dom().contains(KEY_PATH@)
            &&& e.dom().contains(KEY_BAK_PATH@)
            &&& e[KEY_PATH@].data == key_file_bytes(key)
            &&& e[KEY_BAK_PATH@].data == key_file_bytes(key)
            &&& e[KEY_BAK_PATH@].mode == 0o400
            &&& !d.dom().contains(KEY_TMP_PATH@) ==> e[KEY_PATH@].mode == 0o600
        }),
        vstd::utf8::valid_utf8(key_file_bytes(key)),
        key_in_file(Some(vstd::utf8::decode_utf8(key_file_bytes(key)))) == Some(key),
{
    reveal_with_fuel(crate::files::apply_ops, 7);
    lemma_paths_differ();
    lemma_key_text_in_file(key);
}

proof fn lemma_key_text_in_file(key: Seq<u8>)
    requires
        key.len() == 16,
    ensures
        vstd::utf8::valid_utf8(key_file_bytes(key)),
        key_in_file(Some(vstd::utf8::decode_utf8(key_file_bytes(key)))) == Some(key),
{
    let t = crate::text::hex_text(key);
    let line = t.push('\n');
    let nl = seq!['\n'];
    assert(line =~= t + nl);
    crate::text::lemma_encode_concat(t, nl);
    crate::text::lemma_hex_round_trip(key);
    assert(vstd::utf8::is_ascii_chars(nl));
    vstd::utf8::is_ascii_chars_encode_utf8(nl);
    assert(vstd::utf8::encode_utf8(nl) =~= seq![10u8]);
    assert(vstd::utf8::encode_utf8(line) =~= key_file_bytes(key));
    vstd::utf8::encode_utf8_valid_utf8(line);
    vstd::utf8::encode_utf8_decode_utf8(line);
    assert(line[0] == t[0]);
    assert(48 <= t[0] as nat <= 102);
    assert(!crate::token::is_space(line[0]));
    assert(crate::token::space_len(line) == 0);
    assert(line.skip(0) =~= line);
    assert(crate::token::is_space(line.last()));
    assert(line.drop_last() =~= t);
    assert(48 <= t.last() as nat <= 102);
    assert(!crate::token::is_space(t.last()));
    assert(crate::token::trim_end(t) == t);
    assert(crate::token::trim_end(line) == crate::token::trim_end(t));
    lemma_key_round_trip(key);
}

/// A key that is saved sealed leaves no key in the clear, and the sealed key is
/// on disk before the first of them goes.
pub proof fn lemma_sealing_leaves_nothing_in_the_clear(d: crate::files::Disk, blob: Seq<u8>)
    ensures
        ({
            let e = crate::files::apply_ops(d, save_sealed_ops(blob), 10);
            &&& e.dom().contains(KEY_TPM_PATH@)
            &&& e[KEY_TPM_PATH@].data == blob
            &&& !e.dom().contains(KEY_PATH@)
            &&& !e.dom().contains(KEY_BAK_PATH@)
        }),
        forall|n: nat|
            n <= 10 && d.dom().contains(KEY_PATH@) && !(#[trigger] crate::files::apply_ops(
                d,
                save_sealed_ops(blob),
                n,
            )).dom().contains(KEY_PATH@) ==> crate::files::apply_ops(
                d,
                save_sealed_ops(blob),
                n,
            ).dom().contains(KEY_TPM_PATH@),
{
    reveal_with_fuel(crate::files::apply_ops, 11);
    lemma_paths_differ();
    let ops = save_sealed_ops(blob);
    assert(ops.len() == 10);
    assert(ops[4] == delete_key_ops()[0]);
    assert(ops[5] == delete_key_ops()[1]);
    assert(ops[6] == delete_key_ops()[2]);
    assert(ops[7] == delete_key_ops()[3]);
    assert(ops[8] == delete_key_ops()[4]);
    assert(ops[9] == delete_key_ops()[5]);
    assert forall|n: nat|
        n <= 10 && d.dom().contains(KEY_PATH@) && !(#[trigger] crate::files::apply_ops(
            d,
            ops,
            n,
        )).dom().contains(KEY_PATH@) implies crate::files::apply_ops(d, ops, n).dom().contains(
        KEY_TPM_PATH@,
    ) by {
        if n <= 4 {
            assert(n == 0 || n == 1 || n == 2 || n == 3 || n == 4);
        } else {
            assert(n == 5 || n == 6 || n == 7 || n == 8 || n == 9 || n == 10);
        }
    }
}

/// Once every key file is removed, none is left.
pub proof fn lemma_delete_all_leaves_no_key(d: crate::files::Disk)
    ensures
        ({
            let e = crate::files::apply_ops(d, delete_all_ops(), 7);
            &&& !e.dom().contains(KEY_PATH@)
            &&& !e.dom().contains(KEY_BAK_PATH@)
            &&& !e.dom().contains(KEY_TPM_PATH@)
        }),
{
    reveal_with_fuel(crate::files::apply_ops, 8);
    lemma_paths_differ();
}

proof fn lemma_first_non_hex(h: Seq<u8>)
    ensures
        first_non_hex(h) is None <==> forall|i: int|
            0 <= i < h.len() ==> crate::text::nybble_value(#[trigger] h[i]) is Some,
        first_non_hex(h) matches Some(c) ==> crate::text::nybble_value(c) is None && exists|i: int|
            {
                &&& 0 <= i < h.len()
                &&& #[trigger] h[i] == c
                &&& forall|k: int|
                    0 <= k < i ==> crate::text::nybble_value(#[trigger] h[k]) is Some
            },
    decreases h.len(),
{
    if h.len() > 0 {
        let t = h.drop_first();
        lemma_first_non_hex(t);
        if crate::text::nybble_value(h[0]) is Some {
            if first_non_hex(t) is None {
                assert forall|i: int| 0 <= i < h.len() implies crate::text::nybble_value(
                    #[trigger] h[i],
                ) is Some by {
                    if i > 0 {
                        assert(t[i - 1] == h[i]);
                    }
                }
            } else {
                let c = first_non_hex(t)->0;
                let i = choose|i: int|
                    {
                        &&& 0 <= i < t.len()
                        &&& #[trigger] t[i] == c
                        &&& forall|k: int|
                            0 <= k < i ==> crate::text::nybble_value(#[trigger] t[k]) is Some
                    };
                assert(h[i + 1] == c);
                assert forall|k: int| 0 <= k < i + 1 implies crate::text::nybble_value(
                    #[trigger] h[k],
                ) is Some by {
                    if k > 0 {
                        assert(t[k - 1] == h[k]);
                    }
                }
            }
        } else {
            assert(h[0] == first_non_hex(h)->0);
        }
    }
}

/// A text is read as a key exactly where it is 32 hexadecimal digits. Each byte
/// of the key is two of them, the high one first. Of a text that is none, the
/// length is told where it is wrong, and the first byte that is no digit
/// otherwise.
pub proof fn lemma_key_is_read_iff(s: Seq<char>)
    ensures
        ({
            let h = vstd::utf8::encode_utf8(s);
            let all = forall|i: int|
                0 <= i < h.len() ==> crate::text::nybble_value(#[trigger] h[i]) is Some;
            &&& parse_key_spec(s) is Ok <==> h.len() == 32 && all
            &&& parse_key_spec(s) matches Ok(k) ==> k.len() == 16 && forall|i: int|
                0 <= i < 16 ==> #[trigger] k[i] == 16 * crate::text::nybble_value(h[2 * i])->0
                    + crate::text::nybble_value(h[2 * i + 1])->0
            &&& h.len() != 32 ==> parse_key_spec(s) == Err::<Seq<u8>, _>(
                KeyErrorView::WrongLength(h.len()),
            )
            &&& h.len() == 32 && !all ==> (parse_key_spec(s) matches Err(KeyErrorView::NotHex(c))
                && crate::text::nybble_value(c) is None && exists|i: int|
                {
                    &&& 0 <= i < 32
                    &&& #[trigger] h[i] == c
                    &&& forall|k: int|
                        0 <= k < i ==> crate::text::nybble_value(#[trigger] h[k]) is Some
                })
        }),
{
    lemma_first_non_hex(vstd::utf8::encode_utf8(s));
}

/// A key file is trusted only where it is no link and root's own; and then exactly
/// where nobody but the owner has any permission, and, for the backup, nobody may
/// execute it.
pub proof fn lemma_trusted_key_files(f: FileFacts)
    ensures
        is_trusted_key_file(f, KEY_FORBIDDEN_BITS) <==> !f.is_symlink && f.uid == 0 && f.mode % 64
            == 0,
        is_trusted_key_file(f, BAK_FORBIDDEN_BITS) <==> !f.is_symlink && f.uid == 0 && f.mode % 128
            == 0,
{
    let m = f.mode;
    assert((m & 0o077u32 == 0) == (m % 64 == 0)) by (bit_vector);
    assert((m & 0o177u32 == 0) == (m % 128 == 0)) by (bit_vector);
}

/// The key file counts before its backup: the backup gives the key only where the
/// key file gives none. What a file holds is read without the white space around
/// it, and as a whole.
pub proof fn lemma_which_file_gives_the_key(
    live: Option<Seq<char>>,
    backup: Option<Seq<char>>,
    key: Seq<u8>,
)
    requires
        key.len() == 16,
    ensures
        key_in_file(live) is Some ==> plain_key(live, backup) == key_in_file(live),
        key_in_file(live) is None ==> plain_key(live, backup) == key_in_file(backup),
        key_in_file(None) is None,
        live matches Some(t) ==> (key_in_file(live) is Some <==> parse_key_spec(
            crate::token::trimmed(t),
        ) is Ok),
        live matches Some(t) ==> (key_in_file(live) matches Some(k) ==> parse_key_spec(
            crate::token::trimmed(t),
        ) == Ok::<_, KeyErrorView>(k)),
        key_in_file(Some(crate::text::hex_text(key))) == Some(key),
        plain_key(Some(crate::text::hex_text(key)), backup) == Some(key),
        plain_key(None, Some(crate::text::hex_text(key))) == Some(key),
{
    let t = crate::text::hex_text(key);
    crate::text::lemma_hex_round_trip(key);
    assert(48 <= t[0] as nat <= 102);
    assert(48 <= t.last() as nat <= 102);
    assert(!crate::token::is_space(t[0]));
    assert(!crate::token::is_space(t.last()));
    crate::token::lemma_trimmed(t);
    lemma_key_round_trip(key);
}

/// Before a key file in the clear is removed, every byte of it has been
/// overwritten; both are gone in the end, and nothing else is touched.
pub proof fn lemma_removed_keys_are_overwritten(
    d: crate::files::Disk,
    key: Seq<u8>,
    path: Seq<char>,
)
    requires
        key.len() == 16,
        d.dom().contains(KEY_PATH@) ==> d[KEY_PATH@].data == key_file_bytes(key),
        d.dom().contains(KEY_BAK_PATH@) ==> d[KEY_BAK_PATH@].data == key_file_bytes(key),
    ensures
        ({
            let two = crate::files::apply_ops(d, delete_key_ops(), 2);
            let five = crate::files::apply_ops(d, delete_key_ops(), 5);
            let e = crate::files::apply_ops(d, delete_key_ops(), 6);
            &&& delete_key_ops().len() == 6
            &&& d.dom().contains(KEY_PATH@) ==> two.dom().contains(KEY_PATH@) && forall|i: int|
                0 <= i < two[KEY_PATH@].data.len() ==> #[trigger] two[KEY_PATH@].data[i] == 255
            &&& d.dom().contains(KEY_BAK_PATH@) ==> five.dom().contains(KEY_BAK_PATH@)
                && forall|i: int|
                0 <= i < five[KEY_BAK_PATH@].data.len() ==> #[trigger] five[KEY_BAK_PATH@].data[i]
                    == 255
            &&& !e.dom().contains(KEY_PATH@)
            &&& !e.dom().contains(KEY_BAK_PATH@)
            &&& path != KEY_PATH@ && path != KEY_BAK_PATH@ ==> {
                &&& e.dom().contains(path) <==> d.dom().contains(path)
                &&& d.dom().contains(path) ==> e[path] == d[path]
            }
        }),
{
    reveal_with_fuel(crate::files::apply_ops, 7);
    lemma_paths_differ();
    crate::text::lemma_hex_round_trip(key);
    assert(key_file_bytes(key).len() == 33);
}

/// Saving a key, in the clear or sealed, touches no file but those of the key,
/// leaves none of those it wrote aside, and gives nobody but the owner any
/// permission: the directory is closed to others before anything is written.
pub proof fn lemma_saving_a_key(
    d: crate::files::Disk,
    key: Seq<u8>,
    blob: Seq<u8>,
    path: Seq<char>,
    i: int,
)
    requires
        path != KEY_PATH@,
        path != KEY_BAK_PATH@,
        path != KEY_TMP_PATH@,
        path != KEY_TPM_PATH@,
        path != KEY_TPM_TMP_PATH@,
        path != KEY_DIR@,
    ensures
        ({
            let e = crate::files::apply_ops(d, save_key_ops(key), 6);
            &&& save_key_ops(key).len() == 6
            &&& e.dom().contains(path) <==> d.dom().contains(path)
            &&& d.dom().contains(path) ==> e[path] == d[path]
            &&& !e.dom().contains(KEY_TMP_PATH@)
            &&& e.dom().contains(KEY_TPM_PATH@) <==> d.dom().contains(KEY_TPM_PATH@)
        }),
        ({
            let e = crate::files::apply_ops(d, put_sealed_ops(blob), 4);
            &&& put_sealed_ops(blob).len() == 4
            &&& e.dom().contains(path) <==> d.dom().contains(path)
            &&& d.dom().contains(path) ==> e[path] == d[path]
            &&& !e.dom().contains(KEY_TPM_TMP_PATH@)
            &&& e.dom().contains(KEY_TPM_PATH@)
            &&& e[KEY_TPM_PATH@].data == blob
            &&& !d.dom().contains(KEY_TPM_TMP_PATH@) ==> e[KEY_TPM_PATH@].mode == 0o600
            &&& e.dom().contains(KEY_PATH@) <==> d.dom().contains(KEY_PATH@)
            &&& d.dom().contains(KEY_PATH@) ==> e[KEY_PATH@] == d[KEY_PATH@]
        }),
        0 <= i < 6 && save_key_ops(key)[i] is WriteSync ==> save_key_ops(key).take(i).contains(
            crate::files::FileOpView::SetMode { path: KEY_DIR@, mode: 0o700 },
        ),
        0 <= i < 4 && put_sealed_ops(blob)[i] is WriteSync ==> put_sealed_ops(blob).take(
            i,
        ).contains(crate::files::FileOpView::SetMode { path: KEY_DIR@, mode: 0o700 }),
{
    reveal_with_fuel(crate::files::apply_ops, 7);
    lemma_paths_differ();
    reveal_strlit("/var/lib/r503d/key.tmp");
    reveal_strlit("/var/lib/r503d/key.tpm");
    assert(KEY_TMP_PATH@[20] == 'm');
    assert(KEY_TPM_PATH@[20] == 'p');
    if 0 <= i < 6 && save_key_ops(key)[i] is WriteSync {
        assert(save_key_ops(key).take(i)[1] == save_key_ops(key)[1]);
    }
    if 0 <= i < 4 && put_sealed_ops(blob)[i] is WriteSync {
        assert(put_sealed_ops(blob).take(i)[1] == put_sealed_ops(blob)[1]);
    }
}

/// What is wrong with a key is told with the reason, the length or the byte.
pub proof fn lemma_key_errors_tell_why(why: Seq<char>, n: nat, c: u8, shown: Seq<char>)
    ensures
        ({
            let t = key_error_text(KeyErrorView::Random(why), shown);
            t.skip(t.len() - why.len()) == why
        }),
        ({
            let t = key_error_text(KeyErrorView::WrongLength(n), shown);
            let d = crate::text::decimal(n);
            t.skip(t.len() - d.len()) == d
        }),
        ({
            let t = key_error_text(KeyErrorView::NotHex(c), shown);
            t.skip(t.len() - shown.len()) == shown
        }),
{
    let a = key_error_text(KeyErrorView::Random(why), shown);
    assert(a.skip(a.len() - why.len()) =~= why);
    let b = key_error_text(KeyErrorView::WrongLength(n), shown);
    let d = crate::text::decimal(n);
    assert(b.skip(b.len() - d.len()) =~= d);
    let e = key_error_text(KeyErrorView::NotHex(c), shown);
    assert(e.skip(e.len() - shown.len()) =~= shown);
}

} // verus!
