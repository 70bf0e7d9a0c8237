//! The file format of a key sealed to the TPM, and the choice of the platform
//! configuration registers (PCRs) that it is sealed to.
//!
//! A file starts with a magic of eight bytes. Format one is for keys sealed to
//! PCR 7 alone. Format two holds the number of PCRs and the PCRs next. Then
//! come the public and the private part, each behind its length as four bytes,
//! least significant first.

use vstd::prelude::*;
use vstd::string::*;
use crate::bytes::{push_u32_le, read_u32_le};
use crate::text::{parse_number, push_decimal, push_hex};
use crate::token::{chars_of, find_char_in, trim};

verus! {

/// The TPM's resource-managed device.
pub const TPM_DEVICE: &'static str = "/dev/tpmrm0";

/// Most bytes that a part of a sealed key may have.
pub const MAX_FIELD: usize = 65_536;

/// The magic of format one.
pub const FILE_MAGIC_V1: [u8; 8] = [82, 53, 48, 51, 84, 80, 77, 1];

/// The magic of format two.
pub const FILE_MAGIC_V2: [u8; 8] = [82, 53, 48, 51, 84, 80, 77, 2];

/// The PCRs of format one, and those sealed to by default.
pub const DEFAULT_PCRS: [u8; 1] = [7];

// ---------- PCR lists ----------

/// What is wrong with a list of PCRs.
#[derive(Debug)]
pub enum PcrError {
    /// A piece of the text is no number of eight bits.
    NotANumber(String),
    /// The text names no PCR.
    ListEmpty,
    /// There is no PCR.
    Empty,
    /// There are more PCRs than the bank has.
    TooLong(usize),
    /// The bank has no such PCR.
    OutOfRange(u8),
    /// A PCR is named twice.
    Duplicates(Vec<u8>),
}

/// A [`PcrError`] as mathematics.
pub enum PcrErrorView {
    NotANumber(Seq<char>),
    ListEmpty,
    Empty,
    TooLong(nat),
    OutOfRange(u8),
    Duplicates(Seq<u8>),
}

impl View for PcrError {
    type V = PcrErrorView;

    open spec fn view(&self) -> PcrErrorView {
        match *self {
            PcrError::NotANumber(s) => PcrErrorView::NotANumber(s@),
            PcrError::ListEmpty => PcrErrorView::ListEmpty,
            PcrError::Empty => PcrErrorView::Empty,
            PcrError::TooLong(n) => PcrErrorView::TooLong(n as nat),
            PcrError::OutOfRange(p) => PcrErrorView::OutOfRange(p),
            PcrError::Duplicates(v) => PcrErrorView::Duplicates(v@),
        }
    }
}

/// Numbers as a list in square brackets.
pub open spec fn list_text(v: Seq<u8>) -> Seq<char> {
    "["@ + list_body_text(v) + "]"@
}

/// Numbers with commas between them.
pub open spec fn list_body_text(v: Seq<u8>) -> Seq<char>
    decreases v.len(),
{
    if v.len() == 0 {
        Seq::empty()
    } else if v.len() == 1 {
        crate::text::decimal(v[0] as nat)
    } else {
        list_body_text(v.drop_last()) + ", "@ + crate::text::decimal(v.last() as nat)
    }
}

/// The error in words; `shown` is how the piece of text that is no number is
/// shown.
pub open spec fn pcr_error_text(e: PcrErrorView, shown: Seq<char>) -> Seq<char> {
    match e {
        PcrErrorView::NotANumber(_) => "PCR index "@ + shown + " is not a u8"@,
        PcrErrorView::ListEmpty =>
            "PCR list is empty \u{2014} must specify at least one (e.g. \"7\")"@,
        PcrErrorView::Empty => "PCR list cannot be empty"@,
        PcrErrorView::TooLong(n) => "PCR list too long ("@ + crate::text::decimal(n)
            + " > 24 slots in the SHA256 bank)"@,
        PcrErrorView::OutOfRange(p) => "PCR index "@ + crate::text::decimal(p as nat)
            + " out of range (0..=23 in the SHA256 bank)"@,
        PcrErrorView::Duplicates(v) => "PCR list contains duplicates: "@ + list_text(v),
    }
}

/// Appends numbers as a list in square brackets.
pub fn push_list(out: &mut String, v: &[u8])
    ensures
        final(out)@ == old(out)@ + list_text(v@),
{
    out.append("[");
    let ghost base = out@;
    let mut i: usize = 0;
    while i < v.len()
        invariant
            0 <= i <= v@.len(),
            v.len() == v@.len(),
            out@ == base + list_body_text(v@.take(i as int)),
        decreases v@.len() - i,
    {
        if i > 0 {
            out.append(", ");
        }
        push_decimal(out, v[i] as u64);
        proof {
            let t = v@.take(i + 1);
            assert(t.drop_last() =~= v@.take(i as int));
            assert(t.last() == v@[i as int]);
            assert(out@ =~= base + list_body_text(t));
        }
        i = i + 1;
    }
    assert(v@.take(i as int) =~= v@);
    out.append("]");
    assert(out@ =~= old(out)@ + list_text(v@));
}

impl PcrError {
    /// The error in words; `shown` is how the piece of text that is no number
    /// is shown.
    pub fn message(&self, shown: &str) -> (s: String)
        ensures
            s@ == pcr_error_text(self@, shown@),
    {
        match self {
            PcrError::NotANumber(_) => {
                let mut s = "PCR index ".to_owned();
                s.append(shown);
                s.append(" is not a u8");
                s
            },
            PcrError::ListEmpty =>
                "PCR list is empty \u{2014} must specify at least one (e.g. \"7\")".to_owned(),
            PcrError::Empty => "PCR list cannot be empty".to_owned(),
            PcrError::TooLong(n) => {
                let mut s = "PCR list too long (".to_owned();
                push_decimal(&mut s, *n as u64);
                s.append(" > 24 slots in the SHA256 bank)");
                s
            },
            PcrError::OutOfRange(p) => {
                let mut s = "PCR index ".to_owned();
                push_decimal(&mut s, *p as u64);
                s.append(" out of range (0..=23 in the SHA256 bank)");
                s
            },
            PcrError::Duplicates(v) => {
                let mut s = "PCR list contains duplicates: ".to_owned();
                push_list(&mut s, v.as_slice());
                s
            },
        }
    }
}

/// The first number that names no PCR.
pub open spec fn first_out_of_range(pcrs: Seq<u8>) -> Option<u8>
    decreases pcrs.len(),
{
    if pcrs.len() == 0 {
        None
    } else if pcrs[0] > 23 {
        Some(pcrs[0])
    } else {
        first_out_of_range(pcrs.drop_first())
    }
}

/// What is wrong with a list of PCRs, if anything. The bank has 24 of them,
/// numbered from zero.
pub open spec fn pcrs_problem(pcrs: Seq<u8>) -> Option<PcrErrorView> {
    if pcrs.len() == 0 {
        Some(PcrErrorView::Empty)
    } else if pcrs.len() > 24 {
        Some(PcrErrorView::TooLong(pcrs.len()))
    } else {
        match first_out_of_range(pcrs) {
            Some(p) => Some(PcrErrorView::OutOfRange(p)),
            None => if !pcrs.no_duplicates() {
                Some(PcrErrorView::Duplicates(pcrs))
            } else {
                None
            },
        }
    }
}

fn copy_bytes(b: &[u8]) -> (v: Vec<u8>)
    ensures
        v@ == b@,
{
    vstd::slice::slice_to_vec(b)
}

/// Checks a list of PCRs.
pub fn validate_pcrs(pcrs: &[u8]) -> (r: Result<(), PcrError>)
    ensures
        match r {
            Ok(_) => pcrs_problem(pcrs@) is None,
            Err(e) => pcrs_problem(pcrs@) == Some(e@),
        },
{
    if pcrs.len() == 0 {
        return Err(PcrError::Empty);
    }
    if pcrs.len() > 24 {
        return Err(PcrError::TooLong(pcrs.len()));
    }
    let mut i: usize = 0;
    assert(pcrs@.skip(0) =~= pcrs@);
    while i < pcrs.len()
        invariant
            0 <= i <= pcrs@.len(),
            pcrs.len() == pcrs@.len(),
            0 < pcrs@.len() <= 24,
            first_out_of_range(pcrs@) == first_out_of_range(pcrs@.skip(i as int)),
        decreases pcrs@.len() - i,
    {
        let ghost rest = pcrs@.skip(i as int);
        assert(rest[0] == pcrs@[i as int]);
        if pcrs[i] > 23 {
            return Err(PcrError::OutOfRange(pcrs[i]));
        }
        assert(rest.drop_first() =~= pcrs@.skip(i + 1));
        i = i + 1;
    }
    assert(first_out_of_range(pcrs@) is None);
    let mut a: usize = 0;
    while a < pcrs.len()
        invariant
            0 <= a <= pcrs@.len(),
            pcrs.len() == pcrs@.len(),
            0 < pcrs@.len() <= 24,
            first_out_of_range(pcrs@) is None,
            forall|x: int, y: int| 0 <= x < y < a ==> pcrs@[x] != pcrs@[y],
        decreases pcrs@.len() - a,
    {
        let mut b: usize = 0;
        while b < a
            invariant
                0 <= b <= a < pcrs@.len(),
                pcrs.len() == pcrs@.len(),
                0 < pcrs@.len() <= 24,
                first_out_of_range(pcrs@) is None,
                forall|x: int| 0 <= x < b ==> pcrs@[x] != pcrs@[a as int],
            decreases a - b,
        {
            if pcrs[b] == pcrs[a] {
                assert(!pcrs@.no_duplicates());
                return Err(PcrError::Duplicates(copy_bytes(pcrs)));
            }
            b = b + 1;
        }
        a = a + 1;
    }
    assert(pcrs@.no_duplicates());
    Ok(())
}

/// The numbers that pieces of text write, blank pieces left out; or the first
/// piece that writes none.
pub open spec fn piece_values(ps: Seq<Seq<char>>) -> Result<Seq<u8>, Seq<char>>
    decreases ps.len(),
{
    if ps.len() == 0 {
        Ok(Seq::empty())
    } else {
        match piece_values(ps.drop_last()) {
            Err(t) => Err(t),
            Ok(v) => {
                let t = crate::token::trimmed(ps.last());
                if t.len() == 0 {
                    Ok(v)
                } else {
                    match crate::text::number_value(vstd::utf8::encode_utf8(t), 255) {
                        None => Err(t),
                        Some(n) => Ok(v.push(n as u8)),
                    }
                }
            },
        }
    }
}

/// The PCRs that a comma-separated list names.
pub open spec fn parse_pcr_list_spec(s: Seq<char>) -> Result<Seq<u8>, PcrErrorView> {
    match piece_values(crate::token::split_on(s, ',')) {
        Err(t) => Err(PcrErrorView::NotANumber(t)),
        Ok(v) => if v.len() == 0 {
            Err(PcrErrorView::ListEmpty)
        } else {
            match pcrs_problem(v) {
                Some(e) => Err(e),
                None => Ok(v),
            }
        },
    }
}

proof fn lemma_piece_values_error(a: Seq<Seq<char>>, b: Seq<Seq<char>>)
    requires
        piece_values(a) is Err,
    ensures
        piece_values(a + b) == piece_values(a),
    decreases b.len(),
{
    if b.len() == 0 {
        assert(a + b =~= a);
    } else {
        assert((a + b).drop_last() =~= a + b.drop_last());
        lemma_piece_values_error(a, b.drop_last());
    }
}

/// Reads a comma-separated list of PCRs.
pub fn parse_pcr_list(s: &str) -> (r: Result<Vec<u8>, PcrError>)
    ensures
        match r {
            Ok(v) => parse_pcr_list_spec(s@) == Ok::<_, PcrErrorView>(v@),
            Err(e) => parse_pcr_list_spec(s@) == Err::<Seq<u8>, _>(e@),
        },
{
    let v = chars_of(s);
    let mut out: Vec<u8> = Vec::new();
    let mut i: usize = 0;
    let mut more = true;
    let ghost pieces = crate::token::split_on(s@, ',');
    let ghost mut done: Seq<Seq<char>> = Seq::empty();
    proof {
        assert(v@.skip(0) =~= s@);
        assert(done + pieces =~= pieces);
    }
    while more
        invariant
            0 <= i <= v@.len(),
            v@ == s@,
            pieces == crate::token::split_on(s@, ','),
            pieces == if more {
                done + crate::token::split_on(v@.skip(i as int), ',')
            } else {
                done
            },
            piece_values(done) == Ok::<_, Seq<char>>(out@),
        decreases v@.len() - i + if more { 1int } else { 0int },
    {
        let ghost rest = v@.skip(i as int);
        assert(v@.subrange(i as int, v@.len() as int) =~= rest);
        let e: usize = find_char_in(&v, i, v.len(), ',');
        let piece = s.substring_char(i, e);
        assert(piece@ =~= rest.take(e - i));
        let t = trim(piece);
        let ghost next = done.push(piece@);
        proof {
            assert(next.drop_last() =~= done);
            if e < v@.len() {
                assert(rest.skip(e - i + 1) =~= v@.skip(e + 1));
                assert(pieces =~= next + crate::token::split_on(v@.skip(e + 1), ','));
            } else {
                assert(rest.take(e - i) =~= rest);
                assert(pieces =~= next);
                assert(pieces =~= next + Seq::<Seq<char>>::empty());
            }
        }
        if t.unicode_len() > 0 {
            match parse_number(t.as_bytes(), 255) {
                Some(n) => {
                    out.push(n as u8);
                },
                None => {
                    proof {
                        if e < v@.len() {
                            lemma_piece_values_error(
                                next,
                                crate::token::split_on(v@.skip(e + 1), ','),
                            );
                        }
                    }
                    return Err(PcrError::NotANumber(t.to_owned()));
                },
            }
        }
        proof {
            done = next;
        }
        if e < v.len() {
            i = e + 1;
        } else {
            more = false;
        }
    }
    if out.len() == 0 {
        return Err(PcrError::ListEmpty);
    }
    match validate_pcrs(out.as_slice()) {
        Ok(_) => Ok(out),
        Err(e) => Err(e),
    }
}

/// A list that is accepted names between one and 24 PCRs of the bank, none
/// twice.
pub proof fn lemma_pcr_list_is_valid(s: Seq<char>, v: Seq<u8>)
    requires
        parse_pcr_list_spec(s) == Ok::<_, PcrErrorView>(v),
    ensures
        1 <= v.len() <= 24,
        forall|i: int| 0 <= i < v.len() ==> #[trigger] v[i] <= 23,
        v.no_duplicates(),
{
    lemma_all_in_range(v);
}

/// The numbers of a list in decimal, with commas between them.
pub open spec fn pcr_list_text(v: Seq<u8>) -> Seq<char>
    decreases v.len(),
{
    if v.len() == 0 {
        Seq::empty()
    } else if v.len() == 1 {
        crate::text::decimal(v[0] as nat)
    } else {
        crate::text::decimal(v[0] as nat) + seq![','] + pcr_list_text(v.drop_first())
    }
}

/// The numbers of a list, each in decimal.
spec fn decimals(v: Seq<u8>) -> Seq<Seq<char>> {
    Seq::new(v.len(), |i: int| crate::text::decimal(v[i] as nat))
}

proof fn lemma_find_char_after(a: Seq<char>, rest: Seq<char>, c: char)
    requires
        forall|i: int| 0 <= i < a.len() ==> #[trigger] a[i] != c,
    ensures
        crate::token::find_char(a + rest, c) == a.len() + crate::token::find_char(rest, c),
    decreases a.len(),
{
    if a.len() == 0 {
        assert(a + rest =~= rest);
    } else {
        let s = a + rest;
        assert(s[0] == a[0]);
        assert(s.drop_first() =~= a.drop_first() + rest);
        assert forall|i: int| 0 <= i < a.drop_first().len() implies #[trigger] a.drop_first()[i]
            != c by {
            assert(a.drop_first()[i] == a[i + 1]);
        }
        lemma_find_char_after(a.drop_first(), rest, c);
    }
}

proof fn lemma_list_text_splits(v: Seq<u8>)
    requires
        v.len() > 0,
    ensures
        crate::token::split_on(pcr_list_text(v), ',') == decimals(v),
    decreases v.len(),
{
    let d = crate::text::decimal(v[0] as nat);
    crate::text::lemma_decimal_is_digits(v[0] as nat);
    assert forall|i: int| 0 <= i < d.len() implies #[trigger] d[i] != ',' by {
        assert(48 <= d[i] as nat <= 57);
    }
    let t = pcr_list_text(v);
    if v.len() == 1 {
        lemma_find_char_after(d, Seq::empty(), ',');
        assert(d + Seq::<char>::empty() =~= d);
        assert(crate::token::split_on(t, ',') =~= decimals(v));
    } else {
        let rest = pcr_list_text(v.drop_first());
        lemma_find_char_after(d, seq![','] + rest, ',');
        assert(t =~= d + (seq![','] + rest));
        assert((seq![','] + rest)[0] == ',');
        assert(t.take(d.len() as int) =~= d);
        assert(t.skip(d.len() as int + 1) =~= rest);
        lemma_list_text_splits(v.drop_first());
        assert(crate::token::split_on(t, ',') =~= decimals(v));
    }
}

proof fn lemma_decimals_read_back(v: Seq<u8>)
    ensures
        piece_values(decimals(v)) == Ok::<_, Seq<char>>(v),
    decreases v.len(),
{
    if v.len() == 0 {
        assert(v =~= Seq::empty());
    } else {
        lemma_decimals_read_back(v.drop_last());
        assert(decimals(v).drop_last() =~= decimals(v.drop_last()));
        let d = crate::text::decimal(v.last() as nat);
        crate::text::lemma_decimal_is_digits(v.last() as nat);
        assert(48 <= d[0] as nat <= 57);
        assert(48 <= d.last() as nat <= 57);
        assert(!crate::token::is_space(d[0]) && !crate::token::is_space(d.last()));
        assert(crate::token::space_len(d) == 0);
        assert(d.skip(0) =~= d);
        assert(crate::token::trimmed(d) == d);
        crate::text::lemma_number_of_decimal(v.last() as nat, 255);
        assert(v.drop_last().push(v.last()) =~= v);
    }
}

/// The numbers of a valid list, with commas between them, read back as that
/// list.
pub proof fn lemma_pcr_list_reads_back(v: Seq<u8>)
    requires
        pcrs_problem(v) is None,
    ensures
        parse_pcr_list_spec(pcr_list_text(v)) == Ok::<_, PcrErrorView>(v),
{
    lemma_list_text_splits(v);
    lemma_decimals_read_back(v);
}

proof fn lemma_all_in_range(v: Seq<u8>)
    requires
        first_out_of_range(v) is None,
    ensures
        forall|i: int| 0 <= i < v.len() ==> #[trigger] v[i] <= 23,
    decreases v.len(),
{
    if v.len() > 0 {
        lemma_all_in_range(v.drop_first());
        assert forall|i: int| 0 <= i < v.len() implies #[trigger] v[i] <= 23 by {
            if i > 0 {
                assert(v.drop_first()[i - 1] == v[i]);
            }
        }
    }
}

// ---------- sealed keys as files ----------

/// What is wrong with a file that should hold a sealed key.
#[derive(Debug)]
pub enum BlobError {
    /// The file is shorter than any such file.
    TooShort(usize),
    /// The number of PCRs is none or too many.
    BadPcrCount(u8),
    /// The list of PCRs goes beyond the end.
    PcrListTruncated,
    /// The list of PCRs is no such list.
    Pcrs(PcrError),
    /// The file starts with neither magic.
    MagicMismatch,
    /// The public part says that it is larger than allowed.
    PubTooLarge(usize),
    /// The public part goes beyond the end.
    PubTruncated,
    /// The private part says that it is larger than allowed.
    PrivTooLarge(usize),
    /// The private part does not end where the file ends.
    PrivLengthMismatch { expected: usize, has: usize },
}

/// A [`BlobError`] as mathematics.
pub enum BlobErrorView {
    TooShort(nat),
    BadPcrCount(u8),
    PcrListTruncated,
    Pcrs(PcrErrorView),
    MagicMismatch,
    PubTooLarge(nat),
    PubTruncated,
    PrivTooLarge(nat),
    PrivLengthMismatch { expected: nat, has: nat },
}

impl View for BlobError {
    type V = BlobErrorView;

    open spec fn view(&self) -> BlobErrorView {
        match *self {
            BlobError::TooShort(n) => BlobErrorView::TooShort(n as nat),
            BlobError::BadPcrCount(n) => BlobErrorView::BadPcrCount(n),
            BlobError::PcrListTruncated => BlobErrorView::PcrListTruncated,
            BlobError::Pcrs(e) => BlobErrorView::Pcrs(e@),
            BlobError::MagicMismatch => BlobErrorView::MagicMismatch,
            BlobError::PubTooLarge(n) => BlobErrorView::PubTooLarge(n as nat),
            BlobError::PubTruncated => BlobErrorView::PubTruncated,
            BlobError::PrivTooLarge(n) => BlobErrorView::PrivTooLarge(n as nat),
            BlobError::PrivLengthMismatch { expected, has } => BlobErrorView::PrivLengthMismatch {
                expected: expected as nat,
                has: has as nat,
            },
        }
    }
}

/// The error in words.
pub open spec fn blob_error_text(e: BlobErrorView) -> Seq<char> {
    match e {
        BlobErrorView::TooShort(n) => "sealed blob too short ("@ + crate::text::decimal(n)
            + " bytes)"@,
        BlobErrorView::BadPcrCount(n) => "v2 sealed blob has invalid pcr_count="@
            + crate::text::decimal(n as nat),
        BlobErrorView::PcrListTruncated => "v2 sealed blob truncated in pcr_list"@,
        BlobErrorView::Pcrs(p) => pcr_error_text(p, Seq::empty()),
        BlobErrorView::MagicMismatch =>
            "sealed blob magic mismatch \u{2014} file isn't a key.tpm produced by this daemon"@,
        BlobErrorView::PubTooLarge(n) => "sealed blob pub field too large ("@
            + crate::text::decimal(n) + " > 65536)"@,
        BlobErrorView::PubTruncated => "sealed blob truncated (pub field)"@,
        BlobErrorView::PrivTooLarge(n) => "sealed blob priv field too large ("@
            + crate::text::decimal(n) + " > 65536)"@,
        BlobErrorView::PrivLengthMismatch { expected, has } =>
            "sealed blob length mismatch (priv field): expected "@ + crate::text::decimal(expected)
            + " more bytes, blob has "@ + crate::text::decimal(has),
    }
}

fn with_number(before: &str, n: u64, after: &str) -> (s: String)
    ensures
        s@ == before@ + crate::text::decimal(n as nat) + after@,
{
    let mut s = before.to_owned();
    push_decimal(&mut s, n);
    s.append(after);
    s
}

impl BlobError {
    /// The error in words.
    pub fn message(&self) -> (s: String)
        ensures
            s@ == blob_error_text(self@),
    {
        match self {
            BlobError::TooShort(n) => with_number("sealed blob too short (", *n as u64, " bytes)"),
            BlobError::BadPcrCount(n) => {
                let mut s = "v2 sealed blob has invalid pcr_count=".to_owned();
                push_decimal(&mut s, *n as u64);
                s
            },
            BlobError::PcrListTruncated => "v2 sealed blob truncated in pcr_list".to_owned(),
            BlobError::Pcrs(e) => {
                proof {
                    reveal_strlit("");
                    assert(""@ =~= Seq::<char>::empty());
                }
                e.message("")
            },
            BlobError::MagicMismatch =>
                "sealed blob magic mismatch \u{2014} file isn't a key.tpm produced by this daemon".to_owned(),
            BlobError::PubTooLarge(n) => with_number(
                "sealed blob pub field too large (",
                *n as u64,
                " > 65536)",
            ),
            BlobError::PubTruncated => "sealed blob truncated (pub field)".to_owned(),
            BlobError::PrivTooLarge(n) => with_number(
                "sealed blob priv field too large (",
                *n as u64,
                " > 65536)",
            ),
            BlobError::PrivLengthMismatch { expected, has } => {
                let mut s = with_number(
                    "sealed blob length mismatch (priv field): expected ",
                    *expected as u64,
                    " more bytes, blob has ",
                );
                push_decimal(&mut s, *has as u64);
                s
            },
        }
    }
}

/// The PCRs and the two parts of a sealed key.
pub struct BlobParts {
    pub pcrs: Seq<u8>,
    pub public: Seq<u8>,
    pub private: Seq<u8>,
}

/// What a file starts with: its magic, and in format two the PCRs.
pub open spec fn blob_head(pcrs: Seq<u8>) -> Seq<u8> {
    if pcrs == DEFAULT_PCRS@ {
        FILE_MAGIC_V1@
    } else {
        FILE_MAGIC_V2@ + seq![(pcrs.len() % 256) as u8] + pcrs
    }
}

/// A part behind its length.
pub open spec fn blob_field(b: Seq<u8>) -> Seq<u8> {
    crate::bytes::le_bytes(b.len(), 4) + b
}

/// The file of a sealed key.
pub open spec fn blob_bytes(p: BlobParts) -> Seq<u8> {
    blob_head(p.pcrs) + blob_field(p.public) + blob_field(p.private)
}

/// The PCRs that a file names, and where the parts start.
pub open spec fn parse_head(b: Seq<u8>) -> Result<(Seq<u8>, int), BlobErrorView> {
    if b.len() < 16 {
        Err(BlobErrorView::TooShort(b.len()))
    } else if b.take(8) == FILE_MAGIC_V1@ {
        Ok((DEFAULT_PCRS@, 8))
    } else if b.take(8) == FILE_MAGIC_V2@ {
        let n = b[8] as int;
        if n == 0 || n > 24 {
            Err(BlobErrorView::BadPcrCount(b[8]))
        } else if 9 + n > b.len() {
            Err(BlobErrorView::PcrListTruncated)
        } else {
            match pcrs_problem(b.subrange(9, 9 + n)) {
                Some(e) => Err(BlobErrorView::Pcrs(e)),
                None => Ok((b.subrange(9, 9 + n), 9 + n)),
            }
        }
    } else {
        Err(BlobErrorView::MagicMismatch)
    }
}

/// What a file holds.
pub open spec fn parse_blob(b: Seq<u8>) -> Result<BlobParts, BlobErrorView> {
    match parse_head(b) {
        Err(e) => Err(e),
        Ok((pcrs, off)) => if off + 4 > b.len() {
            Err(BlobErrorView::PubTruncated)
        } else {
            let publen = crate::bytes::le_value(b.subrange(off, off + 4));
            let mid = off + 4 + publen;
            if publen > MAX_FIELD {
                Err(BlobErrorView::PubTooLarge(publen))
            } else if mid + 4 > b.len() {
                Err(BlobErrorView::PubTruncated)
            } else {
                let privlen = crate::bytes::le_value(b.subrange(mid, mid + 4));
                if privlen > MAX_FIELD {
                    Err(BlobErrorView::PrivTooLarge(privlen))
                } else if mid + 4 + privlen != b.len() {
                    Err(
                        BlobErrorView::PrivLengthMismatch {
                            expected: privlen,
                            has: (b.len() - (mid + 4)) as nat,
                        },
                    )
                } else {
                    Ok(
                        BlobParts {
                            pcrs,
                            public: b.subrange(off + 4, mid),
                            private: b.subrange(mid + 4, b.len() as int),
                        },
                    )
                }
            }
        },
    }
}

fn append_bytes(out: &mut Vec<u8>, b: &[u8])
    ensures
        final(out)@ == old(out)@ + b@,
{
    let mut i: usize = 0;
    while i < b.len()
        invariant
            0 <= i <= b@.len(),
            b.len() == b@.len(),
            out@ == old(out)@ + b@.take(i as int),
        decreases b@.len() - i,
    {
        out.push(b[i]);
        i = i + 1;
        assert(out@ =~= old(out)@ + b@.take(i as int));
    }
    assert(b@.take(i as int) =~= b@);
}

fn same_bytes(a: &[u8], b: &[u8]) -> (r: bool)
    ensures
        r == (a@ == b@),
{
    if a.len() != b.len() {
        return false;
    }
    let mut i: usize = 0;
    while i < a.len()
        invariant
            0 <= i <= a@.len(),
            a.len() == a@.len(),
            a@.len() == b@.len(),
            forall|k: int| 0 <= k < i ==> a@[k] == b@[k],
        decreases a@.len() - i,
    {
        if a[i] != b[i] {
            return false;
        }
        i = i + 1;
    }
    assert(a@ =~= b@);
    true
}

/// Writes the file of a sealed key. Keys sealed to PCR 7 alone keep to format
/// one.
pub fn serialize_blob(pcrs: &[u8], pub_bytes: &[u8], priv_bytes: &[u8]) -> (out: Vec<u8>)
    ensures
        out@ == blob_bytes(
            BlobParts { pcrs: pcrs@, public: pub_bytes@, private: priv_bytes@ },
        ),
{
    let mut out: Vec<u8> = Vec::new();
    if same_bytes(pcrs, &DEFAULT_PCRS) {
        append_bytes(&mut out, &FILE_MAGIC_V1);
    } else {
        append_bytes(&mut out, &FILE_MAGIC_V2);
        out.push((pcrs.len() % 256) as u8);
        append_bytes(&mut out, pcrs);
    }
    assert(out@ =~= blob_head(pcrs@));
    push_u32_le(&mut out, pub_bytes.len() as u64);
    append_bytes(&mut out, pub_bytes);
    assert(out@ =~= blob_head(pcrs@) + blob_field(pub_bytes@));
    push_u32_le(&mut out, priv_bytes.len() as u64);
    append_bytes(&mut out, priv_bytes);
    assert(out@ =~= blob_head(pcrs@) + blob_field(pub_bytes@) + blob_field(priv_bytes@));
    out
}

fn read_head(blob: &[u8]) -> (r: Result<(Vec<u8>, usize), BlobError>)
    ensures
        match r {
            Ok((pcrs, off)) => parse_head(blob@) == Ok::<_, BlobErrorView>((pcrs@, off as int))
                && off <= blob@.len(),
            Err(e) => parse_head(blob@) == Err::<(Seq<u8>, int), _>(e@),
        },
{
    if blob.len() < 16 {
        return Err(BlobError::TooShort(blob.len()));
    }
    let magic = vstd::slice::slice_subrange(blob, 0, 8);
    assert(magic@ =~= blob@.take(8));
    if same_bytes(magic, &FILE_MAGIC_V1) {
        return Ok((copy_bytes(&DEFAULT_PCRS), 8));
    }
    if !same_bytes(magic, &FILE_MAGIC_V2) {
        return Err(BlobError::MagicMismatch);
    }
    let n: usize = blob[8] as usize;
    if n == 0 || n > 24 {
        return Err(BlobError::BadPcrCount(blob[8]));
    }
    if 9 + n > blob.len() {
        return Err(BlobError::PcrListTruncated);
    }
    let pcrs = copy_bytes(vstd::slice::slice_subrange(blob, 9, 9 + n));
    match validate_pcrs(pcrs.as_slice()) {
        Ok(_) => Ok((pcrs, 9 + n)),
        Err(e) => Err(BlobError::Pcrs(e)),
    }
}

/// Reads the file of a sealed key: the PCRs, the public and the private part.
pub fn deserialize_blob(blob: &[u8]) -> (r: Result<(Vec<u8>, Vec<u8>, Vec<u8>), BlobError>)
    ensures
        match r {
            Ok((pcrs, public, private)) => parse_blob(blob@) == Ok::<_, BlobErrorView>(
                BlobParts { pcrs: pcrs@, public: public@, private: private@ },
            ),
            Err(e) => parse_blob(blob@) == Err::<BlobParts, _>(e@),
        },
{
    let (pcrs, off) = match read_head(blob) {
        Ok(p) => p,
        Err(e) => {
            return Err(e);
        },
    };
    if off > blob.len() - 4 {
        return Err(BlobError::PubTruncated);
    }
    let pub_len: usize = read_u32_le(blob, off) as usize;
    if pub_len > MAX_FIELD {
        return Err(BlobError::PubTooLarge(pub_len));
    }
    assert(off <= 33);
    let mid: usize = off + 4 + pub_len;
    if mid + 4 > blob.len() {
        return Err(BlobError::PubTruncated);
    }
    let pub_bytes = copy_bytes(vstd::slice::slice_subrange(blob, off + 4, mid));
    let priv_len: usize = read_u32_le(blob, mid) as usize;
    if priv_len > MAX_FIELD {
        return Err(BlobError::PrivTooLarge(priv_len));
    }
    if mid + 4 + priv_len != blob.len() {
        return Err(
            BlobError::PrivLengthMismatch { expected: priv_len, has: blob.len() - (mid + 4) },
        );
    }
    let priv_bytes = copy_bytes(vstd::slice::slice_subrange(blob, mid + 4, blob.len()));
    Ok((pcrs, pub_bytes, priv_bytes))
}

// ---------- sealing and unsealing ----------

/// A key about to be sealed: the PCRs that the TPM has to bind it to.
pub struct SealRequest {
    pcrs: Vec<u8>,
}

impl View for SealRequest {
    type V = Seq<u8>;

    closed spec fn view(&self) -> Seq<u8> {
        self.pcrs@
    }
}

impl SealRequest {
    /// A request to seal to these PCRs.
    pub fn new(pcrs: &[u8]) -> (r: Result<SealRequest, PcrError>)
        ensures
            match r {
                Ok(q) => q@ == pcrs@ && pcrs_problem(pcrs@) is None,
                Err(e) => pcrs_problem(pcrs@) == Some(e@),
            },
    {
        match validate_pcrs(pcrs) {
            Ok(_) => Ok(SealRequest { pcrs: copy_bytes(pcrs) }),
            Err(e) => Err(e),
        }
    }

    /// The PCRs to bind to.
    pub fn pcrs(&self) -> (p: &[u8])
        ensures
            p@ == self@,
    {
        self.pcrs.as_slice()
    }

    /// The file of the sealed key, from the parts that the TPM gave.
    pub fn finish(&self, pub_bytes: &[u8], priv_bytes: &[u8]) -> (blob: Vec<u8>)
        ensures
            blob@ == blob_bytes(
                BlobParts { pcrs: self@, public: pub_bytes@, private: priv_bytes@ },
            ),
    {
        serialize_blob(self.pcrs.as_slice(), pub_bytes, priv_bytes)
    }
}

/// The words for an unsealed payload that is no key.
pub open spec fn bad_payload_text(n: nat) -> Seq<char> {
    "unsealed payload is "@ + crate::text::decimal(n) + " bytes, expected 16"@
}

/// The key in what the TPM unsealed; anything but sixteen bytes is refused, in
/// words.
pub fn unsealed_key(payload: &[u8]) -> (r: Result<[u8; 16], String>)
    ensures
        match r {
            Ok(k) => payload_key(payload@) == Some(k@),
            Err(e) => payload_key(payload@) is None && e@ == bad_payload_text(payload@.len()),
        },
{
    if payload.len() != 16 {
        return Err(
            with_number("unsealed payload is ", payload.len() as u64, " bytes, expected 16"),
        );
    }
    let mut key: [u8; 16] = [0u8; 16];
    let mut i: usize = 0;
    while i < 16
        invariant
            0 <= i <= 16,
            payload@.len() == 16,
            forall|k: int| 0 <= k < i ==> key@[k] == payload@[k],
        decreases 16 - i,
    {
        key[i] = payload[i];
        i = i + 1;
    }
    assert(key@ =~= payload@);
    Ok(key)
}

/// Bytes in lowercase hexadecimal, as a PCR value is shown.
pub fn hex_encode(b: &[u8]) -> (s: String)
    ensures
        s@ == crate::text::hex_text(b@),
{
    let mut s = String::new();
    push_hex(&mut s, b);
    assert(s@ =~= crate::text::hex_text(b@));
    s
}

// ---------- laws ----------

proof fn lemma_field_reads_back(before: Seq<u8>, field: Seq<u8>, after: Seq<u8>)
    requires
        field.len() <= MAX_FIELD,
    ensures
        ({
            let b = before + blob_field(field) + after;
            let off = before.len() as int;
            &&& crate::bytes::le_value(b.subrange(off, off + 4)) == field.len()
            &&& b.subrange(off + 4, off + 4 + field.len()) == field
            &&& blob_field(field).len() == 4 + field.len()
        }),
{
    let b = before + blob_field(field) + after;
    let off = before.len() as int;
    reveal_with_fuel(crate::bytes::pow256, 5);
    crate::bytes::lemma_le_value_of_le_bytes(field.len(), 4);
    assert(b.subrange(off, off + 4) =~= crate::bytes::le_bytes(field.len(), 4));
    assert(b.subrange(off + 4, off + 4 + field.len()) =~= field);
}

proof fn lemma_head_reads_back(pcrs: Seq<u8>, rest: Seq<u8>)
    requires
        pcrs_problem(pcrs) is None,
        rest.len() >= 8,
    ensures
        parse_head(blob_head(pcrs) + rest) == Ok::<_, BlobErrorView>(
            (pcrs, blob_head(pcrs).len() as int),
        ),
{
    let b = blob_head(pcrs) + rest;
    if pcrs == DEFAULT_PCRS@ {
        assert(b.take(8) =~= FILE_MAGIC_V1@);
    } else {
        assert(b.take(8) =~= FILE_MAGIC_V2@);
        assert(FILE_MAGIC_V1@[7] == 1 && FILE_MAGIC_V2@[7] == 2);
        assert(b[8] == pcrs.len());
        assert(b.subrange(9, 9 + pcrs.len() as int) =~= pcrs);
    }
}

/// Whatever is written for a valid list of PCRs and parts of an allowed size
/// reads back as that list and those parts.
pub proof fn lemma_blob_round_trip(p: BlobParts)
    requires
        pcrs_problem(p.pcrs) is None,
        p.public.len() <= MAX_FIELD,
        p.private.len() <= MAX_FIELD,
    ensures
        parse_blob(blob_bytes(p)) == Ok::<_, BlobErrorView>(p),
{
    let head = blob_head(p.pcrs);
    let b = blob_bytes(p);
    let off = head.len() as int;
    lemma_field_reads_back(head, p.public, blob_field(p.private));
    lemma_field_reads_back(head + blob_field(p.public), p.private, Seq::empty());
    assert(b + Seq::<u8>::empty() =~= b);
    assert(b =~= head + (blob_field(p.public) + blob_field(p.private)));
    lemma_head_reads_back(p.pcrs, blob_field(p.public) + blob_field(p.private));
    let mid = off + 4 + p.public.len();
    assert(b.len() == mid + 4 + p.private.len());
    assert(b.subrange(mid + 4, b.len() as int) =~= p.private);
}

/// The key in what the TPM unsealed, or nothing where that is no key.
pub open spec fn payload_key(payload: Seq<u8>) -> Option<Seq<u8>> {
    if payload.len() == 16 {
        Some(payload)
    } else {
        None
    }
}

/// Whatever parts the TPM gave for a key, the file hands them back to it with the
/// PCRs that the key was sealed to, and no others; and where the TPM then answers
/// with the key's bytes, that key is what comes out.
pub proof fn lemma_sealed_file_unseals(p: BlobParts, key: Seq<u8>)
    requires
        pcrs_problem(p.pcrs) is None,
        p.public.len() <= MAX_FIELD,
        p.private.len() <= MAX_FIELD,
        key.len() == 16,
    ensures
        parse_blob(blob_bytes(p)) matches Ok(q) && q.pcrs == p.pcrs && q.public == p.public
            && q.private == p.private,
        payload_key(key) == Some(key),
{
    lemma_blob_round_trip(p);
}

/// A file that was read holds nothing but what was read: writing that again
/// gives the file, unless the file names PCR 7 alone in format two, which is
/// written in format one.
pub proof fn lemma_blob_is_canonical(b: Seq<u8>, p: BlobParts)
    requires
        parse_blob(b) == Ok::<_, BlobErrorView>(p),
        !(b.take(8) == FILE_MAGIC_V2@ && p.pcrs == DEFAULT_PCRS@),
    ensures
        blob_bytes(p) == b,
{
    let off = parse_head(b)->Ok_0.1;
    let mid = off + 4 + p.public.len();
    crate::bytes::lemma_le_bytes_of_le_value(b.subrange(off, off + 4));
    crate::bytes::lemma_le_bytes_of_le_value(b.subrange(mid, mid + 4));
    assert(blob_head(p.pcrs) =~= b.take(off));
    assert(blob_field(p.public) =~= b.subrange(off, mid));
    assert(blob_field(p.private) =~= b.subrange(mid, b.len() as int));
    assert(blob_bytes(p) =~= b);
}

/// A file is of format one exactly where the key is sealed to PCR 7 alone.
pub proof fn lemma_format_one_iff_default_pcrs(p: BlobParts)
    ensures
        blob_bytes(p).take(8) == FILE_MAGIC_V1@ <==> p.pcrs == DEFAULT_PCRS@,
{
    let b = blob_bytes(p);
    if p.pcrs == DEFAULT_PCRS@ {
        assert(b.take(8) =~= FILE_MAGIC_V1@);
    } else {
        assert(b.take(8) =~= FILE_MAGIC_V2@);
        assert(FILE_MAGIC_V1@[7] == 1 && FILE_MAGIC_V2@[7] == 2);
    }
}

proof fn lemma_first_out_of_range(v: Seq<u8>)
    ensures
        first_out_of_range(v) is None <==> forall|i: int| 0 <= i < v.len() ==> #[trigger] v[i] <= 23,
        first_out_of_range(v) matches Some(p) ==> p > 23 && v.contains(p),
    decreases v.len(),
{
    if v.len() > 0 {
        let t = v.drop_first();
        lemma_first_out_of_range(t);
        if v[0] > 23 {
            assert(v.contains(v[0]));
        } else if first_out_of_range(t) is None {
            assert forall|i: int| 0 <= i < v.len() implies #[trigger] v[i] <= 23 by {
                if i > 0 {
                    assert(t[i - 1] == v[i]);
                }
            }
        } else {
            let p = first_out_of_range(t)->0;
            let i = choose|i: int| 0 <= i < t.len() && t[i] == p;
            assert(v[i + 1] == p);
        }
    }
}

/// A list of PCRs is in order exactly where it names between one and 24 of the
/// bank's, each of them once. What is wrong is told by the first of these that
/// fails: the length, a number that names no PCR, or a number that occurs twice.
pub proof fn lemma_pcrs_in_order_iff(v: Seq<u8>)
    ensures
        ({
            let fits = forall|i: int| 0 <= i < v.len() ==> #[trigger] v[i] <= 23;
            &&& pcrs_problem(v) is None <==> 1 <= v.len() <= 24 && fits && v.no_duplicates()
            &&& pcrs_problem(v) == Some(PcrErrorView::Empty) <==> v.len() == 0
            &&& v.len() > 24 <==> pcrs_problem(v) == Some(PcrErrorView::TooLong(v.len()))
            &&& 1 <= v.len() <= 24 && !fits ==> (pcrs_problem(v) matches Some(
                PcrErrorView::OutOfRange(p),
            ) && p > 23 && v.contains(p))
            &&& 1 <= v.len() <= 24 && fits && !v.no_duplicates() ==> pcrs_problem(v) == Some(
                PcrErrorView::Duplicates(v),
            )
        }),
{
    lemma_first_out_of_range(v);
}

/// In a list in words, a piece gives its number whatever white space stands
/// around it, a blank piece gives nothing, and the first piece that is neither is
/// what is told.
pub proof fn lemma_pieces_of_a_list(ps: Seq<Seq<char>>, piece: Seq<char>, n: u8, rest: Seq<Seq<char>>)
    ensures
        piece_values(ps) matches Ok(v) ==> {
            let t = crate::token::trimmed(piece);
            &&& t.len() == 0 ==> piece_values(ps.push(piece)) == Ok::<_, Seq<char>>(v)
            &&& t == crate::text::decimal(n as nat) ==> piece_values(ps.push(piece)) == Ok::<
                _,
                Seq<char>,
            >(v.push(n))
            &&& t.len() > 0 && crate::text::number_value(vstd::utf8::encode_utf8(t), 255) is None
                ==> piece_values(ps.push(piece) + rest) == Err::<Seq<u8>, _>(t)
        },
        piece_values(Seq::<Seq<char>>::empty()) == Ok::<_, Seq<char>>(Seq::<u8>::empty()),
{
    let t = crate::token::trimmed(piece);
    let qs = ps.push(piece);
    assert(qs.drop_last() =~= ps);
    assert(qs.last() == piece);
    crate::text::lemma_number_of_decimal(n as nat, 255);
    crate::text::lemma_decimal_is_digits(n as nat);
    if piece_values(qs) is Err {
        lemma_piece_values_error(qs, rest);
    }
}

/// A list is read exactly where every piece between its commas is a number or
/// blank, and the numbers are PCRs in order; those are what is read.
pub proof fn lemma_list_is_read_iff(s: Seq<char>)
    ensures
        parse_pcr_list_spec(s) is Ok <==> (piece_values(crate::token::split_on(s, ',')) matches Ok(
            v,
        ) && 1 <= v.len() <= 24 && (forall|i: int| 0 <= i < v.len() ==> #[trigger] v[i] <= 23)
            && v.no_duplicates()),
        parse_pcr_list_spec(s) matches Ok(v) ==> piece_values(crate::token::split_on(s, ','))
            == Ok::<_, Seq<char>>(v),
        parse_pcr_list_spec(s) == Err::<Seq<u8>, _>(PcrErrorView::ListEmpty) <==> piece_values(
            crate::token::split_on(s, ','),
        ) == Ok::<_, Seq<char>>(Seq::<u8>::empty()),
{
    if let Ok(v) = piece_values(crate::token::split_on(s, ',')) {
        lemma_pcrs_in_order_iff(v);
        if v.len() == 0 {
            assert(v =~= Seq::<u8>::empty());
        }
    }
}

/// A file that is read names PCRs in order and has parts of an allowed size. One
/// that is shorter than any sealed key, or starts with neither magic, is told as
/// such.
pub proof fn lemma_what_a_file_holds(b: Seq<u8>)
    ensures
        parse_blob(b) matches Ok(p) ==> {
            &&& pcrs_problem(p.pcrs) is None
            &&& p.public.len() <= 65_536
            &&& p.private.len() <= 65_536
            &&& b.len() >= 16
            &&& b.take(8) == FILE_MAGIC_V1@ ==> p.pcrs == seq![7u8]
            &&& b.take(8) == FILE_MAGIC_V1@ || b.take(8) == FILE_MAGIC_V2@
        },
        b.len() < 16 <==> parse_blob(b) == Err::<BlobParts, _>(BlobErrorView::TooShort(b.len())),
        b.len() >= 16 && b.take(8) != FILE_MAGIC_V1@ && b.take(8) != FILE_MAGIC_V2@ <==> parse_blob(
            b,
        ) == Err::<BlobParts, _>(BlobErrorView::MagicMismatch),
{
    assert(DEFAULT_PCRS@ =~= seq![7u8]);
    lemma_pcrs_in_order_iff(DEFAULT_PCRS@);
}

/// PCR 7 alone may be named in format two as well, and is read there.
pub proof fn lemma_default_pcrs_in_format_two(public: Seq<u8>, private: Seq<u8>)
    requires
        public.len() <= MAX_FIELD,
        private.len() <= MAX_FIELD,
    ensures
        parse_blob(
            FILE_MAGIC_V2@ + seq![1u8, 7u8] + blob_field(public) + blob_field(private),
        ) matches Ok(p) && p.pcrs == seq![7u8] && p.public == public && p.private == private,
{
    let head = FILE_MAGIC_V2@ + seq![1u8, 7u8];
    let b = head + blob_field(public) + blob_field(private);
    lemma_field_reads_back(head, public, blob_field(private));
    lemma_field_reads_back(head + blob_field(public), private, Seq::empty());
    assert(b + Seq::<u8>::empty() =~= b);
    assert(b.take(8) =~= FILE_MAGIC_V2@);
    assert(FILE_MAGIC_V1@[7] == 1 && FILE_MAGIC_V2@[7] == 2);
    assert(b[8] == 1);
    assert(b.subrange(9, 10) =~= seq![7u8]);
    lemma_pcrs_in_order_iff(seq![7u8]);
    let mid = 14int + public.len();
    assert(b.len() == mid + 4 + private.len());
    assert(b.subrange(mid + 4, b.len() as int) =~= private);
}

/// What the TPM unsealed is the key exactly where it has a key's sixteen bytes,
/// and then it is that key.
pub proof fn lemma_payload_is_the_key(payload: Seq<u8>)
    ensures
        payload_key(payload) is Some <==> payload.len() == 16,
        payload_key(payload) matches Some(k) ==> k == payload,
        crate::token::contains_text(
            bad_payload_text(payload.len()),
            crate::text::decimal(payload.len()),
        ),
{
    reveal_strlit("unsealed payload is ");
    let t = bad_payload_text(payload.len());
    let d = crate::text::decimal(payload.len());
    assert(t.subrange(20, 20 + d.len() as int) =~= d);
}

/// What is wrong with a list of PCRs, or with a file, is told with the number
/// that is.
pub proof fn lemma_errors_tell_the_number(n: nat, p: u8, text: Seq<char>, shown: Seq<char>)
    ensures
        crate::token::contains_text(pcr_error_text(PcrErrorView::NotANumber(text), shown), shown),
        crate::token::has_prefix(
            pcr_error_text(PcrErrorView::TooLong(n), shown),
            "PCR list too long ("@ + crate::text::decimal(n),
        ),
        crate::token::has_prefix(
            pcr_error_text(PcrErrorView::OutOfRange(p), shown),
            "PCR index "@ + crate::text::decimal(p as nat),
        ),
        crate::token::has_prefix(
            blob_error_text(BlobErrorView::TooShort(n)),
            "sealed blob too short ("@ + crate::text::decimal(n),
        ),
        crate::token::has_prefix(
            blob_error_text(BlobErrorView::PubTooLarge(n)),
            "sealed blob pub field too large ("@ + crate::text::decimal(n),
        ),
        crate::token::has_prefix(
            blob_error_text(BlobErrorView::PrivTooLarge(n)),
            "sealed blob priv field too large ("@ + crate::text::decimal(n),
        ),
{
    let d = crate::text::decimal(n);
    reveal_strlit("PCR index ");
    let a = pcr_error_text(PcrErrorView::NotANumber(text), shown);
    assert(a.subrange(10, 10 + shown.len() as int) =~= shown);
    let b = pcr_error_text(PcrErrorView::TooLong(n), shown);
    let lb = "PCR list too long ("@ + d;
    assert(b.take(lb.len() as int) =~= lb);
    let c = pcr_error_text(PcrErrorView::OutOfRange(p), shown);
    let lc = "PCR index "@ + crate::text::decimal(p as nat);
    assert(c.take(lc.len() as int) =~= lc);
    let e = blob_error_text(BlobErrorView::TooShort(n));
    let le = "sealed blob too short ("@ + d;
    assert(e.take(le.len() as int) =~= le);
    let f = blob_error_text(BlobErrorView::PubTooLarge(n));
    let lf = "sealed blob pub field too large ("@ + d;
    assert(f.take(lf.len() as int) =~= lf);
    let g = blob_error_text(BlobErrorView::PrivTooLarge(n));
    let lg = "sealed blob priv field too large ("@ + d;
    assert(g.take(lg.len() as int) =~= lg);
}

} // verus!
