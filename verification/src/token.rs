//! Text taken apart: words, `key=value` fields, prefixes and surrounding space.

use vstd::prelude::*;
use vstd::string::*;

verus! {

// ---------- strings as texts ----------

/// The text in an optional string.
pub open spec fn optional_text(o: Option<String>) -> Option<Seq<char>> {
    match o {
        Some(s) => Some(s@),
        None => None,
    }
}

/// The text in an optional string slice.
pub open spec fn optional_str(o: Option<&str>) -> Option<Seq<char>> {
    match o {
        Some(s) => Some(s@),
        None => None,
    }
}

/// The texts of strings.
pub open spec fn texts(s: Seq<String>) -> Seq<Seq<char>> {
    Seq::new(s.len(), |i: int| s[i]@)
}

/// Adds a string to a list of strings.
pub fn push_text(v: &mut Vec<String>, s: String)
    ensures
        texts(final(v)@) == texts(old(v)@).push(s@),
{
    v.push(s);
    assert(texts(v@) =~= texts(old(v)@).push(s@));
}

// ---------- what the pieces are ----------

/// Whether Unicode counts the character as white space.
pub open spec fn is_space(c: char) -> bool {
    let u = c as u32;
    ||| 0x9 <= u <= 0xd
    ||| u == 0x20
    ||| u == 0x85
    ||| u == 0xa0
    ||| u == 0x1680
    ||| 0x2000 <= u <= 0x200a
    ||| u == 0x2028
    ||| u == 0x2029
    ||| u == 0x202f
    ||| u == 0x205f
    ||| u == 0x3000
}

/// How many characters stand before the first white space.
pub open spec fn word_len(s: Seq<char>) -> nat
    decreases s.len(),
{
    if s.len() == 0 || is_space(s[0]) {
        0
    } else {
        1 + word_len(s.drop_first())
    }
}

/// How many white space characters stand at the front.
pub open spec fn space_len(s: Seq<char>) -> nat
    decreases s.len(),
{
    if s.len() == 0 || !is_space(s[0]) {
        0
    } else {
        1 + space_len(s.drop_first())
    }
}

/// Neither count passes the end of the text.
pub proof fn lemma_word_len_bounds(s: Seq<char>)
    ensures
        word_len(s) <= s.len(),
        space_len(s) <= s.len(),
        s.len() > 0 ==> word_len(s) > 0 || space_len(s) > 0,
        word_len(s) < s.len() ==> is_space(s[word_len(s) as int]),
        space_len(s) < s.len() ==> !is_space(s[space_len(s) as int]),
        forall|i: int| 0 <= i < word_len(s) ==> !is_space(#[trigger] s[i]),
        forall|i: int| 0 <= i < space_len(s) ==> is_space(#[trigger] s[i]),
    decreases s.len(),
{
    if s.len() > 0 {
        let t = s.drop_first();
        lemma_word_len_bounds(t);
        assert forall|i: int| 0 <= i < word_len(s) implies !is_space(#[trigger] s[i]) by {
            if i > 0 {
                assert(t[i - 1] == s[i]);
            }
        }
        assert forall|i: int| 0 <= i < space_len(s) implies is_space(#[trigger] s[i]) by {
            if i > 0 {
                assert(t[i - 1] == s[i]);
            }
        }
    }
}

/// The words of a text: its longest pieces without white space, in order.
pub open spec fn words(s: Seq<char>) -> Seq<Seq<char>>
    decreases s.len(),
{
    if s.len() == 0 {
        Seq::empty()
    } else if is_space(s[0]) {
        words(s.drop_first())
    } else {
        let n = word_len(s);
        if n == 0 || n > s.len() {
            Seq::empty()
        } else {
            seq![s.take(n as int)] + words(s.skip(n as int))
        }
    }
}

/// The place of the first `c`, or the length where there is none.
pub open spec fn find_char(s: Seq<char>, c: char) -> nat
    decreases s.len(),
{
    if s.len() == 0 || s[0] == c {
        0
    } else {
        1 + find_char(s.drop_first(), c)
    }
}

/// What the last word `key=value` gives for `key`: the value runs from the
/// first `=` to the end of the word.
pub open spec fn last_value(ws: Seq<Seq<char>>, key: Seq<char>) -> Option<Seq<char>>
    decreases ws.len(),
{
    if ws.len() == 0 {
        None
    } else {
        let w = ws.last();
        let e = find_char(w, '=');
        if e < w.len() && w.take(e as int) == key {
            Some(w.skip(e as int + 1))
        } else {
            last_value(ws.drop_last(), key)
        }
    }
}

/// The value of `key` among the fields of a text.
pub open spec fn field_value(s: Seq<char>, key: Seq<char>) -> Option<Seq<char>> {
    last_value(words(s), key)
}

/// The pieces between one `c` and the next.
pub open spec fn split_on(s: Seq<char>, c: char) -> Seq<Seq<char>>
    decreases s.len(),
{
    let p = find_char(s, c);
    if p >= s.len() {
        seq![s]
    } else {
        seq![s.take(p as int)] + split_on(s.skip(p as int + 1), c)
    }
}

/// The text without white space at its end.
pub open spec fn trim_end(s: Seq<char>) -> Seq<char>
    decreases s.len(),
{
    if s.len() > 0 && is_space(s.last()) {
        trim_end(s.drop_last())
    } else {
        s
    }
}

/// The text without white space at either end.
pub open spec fn trimmed(s: Seq<char>) -> Seq<char> {
    trim_end(s.skip(space_len(s) as int))
}

/// Whether `a` comes no later than `b` in the order of their bytes, a prefix
/// before what it begins.
pub open spec fn bytes_le(a: Seq<u8>, b: Seq<u8>) -> bool
    decreases a.len(),
{
    if a.len() == 0 {
        true
    } else if b.len() == 0 {
        false
    } else if a[0] != b[0] {
        a[0] < b[0]
    } else {
        bytes_le(a.drop_first(), b.drop_first())
    }
}

/// Whether `a` comes no later than `b` in the order of their UTF-8 bytes.
pub open spec fn text_le(a: Seq<char>, b: Seq<char>) -> bool {
    bytes_le(vstd::utf8::encode_utf8(a), vstd::utf8::encode_utf8(b))
}

proof fn lemma_bytes_le_total(a: Seq<u8>, b: Seq<u8>)
    ensures
        bytes_le(a, b) || bytes_le(b, a),
        bytes_le(a, b) && bytes_le(b, a) ==> a == b,
    decreases a.len(),
{
    if a.len() > 0 && b.len() > 0 && a[0] == b[0] {
        lemma_bytes_le_total(a.drop_first(), b.drop_first());
        assert(seq![a[0]] + a.drop_first() =~= a);
        assert(seq![b[0]] + b.drop_first() =~= b);
    } else if a.len() == 0 && b.len() == 0 {
        assert(a =~= b);
    }
}

proof fn lemma_bytes_le_transitive(a: Seq<u8>, b: Seq<u8>, c: Seq<u8>)
    requires
        bytes_le(a, b),
        bytes_le(b, c),
    ensures
        bytes_le(a, c),
    decreases a.len(),
{
    if a.len() > 0 && a[0] == b[0] && b[0] == c[0] {
        lemma_bytes_le_transitive(a.drop_first(), b.drop_first(), c.drop_first());
    }
}

/// The order of texts is total, and no two texts share a place in it.
pub proof fn lemma_text_le_total(a: Seq<char>, b: Seq<char>)
    ensures
        text_le(a, b) || text_le(b, a),
        text_le(a, b) && text_le(b, a) ==> a == b,
{
    let x = vstd::utf8::encode_utf8(a);
    let y = vstd::utf8::encode_utf8(b);
    lemma_bytes_le_total(x, y);
    if x == y {
        crate::text::lemma_encode_injective(a, b);
    }
}

/// The order of texts is transitive.
pub proof fn lemma_text_le_transitive(a: Seq<char>, b: Seq<char>, c: Seq<char>)
    requires
        text_le(a, b),
        text_le(b, c),
    ensures
        text_le(a, c),
{
    lemma_bytes_le_transitive(
        vstd::utf8::encode_utf8(a),
        vstd::utf8::encode_utf8(b),
        vstd::utf8::encode_utf8(c),
    );
}

// ---------- taking them ----------

/// Whether Unicode counts the character as white space.
pub fn is_white(c: char) -> (r: bool)
    ensures
        r == is_space(c),
{
    let u: u32 = c as u32;
    (0x9 <= u && u <= 0xd) || u == 0x20 || u == 0x85 || u == 0xa0 || u == 0x1680 || (0x2000 <= u
        && u <= 0x200a) || u == 0x2028 || u == 0x2029 || u == 0x202f || u == 0x205f || u == 0x3000
}

/// The characters of a string.
pub fn chars_of(s: &str) -> (v: Vec<char>)
    ensures
        v@ == s@,
{
    let mut v: Vec<char> = Vec::new();
    for c in it: s.chars()
        invariant
            v@ == s@.take(it.index()),
            it.seq() == s@,
    {
        v.push(c);
        assert(v@ =~= s@.take(it.index() + 1));
    }
    assert(s@.take(s@.len() as int) =~= s@);
    v
}

/// Whether two strings hold the same text.
pub fn str_eq(a: &str, b: &str) -> (r: bool)
    ensures
        r == (a@ == b@),
{
    let x = a.as_bytes();
    let y = b.as_bytes();
    proof {
        if a.spec_bytes() == b.spec_bytes() {
            crate::text::lemma_encode_injective(a@, b@);
        }
    }
    if x.len() != y.len() {
        return false;
    }
    let mut i: usize = 0;
    while i < x.len()
        invariant
            0 <= i <= x@.len(),
            x.len() == x@.len(),
            x@.len() == y@.len(),
            x@ == a.spec_bytes(),
            y@ == b.spec_bytes(),
            forall|k: int| 0 <= k < i ==> x@[k] == y@[k],
        decreases x@.len() - i,
    {
        if x[i] != y[i] {
            return false;
        }
        i = i + 1;
    }
    assert(x@ =~= y@);
    true
}

/// Whether `a` comes no later than `b` in the order of their bytes.
pub fn str_le(a: &str, b: &str) -> (r: bool)
    ensures
        r == text_le(a@, b@),
{
    let x = a.as_bytes();
    let y = b.as_bytes();
    let mut i: usize = 0;
    assert(x@.skip(0) =~= x@ && y@.skip(0) =~= y@);
    while i < x.len() && i < y.len()
        invariant
            0 <= i <= x@.len(),
            i <= y@.len(),
            x.len() == x@.len(),
            y.len() == y@.len(),
            bytes_le(x@, y@) == bytes_le(x@.skip(i as int), y@.skip(i as int)),
            x@ == a.spec_bytes(),
            y@ == b.spec_bytes(),
        decreases x@.len() - i,
    {
        assert(x@.skip(i as int)[0] == x@[i as int]);
        assert(y@.skip(i as int)[0] == y@[i as int]);
        if x[i] != y[i] {
            return x[i] < y[i];
        }
        assert(x@.skip(i as int).drop_first() =~= x@.skip(i + 1));
        assert(y@.skip(i as int).drop_first() =~= y@.skip(i + 1));
        i = i + 1;
    }
    i == x.len()
}

/// Whether a text begins with `prefix`.
pub open spec fn has_prefix(s: Seq<char>, prefix: Seq<char>) -> bool {
    prefix.len() <= s.len() && s.take(prefix.len() as int) == prefix
}

/// Whether `s` begins with `prefix`.
pub fn starts_with(s: &str, prefix: &str) -> (r: bool)
    ensures
        r == has_prefix(s@, prefix@),
{
    let n: usize = prefix.unicode_len();
    if s.unicode_len() < n {
        return false;
    }
    str_eq(s.substring_char(0, n), prefix)
}

/// Whether `t` stands somewhere in `s`.
pub open spec fn contains_text(s: Seq<char>, t: Seq<char>) -> bool {
    exists|i: int| 0 <= i <= s.len() - t.len() && #[trigger] s.subrange(i, i + t.len()) == t
}

/// Whether `t` stands somewhere in `s`.
pub fn contains(s: &str, t: &str) -> (r: bool)
    ensures
        r == contains_text(s@, t@),
{
    let n: usize = s.unicode_len();
    let m: usize = t.unicode_len();
    if n < m {
        return false;
    }
    let mut i: usize = 0;
    while i <= n - m
        invariant
            m <= n,
            n == s@.len(),
            m == t@.len(),
            0 <= i <= n - m + 1,
            forall|k: int| 0 <= k < i ==> #[trigger] s@.subrange(k, k + m) != t@,
        decreases n - m + 1 - i,
    {
        if str_eq(s.substring_char(i, i + m), t) {
            assert(s@.subrange(i as int, i + t@.len()) == t@);
            return true;
        }
        if i == n - m {
            proof {
                assert forall|k: int| 0 <= k <= s@.len() - t@.len() implies #[trigger] s@.subrange(
                    k,
                    k + t@.len(),
                ) != t@ by {
                    assert(k + t@.len() == k + m);
                }
            }
            return false;
        }
        i = i + 1;
    }
    false
}

/// The place of the first `c` at or after `from`, or `to`.
pub fn find_char_in(v: &Vec<char>, from: usize, to: usize, c: char) -> (r: usize)
    requires
        from <= to <= v@.len(),
    ensures
        from <= r <= to,
        r - from == find_char(v@.subrange(from as int, to as int), c),
{
    let mut i: usize = from;
    while i < to
        invariant
            from <= i <= to <= v@.len(),
            find_char(v@.subrange(from as int, to as int), c) == i - from + find_char(
                v@.subrange(i as int, to as int),
                c,
            ),
        decreases to - i,
    {
        let ghost rest = v@.subrange(i as int, to as int);
        assert(rest[0] == v@[i as int]);
        if v[i] == c {
            return i;
        }
        assert(rest.drop_first() =~= v@.subrange(i + 1, to as int));
        i = i + 1;
    }
    i
}

/// The end of the word that starts at `from`.
pub fn word_end(v: &Vec<char>, from: usize) -> (r: usize)
    requires
        from <= v@.len(),
    ensures
        from <= r <= v@.len(),
        r - from == word_len(v@.skip(from as int)),
{
    let mut i: usize = from;
    while i < v.len()
        invariant
            from <= i <= v@.len(),
            word_len(v@.skip(from as int)) == i - from + word_len(v@.skip(i as int)),
        decreases v@.len() - i,
    {
        let ghost rest = v@.skip(i as int);
        assert(rest[0] == v@[i as int]);
        if is_white(v[i]) {
            return i;
        }
        assert(rest.drop_first() =~= v@.skip(i + 1));
        i = i + 1;
    }
    i
}

/// The first place at or after `from` without white space.
pub fn space_end(v: &Vec<char>, from: usize) -> (r: usize)
    requires
        from <= v@.len(),
    ensures
        from <= r <= v@.len(),
        r - from == space_len(v@.skip(from as int)),
{
    let mut i: usize = from;
    while i < v.len()
        invariant
            from <= i <= v@.len(),
            space_len(v@.skip(from as int)) == i - from + space_len(v@.skip(i as int)),
        decreases v@.len() - i,
    {
        let ghost rest = v@.skip(i as int);
        assert(rest[0] == v@[i as int]);
        if !is_white(v[i]) {
            return i;
        }
        assert(rest.drop_first() =~= v@.skip(i + 1));
        i = i + 1;
    }
    i
}

proof fn lemma_words_skip_space(s: Seq<char>)
    ensures
        words(s) == words(s.skip(space_len(s) as int)),
    decreases s.len(),
{
    if s.len() > 0 && is_space(s[0]) {
        lemma_words_skip_space(s.drop_first());
        lemma_word_len_bounds(s.drop_first());
        assert(s.drop_first().skip(space_len(s.drop_first()) as int) =~= s.skip(
            space_len(s) as int,
        ));
    } else {
        assert(s.skip(0) =~= s);
    }
}

/// The value of `key` among the fields of `body`, the last one where there are
/// several.
pub fn field(body: &str, key: &str) -> (r: Option<String>)
    ensures
        match r {
            Some(v) => field_value(body@, key@) == Some(v@),
            None => field_value(body@, key@) is None,
        },
{
    let v = chars_of(body);
    let mut found: Option<String> = None;
    let mut i: usize = space_end(&v, 0);
    let ghost mut done: Seq<Seq<char>> = Seq::empty();
    proof {
        assert(v@.skip(0) =~= v@);
        lemma_word_len_bounds(v@);
        lemma_words_skip_space(v@);
        assert(done + words(v@.skip(i as int)) =~= words(v@));
    }
    while i < v.len()
        invariant
            0 <= i <= v@.len(),
            v@ == body@,
            i < v@.len() ==> !is_space(v@[i as int]),
            words(v@) == done + words(v@.skip(i as int)),
            match found {
                Some(t) => last_value(done, key@) == Some(t@),
                None => last_value(done, key@) is None,
            },
        decreases v@.len() - i,
    {
        let ghost rest = v@.skip(i as int);
        let j: usize = word_end(&v, i);
        let ghost w = v@.subrange(i as int, j as int);
        proof {
            assert(rest[0] == v@[i as int]);
            lemma_word_len_bounds(rest);
            assert(rest.take(j - i) =~= w);
            assert(rest.skip(j - i) =~= v@.skip(j as int));
        }
        let e: usize = find_char_in(&v, i, j, '=');
        assert(done.push(w).last() == w && done.push(w).drop_last() =~= done);
        if e < j {
            if str_eq(body.substring_char(i, e), key) {
                found = Some(body.substring_char(e + 1, j).to_owned());
                assert(w.take(e - i) =~= v@.subrange(i as int, e as int));
                assert(w.skip(e - i + 1) =~= v@.subrange(e + 1, j as int));
            } else {
                assert(w.take(e - i) =~= v@.subrange(i as int, e as int));
            }
        }
        let k: usize = space_end(&v, j);
        proof {
            let after = v@.skip(j as int);
            lemma_words_skip_space(after);
            lemma_word_len_bounds(after);
            assert(after.skip(k - j) =~= v@.skip(k as int));
            if k < v@.len() {
                assert(after[k - j] == v@[k as int]);
            }
            assert(words(v@) =~= done.push(w) + words(v@.skip(k as int)));
            done = done.push(w);
        }
        i = k;
    }
    proof {
        assert(v@.skip(i as int) =~= Seq::empty());
        assert(words(v@) =~= done);
    }
    found
}

/// The text without white space at either end.
pub fn trim<'a>(s: &'a str) -> (r: &'a str)
    ensures
        r@ == trimmed(s@),
{
    let v = chars_of(s);
    let i: usize = space_end(&v, 0);
    let mut j: usize = v.len();
    proof {
        assert(v@.skip(0) =~= v@);
        assert(v@.subrange(i as int, j as int) =~= v@.skip(i as int));
    }
    while i < j
        invariant
            i <= j <= v@.len(),
            v@ == s@,
            trim_end(v@.skip(i as int)) == trim_end(v@.subrange(i as int, j as int)),
        ensures
            i <= j <= v@.len(),
            trim_end(v@.skip(i as int)) == v@.subrange(i as int, j as int),
        decreases j - i,
    {
        let ghost cur = v@.subrange(i as int, j as int);
        assert(cur.last() == v@[j - 1]);
        if !is_white(v[j - 1]) {
            break;
        }
        assert(cur.drop_last() =~= v@.subrange(i as int, j - 1));
        j = j - 1;
    }
    s.substring_char(i, j)
}

// ---------- laws ----------

/// Whether a text holds no white space.
pub open spec fn is_unbroken(w: Seq<char>) -> bool {
    forall|i: int| 0 <= i < w.len() ==> !is_space(#[trigger] w[i])
}

/// A word ends where the white space behind it begins.
pub proof fn lemma_word_len(w: Seq<char>, rest: Seq<char>)
    requires
        is_unbroken(w),
        rest.len() == 0 || is_space(rest[0]),
    ensures
        word_len(w + rest) == w.len(),
    decreases w.len(),
{
    if w.len() > 0 {
        assert((w + rest)[0] == w[0]);
        assert forall|i: int| 0 <= i < w.drop_first().len() implies !is_space(
            #[trigger] w.drop_first()[i],
        ) by {
            assert(w.drop_first()[i] == w[i + 1]);
        }
        lemma_word_len(w.drop_first(), rest);
        assert((w + rest).drop_first() =~= w.drop_first() + rest);
    } else {
        assert(w + rest =~= rest);
    }
}

/// An unbroken text is one word of what it begins, and the words of what follows
/// the blank behind it come next.
pub proof fn lemma_first_word(w: Seq<char>, rest: Seq<char>)
    requires
        is_unbroken(w),
        w.len() > 0,
    ensures
        words(w) == seq![w],
        words(w + " "@ + rest) == seq![w] + words(rest),
{
    reveal_strlit(" ");
    let none = Seq::<char>::empty();
    lemma_word_len(w, none);
    assert(w + none =~= w);
    assert(w.take(w.len() as int) =~= w);
    assert(w.skip(w.len() as int) =~= none);
    assert(words(none) =~= Seq::<Seq<char>>::empty());
    assert(words(w) =~= seq![w]);
    let tail = " "@ + rest;
    let all = w + " "@ + rest;
    assert(all =~= w + tail);
    lemma_word_len(w, tail);
    assert(all[0] == w[0]);
    assert(all.take(w.len() as int) =~= w);
    assert(all.skip(w.len() as int) =~= tail);
    assert(tail.drop_first() =~= rest);
    assert(words(tail) == words(rest));
}

/// A field as it is written.
pub open spec fn field_text(f: (Seq<char>, Seq<char>)) -> Seq<char> {
    f.0 + "="@ + f.1
}

/// Fields as they are written, with a blank between one and the next.
pub open spec fn fields_text(fs: Seq<(Seq<char>, Seq<char>)>) -> Seq<char>
    decreases fs.len(),
{
    if fs.len() == 0 {
        Seq::empty()
    } else if fs.len() == 1 {
        field_text(fs[0])
    } else {
        field_text(fs[0]) + " "@ + fields_text(fs.drop_first())
    }
}

spec fn field_texts(fs: Seq<(Seq<char>, Seq<char>)>) -> Seq<Seq<char>> {
    Seq::new(fs.len(), |i: int| field_text(fs[i]))
}

/// Whether fields can be told apart once they are written: no white space, and
/// no `=` in a key.
pub open spec fn are_fields(fs: Seq<(Seq<char>, Seq<char>)>) -> bool {
    forall|i: int|
        0 <= i < fs.len() ==> {
            let f = #[trigger] fs[i];
            &&& is_unbroken(f.0)
            &&& is_unbroken(f.1)
            &&& !f.0.contains('=')
        }
}

/// Whether the last field with this key has this value.
pub open spec fn is_field(
    fs: Seq<(Seq<char>, Seq<char>)>,
    key: Seq<char>,
    value: Seq<char>,
) -> bool {
    exists|i: int|
        {
            &&& 0 <= i < fs.len()
            &&& #[trigger] fs[i] == (key, value)
            &&& forall|j: int| i < j < fs.len() ==> (#[trigger] fs[j]).0 != key
        }
}

/// Whether no field has this key.
pub open spec fn has_no_field(fs: Seq<(Seq<char>, Seq<char>)>, key: Seq<char>) -> bool {
    forall|j: int| 0 <= j < fs.len() ==> (#[trigger] fs[j]).0 != key
}

proof fn lemma_find_char_after(a: Seq<char>, rest: Seq<char>, c: char)
    requires
        !a.contains(c),
        rest.len() > 0,
        rest[0] == c,
    ensures
        find_char(a + rest, c) == a.len(),
    decreases a.len(),
{
    if a.len() > 0 {
        assert(a.contains(a[0]));
        assert((a + rest)[0] == a[0]);
        assert((a + rest).drop_first() =~= a.drop_first() + rest);
        assert(!a.drop_first().contains(c)) by {
            if a.drop_first().contains(c) {
                let i = choose|i: int| 0 <= i < a.drop_first().len() && a.drop_first()[i] == c;
                assert(a[i + 1] == c);
            }
        }
        lemma_find_char_after(a.drop_first(), rest, c);
    } else {
        assert(a + rest =~= rest);
    }
}

proof fn lemma_field_is_a_word(f: (Seq<char>, Seq<char>))
    requires
        is_unbroken(f.0),
        is_unbroken(f.1),
        !f.0.contains('='),
    ensures
        is_unbroken(field_text(f)),
        field_text(f).len() == f.0.len() + 1 + f.1.len(),
        find_char(field_text(f), '=') == f.0.len(),
        field_text(f).take(f.0.len() as int) == f.0,
        field_text(f).skip(f.0.len() as int + 1) == f.1,
{
    reveal_strlit("=");
    let t = field_text(f);
    assert forall|i: int| 0 <= i < t.len() implies !is_space(#[trigger] t[i]) by {
        if i < f.0.len() {
            assert(t[i] == f.0[i]);
        } else if i == f.0.len() {
            assert(t[i] == '=');
        } else {
            assert(t[i] == f.1[i - f.0.len() - 1]);
        }
    }
    let tail = "="@ + f.1;
    assert(t =~= f.0 + tail);
    lemma_find_char_after(f.0, tail, '=');
    assert(t.take(f.0.len() as int) =~= f.0);
    assert(t.skip(f.0.len() as int + 1) =~= f.1);
}

proof fn lemma_words_of_fields(fs: Seq<(Seq<char>, Seq<char>)>)
    requires
        are_fields(fs),
    ensures
        words(fields_text(fs)) == field_texts(fs),
    decreases fs.len(),
{
    let ts = field_texts(fs);
    if fs.len() == 0 {
        assert(words(fields_text(fs)) =~= ts);
    } else {
        let rest = fs.drop_first();
        assert(fs[0] == fs.first());
        lemma_field_is_a_word(fs[0]);
        assert forall|i: int| 0 <= i < rest.len() implies {
            let f = #[trigger] rest[i];
            &&& is_unbroken(f.0)
            &&& is_unbroken(f.1)
            &&& !f.0.contains('=')
        } by {
            assert(rest[i] == fs[i + 1]);
        }
        lemma_words_of_fields(rest);
        lemma_first_word(field_text(fs[0]), fields_text(rest));
        assert(words(fields_text(fs)) =~= ts);
    }
}

proof fn lemma_last_value_of_fields(fs: Seq<(Seq<char>, Seq<char>)>, key: Seq<char>, value: Seq<char>)
    requires
        are_fields(fs),
    ensures
        ({
            let ts = field_texts(fs);
            &&& is_field(fs, key, value) ==> last_value(ts, key) == Some(value)
            &&& has_no_field(fs, key) ==> last_value(ts, key) is None
        }),
    decreases fs.len(),
{
    let ts = field_texts(fs);
    if fs.len() > 0 {
        let before = fs.drop_last();
        let n = fs.len() - 1;
        assert(ts.last() == field_text(fs[n]));
        assert(ts.drop_last() =~= field_texts(before));
        lemma_field_is_a_word(fs[n]);
        assert forall|i: int| 0 <= i < before.len() implies {
            let f = #[trigger] before[i];
            &&& is_unbroken(f.0)
            &&& is_unbroken(f.1)
            &&& !f.0.contains('=')
        } by {
            assert(before[i] == fs[i]);
        }
        lemma_last_value_of_fields(before, key, value);
        if is_field(fs, key, value) {
            let i = choose|i: int|
                {
                    &&& 0 <= i < fs.len()
                    &&& #[trigger] fs[i] == (key, value)
                    &&& forall|j: int| i < j < fs.len() ==> (#[trigger] fs[j]).0 != key
                };
            if i < n {
                assert(before[i] == (key, value));
                assert forall|j: int| i < j < before.len() implies (#[trigger] before[j]).0
                    != key by {
                    assert(before[j] == fs[j]);
                }
                assert(is_field(before, key, value));
                assert(fs[n].0 != key);
                assert(last_value(ts, key) == last_value(ts.drop_last(), key));
            } else {
                assert(fs[n] == (key, value));
                assert(last_value(ts, key) == Some(value));
            }
        }
        if has_no_field(fs, key) {
            assert(fs[n].0 != key);
            assert forall|j: int| 0 <= j < before.len() implies (#[trigger] before[j]).0 != key by {
                assert(before[j] == fs[j]);
            }
            assert(has_no_field(before, key));
            assert(last_value(ts, key) == last_value(ts.drop_last(), key));
        }
    }
}

/// Fields that were written read back: a key has the value of the last field
/// with it, and none where there is no such field.
pub proof fn lemma_fields_read_back(
    fs: Seq<(Seq<char>, Seq<char>)>,
    key: Seq<char>,
    value: Seq<char>,
)
    requires
        are_fields(fs),
    ensures
        is_field(fs, key, value) ==> field_value(fields_text(fs), key) == Some(value),
        has_no_field(fs, key) ==> field_value(fields_text(fs), key) is None,
{
    lemma_words_of_fields(fs);
    lemma_last_value_of_fields(fs, key, value);
}

/// Fields that were written begin and end with no white space.
pub proof fn lemma_fields_have_no_outer_space(fs: Seq<(Seq<char>, Seq<char>)>)
    requires
        are_fields(fs),
        fs.len() > 0,
    ensures
        fields_text(fs).len() > 0,
        !is_space(fields_text(fs)[0]),
        !is_space(fields_text(fs).last()),
    decreases fs.len(),
{
    lemma_field_is_a_word(fs[0]);
    let t = field_text(fs[0]);
    assert(fields_text(fs)[0] == t[0]);
    if fs.len() > 1 {
        let rest = fs.drop_first();
        assert forall|i: int| 0 <= i < rest.len() implies {
            let f = #[trigger] rest[i];
            &&& is_unbroken(f.0)
            &&& is_unbroken(f.1)
            &&& !f.0.contains('=')
        } by {
            assert(rest[i] == fs[i + 1]);
        }
        lemma_fields_have_no_outer_space(rest);
        assert(fields_text(fs).last() == fields_text(rest).last());
    }
}

/// Blanks before a text that has none at its ends are dropped, and nothing else.
pub proof fn lemma_trimmed(s: Seq<char>)
    requires
        s.len() > 0 ==> !is_space(s[0]) && !is_space(s.last()),
    ensures
        trimmed(s) == s,
        trimmed(" "@ + s) == s,
        trimmed(s + " "@) == s,
{
    reveal_strlit(" ");
    reveal_with_fuel(space_len, 3);
    reveal_with_fuel(trim_end, 3);
    assert(s.skip(0) =~= s);
    let a = " "@ + s;
    assert(a.drop_first() =~= s);
    assert(a.skip(1) =~= s);
    let b = s + " "@;
    assert(b.drop_last() =~= s);
    if s.len() > 0 {
        assert(a[0] == ' ');
        assert(b[0] == s[0]);
        assert(b.last() == ' ');
        assert(b.skip(0) =~= b);
    } else {
        assert(a =~= b);
        assert(b[0] == ' ');
        assert(b.drop_first() =~= s);
        assert(b.skip(1) =~= s);
    }
}

/// White space of any kind ends a word and begins none: the words on its two
/// sides are the words of the whole.
pub proof fn lemma_words_on_both_sides(a: Seq<char>, c: char, b: Seq<char>)
    requires
        is_space(c),
    ensures
        words(a + seq![c] + b) == words(a) + words(b),
    decreases a.len(),
{
    let all = a + seq![c] + b;
    if a.len() == 0 {
        assert(all[0] == c);
        assert(all.drop_first() =~= b);
        assert(words(a) + words(b) =~= words(b));
    } else if is_space(a[0]) {
        assert(all[0] == a[0]);
        assert(all.drop_first() =~= a.drop_first() + seq![c] + b);
        lemma_words_on_both_sides(a.drop_first(), c, b);
    } else {
        lemma_word_len_bounds(a);
        let n = word_len(a) as int;
        let w = a.take(n);
        let r = a.skip(n);
        let tail = r + seq![c] + b;
        assert(tail[0] == if r.len() > 0 {
            a[n]
        } else {
            c
        });
        lemma_word_len(w, tail);
        assert(all =~= w + tail);
        assert(all[0] == a[0]);
        assert(all.take(n) =~= w);
        assert(all.skip(n) =~= tail);
        lemma_words_on_both_sides(r, c, b);
        assert(words(all) =~= words(a) + words(b));
    }
}

/// A separator parts the pieces on its two sides, and a text without one is one
/// piece.
pub proof fn lemma_pieces_on_both_sides(a: Seq<char>, c: char, b: Seq<char>)
    ensures
        !a.contains(c) ==> split_on(a, c) == seq![a],
        split_on(a + seq![c] + b, c) == split_on(a, c) + split_on(b, c),
    decreases a.len(),
{
    lemma_find_char(a, c);
    let p = find_char(a, c) as int;
    let all = a + seq![c] + b;
    if p < a.len() {
        let head = a.take(p);
        let rest = a.skip(p + 1);
        let tail = seq![c] + rest + seq![c] + b;
        assert(all =~= head + tail);
        assert(!head.contains(c));
        lemma_find_char_after(head, tail, c);
        assert(all.take(p) =~= head);
        assert(all.skip(p + 1) =~= rest + seq![c] + b);
        lemma_pieces_on_both_sides(rest, c, b);
        assert(split_on(all, c) =~= split_on(a, c) + split_on(b, c));
        assert(a.contains(a[p]));
    } else {
        let tail = seq![c] + b;
        assert(all =~= a + tail);
        assert(!a.contains(c));
        lemma_find_char_after(a, tail, c);
        assert(all.take(p) =~= a);
        assert(all.skip(p + 1) =~= b);
        assert(split_on(all, c) =~= split_on(a, c) + split_on(b, c));
    }
}

/// The first `c` is a `c`, and nothing before it is one.
pub proof fn lemma_find_char(s: Seq<char>, c: char)
    ensures
        find_char(s, c) <= s.len(),
        find_char(s, c) < s.len() ==> s[find_char(s, c) as int] == c,
        forall|i: int| 0 <= i < find_char(s, c) ==> #[trigger] s[i] != c,
    decreases s.len(),
{
    if s.len() > 0 && s[0] != c {
        let t = s.drop_first();
        lemma_find_char(t, c);
        assert forall|i: int| 0 <= i < find_char(s, c) implies #[trigger] s[i] != c by {
            if i > 0 {
                assert(t[i - 1] == s[i]);
            }
        }
    }
}

proof fn lemma_trim_end(s: Seq<char>)
    ensures
        trim_end(s).len() <= s.len(),
        trim_end(s) == s.take(trim_end(s).len() as int),
        trim_end(s).len() > 0 ==> !is_space(trim_end(s).last()),
        forall|i: int| trim_end(s).len() <= i < s.len() ==> is_space(#[trigger] s[i]),
    decreases s.len(),
{
    if s.len() > 0 && is_space(s.last()) {
        let t = s.drop_last();
        lemma_trim_end(t);
        assert(trim_end(s) =~= s.take(trim_end(s).len() as int));
        assert forall|i: int| trim_end(s).len() <= i < s.len() implies is_space(
            #[trigger] s[i],
        ) by {
            if i < t.len() {
                assert(t[i] == s[i]);
            }
        }
    } else {
        assert(s.take(s.len() as int) =~= s);
    }
}

/// What is left of a text without the white space around it stands in it as it
/// is, with nothing but white space before and behind it, and none at its own
/// ends.
pub proof fn lemma_only_outer_space_is_trimmed(s: Seq<char>)
    ensures
        ({
            let t = trimmed(s);
            let from = space_len(s) as int;
            let to = from + t.len();
            &&& to <= s.len()
            &&& t == s.subrange(from, to)
            &&& forall|i: int| 0 <= i < from || to <= i < s.len() ==> is_space(#[trigger] s[i])
            &&& t.len() > 0 ==> !is_space(t[0]) && !is_space(t.last())
        }),
{
    lemma_word_len_bounds(s);
    let from = space_len(s) as int;
    let rest = s.skip(from);
    lemma_trim_end(rest);
    let t = trimmed(s);
    assert(t =~= s.subrange(from, from + t.len()));
    assert forall|i: int| from + t.len() <= i < s.len() implies is_space(#[trigger] s[i]) by {
        assert(rest[i - from] == s[i]);
    }
    if t.len() > 0 {
        assert(t[0] == s[from]);
    }
}

/// Unicode's white space is what separates words: the blank, the tab and the ends
/// of lines among it, and no printable ASCII character.
pub proof fn lemma_white_space(c: char)
    ensures
        is_space(' '),
        is_space('\t'),
        is_space('\n'),
        is_space('\r'),
        33 <= c as u32 <= 126 ==> !is_space(c),
        (c as u32) < 9 ==> !is_space(c),
{
}

/// A text begins with a prefix exactly where it is the prefix and something
/// behind it, and holds another exactly where that stands between two parts.
pub proof fn lemma_prefix_and_part(s: Seq<char>, a: Seq<char>, b: Seq<char>)
    ensures
        has_prefix(a + b, a),
        contains_text(a + s + b, s),
        has_prefix(s, a) ==> s == a + s.skip(a.len() as int),
        contains_text(s, a) ==> exists|x: Seq<char>, y: Seq<char>| s == #[trigger] (x + a + y),
{
    assert((a + b).take(a.len() as int) =~= a);
    let all = a + s + b;
    let k: int = a.len() as int;
    assert(all.subrange(k, k + s.len()) =~= s);
    if has_prefix(s, a) {
        assert(s =~= a + s.skip(a.len() as int));
    }
    if contains_text(s, a) {
        let i = choose|i: int|
            0 <= i <= s.len() - a.len() && #[trigger] s.subrange(i, i + a.len()) == a;
        let x = s.take(i);
        let y = s.skip(i + a.len());
        assert(s =~= x + a + y) by {
            assert forall|j: int| 0 <= j < s.len() implies s[j] == (x + a + y)[j] by {
                if i <= j < i + a.len() {
                    assert(s.subrange(i, i + a.len())[j - i] == s[j]);
                }
            }
        }
    }
}

proof fn lemma_bytes_le_by_first_difference(
    p: Seq<u8>,
    c: u8,
    x: Seq<u8>,
    d: u8,
    y: Seq<u8>,
)
    requires
        c < d,
    ensures
        bytes_le(p + seq![c] + x, p + seq![d] + y),
        !bytes_le(p + seq![d] + y, p + seq![c] + x),
    decreases p.len(),
{
    let a = p + seq![c] + x;
    let b = p + seq![d] + y;
    if p.len() == 0 {
        assert(a[0] == c && b[0] == d);
    } else {
        assert(a[0] == p[0] && b[0] == p[0]);
        assert(a.drop_first() =~= p.drop_first() + seq![c] + x);
        assert(b.drop_first() =~= p.drop_first() + seq![d] + y);
        lemma_bytes_le_by_first_difference(p.drop_first(), c, x, d, y);
    }
}

proof fn lemma_bytes_le_prefix(a: Seq<u8>, x: Seq<u8>)
    ensures
        bytes_le(a, a + x),
        x.len() > 0 ==> !bytes_le(a + x, a),
    decreases a.len(),
{
    if a.len() > 0 {
        assert((a + x)[0] == a[0]);
        assert((a + x).drop_first() =~= a.drop_first() + x);
        lemma_bytes_le_prefix(a.drop_first(), x);
    } else {
        assert(a + x =~= x);
    }
}

/// Texts are ordered by the first place where their bytes differ, the smaller
/// byte first; a text comes before whatever it begins.
pub proof fn lemma_order_of_texts(p: Seq<char>, c: char, x: Seq<char>, d: char, y: Seq<char>)
    requires
        c < d,
        d as u32 <= 127,
    ensures
        text_le(p + seq![c] + x, p + seq![d] + y),
        !text_le(p + seq![d] + y, p + seq![c] + x),
        text_le(p, p + x),
        x.len() > 0 ==> !text_le(p + x, p),
{
    let sc = seq![c];
    let sd = seq![d];
    assert(vstd::utf8::is_ascii_chars(sc));
    assert(vstd::utf8::is_ascii_chars(sd));
    vstd::utf8::is_ascii_chars_encode_utf8(sc);
    vstd::utf8::is_ascii_chars_encode_utf8(sd);
    assert(vstd::utf8::encode_utf8(sc) =~= seq![c as u8]);
    assert(vstd::utf8::encode_utf8(sd) =~= seq![d as u8]);
    crate::text::lemma_encode_concat(p, sc);
    crate::text::lemma_encode_concat(p + sc, x);
    crate::text::lemma_encode_concat(p, sd);
    crate::text::lemma_encode_concat(p + sd, y);
    crate::text::lemma_encode_concat(p, x);
    let bp = vstd::utf8::encode_utf8(p);
    let bx = vstd::utf8::encode_utf8(x);
    lemma_bytes_le_by_first_difference(bp, c as u8, bx, d as u8, vstd::utf8::encode_utf8(y));
    lemma_bytes_le_prefix(bp, bx);
    if x.len() > 0 && bx.len() == 0 {
        let none = Seq::<char>::empty();
        assert(vstd::utf8::is_ascii_chars(none));
        vstd::utf8::is_ascii_chars_encode_utf8(none);
        assert(vstd::utf8::encode_utf8(none) =~= bx);
        crate::text::lemma_encode_injective(x, none);
    }
}

/// A text that is there is that text, and texts are told in their order.
pub proof fn lemma_texts_as_they_are(s: String, v: Seq<String>, i: int)
    requires
        0 <= i < v.len(),
    ensures
        optional_text(Some(s)) == Some(s@),
        optional_text(None) is None,
        optional_str(None) is None,
        texts(v).len() == v.len(),
        texts(v)[i] == v[i]@,
{
}

} // verus!
