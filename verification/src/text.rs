//! Text as a sequence of characters.
//!
//! Everything the vault does with text (trimming, splitting into words, joining,
//! searching) is defined here on `Seq<char>` and implemented on character slices.
use vstd::prelude::*;
use vstd::utf8::{encode_scalar, encode_utf8};

verus! {

/// `String::push` of the standard library: the character is appended to the text.
pub assume_specification[ String::push ](s: &mut String, c: char)
    ensures
        final(s)@ == old(s)@.push(c),
;

/// What `str::to_lowercase` of the standard library makes of a text. The mapping is
/// Unicode's, so it is named here and not spelled out.
pub uninterp spec fn lowercase_of(s: Seq<char>) -> Seq<char>;

/// The lowercase form of an ASCII character.
pub open spec fn ascii_lower(c: char) -> char {
    if 'A' <= c <= 'Z' {
        ((c as u32) + 32) as char
    } else {
        c
    }
}

/// Whether every character is ASCII.
pub open spec fn all_ascii(s: Seq<char>) -> bool {
    forall|i: int| 0 <= i < s.len() ==> (#[trigger] s[i] as u32) < 128
}

/// `str::to_lowercase` of the standard library. The result is the named lowercase form;
/// on ASCII text it maps `A`..`Z` to `a`..`z` and keeps every other character.
#[verifier::external_body]
pub(crate) fn to_lowercase(s: &str) -> (r: String)
    ensures
        r@ == lowercase_of(s@),
        all_ascii(s@) ==> r@ == s@.map_values(|c: char| ascii_lower(c)),
{
    s.to_lowercase()
}

/// Whether `char::is_alphanumeric` of the standard library accepts a character. The
/// property is Unicode's, so it is named here and not spelled out.
pub uninterp spec fn alphanumeric(c: char) -> bool;

/// Whether a character is an ASCII letter or digit.
pub open spec fn ascii_alphanumeric(c: char) -> bool {
    ('a' <= c <= 'z') || ('A' <= c <= 'Z') || ('0' <= c <= '9')
}

/// `char::is_alphanumeric` of the standard library. The result is the named property;
/// of an ASCII character it says that it is a letter or a digit.
#[verifier::external_body]
pub(crate) fn is_alphanumeric(c: char) -> (r: bool)
    ensures
        r == alphanumeric(c),
        (c as u32) < 128 ==> r == ascii_alphanumeric(c),
{
    c.is_alphanumeric()
}

/// The characters with Unicode's `White_Space` property.
pub open spec fn space(c: char) -> bool {
    let u = c as u32;
    ||| 0x9 <= u <= 0xd
    ||| u == 0x20
    ||| u == 0x85
    ||| u == 0xa0
    ||| u == 0x1680
    ||| 0x2000 <= u <= 0x200a
    ||| u == 0x2028
    ||| u == 0x2029
    ||| u == 0x202f
    ||| u == 0x205f
    ||| u == 0x3000
}

/// Whether a character is white space.
pub fn is_space(c: char) -> (r: bool)
    ensures
        r == space(c),
{
    let u: u32 = c as u32;
    (0x9 <= u && u <= 0xd) || u == 0x20 || u == 0x85 || u == 0xa0 || u == 0x1680 || (0x2000 <= u
        && u <= 0x200a) || u == 0x2028 || u == 0x2029 || u == 0x202f || u == 0x205f || u == 0x3000
}

/// The characters of a text.
pub fn chars_of(s: &str) -> (r: Vec<char>)
    ensures
        r@ == s@,
{
    let mut out: Vec<char> = Vec::new();
    for c in it: s.chars()
        invariant
            out@ == s@.take(it.index() as int),
            it.seq() == s@,
    {
        out.push(c);
    }
    proof {
        assert(s@.take(s@.len() as int) =~= s@);
    }
    out
}

/// The text made of the given characters.
pub fn string_of(v: &[char]) -> (r: String)
    ensures
        r@ == v@,
{
    let mut out = String::new();
    let mut i: usize = 0;
    while i < v.len()
        invariant
            i <= v.len(),
            out@ == v@.take(i as int),
        decreases v.len() - i,
    {
        out.push(v[i]);
        proof {
            assert(v@.take(i + 1) =~= v@.take(i as int).push(v@[i as int]));
        }
        i += 1;
    }
    proof {
        assert(v@.take(v@.len() as int) =~= v@);
    }
    out
}

/// A copy of the characters from `from` up to `to`.
pub fn slice(v: &[char], from: usize, to: usize) -> (r: Vec<char>)
    requires
        from <= to <= v@.len(),
    ensures
        r@ == v@.subrange(from as int, to as int),
{
    let mut out: Vec<char> = Vec::new();
    let mut i: usize = from;
    while i < to
        invariant
            from <= i <= to <= v@.len(),
            out@ == v@.subrange(from as int, i as int),
        decreases to - i,
    {
        out.push(v[i]);
        proof {
            assert(v@.subrange(from as int, i + 1) =~= v@.subrange(from as int, i as int).push(
                v@[i as int],
            ));
        }
        i += 1;
    }
    out
}

/// Whether two character slices hold the same text.
pub fn same(a: &[char], b: &[char]) -> (r: bool)
    ensures
        r == (a@ == b@),
{
    if a.len() != b.len() {
        return false;
    }
    let mut i: usize = 0;
    while i < a.len()
        invariant
            a@.len() == b@.len(),
            i <= a@.len(),
            forall|j: int| 0 <= j < i ==> a@[j] == b@[j],
        decreases a@.len() - i,
    {
        if a[i] != b[i] {
            return false;
        }
        i += 1;
    }
    proof {
        assert(a@ =~= b@);
    }
    true
}

/// Whether two texts are equal.
pub fn text_eq(a: &str, b: &str) -> (r: bool)
    ensures
        r == (a@ == b@),
{
    let x = a.as_bytes();
    let y = b.as_bytes();
    proof {
        vstd::utf8::encode_utf8_decode_utf8(a@);
        vstd::utf8::encode_utf8_decode_utf8(b@);
    }
    if x.len() != y.len() {
        return false;
    }
    let mut i: usize = 0;
    while i < x.len()
        invariant
            x@.len() == y@.len(),
            i <= x@.len(),
            x@ == encode_utf8(a@),
            y@ == encode_utf8(b@),
            forall|j: int| 0 <= j < i ==> x@[j] == y@[j],
        decreases x@.len() - i,
    {
        if x[i] != y[i] {
            return false;
        }
        i += 1;
    }
    proof {
        assert(x@ =~= y@);
    }
    true
}

/// Whether `s` starts with `p`.
pub open spec fn starts_with(s: Seq<char>, p: Seq<char>) -> bool {
    p.len() <= s.len() && s.take(p.len() as int) == p
}

/// Whether `s` starts with `p`.
pub fn has_prefix(s: &[char], p: &[char]) -> (r: bool)
    ensures
        r == starts_with(s@, p@),
{
    if p.len() > s.len() {
        return false;
    }
    let mut i: usize = 0;
    while i < p.len()
        invariant
            p@.len() <= s@.len(),
            i <= p@.len(),
            forall|j: int| 0 <= j < i ==> s@[j] == p@[j],
        decreases p@.len() - i,
    {
        if s[i] != p[i] {
            proof {
                assert(s@.take(p@.len() as int)[i as int] == s@[i as int]);
            }
            return false;
        }
        i += 1;
    }
    proof {
        assert(s@.take(p@.len() as int) =~= p@);
    }
    true
}

/// Whether `p` occurs in `s` at position `i`.
pub open spec fn occurs_at(s: Seq<char>, p: Seq<char>, i: int) -> bool {
    0 <= i && i + p.len() <= s.len() && s.subrange(i, i + p.len()) == p
}

/// Whether `p` occurs in `s`.
pub open spec fn occurs_in(s: Seq<char>, p: Seq<char>) -> bool {
    exists|i: int| occurs_at(s, p, i)
}

fn matches_at(s: &[char], p: &[char], at: usize) -> (r: bool)
    requires
        at + p@.len() <= s@.len(),
    ensures
        r == occurs_at(s@, p@, at as int),
{
    let n = s.len();
    let mut i: usize = 0;
    while i < p.len()
        invariant
            n == s@.len(),
            at + p@.len() <= n,
            i <= p@.len(),
            forall|j: int| 0 <= j < i ==> s@[at + j] == p@[j],
        decreases p@.len() - i,
    {
        if s[at + i] != p[i] {
            proof {
                assert(s@.subrange(at as int, at + p@.len())[i as int] == s@[at + i]);
            }
            return false;
        }
        i += 1;
    }
    proof {
        assert(s@.subrange(at as int, at + p@.len()) =~= p@);
    }
    true
}

/// The first position from `from` on at which `p` occurs.
pub fn find_from(s: &[char], p: &[char], from: usize) -> (r: Option<usize>)
    requires
        from <= s@.len(),
    ensures
        match r {
            Some(i) => from <= i && occurs_at(s@, p@, i as int) && forall|j: int|
                from <= j < i ==> !occurs_at(s@, p@, j),
            None => forall|j: int| from <= j ==> !occurs_at(s@, p@, j),
        },
{
    let mut i: usize = from;
    while i <= s.len() && p.len() <= s.len() - i
        invariant
            from <= i <= s@.len() + 1,
            forall|j: int| from <= j < i ==> !occurs_at(s@, p@, j),
        decreases s@.len() + 1 - i,
    {
        if matches_at(s, p, i) {
            return Some(i);
        }
        if i == s.len() {
            return None;
        }
        i += 1;
    }
    None
}

/// Whether `p` occurs in `s`.
pub fn contains(s: &[char], p: &[char]) -> (r: bool)
    ensures
        r == occurs_in(s@, p@),
{
    let found = find_from(s, p, 0);
    proof {
        if found is None {
            assert forall|i: int| !occurs_at(s@, p@, i) by {}
        }
    }
    found.is_some()
}

/// The text without its leading white space.
pub open spec fn trim_front(s: Seq<char>) -> Seq<char>
    decreases s.len(),
{
    if s.len() > 0 && space(s[0]) {
        trim_front(s.drop_first())
    } else {
        s
    }
}

/// The text without its trailing white space.
pub open spec fn trim_back(s: Seq<char>) -> Seq<char>
    decreases s.len(),
{
    if s.len() > 0 && space(s.last()) {
        trim_back(s.drop_last())
    } else {
        s
    }
}

/// The text without its leading and trailing white space.
pub open spec fn trimmed(s: Seq<char>) -> Seq<char> {
    trim_back(trim_front(s))
}

/// Position of the first character that is not white space.
fn front(v: &[char]) -> (r: usize)
    ensures
        r <= v@.len(),
        v@.skip(r as int) == trim_front(v@),
        r < v@.len() ==> !space(v@[r as int]),
{
    let mut i: usize = 0;
    proof {
        assert(v@.skip(0) =~= v@);
    }
    while i < v.len() && is_space(v[i])
        invariant
            i <= v@.len(),
            trim_front(v@.skip(i as int)) == trim_front(v@),
        decreases v@.len() - i,
    {
        proof {
            assert(v@.skip(i as int).drop_first() =~= v@.skip(i + 1));
        }
        i += 1;
    }
    i
}

/// Position behind the last character that is not white space.
fn back(v: &[char]) -> (r: usize)
    ensures
        r <= v@.len(),
        v@.take(r as int) == trim_back(v@),
{
    let mut i: usize = v.len();
    proof {
        assert(v@.take(v@.len() as int) =~= v@);
    }
    while i > 0 && is_space(v[i - 1])
        invariant
            i <= v@.len(),
            trim_back(v@.take(i as int)) == trim_back(v@),
        decreases i,
    {
        proof {
            assert(v@.take(i as int).drop_last() =~= v@.take(i - 1));
        }
        i -= 1;
    }
    i
}

/// The text without its leading white space.
pub fn trim_start(v: &[char]) -> (r: Vec<char>)
    ensures
        r@ == trim_front(v@),
{
    let i = front(v);
    slice(v, i, v.len())
}

/// The text without its leading and trailing white space.
pub fn trim(v: &[char]) -> (r: Vec<char>)
    ensures
        r@ == trimmed(v@),
{
    let t = trim_start(v);
    let j = back(t.as_slice());
    slice(t.as_slice(), 0, j)
}

/// How many characters the text has before its first white space.
pub open spec fn word_len(s: Seq<char>) -> nat
    decreases s.len(),
{
    if s.len() > 0 && !space(s[0]) {
        1 + word_len(s.drop_first())
    } else {
        0
    }
}

pub proof fn lemma_word_len(s: Seq<char>)
    ensures
        word_len(s) <= s.len(),
        s.len() > 0 && !space(s[0]) ==> word_len(s) > 0,
        word_len(s) < s.len() ==> space(s[word_len(s) as int]),
        forall|i: int| 0 <= i < word_len(s) ==> !space(s[i]),
    decreases s.len(),
{
    if s.len() > 0 && !space(s[0]) {
        lemma_word_len(s.drop_first());
        assert forall|i: int| 0 <= i < word_len(s) implies !space(s[i]) by {
            if i > 0 {
                assert(s[i] == s.drop_first()[i - 1]);
            }
        }
    }
}

/// The maximal runs of characters between white space, in order.
pub open spec fn words(s: Seq<char>) -> Seq<Seq<char>>
    decreases s.len(),
{
    if s.len() == 0 {
        Seq::empty()
    } else if space(s[0]) {
        words(s.drop_first())
    } else {
        proof {
            lemma_word_len(s);
        }
        let n = word_len(s) as int;
        seq![s.take(n)] + words(s.skip(n))
    }
}

/// The views of a list of texts.
pub open spec fn views(v: Seq<Vec<char>>) -> Seq<Seq<char>> {
    v.map_values(|w: Vec<char>| w@)
}

/// The views of a list of strings.
pub open spec fn texts(v: Seq<String>) -> Seq<Seq<char>> {
    v.map_values(|s: String| s@)
}

/// The view of an optional string.
pub open spec fn opt_text(s: Option<String>) -> Option<Seq<char>> {
    match s {
        Some(t) => Some(t@),
        None => None,
    }
}

fn word_end(v: &[char], from: usize) -> (r: usize)
    requires
        from < v@.len(),
        !space(v@[from as int]),
    ensures
        from < r <= v@.len(),
        r - from == word_len(v@.skip(from as int)),
{
    let mut i: usize = from;
    proof {
        lemma_word_len(v@.skip(from as int));
    }
    while i < v.len() && !is_space(v[i])
        invariant
            from <= i <= v@.len(),
            word_len(v@.skip(from as int)) == (i - from) + word_len(v@.skip(i as int)),
        decreases v@.len() - i,
    {
        proof {
            assert(v@.skip(i as int).drop_first() =~= v@.skip(i + 1));
        }
        i += 1;
    }
    i
}

/// The words of a text: its maximal runs without white space.
pub fn split_words(v: &[char]) -> (r: Vec<Vec<char>>)
    ensures
        views(r@) == words(v@),
{
    let mut out: Vec<Vec<char>> = Vec::new();
    let mut i: usize = 0;
    proof {
        assert(v@.skip(0) =~= v@);
        assert(views(out@) + words(v@) =~= words(v@));
    }
    while i < v.len()
        invariant
            i <= v@.len(),
            views(out@) + words(v@.skip(i as int)) == words(v@),
        decreases v@.len() - i,
    {
        if is_space(v[i]) {
            proof {
                assert(v@.skip(i as int).drop_first() =~= v@.skip(i + 1));
            }
            i += 1;
        } else {
            let end = word_end(v, i);
            let word = slice(v, i, end);
            proof {
                let rest = v@.skip(i as int);
                let n = word_len(rest) as int;
                assert(rest.take(n) =~= word@);
                assert(rest.skip(n) =~= v@.skip(end as int));
                assert(views(out@.push(word)) =~= views(out@).push(word@));
                assert(views(out@).push(word@) + words(v@.skip(end as int)) =~= views(out@) + (
                seq![word@] + words(v@.skip(end as int))));
            }
            out.push(word);
            i = end;
        }
    }
    proof {
        assert(v@.skip(v@.len() as int) =~= Seq::<char>::empty());
        assert(views(out@) + Seq::<Seq<char>>::empty() =~= views(out@));
    }
    out
}

/// The parts one after another, with `sep` between neighbours.
pub open spec fn joined(parts: Seq<Seq<char>>, sep: Seq<char>) -> Seq<char>
    decreases parts.len(),
{
    if parts.len() == 0 {
        Seq::empty()
    } else if parts.len() == 1 {
        parts[0]
    } else {
        joined(parts.drop_last(), sep) + sep + parts.last()
    }
}

/// Appends all of `more` to `out`.
pub fn append_chars(out: &mut Vec<char>, more: &[char])
    ensures
        final(out)@ == old(out)@ + more@,
{
    let mut i: usize = 0;
    let ghost start = out@;
    proof {
        assert(start + more@.take(0) =~= start);
    }
    while i < more.len()
        invariant
            i <= more@.len(),
            out@ == start + more@.take(i as int),
        decreases more@.len() - i,
    {
        out.push(more[i]);
        proof {
            assert(start + more@.take(i + 1) =~= (start + more@.take(i as int)).push(
                more@[i as int],
            ));
        }
        i += 1;
    }
    proof {
        assert(more@.take(more@.len() as int) =~= more@);
    }
}

/// The parts one after another, with `sep` between neighbours.
pub fn join(parts: &Vec<Vec<char>>, sep: &[char]) -> (r: Vec<char>)
    ensures
        r@ == joined(views(parts@), sep@),
{
    let mut out: Vec<char> = Vec::new();
    let mut i: usize = 0;
    while i < parts.len()
        invariant
            i <= parts@.len(),
            out@ == joined(views(parts@).take(i as int), sep@),
        decreases parts@.len() - i,
    {
        if i > 0 {
            append_chars(&mut out, sep);
        }
        append_chars(&mut out, parts[i].as_slice());
        proof {
            let upto = views(parts@).take(i + 1);
            assert(upto.drop_last() =~= views(parts@).take(i as int));
            assert(upto.last() == parts@[i as int]@);
            if i == 0 {
                assert(views(parts@).take(0) =~= Seq::empty());
                assert(out@ =~= parts@[0]@);
            }
        }
        i += 1;
    }
    proof {
        assert(views(parts@).take(parts@.len() as int) =~= views(parts@));
    }
    out
}

/// How many bytes a text takes in UTF-8.
pub open spec fn byte_len(s: Seq<char>) -> nat {
    encode_utf8(s).len()
}

proof fn lemma_byte_len_push(s: Seq<char>, c: char)
    ensures
        byte_len(s.push(c)) == byte_len(s) + encode_scalar(c as u32).len(),
    decreases s.len(),
{
    if s.len() == 0 {
        reveal_with_fuel(encode_utf8, 2);
        assert(s.push(c).drop_first() =~= Seq::<char>::empty());
    } else {
        assert(s.push(c).drop_first() =~= s.drop_first().push(c));
        lemma_byte_len_push(s.drop_first(), c);
    }
}

fn char_bytes(c: char) -> (r: usize)
    ensures
        r == encode_scalar(c as u32).len(),
        1 <= r <= 4,
{
    let u: u32 = c as u32;
    if u < 0x80 {
        1
    } else if u < 0x800 {
        2
    } else if u < 0x10000 {
        3
    } else {
        4
    }
}

/// Whether the text takes exactly `n` bytes in UTF-8.
pub fn has_byte_len(v: &[char], n: usize) -> (r: bool)
    ensures
        r == (byte_len(v@) == n),
{
    let mut left: usize = n;
    let mut i: usize = 0;
    proof {
        assert(byte_len(v@.take(0)) == 0);
        assert(v@.take(v@.len() as int) =~= v@);
    }
    while i < v.len()
        invariant
            i <= v@.len(),
            left <= n,
            byte_len(v@.take(i as int)) == n - left,
            v@.take(v@.len() as int) =~= v@,
        decreases v@.len() - i,
    {
        let w = char_bytes(v[i]);
        proof {
            lemma_byte_len_push(v@.take(i as int), v@[i as int]);
            assert(v@.take(i + 1) =~= v@.take(i as int).push(v@[i as int]));
            lemma_byte_len_monotone(v@, i + 1);
        }
        if w > left {
            return false;
        }
        left -= w;
        i += 1;
    }
    left == 0
}

proof fn lemma_byte_len_monotone(s: Seq<char>, n: int)
    requires
        0 <= n <= s.len(),
    ensures
        byte_len(s.take(n)) <= byte_len(s),
        s.len() <= byte_len(s),
    decreases s.len(),
{
    if s.len() == 0 {
        assert(s.take(n) =~= s);
    } else {
        let p = s.drop_last();
        assert(p.push(s.last()) =~= s);
        lemma_byte_len_push(p, s.last());
        if n == s.len() {
            assert(s.take(n) =~= s);
            lemma_byte_len_monotone(p, 0);
        } else {
            lemma_byte_len_monotone(p, n);
            assert(p.take(n) =~= s.take(n));
        }
    }
}

/// Whether the characters spell out `t`.
pub fn is_text(v: &[char], t: &str) -> (r: bool)
    ensures
        r == (v@ == t@),
{
    let w = chars_of(t);
    same(v, w.as_slice())
}

/// Whether the characters start with `t`.
pub fn begins(v: &[char], t: &str) -> (r: bool)
    ensures
        r == starts_with(v@, t@),
{
    let w = chars_of(t);
    has_prefix(v, w.as_slice())
}

/// Where `c` stands first in `s`; the length of `s` when it does not occur.
pub open spec fn first_index(s: Seq<char>, c: char) -> int
    decreases s.len(),
{
    if s.len() == 0 || s[0] == c {
        0
    } else {
        1 + first_index(s.drop_first(), c)
    }
}

pub proof fn lemma_first_index(s: Seq<char>, c: char)
    ensures
        0 <= first_index(s, c) <= s.len(),
        first_index(s, c) < s.len() ==> s[first_index(s, c)] == c,
        forall|j: int| 0 <= j < first_index(s, c) ==> s[j] != c,
    decreases s.len(),
{
    if s.len() > 0 && s[0] != c {
        lemma_first_index(s.drop_first(), c);
        let n = first_index(s, c);
        assert forall|j: int| 0 <= j < n implies s[j] != c by {
            if j > 0 {
                assert(s[j] == s.drop_first()[j - 1]);
            }
        }
    }
}

/// A position that holds `c` behind characters that are not `c` is the first one.
pub proof fn lemma_first_index_is(s: Seq<char>, c: char, n: int)
    requires
        0 <= n <= s.len(),
        n < s.len() ==> s[n] == c,
        forall|j: int| 0 <= j < n ==> s[j] != c,
    ensures
        first_index(s, c) == n,
{
    lemma_first_index(s, c);
    let k = first_index(s, c);
    if k < n {
        assert(s[k] != c);
    } else if n < k {
        assert(s[n] != c);
    }
}

/// Where `c` stands first; the length when it does not occur.
pub fn index_of(v: &[char], c: char) -> (r: usize)
    ensures
        r == first_index(v@, c),
        r <= v@.len(),
        r < v@.len() ==> v@[r as int] == c,
        forall|j: int| 0 <= j < r ==> v@[j] != c,
{
    let mut i: usize = 0;
    proof {
        assert(v@.skip(0) =~= v@);
    }
    while i < v.len() && v[i] != c
        invariant
            i <= v@.len(),
            i + first_index(v@.skip(i as int), c) == first_index(v@, c),
            forall|j: int| 0 <= j < i ==> v@[j] != c,
        decreases v@.len() - i,
    {
        proof {
            assert(v@.skip(i as int).drop_first() =~= v@.skip(i + 1));
        }
        i += 1;
    }
    i
}

/// The first position at which `p` occurs in `s`.
pub open spec fn first_occurrence(s: Seq<char>, p: Seq<char>) -> int {
    choose|i: int| occurs_at(s, p, i) && forall|j: int| 0 <= j < i ==> !occurs_at(s, p, j)
}

pub proof fn lemma_first_occurrence(s: Seq<char>, p: Seq<char>, i: int)
    requires
        occurs_at(s, p, i),
        forall|j: int| 0 <= j < i ==> !occurs_at(s, p, j),
    ensures
        first_occurrence(s, p) == i,
{
    let k = first_occurrence(s, p);
    assert(occurs_at(s, p, k) && forall|j: int| 0 <= j < k ==> !occurs_at(s, p, j));
    if k < i {
        assert(!occurs_at(s, p, k));
    } else if i < k {
        assert(!occurs_at(s, p, i));
    }
}

/// The first occurrence at or before a known one.
pub proof fn lemma_occurrence_exists(s: Seq<char>, p: Seq<char>, at: int) -> (i: int)
    requires
        occurs_at(s, p, at),
    ensures
        0 <= i <= at,
        occurs_at(s, p, i),
        forall|j: int| 0 <= j < i ==> !occurs_at(s, p, j),
    decreases at,
{
    if exists|j: int| 0 <= j < at && occurs_at(s, p, j) {
        let j = choose|j: int| 0 <= j < at && occurs_at(s, p, j);
        lemma_occurrence_exists(s, p, j)
    } else {
        at
    }
}

/// The parts of `s` between the occurrences of a separator, read from the left.
pub open spec fn pieces(s: Seq<char>, sep: Seq<char>) -> Seq<Seq<char>>
    decreases s.len(),
{
    if sep.len() > 0 && occurs_in(s, sep) {
        let i = first_occurrence(s, sep);
        proof {
            let at = choose|i: int| occurs_at(s, sep, i);
            let first = lemma_occurrence_exists(s, sep, at);
            lemma_first_occurrence(s, sep, first);
        }
        seq![s.take(i)] + pieces(s.skip(i + sep.len()), sep)
    } else {
        seq![s]
    }
}

proof fn lemma_pieces_found(s: Seq<char>, sep: Seq<char>, i: int)
    requires
        sep.len() > 0,
        occurs_at(s, sep, i),
        forall|j: int| 0 <= j < i ==> !occurs_at(s, sep, j),
    ensures
        pieces(s, sep) == seq![s.take(i)] + pieces(s.skip(i + sep.len()), sep),
{
    assert(occurs_in(s, sep));
    lemma_first_occurrence(s, sep, i);
}

proof fn lemma_pieces_last(s: Seq<char>, sep: Seq<char>)
    requires
        forall|j: int| 0 <= j ==> !occurs_at(s, sep, j),
    ensures
        pieces(s, sep) == seq![s],
{
    if occurs_in(s, sep) {
        let i = choose|i: int| occurs_at(s, sep, i);
        assert(occurs_at(s, sep, i));
        assert(0 <= i);
    }
}

proof fn lemma_views_push(v: Seq<Vec<char>>, w: Vec<char>, more: Seq<Seq<char>>)
    ensures
        views(v.push(w)) == views(v).push(w@),
        views(v.push(w)) + more == views(v) + (seq![w@] + more),
{
    assert(views(v.push(w)) =~= views(v).push(w@));
    assert(views(v.push(w)) + more =~= views(v) + (seq![w@] + more));
}

/// The parts between the occurrences of a separator, read from the left.
pub fn split_on(v: &[char], sep: &[char]) -> (r: Vec<Vec<char>>)
    requires
        sep@.len() > 0,
    ensures
        views(r@) == pieces(v@, sep@),
{
    let mut out: Vec<Vec<char>> = Vec::new();
    let mut rest: Vec<char> = slice(v, 0, v.len());
    proof {
        assert(rest@ =~= v@);
        assert(views(out@) + pieces(v@, sep@) =~= pieces(v@, sep@));
    }
    loop
        invariant
            sep@.len() > 0,
            views(out@) + pieces(rest@, sep@) == pieces(v@, sep@),
        decreases rest@.len(),
    {
        let n: usize = rest.len();
        match find_from(rest.as_slice(), sep, 0) {
            Some(i) => {
                assert(i + sep@.len() <= n);
                let part = slice(rest.as_slice(), 0, i);
                let next = slice(rest.as_slice(), i + sep.len(), n);
                proof {
                    lemma_pieces_found(rest@, sep@, i as int);
                    assert(part@ =~= rest@.take(i as int));
                    assert(next@ =~= rest@.skip(i + sep@.len()));
                    lemma_views_push(out@, part, pieces(next@, sep@));
                }
                out.push(part);
                rest = next;
            },
            None => {
                proof {
                    lemma_pieces_last(rest@, sep@);
                    lemma_views_push(out@, rest, Seq::empty());
                    assert(seq![rest@] + Seq::<Seq<char>>::empty() =~= seq![rest@]);
                    assert(views(out@.push(rest)) + Seq::<Seq<char>>::empty() =~= views(
                        out@.push(rest),
                    ));
                }
                out.push(rest);
                return out;
            },
        }
    }
}

pub proof fn lemma_trim_front(s: Seq<char>)
    ensures
        trim_front(s).len() <= s.len(),
        trim_front(s) == s.skip(s.len() - trim_front(s).len()),
        trim_front(s).len() > 0 ==> !space(trim_front(s)[0]),
    decreases s.len(),
{
    if s.len() > 0 && space(s[0]) {
        lemma_trim_front(s.drop_first());
        let t = trim_front(s);
        assert(s.drop_first().skip(s.len() - 1 - t.len()) =~= s.skip(s.len() - t.len()));
    } else {
        assert(s.skip(0) =~= s);
    }
}

proof fn lemma_trim_back(s: Seq<char>)
    ensures
        trim_back(s).len() <= s.len(),
        trim_back(s) == s.take(trim_back(s).len() as int),
        trim_back(s).len() > 0 ==> !space(trim_back(s).last()),
    decreases s.len(),
{
    if s.len() > 0 && space(s.last()) {
        lemma_trim_back(s.drop_last());
        let t = trim_back(s);
        assert(s.drop_last().take(t.len() as int) =~= s.take(t.len() as int));
    } else {
        assert(s.take(s.len() as int) =~= s);
    }
}

/// A text that starts with no white space keeps its start.
proof fn lemma_trim_back_start(s: Seq<char>)
    requires
        s.len() > 0,
        !space(s[0]),
    ensures
        trim_back(s).len() > 0,
        trim_back(s)[0] == s[0],
    decreases s.len(),
{
    if space(s.last()) {
        lemma_trim_back_start(s.drop_last());
    }
}

/// Trimming what is already trimmed changes nothing.
pub proof fn lemma_trimmed_fixed(s: Seq<char>)
    requires
        s.len() > 0 ==> !space(s[0]) && !space(s.last()),
    ensures
        trimmed(s) == s,
{
}

/// Nothing is left to trim from a trimmed text.
pub proof fn lemma_trimmed_ends(s: Seq<char>)
    ensures
        trimmed(s).len() > 0 ==> !space(trimmed(s)[0]) && !space(trimmed(s).last()),
{
    lemma_trim_front(s);
    lemma_trim_back(trim_front(s));
    if trim_front(s).len() > 0 {
        lemma_trim_back_start(trim_front(s));
    }
}

/// It does not matter which end is trimmed first.
pub proof fn lemma_trim_ends_commute(s: Seq<char>)
    ensures
        trim_front(trim_back(s)) == trim_back(trim_front(s)),
    decreases s.len(),
{
    if s.len() > 0 {
        if space(s[0]) {
            let rest = s.drop_first();
            lemma_trim_ends_commute(rest);
            lemma_trim_back_first(s);
        } else {
            lemma_trim_back_start(s);
            assert(trim_front(s) == s);
            assert(trim_front(trim_back(s)) == trim_back(s));
        }
    }
}

/// Trimming the back of a text that starts with white space leaves either nothing or that white
/// space in front of the trimmed rest.
proof fn lemma_trim_back_first(s: Seq<char>)
    requires
        s.len() > 0,
        space(s[0]),
    ensures
        trim_front(trim_back(s)) == trim_front(trim_back(s.drop_first())),
    decreases s.len(),
{
    let rest = s.drop_first();
    if space(s.last()) {
        if s.len() == 1 {
            assert(s.drop_last() =~= Seq::<char>::empty());
            assert(rest =~= Seq::<char>::empty());
            assert(trim_back(s) == trim_back(s.drop_last()));
        } else {
            lemma_trim_back_first(s.drop_last());
            assert(s.drop_last().drop_first() =~= rest.drop_last());
            assert(rest.last() == s.last());
        }
    } else {
        assert(s.len() > 1);
        assert(rest.last() == s.last());
        assert(trim_back(s) == s && trim_back(rest) == rest);
    }
}

/// White space in front of a text does not change what trimming leaves.
pub proof fn lemma_trim_front_pads(pad: Seq<char>, s: Seq<char>)
    requires
        forall|i: int| 0 <= i < pad.len() ==> space(#[trigger] pad[i]),
    ensures
        trim_front(pad + s) == trim_front(s),
    decreases pad.len(),
{
    if pad.len() == 0 {
        assert(pad + s =~= s);
    } else {
        assert(space(pad[0]));
        assert((pad + s).drop_first() =~= pad.drop_first() + s);
        lemma_trim_front_pads(pad.drop_first(), s);
    }
}

/// Trimming the back of a text with a part before it that does not end in white space trims only
/// the text.
pub proof fn lemma_trim_back_behind(head: Seq<char>, s: Seq<char>)
    requires
        head.len() > 0,
        !space(head.last()),
    ensures
        trim_back(head + s) == head + trim_back(s),
    decreases s.len(),
{
    if s.len() == 0 {
        assert(head + s =~= head);
        assert(head + trim_back(s) =~= head);
    } else if space(s.last()) {
        assert((head + s).drop_last() =~= head + s.drop_last());
        lemma_trim_back_behind(head, s.drop_last());
    } else {
        assert((head + s).last() == s.last());
    }
}

/// The decimal digits of a number.
pub open spec fn decimal(n: nat) -> Seq<char>
    decreases n,
{
    if n < 10 {
        seq![(48 + n) as char]
    } else {
        decimal(n / 10).push((48 + n % 10) as char)
    }
}

/// The decimal digits of a number.
pub fn decimal_text(n: u64) -> (r: String)
    ensures
        r@ == decimal(n as nat),
    decreases n,
{
    let low: u8 = (n % 10) as u8;
    if n < 10 {
        let mut out = String::new();
        out.push((48 + low) as char);
        assert(out@ =~= decimal(n as nat));
        out
    } else {
        let mut out = decimal_text(n / 10);
        out.push((48 + low) as char);
        out
    }
}

/// Two texts one after the other.
pub fn concat(a: &str, b: &str) -> (r: String)
    ensures
        r@ == a@ + b@,
{
    let mut out = a.to_string();
    out.append(b);
    out
}

/// Three texts one after the other.
pub fn concat3(a: &str, b: &str, c: &str) -> (r: String)
    ensures
        r@ == a@ + b@ + c@,
{
    let mut out = a.to_string();
    out.append(b);
    out.append(c);
    out
}

/// The texts one after another, with `sep` between neighbours.
pub fn join_texts(parts: &Vec<String>, sep: &str) -> (r: String)
    ensures
        r@ == joined(texts(parts@), sep@),
{
    let mut split: Vec<Vec<char>> = Vec::new();
    let mut i: usize = 0;
    while i < parts.len()
        invariant
            i <= parts@.len(),
            views(split@) == texts(parts@).take(i as int),
        decreases parts@.len() - i,
    {
        let next = chars_of(parts[i].as_str());
        proof {
            assert(views(split@.push(next)) =~= views(split@).push(next@));
            assert(texts(parts@).take(i + 1) =~= texts(parts@).take(i as int).push(
                texts(parts@)[i as int],
            ));
        }
        split.push(next);
        i += 1;
    }
    proof {
        assert(texts(parts@).take(parts@.len() as int) =~= texts(parts@));
    }
    let gap = chars_of(sep);
    let all = join(&split, gap.as_slice());
    string_of(all.as_slice())
}

/// A copy of a list of texts.
pub fn clone_texts(list: &Vec<String>) -> (r: Vec<String>)
    ensures
        texts(r@) == texts(list@),
        r@.len() == list@.len(),
{
    let mut out: Vec<String> = Vec::new();
    let mut i: usize = 0;
    while i < list.len()
        invariant
            i <= list@.len(),
            out@.len() == i,
            forall|j: int| 0 <= j < i ==> #[trigger] out@[j]@ == list@[j]@,
        decreases list@.len() - i,
    {
        out.push(list[i].clone());
        i += 1;
    }
    assert(texts(out@) =~= texts(list@));
    out
}

/// A copy of an optional text.
pub fn clone_opt(s: &Option<String>) -> (r: Option<String>)
    ensures
        opt_text(r) == opt_text(*s),
{
    match s {
        Some(t) => Some(t.clone()),
        None => None,
    }
}

/// Whether `a` comes before `b` in the dictionary, or is the same text.
pub open spec fn dictionary_le(a: Seq<char>, b: Seq<char>) -> bool
    decreases a.len(),
{
    if a.len() == 0 {
        true
    } else if b.len() == 0 {
        false
    } else if a[0] != b[0] {
        a[0] < b[0]
    } else {
        dictionary_le(a.drop_first(), b.drop_first())
    }
}

pub proof fn lemma_dictionary_total(a: Seq<char>, b: Seq<char>)
    ensures
        dictionary_le(a, b) || dictionary_le(b, a),
        dictionary_le(a, b) && dictionary_le(b, a) ==> a == b,
        dictionary_le(a, a),
    decreases a.len(),
{
    if a.len() > 0 {
        if b.len() > 0 {
            lemma_dictionary_total(a.drop_first(), b.drop_first());
            if dictionary_le(a, b) && dictionary_le(b, a) {
                assert(a =~= seq![a[0]] + a.drop_first());
                assert(b =~= seq![b[0]] + b.drop_first());
            }
        } else {
            lemma_dictionary_total(a.drop_first(), b);
        }
    } else if b.len() == 0 {
        assert(a =~= b);
    }
}

pub proof fn lemma_dictionary_transitive(a: Seq<char>, b: Seq<char>, c: Seq<char>)
    requires
        dictionary_le(a, b),
        dictionary_le(b, c),
    ensures
        dictionary_le(a, c),
    decreases a.len(),
{
    if a.len() > 0 && b.len() > 0 && c.len() > 0 && a[0] == b[0] && b[0] == c[0] {
        lemma_dictionary_transitive(a.drop_first(), b.drop_first(), c.drop_first());
    }
}

/// Whether `a` comes before `b` in the dictionary, or is the same text.
pub fn in_order(a: &str, b: &str) -> (r: bool)
    ensures
        r == dictionary_le(a@, b@),
{
    let x = chars_of(a);
    let y = chars_of(b);
    let mut i: usize = 0;
    proof {
        assert(x@.skip(0) =~= x@);
        assert(y@.skip(0) =~= y@);
    }
    while i < x.len() && i < y.len()
        invariant
            x@ == a@,
            y@ == b@,
            i <= x@.len(),
            i <= y@.len(),
            dictionary_le(x@.skip(i as int), y@.skip(i as int)) == dictionary_le(x@, y@),
        decreases x@.len() - i,
    {
        proof {
            assert(x@.skip(i as int)[0] == x@[i as int]);
            assert(y@.skip(i as int)[0] == y@[i as int]);
        }
        if x[i] != y[i] {
            return x[i] < y[i];
        }
        proof {
            assert(x@.skip(i as int).drop_first() =~= x@.skip(i + 1));
            assert(y@.skip(i as int).drop_first() =~= y@.skip(i + 1));
        }
        i += 1;
    }
    i == x.len()
}

/// Whether a text is one run of characters without white space.
pub open spec fn solid(w: Seq<char>) -> bool {
    w.len() > 0 && forall|i: int| 0 <= i < w.len() ==> !space(#[trigger] w[i])
}

proof fn lemma_solid_word_len(w: Seq<char>, rest: Seq<char>)
    requires
        solid(w),
        rest.len() > 0 ==> space(rest[0]),
    ensures
        word_len(w + rest) == w.len(),
    decreases w.len(),
{
    reveal_with_fuel(word_len, 2);
    let s = w + rest;
    assert(s[0] == w[0]);
    assert(s.drop_first() =~= w.drop_first() + rest);
    if w.len() > 1 {
        assert forall|i: int| 0 <= i < w.drop_first().len() implies !space(
            #[trigger] w.drop_first()[i],
        ) by {
            assert(w.drop_first()[i] == w[i + 1]);
        }
        lemma_solid_word_len(w.drop_first(), rest);
    } else {
        assert(s.drop_first() =~= rest);
    }
}

/// A run of characters without white space is one word, whatever stands behind the white space
/// that ends it.
pub proof fn law_run_is_one_word(w: Seq<char>, rest: Seq<char>)
    requires
        solid(w),
        rest.len() > 0 ==> space(rest[0]),
    ensures
        words(w + rest) == seq![w] + words(rest),
        words(w) == seq![w],
{
    lemma_solid_word_len(w, rest);
    assert((w + rest)[0] == w[0]);
    assert((w + rest).take(w.len() as int) =~= w);
    assert((w + rest).skip(w.len() as int) =~= rest);
    let none = Seq::<char>::empty();
    lemma_solid_word_len(w, none);
    assert(w + none =~= w);
    assert(w.take(w.len() as int) =~= w);
    assert(w.skip(w.len() as int) =~= none);
    assert(words(none) == Seq::<Seq<char>>::empty());
    assert(seq![w] + words(none) =~= seq![w]);
}

/// White space parts words: those of a text with white space in it are those before it and those
/// behind it.
pub proof fn law_white_space_parts_words(a: Seq<char>, gap: char, b: Seq<char>)
    requires
        space(gap),
    ensures
        words(a + seq![gap] + b) == words(a) + words(b),
    decreases a.len(),
{
    let s = a + seq![gap] + b;
    if a.len() == 0 {
        assert(s[0] == gap);
        assert(s.drop_first() =~= b);
        assert(words(a) + words(b) =~= words(b));
    } else if space(a[0]) {
        assert(s[0] == a[0]);
        assert(s.drop_first() =~= a.drop_first() + seq![gap] + b);
        law_white_space_parts_words(a.drop_first(), gap, b);
    } else {
        lemma_word_len(a);
        let n = word_len(a) as int;
        let w = a.take(n);
        let rest = a.skip(n) + seq![gap] + b;
        assert(w + rest =~= s);
        assert(solid(w));
        assert(space(rest[0])) by {
            if n < a.len() {
                assert(rest[0] == a[n]);
            }
        }
        law_run_is_one_word(w, rest);
        law_white_space_parts_words(a.skip(n), gap, b);
        assert(words(a) == seq![w] + words(a.skip(n)));
        assert(seq![w] + (words(a.skip(n)) + words(b)) =~= words(a) + words(b));
    }
}

/// Every word is a run of characters without white space.
pub proof fn law_words_are_solid(s: Seq<char>)
    ensures
        forall|i: int| 0 <= i < words(s).len() ==> solid(#[trigger] words(s)[i]),
    decreases s.len(),
{
    if s.len() > 0 {
        if space(s[0]) {
            law_words_are_solid(s.drop_first());
            assert(words(s) == words(s.drop_first()));
        } else {
            lemma_word_len(s);
            let n = word_len(s) as int;
            law_words_are_solid(s.skip(n));
            let rest = words(s.skip(n));
            assert(words(s) == seq![s.take(n)] + rest);
            assert(solid(s.take(n)));
            assert forall|i: int| 0 <= i < words(s).len() implies solid(#[trigger] words(s)[i]) by {
                if i > 0 {
                    assert(words(s)[i] == rest[i - 1]);
                }
            }
        }
    }
}

/// Words that are joined by single blanks are found again, each of them and in their order.
pub proof fn law_joined_words_are_found_again(list: Seq<Seq<char>>)
    requires
        forall|i: int| 0 <= i < list.len() ==> solid(#[trigger] list[i]),
    ensures
        words(joined(list, " "@)) == list,
    decreases list.len(),
{
    reveal_strlit(" ");
    if list.len() == 0 {
        assert(words(joined(list, " "@)) =~= list);
    } else if list.len() == 1 {
        law_run_is_one_word(list[0], Seq::empty());
        assert(words(joined(list, " "@)) =~= list);
    } else {
        let before = list.drop_last();
        assert forall|i: int| 0 <= i < before.len() implies solid(#[trigger] before[i]) by {
            assert(before[i] == list[i]);
        }
        law_joined_words_are_found_again(before);
        assert(" "@ =~= seq![' ']);
        law_white_space_parts_words(joined(before, " "@), ' ', list.last());
        law_run_is_one_word(list.last(), Seq::empty());
        assert(before + seq![list.last()] =~= list);
    }
}

/// The words of a text in the lowercase form of ASCII are those of the text, each in that form.
pub proof fn law_case_does_not_part_words(s: Seq<char>)
    ensures
        words(s.map_values(|c: char| ascii_lower(c))) == words(s).map_values(
            |w: Seq<char>| w.map_values(|c: char| ascii_lower(c)),
        ),
    decreases s.len(),
{
    let low = |c: char| ascii_lower(c);
    let each = |w: Seq<char>| w.map_values(|c: char| ascii_lower(c));
    let t = s.map_values(low);
    assert forall|c: char| #[trigger] space(ascii_lower(c)) == space(c) by {}
    if s.len() == 0 {
        assert(words(t) =~= words(s).map_values(each));
    } else if space(s[0]) {
        assert(space(t[0]));
        assert(t.drop_first() =~= s.drop_first().map_values(low));
        law_case_does_not_part_words(s.drop_first());
    } else {
        lemma_word_len(s);
        let n = word_len(s) as int;
        let w = s.take(n).map_values(low);
        let rest = s.skip(n).map_values(low);
        assert(t =~= w + rest);
        assert(solid(w)) by {
            assert forall|i: int| 0 <= i < w.len() implies !space(#[trigger] w[i]) by {
                assert(w[i] == ascii_lower(s[i]));
            }
        }
        if rest.len() > 0 {
            assert(rest[0] == ascii_lower(s[n]));
        }
        law_run_is_one_word(w, rest);
        law_case_does_not_part_words(s.skip(n));
        assert(words(t) == seq![w] + words(rest));
        assert(words(s) == seq![s.take(n)] + words(s.skip(n)));
        assert((seq![s.take(n)] + words(s.skip(n))).map_values(each) =~= seq![w] + words(
            s.skip(n),
        ).map_values(each));
    }
}

/// Trimming takes white space from the ends of a text, all of it and nothing else.
pub proof fn law_trimming_takes_only_white_space(s: Seq<char>) -> (at: (int, int))
    ensures
        0 <= at.0 <= at.1 <= s.len(),
        trimmed(s) == s.subrange(at.0, at.1),
        forall|i: int| 0 <= i < at.0 ==> space(#[trigger] s[i]),
        forall|i: int| at.1 <= i < s.len() ==> space(#[trigger] s[i]),
        at.0 < at.1 ==> !space(s[at.0]) && !space(s[at.1 - 1]),
{
    let t = trim_front(s);
    let n = s.len() - t.len();
    lemma_front_is_space(s);
    lemma_trim_front(s);
    lemma_trim_back(t);
    lemma_back_is_space(t);
    lemma_trimmed_ends(s);
    let m = trimmed(s).len();
    assert(s.skip(n).take(m as int) =~= s.subrange(n, n + m));
    assert forall|i: int| n + m <= i < s.len() implies space(#[trigger] s[i]) by {
        assert(s.skip(n)[i - n] == s[i]);
    }
    (n, n + m)
}

proof fn lemma_front_is_space(s: Seq<char>)
    ensures
        trim_front(s).len() <= s.len(),
        forall|i: int| 0 <= i < s.len() - trim_front(s).len() ==> space(#[trigger] s[i]),
    decreases s.len(),
{
    if s.len() > 0 && space(s[0]) {
        let rest = s.drop_first();
        lemma_front_is_space(rest);
        assert forall|i: int| 0 <= i < s.len() - trim_front(s).len() implies space(
            #[trigger] s[i],
        ) by {
            if i > 0 {
                assert(rest[i - 1] == s[i]);
            }
        }
    }
}

proof fn lemma_back_is_space(s: Seq<char>)
    ensures
        trim_back(s).len() <= s.len(),
        forall|i: int| trim_back(s).len() <= i < s.len() ==> space(#[trigger] s[i]),
    decreases s.len(),
{
    if s.len() > 0 && space(s.last()) {
        let rest = s.drop_last();
        lemma_back_is_space(rest);
        assert forall|i: int| trim_back(s).len() <= i < s.len() implies space(#[trigger] s[i]) by {
            if i < rest.len() {
                assert(rest[i] == s[i]);
            }
        }
    }
}

/// The words of an ASCII text are ASCII.
pub proof fn lemma_ascii_words(s: Seq<char>)
    requires
        all_ascii(s),
    ensures
        forall|i: int| 0 <= i < words(s).len() ==> all_ascii(#[trigger] words(s)[i]),
    decreases s.len(),
{
    if s.len() > 0 {
        if space(s[0]) {
            assert(all_ascii(s.drop_first()));
            lemma_ascii_words(s.drop_first());
            assert(words(s) == words(s.drop_first()));
        } else {
            lemma_word_len(s);
            let n = word_len(s) as int;
            assert(all_ascii(s.skip(n)));
            assert(all_ascii(s.take(n)));
            lemma_ascii_words(s.skip(n));
            let rest = words(s.skip(n));
            assert(words(s) == seq![s.take(n)] + rest);
            assert forall|i: int| 0 <= i < words(s).len() implies all_ascii(
                #[trigger] words(s)[i],
            ) by {
                if i > 0 {
                    assert(words(s)[i] == rest[i - 1]);
                }
            }
        }
    }
}

/// ASCII words that are joined by blanks are an ASCII text.
pub proof fn lemma_ascii_joined(list: Seq<Seq<char>>)
    requires
        forall|i: int| 0 <= i < list.len() ==> all_ascii(#[trigger] list[i]),
    ensures
        all_ascii(joined(list, " "@)),
    decreases list.len(),
{
    reveal_strlit(" ");
    if list.len() == 1 {
        assert(all_ascii(list[0]));
    } else if list.len() > 1 {
        let before = list.drop_last();
        assert forall|i: int| 0 <= i < before.len() implies all_ascii(#[trigger] before[i]) by {
            assert(before[i] == list[i]);
        }
        lemma_ascii_joined(before);
        assert(all_ascii(list[list.len() - 1]));
    }
}

/// The dictionary goes by the first character in which two texts differ, and puts a text before
/// those that go on where it ends.
pub proof fn law_dictionary_goes_by_the_first_difference(a: Seq<char>, b: Seq<char>, k: int)
    requires
        0 <= k <= a.len(),
        k < b.len(),
        forall|i: int| 0 <= i < k ==> a[i] == b[i],
    ensures
        k == a.len() ==> dictionary_le(a, b) && !dictionary_le(b, a),
        k < a.len() && a[k] < b[k] ==> dictionary_le(a, b) && !dictionary_le(b, a),
    decreases k,
{
    if k > 0 {
        let (x, y) = (a.drop_first(), b.drop_first());
        assert forall|i: int| 0 <= i < k - 1 implies x[i] == y[i] by {
            assert(x[i] == a[i + 1] && y[i] == b[i + 1]);
        }
        law_dictionary_goes_by_the_first_difference(x, y, k - 1);
        assert(a[0] == b[0]);
    }
}

/// A text starts with what it is begun with, and holds what was put into it.
pub proof fn law_texts_hold_their_parts(a: Seq<char>, p: Seq<char>, b: Seq<char>)
    ensures
        starts_with(p + b, p),
        occurs_in(a + p + b, p),
        occurs_at(a + p + b, p, a.len() as int),
{
    assert((p + b).take(p.len() as int) =~= p);
    assert((a + p + b).subrange(a.len() as int, (a.len() + p.len()) as int) =~= p);
    assert(occurs_at(a + p + b, p, a.len() as int));
}

/// What a text does not begin with stands at no other place of it either, character by character.
pub proof fn law_parts_are_found_character_by_character(s: Seq<char>, p: Seq<char>, i: int)
    ensures
        occurs_at(s, p, i) <==> 0 <= i && i + p.len() <= s.len() && forall|k: int|
            0 <= k < p.len() ==> s[i + k] == #[trigger] p[k],
        starts_with(s, p) <==> occurs_at(s, p, 0),
{
    if 0 <= i && i + p.len() <= s.len() {
        let part = s.subrange(i, i + p.len());
        if occurs_at(s, p, i) {
            assert forall|k: int| 0 <= k < p.len() implies s[i + k] == #[trigger] p[k] by {
                assert(part[k] == s[i + k]);
            }
        }
        if forall|k: int| 0 <= k < p.len() ==> s[i + k] == #[trigger] p[k] {
            assert(part =~= p);
        }
    }
    if p.len() <= s.len() {
        assert(s.take(p.len() as int) =~= s.subrange(0, p.len() as int));
    }
}

/// Splitting loses nothing: the pieces joined by the separator are the text.
pub proof fn law_pieces_make_up_the_text(s: Seq<char>, sep: Seq<char>)
    ensures
        pieces(s, sep).len() > 0,
        joined(pieces(s, sep), sep) == s,
    decreases s.len(),
{
    if sep.len() > 0 && occurs_in(s, sep) {
        let i = first_occurrence(s, sep);
        let at = choose|i: int| occurs_at(s, sep, i);
        let first = lemma_occurrence_exists(s, sep, at);
        lemma_first_occurrence(s, sep, first);
        assert(i == first);
        let rest = s.skip(i + sep.len());
        law_pieces_make_up_the_text(rest, sep);
        lemma_joined_front(s.take(i), pieces(rest, sep), sep);
        lemma_text_around(s, sep, i);
    }
}

proof fn lemma_text_around(s: Seq<char>, p: Seq<char>, i: int)
    requires
        occurs_at(s, p, i),
    ensures
        s.take(i) + p + s.skip(i + p.len()) == s,
{
    assert(s.take(i) + s.subrange(i, i + p.len()) + s.skip(i + p.len()) =~= s);
}

proof fn lemma_joined_front(first: Seq<char>, rest: Seq<Seq<char>>, sep: Seq<char>)
    requires
        rest.len() > 0,
    ensures
        joined(seq![first] + rest, sep) == first + sep + joined(rest, sep),
    decreases rest.len(),
{
    let all = seq![first] + rest;
    assert(all.last() == rest.last());
    if rest.len() == 1 {
        assert(all.drop_last() =~= seq![first]);
        assert(joined(seq![first], sep) == first);
    } else {
        assert(all.drop_last() =~= seq![first] + rest.drop_last());
        lemma_joined_front(first, rest.drop_last(), sep);
        assert(joined(all, sep) =~= first + sep + joined(rest, sep));
    }
}

/// The number that decimal digits write.
pub open spec fn written(s: Seq<char>) -> int
    decreases s.len(),
{
    if s.len() == 0 {
        0
    } else {
        10 * written(s.drop_last()) + (s.last() as int - '0' as int)
    }
}

/// A number is written in digits that stand for it.
pub proof fn law_numbers_are_written_in_decimals(n: nat)
    ensures
        written(decimal(n)) == n,
        decimal(n).len() > 0,
        forall|i: int| 0 <= i < decimal(n).len() ==> '0' <= #[trigger] decimal(n)[i] <= '9',
    decreases n,
{
    reveal_with_fuel(written, 2);
    if n >= 10 {
        law_numbers_are_written_in_decimals(n / 10);
        let before = decimal(n / 10);
        assert(decimal(n).drop_last() =~= before);
        assert forall|i: int| 0 <= i < decimal(n).len() implies '0' <= #[trigger] decimal(n)[i]
            <= '9' by {
            if i < before.len() {
                assert(decimal(n)[i] == before[i]);
            }
        }
    } else {
        assert(decimal(n).drop_last() =~= Seq::<char>::empty());
    }
}

/// Splitting leaves no separator: no piece holds it.
pub proof fn law_pieces_hold_no_separator(s: Seq<char>, sep: Seq<char>)
    requires
        sep.len() > 0,
    ensures
        forall|k: int| 0 <= k < pieces(s, sep).len() ==> !occurs_in(#[trigger] pieces(s, sep)[k], sep),
    decreases s.len(),
{
    if occurs_in(s, sep) {
        let at = choose|i: int| occurs_at(s, sep, i);
        let first = lemma_occurrence_exists(s, sep, at);
        lemma_first_occurrence(s, sep, first);
        let head = s.take(first);
        let rest = s.skip(first + sep.len());
        law_pieces_hold_no_separator(rest, sep);
        assert(!occurs_in(head, sep)) by {
            if occurs_in(head, sep) {
                let j = choose|j: int| occurs_at(head, sep, j);
                assert(s.subrange(j, j + sep.len()) =~= head.subrange(j, j + sep.len()));
                assert(occurs_at(s, sep, j));
            }
        }
        assert(pieces(s, sep) == seq![head] + pieces(rest, sep));
        assert forall|k: int| 0 <= k < pieces(s, sep).len() implies !occurs_in(
            #[trigger] pieces(s, sep)[k],
            sep,
        ) by {
            if k > 0 {
                assert(pieces(s, sep)[k] == pieces(rest, sep)[k - 1]);
            }
        }
    }
}

/// White space are the blank, the line and page breaks and the tabulators, and the blanks of
/// various widths, as Unicode has them; nothing that can be seen is.
pub proof fn law_white_space_is_what_unicode_says(c: char)
    ensures
        space(c) <==> {
            ||| c == '\t' || c == '\n' || c as u32 == 0xb || c as u32 == 0xc || c == '\r'
            ||| c == ' ' || c as u32 == 0x85 || c as u32 == 0xa0 || c as u32 == 0x1680
            ||| 0x2000 <= c as u32 <= 0x200a
            ||| c as u32 == 0x2028 || c as u32 == 0x2029 || c as u32 == 0x202f
            ||| c as u32 == 0x205f || c as u32 == 0x3000
        },
{
}

} // verus!
