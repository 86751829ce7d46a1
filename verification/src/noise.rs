//! Capture noise filtering and content normalization.
//!
//! The filter only ever skips writes; it never changes content. Curated sources (consolidation,
//! imagined generation, AI sessions and tools, research) are exempt.
use crate::engram::EngramSource;
use crate::hex::{encode, hex_of, sha256, sha256_of};
use crate::text::{
    all_ascii, ascii_lower, begins, byte_len, chars_of, first_index, has_byte_len, index_of, is_text,
    join, joined, law_case_does_not_part_words, law_joined_words_are_found_again,
    law_trimming_takes_only_white_space, law_words_are_solid, lemma_ascii_joined,
    lemma_ascii_words, lemma_first_index, lemma_first_index_is, lemma_trim_back_behind,
    lemma_trim_ends_commute, lemma_trim_front, lemma_trim_front_pads,
    lemma_trimmed_ends, lemma_trimmed_fixed, lowercase_of, occurs_at, pieces, same, slice, space,
    split_on, split_words, starts_with, string_of, text_eq, texts, to_lowercase, trim, trim_back,
    trim_front, trim_start, trimmed, words,
};
use vstd::prelude::*;
use vstd::utf8::encode_utf8;

verus! {

/// Most tags kept on a capture.
pub const TAG_MAX_COUNT: usize = 8;

/// Most characters kept of a tag.
pub const TAG_MAX_LEN: usize = 32;

/// Whether bracketed text is a shell hook's: a counter, a time of day or an absolute path.
pub open spec fn hook_text(inner: Seq<char>) -> bool {
    ||| inner.len() > 0 && forall|i: int|
        0 <= i < inner.len() ==> '0' <= #[trigger] inner[i] <= '9'
    ||| byte_len(inner) == 8 && inner.len() > 5 && inner[2] == ':' && inner[5] == ':'
    ||| inner.len() > 0 && inner[0] == '/'
}

/// Whether a text starts with a bracketed hook text.
pub open spec fn hooked(s: Seq<char>) -> bool {
    &&& s.len() > 0
    &&& s[0] == '['
    &&& first_index(s, ']') < s.len()
    &&& hook_text(s.subrange(1, first_index(s, ']')))
}

/// What is left of a text when its leading hook texts are taken away.
pub open spec fn unhooked(s: Seq<char>) -> Seq<char>
    decreases s.len(),
{
    if hooked(s) {
        let rest = s.skip(first_index(s, ']') + 1);
        proof {
            lemma_first_index(s, ']');
            lemma_trim_front(rest);
        }
        unhooked(trim_front(rest))
    } else {
        s
    }
}

/// A captured text without surrounding white space and without leading hook texts.
pub open spec fn stripped(content: Seq<char>) -> Seq<char> {
    unhooked(trimmed(content))
}

fn is_hook_text(inner: &[char]) -> (r: bool)
    ensures
        r == hook_text(inner@),
{
    let mut i: usize = 0;
    let mut digits = true;
    while i < inner.len()
        invariant
            i <= inner@.len(),
            digits == forall|j: int| 0 <= j < i ==> '0' <= #[trigger] inner@[j] <= '9',
        decreases inner@.len() - i,
    {
        if !('0' <= inner[i] && inner[i] <= '9') {
            digits = false;
        }
        i += 1;
    }
    if digits && inner.len() > 0 {
        return true;
    }
    if inner.len() > 5 && inner[2] == ':' && inner[5] == ':' && has_byte_len(inner, 8) {
        return true;
    }
    inner.len() > 0 && inner[0] == '/'
}

fn strip_chars(content: &[char]) -> (r: Vec<char>)
    ensures
        r@ == stripped(content@),
{
    let mut s: Vec<char> = trim(content);
    loop
        invariant
            unhooked(s@) == stripped(content@),
        decreases s@.len(),
    {
        if s.len() == 0 || s[0] != '[' {
            return s;
        }
        let end: usize = index_of(s.as_slice(), ']');
        if end >= s.len() {
            return s;
        }
        proof {
            assert(s@[0] != ']');
            assert(end >= 1);
        }
        let inner = slice(s.as_slice(), 1, end);
        if !is_hook_text(inner.as_slice()) {
            return s;
        }
        let rest = slice(s.as_slice(), end + 1, s.len());
        proof {
            assert(rest@ =~= s@.skip(first_index(s@, ']') + 1));
            lemma_trim_front(rest@);
        }
        s = trim_start(rest.as_slice());
    }
}

/// Strips shell hook prefixes like `[89] [10:23:45] [/home/alice/engram]` from the start of a
/// captured command. Other bracketed text, as in `[note] decided X`, stays.
pub fn strip_prefixes(content: &str) -> (r: String)
    ensures
        r@ == stripped(content@),
{
    let chars = chars_of(content);
    let s = strip_chars(chars.as_slice());
    string_of(s.as_slice())
}

/// The text by which captures are compared: stripped, white space collapsed, lowercase.
pub open spec fn canonical(content: Seq<char>) -> Seq<char> {
    lowercase_of(joined(words(stripped(content)), " "@))
}

/// The hash by which captures are compared.
pub open spec fn hash_of(content: Seq<char>) -> Seq<char> {
    hex_of(sha256_of(encode_utf8(canonical(content))))
}

fn collapse(v: &[char]) -> (r: String)
    ensures
        r@ == joined(words(v@), " "@),
{
    let parts = split_words(v);
    let gap = chars_of(" ");
    let all = join(&parts, gap.as_slice());
    string_of(all.as_slice())
}

/// The hash by which captures are compared: SHA-256 of the stripped, collapsed, lowercase text.
pub fn normalized_hash(content: &str) -> (r: String)
    ensures
        r@ == hash_of(content@),
        all_ascii(content@) ==> words(canonical(content@)) == words(stripped(content@)).map_values(
            |w: Seq<char>| w.map_values(|c: char| ascii_lower(c)),
        ),
{
    let chars = chars_of(content);
    let s = strip_chars(chars.as_slice());
    let collapsed = collapse(s.as_slice());
    let lower = to_lowercase(collapsed.as_str());
    proof {
        if all_ascii(content@) {
            lemma_stripped_is_ascii(content@);
            lemma_ascii_words(stripped(content@));
            lemma_ascii_joined(words(stripped(content@)));
            law_words_are_solid(stripped(content@));
            law_joined_words_are_found_again(words(stripped(content@)));
            law_case_does_not_part_words(collapsed@);
        }
    }
    let digest = sha256(lower.as_str().as_bytes());
    encode(digest.as_slice())
}

/// Tags that help no search.
pub open spec fn denied_tag(t: Seq<char>) -> bool {
    ||| t == "note"@
    ||| t == "notes"@
    ||| t == "misc"@
    ||| t == "miscellaneous"@
    ||| t == "other"@
    ||| t == "general"@
    ||| t == "memory"@
    ||| t == "memories"@
    ||| t == "untagged"@
    ||| t == "stuff"@
    ||| t == "random"@
}

fn is_denied_tag(t: &str) -> (r: bool)
    ensures
        r == denied_tag(t@),
{
    text_eq(t, "note") || text_eq(t, "notes") || text_eq(t, "misc") || text_eq(t, "miscellaneous") || text_eq(t, "other") || text_eq(t, "general") || text_eq(t, "memory") || text_eq(t, "memories") || text_eq(t, "untagged") || text_eq(t, "stuff") || text_eq(t, "random")
}

/// A text without its leading `#` signs.
pub open spec fn unhashed(s: Seq<char>) -> Seq<char>
    decreases s.len(),
{
    if s.len() > 0 && s[0] == '#' {
        unhashed(s.drop_first())
    } else {
        s
    }
}

/// The beginning of a text, at most `n` characters.
pub open spec fn at_most(s: Seq<char>, n: int) -> Seq<char> {
    if s.len() <= n {
        s
    } else {
        s.take(n)
    }
}

/// The standard form of a tag: no leading `#`, white space collapsed, lowercase, cut to length.
pub open spec fn standard_tag(raw: Seq<char>) -> Seq<char> {
    at_most(lowercase_of(joined(words(unhashed(raw)), " "@)), TAG_MAX_LEN as int)
}

/// The tags kept of a list: the standard forms that are not empty, not denied and not seen
/// before, in order, until the most tags are kept.
pub open spec fn kept_tags(tags: Seq<Seq<char>>) -> Seq<Seq<char>>
    decreases tags.len(),
{
    if tags.len() == 0 {
        Seq::empty()
    } else {
        let kept = kept_tags(tags.drop_last());
        let t = standard_tag(tags.last());
        if kept.len() >= TAG_MAX_COUNT || t.len() == 0 || denied_tag(t) || kept.contains(t) {
            kept
        } else {
            kept.push(t)
        }
    }
}

fn standardize(raw: &str) -> (r: String)
    ensures
        r@ == standard_tag(raw@),
{
    let chars = chars_of(raw);
    let mut i: usize = 0;
    proof {
        assert(chars@.skip(0) =~= chars@);
    }
    while i < chars.len() && chars[i] == '#'
        invariant
            i <= chars@.len(),
            unhashed(chars@.skip(i as int)) == unhashed(chars@),
        decreases chars@.len() - i,
    {
        proof {
            assert(chars@.skip(i as int).drop_first() =~= chars@.skip(i + 1));
        }
        i += 1;
    }
    let rest = slice(chars.as_slice(), i, chars.len());
    assert(rest@ =~= chars@.skip(i as int));
    let collapsed = collapse(rest.as_slice());
    let lower = to_lowercase(collapsed.as_str());
    let all = chars_of(lower.as_str());
    if all.len() <= TAG_MAX_LEN {
        lower
    } else {
        let cut = slice(all.as_slice(), 0, TAG_MAX_LEN);
        assert(cut@ =~= all@.take(TAG_MAX_LEN as int));
        string_of(cut.as_slice())
    }
}

/// Whether a list of texts holds `t`.
pub fn holds_text(list: &Vec<String>, t: &str) -> (r: bool)
    ensures
        r == texts(list@).contains(t@),
{
    let mut i: usize = 0;
    while i < list.len()
        invariant
            i <= list@.len(),
            forall|j: int| 0 <= j < i ==> list@[j]@ != t@,
        decreases list@.len() - i,
    {
        if text_eq(list[i].as_str(), t) {
            proof {
                assert(texts(list@)[i as int] == t@);
            }
            return true;
        }
        i += 1;
    }
    proof {
        assert forall|j: int| 0 <= j < texts(list@).len() implies texts(list@)[j] != t@ by {
            assert(texts(list@)[j] == list@[j]@);
        }
    }
    false
}

/// Brings the tags of a capture into the standard retrieval vocabulary: a leading `#` is stripped,
/// white space collapsed, letters lowercased; empty tags, tags that help no search and repeats are
/// dropped; at most [`TAG_MAX_COUNT`] tags of at most [`TAG_MAX_LEN`] characters stay, in the
/// order in which they were first seen.
pub fn normalize_tags(tags: Vec<String>) -> (r: Vec<String>)
    ensures
        texts(r@) == kept_tags(texts(tags@)),
{
    let mut kept: Vec<String> = Vec::new();
    let mut i: usize = 0;
    proof {
        assert(texts(kept@) =~= Seq::<Seq<char>>::empty());
        assert(texts(tags@).take(0) =~= Seq::<Seq<char>>::empty());
    }
    while i < tags.len()
        invariant
            i <= tags@.len(),
            texts(kept@) == kept_tags(texts(tags@).take(i as int)),
        decreases tags@.len() - i,
    {
        let t = standardize(tags[i].as_str());
        proof {
            let upto = texts(tags@).take(i + 1);
            assert(upto.drop_last() =~= texts(tags@).take(i as int));
            assert(upto.last() == tags@[i as int]@);
            assert(texts(kept@).len() == kept@.len());
            assert(texts(kept@.push(t)) =~= texts(kept@).push(t@));
        }
        if kept.len() < TAG_MAX_COUNT && !t.as_str().is_empty() && !is_denied_tag(t.as_str())
            && !holds_text(&kept, t.as_str()) {
            kept.push(t);
        }
        i += 1;
    }
    proof {
        assert(texts(tags@).take(tags@.len() as int) =~= texts(tags@));
    }
    kept
}

/// Commands and status echoes that carry no information.
pub open spec fn bookkeeping(s: Seq<char>) -> bool {
    ||| s == "ls"@
    ||| s == "ll"@
    ||| s == "clear"@
    ||| s == "exit"@
    ||| s == "quit"@
    ||| s == "history"@
    ||| s == "history -a"@
    ||| s == "pwd"@
    ||| s == "date"@
    ||| s == "whoami"@
    ||| s == "help"@
    ||| s == "sleep"@
    ||| s == "pkill"@
    ||| s == "already recording"@
    ||| s == "no active session"@
    ||| s == "engram daemon not running"@
    ||| s == "engram-record-stop"@
    ||| s == "engramctl stop"@
    ||| s == "engramctl start"@
    ||| s == "engramctl status"@
}

fn is_bookkeeping(s: &[char]) -> (r: bool)
    ensures
        r == bookkeeping(s@),
{
    is_text(s, "ls") || is_text(s, "ll") || is_text(s, "clear") || is_text(s, "exit") || is_text(s, "quit") || is_text(s, "history") || is_text(s, "history -a") || is_text(s, "pwd") || is_text(s, "date") || is_text(s, "whoami") || is_text(s, "help") || is_text(s, "sleep") || is_text(s, "pkill") || is_text(s, "already recording") || is_text(s, "no active session") || is_text(s, "engram daemon not running") || is_text(s, "engram-record-stop") || is_text(s, "engramctl stop") || is_text(s, "engramctl start") || is_text(s, "engramctl status")
}

/// Starts of transient commands, of the vault's own tooling and of glances at log tails.
pub open spec fn transient(s: Seq<char>) -> bool {
    ||| starts_with(s, "sleep "@)
    ||| starts_with(s, "pkill "@)
    ||| starts_with(s, "kill "@)
    ||| starts_with(s, "killall "@)
    ||| starts_with(s, "tail -5"@)
    ||| starts_with(s, "tail -n 5"@)
    ||| starts_with(s, "source engramctl"@)
    ||| starts_with(s, ". engramctl"@)
    ||| starts_with(s, "engramctl record"@)
    ||| starts_with(s, "engramctl session start"@)
    ||| starts_with(s, "engramctl session stop"@)
}

fn is_transient(s: &[char]) -> (r: bool)
    ensures
        r == transient(s@),
{
    begins(s, "sleep ") || begins(s, "pkill ") || begins(s, "kill ") || begins(s, "killall ") || begins(s, "tail -5") || begins(s, "tail -n 5") || begins(s, "source engramctl") || begins(s, ". engramctl") || begins(s, "engramctl record") || begins(s, "engramctl session start") || begins(s, "engramctl session stop")
}

/// Whether one part of a command chain is nothing or a change of directory.
pub open spec fn idle(part: Seq<char>) -> bool {
    let s = trimmed(part);
    s.len() == 0 || s == "cd"@ || starts_with(s, "cd "@)
}

/// Whether a lowercase command only changes directory: `cd` alone, or a chain that starts with
/// `cd` and whose parts are all idle.
pub open spec fn only_cd(lower: Seq<char>) -> bool {
    ||| lower == "cd"@
    ||| starts_with(lower, "cd "@) && forall|i: int|
        0 <= i < pieces(lower, "&&"@).len() ==> idle(#[trigger] pieces(lower, "&&"@)[i])
}

fn is_idle(part: &[char]) -> (r: bool)
    ensures
        r == idle(part@),
{
    let s = trim(part);
    s.len() == 0 || is_text(s.as_slice(), "cd") || begins(s.as_slice(), "cd ")
}

fn is_only_cd(lower: &[char]) -> (r: bool)
    ensures
        r == only_cd(lower@),
{
    if is_text(lower, "cd") {
        return true;
    }
    if !begins(lower, "cd ") {
        return false;
    }
    proof {
        reveal_strlit("&&");
    }
    let sep = chars_of("&&");
    let parts = split_on(lower, sep.as_slice());
    let mut i: usize = 0;
    while i < parts.len()
        invariant
            i <= parts@.len(),
            crate::text::views(parts@) == pieces(lower@, "&&"@),
            starts_with(lower@, "cd "@),
            lower@ != "cd"@,
            forall|j: int| 0 <= j < i ==> idle(#[trigger] pieces(lower@, "&&"@)[j]),
        decreases parts@.len() - i,
    {
        proof {
            assert(pieces(lower@, "&&"@)[i as int] == parts@[i as int]@);
        }
        if !is_idle(parts[i].as_slice()) {
            return false;
        }
        i += 1;
    }
    true
}

/// Whether captures of a source are curated and never filtered.
pub open spec fn curated(source: EngramSource) -> bool {
    source is Consolidation || source is Imagined || source is AiSession || source is AiTool
        || source is Research
}

fn is_curated(source: EngramSource) -> (r: bool)
    ensures
        r == curated(source),
{
    match source {
        EngramSource::Consolidation
        | EngramSource::Imagined
        | EngramSource::AiSession
        | EngramSource::AiTool
        | EngramSource::Research => true,
        _ => false,
    }
}

/// Why a captured text is noise, if it is. `c` is the stripped text and `prefixed` says whether
/// stripping took a hook text away.
pub open spec fn noise_of(c: Seq<char>, lower: Seq<char>, prefixed: bool) -> Option<Seq<char>> {
    if c.len() == 0 {
        Some("empty content"@)
    } else if bookkeeping(lower) {
        Some("bookkeeping command"@)
    } else if transient(lower) {
        Some("transient command"@)
    } else if only_cd(lower) {
        Some("cd bookkeeping"@)
    } else if words(c).len() == 1 {
        Some("single token"@)
    } else if prefixed && words(c).len() < 3 {
        Some("too short for a memory"@)
    } else {
        None
    }
}

/// Why a capture from a source is noise, if it is.
pub open spec fn noise_reason_of(content: Seq<char>, source: EngramSource) -> Option<Seq<char>> {
    if curated(source) {
        None
    } else {
        let c = trimmed(stripped(content));
        noise_of(c, lowercase_of(c), stripped(content) != trimmed(content))
    }
}

/// The verdict on a stripped text, given its lowercase form and whether a hook text was taken
/// away.
pub fn noise_verdict(c: &str, lower: &str, prefixed: bool) -> (r: Option<String>)
    ensures
        crate::text::opt_text(r) == noise_of(c@, lower@, prefixed),
{
    let text = chars_of(c);
    if text.len() == 0 {
        return Some("empty content".to_string());
    }
    let low = chars_of(lower);
    if is_bookkeeping(low.as_slice()) {
        return Some("bookkeeping command".to_string());
    }
    if is_transient(low.as_slice()) {
        return Some("transient command".to_string());
    }
    if is_only_cd(low.as_slice()) {
        return Some("cd bookkeeping".to_string());
    }
    let tokens = split_words(text.as_slice());
    assert(tokens@.len() == words(c@).len()) by {
        assert(crate::text::views(tokens@).len() == tokens@.len());
    }
    if tokens.len() == 1 {
        return Some("single token".to_string());
    }
    if prefixed && tokens.len() < 3 {
        return Some("too short for a memory".to_string());
    }
    None
}

/// Noise filter for raw captures: why the content should not be stored, if it should not. Curated
/// sources are exempt.
pub fn is_noise(content: &str, source: EngramSource) -> (r: Option<String>)
    ensures
        crate::text::opt_text(r) == noise_reason_of(content@, source),
{
    if is_curated(source) {
        return None;
    }
    let chars = chars_of(content);
    let s = strip_chars(chars.as_slice());
    let c = trim(s.as_slice());
    let whole = trim(chars.as_slice());
    let prefixed = !same(s.as_slice(), whole.as_slice());
    let text = string_of(c.as_slice());
    let lower = to_lowercase(text.as_str());
    noise_verdict(text.as_str(), lower.as_str(), prefixed)
}

/// What stripping leaves does not start with a hook text.
pub proof fn law_no_hook_text_is_left(content: Seq<char>)
    ensures
        !hooked(stripped(content)),
{
    lemma_unhooked_not_hooked(trimmed(content));
}

proof fn lemma_unhooked_not_hooked(s: Seq<char>)
    ensures
        !hooked(unhooked(s)),
    decreases s.len(),
{
    if hooked(s) {
        let rest = s.skip(first_index(s, ']') + 1);
        lemma_first_index(s, ']');
        lemma_trim_front(rest);
        lemma_unhooked_not_hooked(trim_front(rest));
    }
}

/// What is left behind hook texts ends as the text ended and starts with no white space.
proof fn lemma_unhooked_ends(s: Seq<char>)
    requires
        s.len() > 0 ==> !space(s[0]) && !space(s.last()),
    ensures
        unhooked(s).len() > 0 ==> !space(unhooked(s)[0]) && !space(unhooked(s).last()),
    decreases s.len(),
{
    if hooked(s) {
        let rest = s.skip(first_index(s, ']') + 1);
        lemma_first_index(s, ']');
        lemma_trim_front(rest);
        let t = trim_front(rest);
        if t.len() > 0 {
            assert(t.last() == rest.last());
            assert(rest.last() == s.last());
        }
        lemma_unhooked_ends(t);
    }
}

/// Stripped text has no white space around it.
pub proof fn law_stripped_text_is_trimmed(content: Seq<char>)
    ensures
        trimmed(stripped(content)) == stripped(content),
{
    lemma_trimmed_ends(content);
    lemma_unhooked_ends(trimmed(content));
    lemma_trimmed_fixed(stripped(content));
}

/// Stripping twice is stripping once.
pub proof fn law_stripping_is_idempotent(content: Seq<char>)
    ensures
        stripped(stripped(content)) == stripped(content),
{
    law_stripped_text_is_trimmed(content);
    law_no_hook_text_is_left(content);
}

/// A shell hook prefix does not count: a capture with a counter, a time or a path in brackets
/// before it has the hash of the capture without it, however much white space stands around the
/// prefix.
pub proof fn law_hook_prefix_keeps_hash(
    pad: Seq<char>,
    inner: Seq<char>,
    content: Seq<char>,
)
    requires
        forall|i: int| 0 <= i < pad.len() ==> space(#[trigger] pad[i]),
        hook_text(inner),
        !inner.contains(']'),
    ensures
        stripped(pad + (seq!['['] + inner + seq![']'] + content)) == stripped(content),
        hash_of(pad + (seq!['['] + inner + seq![']'] + content)) == hash_of(content),
{
    let head = seq!['['] + inner + seq![']'];
    let whole = head + content;
    lemma_trim_front_pads(pad, whole);
    assert(whole[0] == '[');
    assert(trim_front(whole) == whole);
    assert(head.last() == ']');
    lemma_trim_back_behind(head, content);
    let t = head + trim_back(content);
    assert(trimmed(pad + whole) == t);
    let n = inner.len() as int + 1;
    assert(t[n] == ']');
    assert forall|j: int| 0 <= j < n implies t[j] != ']' by {
        if j > 0 {
            assert(t[j] == inner[j - 1]);
        }
    }
    lemma_first_index_is(t, ']', n);
    assert(t.subrange(1, n) =~= inner);
    assert(hooked(t));
    assert(t.skip(n + 1) =~= trim_back(content));
    lemma_trim_ends_commute(content);
    assert(unhooked(t) == unhooked(trim_front(trim_back(content))));
}

/// White space around a capture does not count.
pub proof fn law_surrounding_space_keeps_hash(pad: Seq<char>, content: Seq<char>)
    requires
        forall|i: int| 0 <= i < pad.len() ==> space(#[trigger] pad[i]),
    ensures
        hash_of(pad + content) == hash_of(content),
        hash_of(content + pad) == hash_of(content),
{
    lemma_trim_front_pads(pad, content);
    lemma_pad_behind(content, pad);
}

proof fn lemma_pad_behind(content: Seq<char>, pad: Seq<char>)
    requires
        forall|i: int| 0 <= i < pad.len() ==> space(#[trigger] pad[i]),
    ensures
        trimmed(content + pad) == trimmed(content),
{
    lemma_trim_back_pads(content, pad);
    lemma_trim_ends_commute(content + pad);
    lemma_trim_ends_commute(content);
}

proof fn lemma_trim_back_pads(content: Seq<char>, pad: Seq<char>)
    requires
        forall|i: int| 0 <= i < pad.len() ==> space(#[trigger] pad[i]),
    ensures
        trim_back(content + pad) == trim_back(content),
    decreases pad.len(),
{
    if pad.len() == 0 {
        assert(content + pad =~= content);
    } else {
        assert(space(pad[pad.len() - 1]));
        assert((content + pad).last() == pad.last());
        assert((content + pad).drop_last() =~= content + pad.drop_last());
        lemma_trim_back_pads(content, pad.drop_last());
    }
}

/// Captures from curated sources are never noise.
pub proof fn law_curated_sources_are_exempt(content: Seq<char>, source: EngramSource)
    requires
        curated(source),
    ensures
        noise_reason_of(content, source) is None,
{
}

/// A capture of fewer than two words from any other source is always noise.
pub proof fn law_single_words_are_noise(content: Seq<char>, source: EngramSource)
    requires
        !curated(source),
        words(stripped(content)).len() < 2,
    ensures
        noise_reason_of(content, source) is Some,
{
    law_stripped_text_is_trimmed(content);
    let c = stripped(content);
    if c.len() > 0 {
        lemma_trimmed_ends(content);
        lemma_unhooked_ends(trimmed(content));
        assert(!space(c[0]));
        assert(words(c).len() >= 1);
    }
}

/// What the kept tags are: at most [`TAG_MAX_COUNT`], each of at most [`TAG_MAX_LEN`] characters,
/// none empty, denied or repeated.
pub proof fn law_kept_tags_are_standard(tags: Seq<Seq<char>>)
    ensures
        kept_tags(tags).len() <= TAG_MAX_COUNT,
        kept_tags(tags).len() <= tags.len(),
        kept_tags(tags).no_duplicates(),
        forall|i: int|
            0 <= i < kept_tags(tags).len() ==> {
                let t = #[trigger] kept_tags(tags)[i];
                0 < t.len() <= TAG_MAX_LEN && !denied_tag(t)
            },
    decreases tags.len(),
{
    if tags.len() > 0 {
        law_kept_tags_are_standard(tags.drop_last());
    }
}

/// Every tag of the list stays in its standard form unless that is empty or denied, or the list
/// is full; and nothing else is kept.
pub proof fn law_tags_are_neither_lost_nor_made_up(tags: Seq<Seq<char>>)
    ensures
        forall|t: Seq<char>| #[trigger]
            kept_tags(tags).contains(t) ==> exists|i: int|
                0 <= i < tags.len() && standard_tag(#[trigger] tags[i]) == t,
        kept_tags(tags).len() < TAG_MAX_COUNT ==> forall|i: int|
            0 <= i < tags.len() ==> {
                let t = standard_tag(#[trigger] tags[i]);
                t.len() == 0 || denied_tag(t) || kept_tags(tags).contains(t)
            },
    decreases tags.len(),
{
    if tags.len() > 0 {
        let before = tags.drop_last();
        let kept = kept_tags(before);
        law_tags_are_neither_lost_nor_made_up(before);
        assert forall|t: Seq<char>| #[trigger] kept_tags(tags).contains(t) implies exists|i: int|
            0 <= i < tags.len() && standard_tag(#[trigger] tags[i]) == t by {
            if kept.contains(t) {
                let i = choose|i: int| 0 <= i < before.len() && standard_tag(#[trigger] before[i]) == t;
                assert(tags[i] == before[i]);
            } else {
                assert(t == standard_tag(tags[tags.len() - 1]));
            }
        }
        if kept_tags(tags).len() < TAG_MAX_COUNT {
            assert forall|i: int| 0 <= i < tags.len() implies {
                let t = standard_tag(#[trigger] tags[i]);
                t.len() == 0 || denied_tag(t) || kept_tags(tags).contains(t)
            } by {
                let t = standard_tag(tags[i]);
                if i < tags.len() - 1 {
                    assert(tags[i] == before[i]);
                    if kept.contains(t) {
                        let k = choose|k: int| 0 <= k < kept.len() && kept[k] == t;
                        assert(kept_tags(tags)[k] == t);
                    }
                } else if kept_tags(tags) != kept {
                    assert(kept_tags(tags)[kept.len() as int] == t);
                }
            }
        }
    }
}

/// The kept tags of the beginning of a list are the beginning of the kept tags: tags stay in the
/// order in which they were first seen.
pub proof fn law_tags_keep_their_order(tags: Seq<Seq<char>>, n: int)
    requires
        0 <= n <= tags.len(),
    ensures
        kept_tags(tags.take(n)).is_prefix_of(kept_tags(tags)),
    decreases tags.len(),
{
    if n == tags.len() {
        assert(tags.take(n) =~= tags);
    } else {
        law_tags_keep_their_order(tags.drop_last(), n);
        assert(tags.drop_last().take(n) =~= tags.take(n));
    }
}

proof fn lemma_unhooked_is_behind(s: Seq<char>)
    ensures
        unhooked(s).len() <= s.len(),
        unhooked(s) == s.skip(s.len() - unhooked(s).len()),
    decreases s.len(),
{
    if hooked(s) {
        let n = first_index(s, ']') + 1;
        let rest = s.skip(n);
        lemma_first_index(s, ']');
        lemma_trim_front(rest);
        let t = trim_front(rest);
        lemma_unhooked_is_behind(t);
        let u = unhooked(s);
        assert(s.skip(s.len() - u.len()) =~= rest.skip(rest.len() - u.len()));
        assert(t.skip(t.len() - u.len()) =~= rest.skip(rest.len() - u.len()));
    } else {
        assert(s.skip(0) =~= s);
    }
}

/// Stripping never takes anything from the middle or the end of a text: what is left is how the
/// text ended, white space aside.
pub proof fn law_stripped_text_is_the_end_of_the_text(content: Seq<char>)
    ensures
        stripped(content).len() <= trimmed(content).len(),
        stripped(content) == trimmed(content).skip(
            trimmed(content).len() - stripped(content).len(),
        ),
{
    lemma_unhooked_is_behind(trimmed(content));
}

proof fn lemma_stripped_is_ascii(content: Seq<char>)
    requires
        all_ascii(content),
    ensures
        all_ascii(stripped(content)),
{
    let at = law_trimming_takes_only_white_space(content);
    law_stripped_text_is_the_end_of_the_text(content);
    let t = trimmed(content);
    assert forall|i: int| 0 <= i < t.len() implies (#[trigger] t[i] as u32) < 128 by {
        assert(t[i] == content[at.0 + i]);
    }
}

/// A text that starts with no bracket, or with one that is never closed, loses nothing but the
/// white space around it.
pub proof fn law_text_without_bracket_stays(content: Seq<char>)
    requires
        trimmed(content).len() == 0 || trimmed(content)[0] != '[' || !trimmed(content).contains(
            ']',
        ),
    ensures
        stripped(content) == trimmed(content),
{
    let t = trimmed(content);
    lemma_first_index(t, ']');
    if hooked(t) {
        assert(t[first_index(t, ']')] == ']');
    }
}

/// A counter, a time of day or an absolute path in brackets is stripped from the start of a
/// capture; any other bracketed text stays.
pub proof fn law_only_counters_times_and_paths_are_stripped(inner: Seq<char>, content: Seq<char>)
    requires
        !inner.contains(']'),
        content.len() > 0 ==> !space(content.last()),
    ensures
        ({
            let counter = inner.len() > 0 && forall|i: int|
                0 <= i < inner.len() ==> '0' <= #[trigger] inner[i] <= '9';
            let time = encode_utf8(inner).len() == 8 && inner.len() > 5 && inner[2] == ':'
                && inner[5] == ':';
            let path = inner.len() > 0 && inner[0] == '/';
            let whole = seq!['['] + inner + seq![']'] + content;
            stripped(whole) == if counter || time || path {
                stripped(content)
            } else {
                whole
            }
        }),
{
    let head = seq!['['] + inner + seq![']'];
    let whole = head + content;
    if hook_text(inner) {
        law_hook_prefix_keeps_hash(Seq::empty(), inner, content);
        assert(Seq::<char>::empty() + whole =~= whole);
    } else {
        assert(whole[0] == '[');
        assert(head.last() == ']');
        assert(!space(whole.last())) by {
            if content.len() == 0 {
                assert(whole.last() == ']');
            }
        }
        lemma_trimmed_fixed(whole);
        let n = inner.len() as int + 1;
        assert(whole[n] == ']');
        assert forall|j: int| 0 <= j < n implies whole[j] != ']' by {
            if j > 0 {
                assert(whole[j] == inner[j - 1]);
            }
        }
        lemma_first_index_is(whole, ']', n);
        assert(whole.subrange(1, n) =~= inner);
    }
}

/// The hash of a capture covers every word of its stripped text: it is that of the lowercase form
/// of a text with the same words, none left out, none cut and none moved.
pub proof fn law_hash_covers_every_word(content: Seq<char>) -> (t: Seq<char>)
    ensures
        words(t) == words(stripped(content)),
        hash_of(content) == hex_of(sha256_of(encode_utf8(lowercase_of(t)))),
{
    law_words_are_solid(stripped(content));
    law_joined_words_are_found_again(words(stripped(content)));
    joined(words(stripped(content)), " "@)
}

/// Whether two lists hold the same words, one by one, but for the case of ASCII letters.
pub open spec fn same_words(a: Seq<Seq<char>>, b: Seq<Seq<char>>) -> bool {
    &&& a.len() == b.len()
    &&& forall|i: int|
        0 <= i < a.len() ==> (#[trigger] a[i]).map_values(|c: char| ascii_lower(c))
            == b[i].map_values(|c: char| ascii_lower(c))
}

/// Captures are repeats of each other exactly if they hold the same words in the same order, but
/// for case and white space: of ASCII texts, given that lowercase takes `A`..`Z` to `a`..`z` and
/// keeps all other characters of such texts, the hashed texts agree if and only if the words of
/// the stripped texts do, up to case.
pub proof fn law_captures_are_compared_by_all_their_words(a: Seq<char>, b: Seq<char>)
    requires
        all_ascii(a),
        all_ascii(b),
    ensures
        (forall|s: Seq<char>|
            all_ascii(s) ==> #[trigger] lowercase_of(s) == s.map_values(|c: char| ascii_lower(c)))
            ==> (canonical(a) == canonical(b) <==> same_words(
            words(stripped(a)),
            words(stripped(b)),
        )),
{
    if forall|s: Seq<char>|
        all_ascii(s) ==> #[trigger] lowercase_of(s) == s.map_values(|c: char| ascii_lower(c)) {
        lemma_canonical_words(a);
        lemma_canonical_words(b);
        let each = |w: Seq<char>| w.map_values(|c: char| ascii_lower(c));
        let (x, y) = (words(stripped(a)), words(stripped(b)));
        if canonical(a) == canonical(b) {
            assert(x.map_values(each) == y.map_values(each));
            assert(x.map_values(each).len() == x.len());
            assert(y.map_values(each).len() == y.len());
            assert forall|i: int| 0 <= i < x.len() implies (#[trigger] x[i]).map_values(
                |c: char| ascii_lower(c),
            ) == y[i].map_values(|c: char| ascii_lower(c)) by {
                assert(x.map_values(each)[i] == y.map_values(each)[i]);
            }
        }
        if same_words(x, y) {
            assert(x.map_values(each) =~= y.map_values(each));
        }
    }
}

proof fn lemma_canonical_words(content: Seq<char>)
    requires
        all_ascii(content),
        forall|s: Seq<char>|
            all_ascii(s) ==> #[trigger] lowercase_of(s) == s.map_values(|c: char| ascii_lower(c)),
    ensures
        words(canonical(content)) == words(stripped(content)).map_values(
            |w: Seq<char>| w.map_values(|c: char| ascii_lower(c)),
        ),
        canonical(content) == joined(
            words(stripped(content)).map_values(
                |w: Seq<char>| w.map_values(|c: char| ascii_lower(c)),
            ),
            " "@,
        ),
{
    let list = words(stripped(content));
    lemma_stripped_is_ascii(content);
    lemma_ascii_words(stripped(content));
    lemma_ascii_joined(list);
    law_words_are_solid(stripped(content));
    law_joined_words_are_found_again(list);
    law_case_does_not_part_words(joined(list, " "@));
    lemma_joined_lower(list);
}

proof fn lemma_joined_lower(list: Seq<Seq<char>>)
    ensures
        joined(list, " "@).map_values(|c: char| ascii_lower(c)) == joined(
            list.map_values(|w: Seq<char>| w.map_values(|c: char| ascii_lower(c))),
            " "@,
        ),
    decreases list.len(),
{
    reveal_strlit(" ");
    let low = |c: char| ascii_lower(c);
    let each = |w: Seq<char>| w.map_values(|c: char| ascii_lower(c));
    if list.len() == 0 {
        assert(joined(list, " "@).map_values(low) =~= joined(list.map_values(each), " "@));
    } else if list.len() > 1 {
        let before = list.drop_last();
        lemma_joined_lower(before);
        assert(list.map_values(each).drop_last() =~= before.map_values(each));
        assert(list.map_values(each).last() == list.last().map_values(low));
        assert(" "@.map_values(low) =~= " "@);
        assert(joined(list, " "@).map_values(low) =~= joined(before, " "@).map_values(low) + " "@
            + list.last().map_values(low));
    }
}

/// Commands that carry no information are noise, whatever source captures passively: status
/// echoes, transient commands with anything behind them, and changes of directory.
pub proof fn law_commands_without_information_are_noise(content: Seq<char>, source: EngramSource)
    requires
        source !is Consolidation,
        source !is Imagined,
        source !is AiSession,
        source !is AiTool,
        source !is Research,
        ({
            let lower = lowercase_of(stripped(content));
            ||| lower == "ls"@
            ||| lower == "ll"@
            ||| lower == "clear"@
            ||| lower == "exit"@
            ||| lower == "quit"@
            ||| lower == "history"@
            ||| lower == "history -a"@
            ||| lower == "pwd"@
            ||| lower == "date"@
            ||| lower == "whoami"@
            ||| lower == "help"@
            ||| lower == "sleep"@
            ||| lower == "pkill"@
            ||| lower == "already recording"@
            ||| lower == "no active session"@
            ||| lower == "engram daemon not running"@
            ||| lower == "engram-record-stop"@
            ||| lower == "engramctl stop"@
            ||| lower == "engramctl start"@
            ||| lower == "engramctl status"@
            ||| starts_with(lower, "sleep "@)
            ||| starts_with(lower, "pkill "@)
            ||| starts_with(lower, "kill "@)
            ||| starts_with(lower, "killall "@)
            ||| starts_with(lower, "tail -5"@)
            ||| starts_with(lower, "tail -n 5"@)
            ||| starts_with(lower, "source engramctl"@)
            ||| starts_with(lower, ". engramctl"@)
            ||| starts_with(lower, "engramctl record"@)
            ||| starts_with(lower, "engramctl session start"@)
            ||| starts_with(lower, "engramctl session stop"@)
            ||| lower == "cd"@
            ||| starts_with(lower, "cd "@) && !lower.contains('&')
        }),
    ensures
        noise_reason_of(content, source) is Some,
{
    law_stripped_text_is_trimmed(content);
    let lower = lowercase_of(stripped(content));
    if starts_with(lower, "cd "@) && !lower.contains('&') {
        reveal_strlit("&&");
        assert forall|i: int| !occurs_at(lower, "&&"@, i) by {
            if occurs_at(lower, "&&"@, i) {
                assert(lower.subrange(i, i + 2)[0] == '&');
                assert(lower[i] == '&');
            }
        }
        assert(pieces(lower, "&&"@) == seq![lower]);
        reveal_strlit("cd ");
        reveal_strlit("cd");
        let at = law_trimming_takes_only_white_space(lower);
        let t = trimmed(lower);
        assert(lower.take(3)[0] == 'c' && lower.take(3)[1] == 'd' && lower.take(3)[2] == ' ');
        assert(lower[0] == 'c' && lower[1] == 'd' && lower[2] == ' ');
        assert(at.0 == 0);
        assert(at.1 >= 2);
        if at.1 == 2 {
            assert(t =~= "cd"@);
        } else {
            assert(at.1 != 3 || t.last() == ' ');
            assert(t.take(3) =~= "cd "@);
        }
    }
}

/// A capture of two words or more is kept, or of three behind a hook text, unless it is one of the
/// commands that carry no information.
pub proof fn law_meaningful_captures_are_kept(content: Seq<char>, source: EngramSource)
    requires
        words(stripped(content)).len() >= 3 || words(stripped(content)).len() == 2 && stripped(
            content,
        ) == trimmed(content),
        ({
            let lower = lowercase_of(stripped(content));
            &&& lower != "ls"@
            &&& lower != "ll"@
            &&& lower != "clear"@
            &&& lower != "exit"@
            &&& lower != "quit"@
            &&& lower != "history"@
            &&& lower != "history -a"@
            &&& lower != "pwd"@
            &&& lower != "date"@
            &&& lower != "whoami"@
            &&& lower != "help"@
            &&& lower != "sleep"@
            &&& lower != "pkill"@
            &&& lower != "already recording"@
            &&& lower != "no active session"@
            &&& lower != "engram daemon not running"@
            &&& lower != "engram-record-stop"@
            &&& lower != "engramctl stop"@
            &&& lower != "engramctl start"@
            &&& lower != "engramctl status"@
            &&& !starts_with(lower, "sleep "@)
            &&& !starts_with(lower, "pkill "@)
            &&& !starts_with(lower, "kill "@)
            &&& !starts_with(lower, "killall "@)
            &&& !starts_with(lower, "tail -5"@)
            &&& !starts_with(lower, "tail -n 5"@)
            &&& !starts_with(lower, "source engramctl"@)
            &&& !starts_with(lower, ". engramctl"@)
            &&& !starts_with(lower, "engramctl record"@)
            &&& !starts_with(lower, "engramctl session start"@)
            &&& !starts_with(lower, "engramctl session stop"@)
            &&& lower != "cd"@
            &&& starts_with(lower, "cd "@) ==> exists|i: int|
                0 <= i < pieces(lower, "&&"@).len() && {
                    let part = trimmed(#[trigger] pieces(lower, "&&"@)[i]);
                    part.len() > 0 && part != "cd"@ && !starts_with(part, "cd "@)
                }
        }),
    ensures
        noise_reason_of(content, source) is None,
{
    law_stripped_text_is_trimmed(content);
    let c = stripped(content);
    assert(c.len() > 0) by {
        if c.len() == 0 {
            assert(words(c).len() == 0);
        }
    }
    let lower = lowercase_of(c);
    if starts_with(lower, "cd "@) {
        let i = choose|i: int|
            0 <= i < pieces(lower, "&&"@).len() && {
                let part = trimmed(#[trigger] pieces(lower, "&&"@)[i]);
                part.len() > 0 && part != "cd"@ && !starts_with(part, "cd "@)
            };
        assert(!idle(pieces(lower, "&&"@)[i]));
    }
}

/// Captures of consolidation, of imagination, of AI sessions and tools and of research are never
/// noise.
pub proof fn law_programmatic_captures_are_kept(content: Seq<char>, source: EngramSource)
    requires
        source is Consolidation || source is Imagined || source is AiSession || source is AiTool
            || source is Research,
    ensures
        noise_reason_of(content, source) is None,
{
}

/// What is behind the leading `#` signs of a text.
pub proof fn law_only_leading_hashes_are_taken(s: Seq<char>) -> (n: int)
    ensures
        0 <= n <= s.len(),
        unhashed(s) == s.skip(n),
        forall|i: int| 0 <= i < n ==> #[trigger] s[i] == '#',
        n < s.len() ==> s[n] != '#',
    decreases s.len(),
{
    if s.len() > 0 && s[0] == '#' {
        let rest = s.drop_first();
        let n = law_only_leading_hashes_are_taken(rest);
        assert(rest.skip(n) =~= s.skip(n + 1));
        assert forall|i: int| 0 <= i < n + 1 implies #[trigger] s[i] == '#' by {
            if i > 0 {
                assert(rest[i - 1] == s[i]);
            }
        }
        if n < rest.len() {
            assert(rest[n] == s[n + 1]);
        }
        n + 1
    } else {
        assert(s.skip(0) =~= s);
        0
    }
}

/// The standard form of a tag keeps its words: it is the lowercase form of a text with the words
/// that stand behind the leading `#` signs, whole if that has at most 32 characters, and else its
/// first 32.
pub proof fn law_tag_keeps_its_words(raw: Seq<char>) -> (t: Seq<char>)
    ensures
        words(t) == words(unhashed(raw)),
        standard_tag(raw).is_prefix_of(lowercase_of(t)),
        lowercase_of(t).len() <= 32 ==> standard_tag(raw) == lowercase_of(t),
        lowercase_of(t).len() > 32 ==> standard_tag(raw).len() == 32,
{
    law_words_are_solid(unhashed(raw));
    law_joined_words_are_found_again(words(unhashed(raw)));
    joined(words(unhashed(raw)), " "@)
}

/// A tag that says something is kept in its standard form, as long as fewer than eight others are;
/// and more than eight never are.
pub proof fn law_useful_tags_are_kept(tags: Seq<Seq<char>>, i: int)
    requires
        0 <= i < tags.len(),
        ({
            let t = standard_tag(tags[i]);
            &&& t.len() > 0
            &&& t != "note"@
            &&& t != "notes"@
            &&& t != "misc"@
            &&& t != "miscellaneous"@
            &&& t != "other"@
            &&& t != "general"@
            &&& t != "memory"@
            &&& t != "memories"@
            &&& t != "untagged"@
            &&& t != "stuff"@
            &&& t != "random"@
        }),
    ensures
        kept_tags(tags).len() <= 8,
        kept_tags(tags).len() < 8 ==> kept_tags(tags).contains(standard_tag(tags[i])),
{
    law_kept_tags_are_standard(tags);
    law_tags_are_neither_lost_nor_made_up(tags);
    if kept_tags(tags).len() < 8 {
        let t = standard_tag(tags[i]);
        assert(t.len() == 0 || denied_tag(t) || kept_tags(tags).contains(t));
    }
}

/// Tags that help no search are never kept.
pub proof fn law_useless_tags_are_dropped(tags: Seq<Seq<char>>, t: Seq<char>)
    requires
        ({
            ||| t == "note"@
            ||| t == "notes"@
            ||| t == "misc"@
            ||| t == "miscellaneous"@
            ||| t == "other"@
            ||| t == "general"@
            ||| t == "memory"@
            ||| t == "memories"@
            ||| t == "untagged"@
            ||| t == "stuff"@
            ||| t == "random"@
            ||| t.len() == 0
        }),
    ensures
        !kept_tags(tags).contains(t),
{
    law_kept_tags_are_standard(tags);
    if kept_tags(tags).contains(t) {
        let i = choose|i: int| 0 <= i < kept_tags(tags).len() && kept_tags(tags)[i] == t;
        assert(!denied_tag(kept_tags(tags)[i]));
    }
}

/// A capture that is filtered is told why: for being empty, a command without information, a single
/// word, or too short behind a hook text.
pub proof fn law_reasons_for_filtering(c: Seq<char>, lower: Seq<char>, prefixed: bool)
    ensures
        ({
            let listed = bookkeeping(lower) || transient(lower) || only_cd(lower);
            &&& c.len() == 0 ==> noise_of(c, lower, prefixed) == Some("empty content"@)
            &&& c.len() > 0 && bookkeeping(lower) ==> noise_of(c, lower, prefixed) == Some(
                "bookkeeping command"@,
            )
            &&& c.len() > 0 && !bookkeeping(lower) && transient(lower) ==> noise_of(
                c,
                lower,
                prefixed,
            ) == Some("transient command"@)
            &&& c.len() > 0 && !bookkeeping(lower) && !transient(lower) && only_cd(lower)
                ==> noise_of(c, lower, prefixed) == Some("cd bookkeeping"@)
            &&& c.len() > 0 && !listed && words(c).len() == 1 ==> noise_of(c, lower, prefixed)
                == Some("single token"@)
            &&& c.len() > 0 && !listed && words(c).len() == 2 && prefixed ==> noise_of(
                c,
                lower,
                prefixed,
            ) == Some("too short for a memory"@)
            &&& c.len() > 0 && !listed && words(c).len() >= 3 ==> noise_of(c, lower, prefixed)
                is None
            &&& c.len() > 0 && !listed && words(c).len() == 2 && !prefixed ==> noise_of(
                c,
                lower,
                prefixed,
            ) is None
        }),
{
}

/// A capture is judged by its stripped text in any case, and by whether stripping took a hook text
/// away.
pub proof fn law_captures_are_judged_by_their_stripped_text(
    content: Seq<char>,
    source: EngramSource,
)
    requires
        source !is Consolidation,
        source !is Imagined,
        source !is AiSession,
        source !is AiTool,
        source !is Research,
    ensures
        noise_reason_of(content, source) == noise_of(
            stripped(content),
            lowercase_of(stripped(content)),
            stripped(content) != trimmed(content),
        ),
{
    law_stripped_text_is_trimmed(content);
}

} // verus!
