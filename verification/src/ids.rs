//! Identifiers of memories.
use crate::text::{chars_of, concat, slice, string_of};
use vstd::prelude::*;

verus! {

/// Whether a character is a lowercase hexadecimal digit.
pub open spec fn hex_char(c: char) -> bool {
    ('0' <= c <= '9') || ('a' <= c <= 'f')
}

/// Whether a text is a random (version 4) UUID in its hyphenated lowercase form.
pub open spec fn random_uuid(s: Seq<char>) -> bool {
    &&& s.len() == 36
    &&& forall|i: int|
        0 <= i < 36 ==> if i == 8 || i == 13 || i == 18 || i == 23 {
            #[trigger] s[i] == '-'
        } else {
            hex_char(s[i])
        }
    &&& s[14] == '4'
    &&& s[19] == '8' || s[19] == '9' || s[19] == 'a' || s[19] == 'b'
}

/// `uuid::Uuid::new_v4` and its `to_string`. Every outcome is a random UUID in hyphenated
/// lowercase form; which one is left to chance.
#[verifier::external_body]
pub(crate) fn new_uuid() -> (r: String)
    ensures
        random_uuid(r@),
{
    uuid::Uuid::new_v4().to_string()
}

/// The identifier of a memory made from a UUID: its first 16 hexadecimal digits behind `mem_`.
pub open spec fn memory_id_of(uuid: Seq<char>) -> Seq<char> {
    "mem_"@ + (uuid.subrange(0, 8) + uuid.subrange(9, 13) + uuid.subrange(14, 18))
}

/// The identifier of a memory made from a UUID.
pub fn memory_id(uuid: &str) -> (r: String)
    requires
        uuid@.len() >= 18,
    ensures
        r@ == memory_id_of(uuid@),
{
    let all = chars_of(uuid);
    let mut digits = slice(all.as_slice(), 0, 8);
    let second = slice(all.as_slice(), 9, 13);
    let third = slice(all.as_slice(), 14, 18);
    crate::text::append_chars(&mut digits, second.as_slice());
    crate::text::append_chars(&mut digits, third.as_slice());
    let text = string_of(digits.as_slice());
    concat("mem_", text.as_str())
}

/// Whether a text is `mem_` and 16 hexadecimal digits.
pub open spec fn memory_id_shape(s: Seq<char>) -> bool {
    &&& s.len() == 20
    &&& s.take(4) == "mem_"@
    &&& forall|i: int| 4 <= i < 20 ==> hex_char(#[trigger] s[i])
}

/// Every memory identifier made from a random UUID is `mem_` and 16 hexadecimal digits.
pub proof fn law_memory_ids_are_hexadecimal(uuid: Seq<char>)
    requires
        random_uuid(uuid),
    ensures
        memory_id_shape(memory_id_of(uuid)),
{
    reveal_strlit("mem_");
    let s = memory_id_of(uuid);
    assert(s.take(4) =~= "mem_"@);
    assert forall|i: int| 4 <= i < 20 implies hex_char(#[trigger] s[i]) by {
        if i < 12 {
            assert(s[i] == uuid[i - 4]);
        } else if i < 16 {
            assert(s[i] == uuid[i - 3]);
        } else {
            assert(s[i] == uuid[i - 2]);
        }
    }
}

/// An identifier keeps the first sixteen digits of the random one that it is made of: two are the
/// same only if those are.
pub proof fn law_identifiers_keep_their_digits(a: Seq<char>, b: Seq<char>)
    requires
        random_uuid(a),
        random_uuid(b),
        memory_id_of(a) == memory_id_of(b),
    ensures
        forall|i: int| 0 <= i < 18 ==> #[trigger] a[i] == b[i],
{
    reveal_strlit("mem_");
    let (x, y) = (memory_id_of(a), memory_id_of(b));
    assert forall|i: int| 0 <= i < 18 implies #[trigger] a[i] == b[i] by {
        if i < 8 {
            assert(x[4 + i] == a[i] && y[4 + i] == b[i]);
        } else if i == 8 || i == 13 {
            assert(a[i] == '-' && b[i] == '-');
        } else if i < 13 {
            assert(x[3 + i] == a[i] && y[3 + i] == b[i]);
        } else {
            assert(x[2 + i] == a[i] && y[2 + i] == b[i]);
        }
    }
}

} // verus!
