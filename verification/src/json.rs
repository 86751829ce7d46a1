//! JSON texts: capture contexts and tag lists.
use crate::text::texts;
use vstd::prelude::*;

verus! {

/// The compact form in which `serde_json` writes the document that a text holds, or nothing where
/// `serde_json::from_str` rejects the text.
pub uninterp spec fn json_compact(s: Seq<char>) -> Option<Seq<char>>;

/// The text value that `serde_json` finds under a key of the object that a text holds, or nothing
/// where the text holds no object, the key is missing or its value is no text.
pub uninterp spec fn json_member(s: Seq<char>, key: Seq<char>) -> Option<Seq<char>>;

/// The JSON array of texts that `serde_json::to_string` writes for a list.
pub uninterp spec fn json_array(list: Seq<Seq<char>>) -> Seq<char>;

/// The list of texts that `serde_json::from_str` reads from a JSON array, or nothing where it
/// rejects the text.
pub uninterp spec fn json_list(s: Seq<char>) -> Option<Seq<Seq<char>>>;

/// `serde_json::from_str` to a `serde_json::Value` and that value's `to_string`. The result is the
/// named compact form.
#[verifier::external_body]
fn compact_json(s: &str) -> (r: Option<String>)
    ensures
        crate::text::opt_text(r) == json_compact(s@),
{
    serde_json::from_str::<serde_json::Value>(s).ok().map(|v| v.to_string())
}

/// `serde_json::from_str` to a `serde_json::Value`, its `get` and `as_str`. The result is the
/// named member.
#[verifier::external_body]
pub(crate) fn text_member(s: &str, key: &str) -> (r: Option<String>)
    ensures
        crate::text::opt_text(r) == json_member(s@, key@),
{
    let document: serde_json::Value = serde_json::from_str(s).ok()?;
    document.get(key)?.as_str().map(|t| t.to_string())
}

/// `serde_json::to_string` of a list of texts. The result is the named array, and reading it with
/// `serde_json::from_str` gives the list back.
#[verifier::external_body]
pub(crate) fn array_text(list: &Vec<String>) -> (r: String)
    ensures
        r@ == json_array(texts(list@)),
        json_list(r@) == Some(texts(list@)),
{
    serde_json::to_string(list).unwrap()
}

/// `serde_json::from_str` to a list of texts. The result is the named list.
#[verifier::external_body]
fn read_list(s: &str) -> (r: Option<Vec<String>>)
    ensures
        match r {
            Some(list) => json_list(s@) == Some(texts(list@)),
            None => json_list(s@) is None,
        },
{
    serde_json::from_str(s).ok()
}

/// The tags that a stored text stands for: the list it holds, or none.
pub open spec fn stored_tags(s: Seq<char>) -> Seq<Seq<char>> {
    match json_list(s) {
        Some(list) => list,
        None => Seq::empty(),
    }
}

/// The tags that a stored text stands for.
pub fn read_tags(s: &str) -> (r: Vec<String>)
    ensures
        texts(r@) == stored_tags(s@),
{
    match read_list(s) {
        Some(list) => list,
        None => {
            let none: Vec<String> = Vec::new();
            assert(texts(none@) =~= Seq::<Seq<char>>::empty());
            none
        },
    }
}

/// The context that a stored text stands for: its document in compact form, or the empty object.
pub open spec fn stored_context(s: Seq<char>) -> Seq<char> {
    match json_compact(s) {
        Some(t) => t,
        None => "{}"@,
    }
}

/// The context that a stored text stands for.
pub fn read_context(s: &str) -> (r: String)
    ensures
        r@ == stored_context(s@),
{
    match compact_json(s) {
        Some(t) => t,
        None => "{}".to_string(),
    }
}

/// Stored tags are those of the list that is stored, and none where that is no list; a stored
/// context that is no JSON is an empty object.
pub proof fn law_stored_json_is_read(s: Seq<char>)
    ensures
        json_list(s) is Some ==> stored_tags(s) == json_list(s)->0,
        json_list(s) is None ==> stored_tags(s).len() == 0,
        json_compact(s) is Some ==> stored_context(s) == json_compact(s)->0,
        json_compact(s) is None ==> stored_context(s) == "{}"@,
{
}

} // verus!
