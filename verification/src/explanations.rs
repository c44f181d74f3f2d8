use vstd::prelude::*;

verus! {

/// The character sequences of a list of strings.
pub open spec fn strings_view(v: Seq<String>) -> Seq<Seq<char>> {
    v.map_values(|s: String| s@)
}

/// The character sequences of a list of strings are those of its strings,
/// one for one and in order, unchanged.
pub proof fn lemma_strings_view_keeps_each_string(v: Seq<String>)
    ensures
        strings_view(v).len() == v.len(),
        forall|i: int| 0 <= i < v.len() ==> #[trigger] strings_view(v)[i] == v[i]@,
{
}

/// What `serde_json::from_str::<Vec<String>>` reads from `text`: the list of
/// strings that the JSON array in `text` holds, or `None` where `text` is not
/// such an array.
pub uninterp spec fn string_list_from_json(text: Seq<char>) -> Option<Seq<Seq<char>>>;

/// What `serde_json::to_string` writes for a list of strings: a JSON array.
pub uninterp spec fn string_list_to_json(items: Seq<Seq<char>>) -> Seq<char>;

/// `serde_json::from_str::<Vec<String>>`, with its error dropped: the list
/// of strings in the JSON text, or `None` where the text is not one.
#[verifier::external_body]
pub(crate) fn parse_string_list(text: &str) -> (res: Option<Vec<String>>)
    ensures
        match res {
            Some(v) => string_list_from_json(text@) == Some(strings_view(v@)),
            None => string_list_from_json(text@) is None,
        },
{
    serde_json::from_str::<Vec<String>>(text).ok()
}

/// `serde_json::to_string` on a list of strings. Serialising a list of
/// strings cannot fail, and reading the text back with
/// `serde_json::from_str::<Vec<String>>` gives the same list.
#[verifier::external_body]
fn write_string_list(items: &Vec<String>) -> (res: String)
    ensures
        res@ == string_list_to_json(strings_view(items@)),
        string_list_from_json(res@) == Some(strings_view(items@)),
{
    serde_json::to_string(items).unwrap()
}

/// Encodes explanations the way a word's `exp_cn` stores them.
pub fn encode_explanations(values: &Vec<String>) -> (res: String)
    ensures
        res@ == string_list_to_json(strings_view(values@)),
        string_list_from_json(res@) == Some(strings_view(values@)),
{
    write_string_list(values)
}

/// Whether `explanation` is one of `explanations`.
pub fn explanation_listed(explanations: &Vec<String>, explanation: &str) -> (res: bool)
    ensures
        res == strings_view(explanations@).contains(explanation@),
{
    let wanted = String::from_str(explanation);
    let n = explanations.len();
    for i in 0..n
        invariant
            n == explanations@.len(),
            wanted@ == explanation@,
            forall|j: int| 0 <= j < i ==> explanations@[j]@ != explanation@,
    {
        if explanations[i] == wanted {
            assert(strings_view(explanations@)[i as int] == explanation@);
            return true;
        }
    }
    assert forall|j: int| 0 <= j < strings_view(explanations@).len() implies strings_view(
        explanations@,
    )[j] != explanation@ by {}
    false
}

} // verus!
