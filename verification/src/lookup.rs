use vstd::prelude::*;

verus! {

/// Calls `<str as PartialEq>::eq`, which compares two texts character by
/// character.
#[verifier::external_body]
fn same_text(left: &str, right: &str) -> (same: bool)
    ensures
        same == (left@ == right@),
{
    left == right
}

/// Whether no entry before position `end` is named `key`.
pub open spec fn no_match_before(entries: Seq<(String, String)>, key: Seq<char>, end: int) -> bool {
    forall|i: int| 0 <= i < end ==> (#[trigger] entries[i]).0@ != key
}

/// Returns the first value whose name equals `key`.
///
/// The returned value borrows from `entries`. The search uses exact,
/// case-sensitive string equality and does not allocate.
pub fn find_value<'entries>(entries: &'entries [(String, String)], key: &str) -> (found: Option<
    &'entries str,
>)
    ensures
        match found {
            None => no_match_before(entries@, key@, entries@.len() as int),
            Some(value) => exists|i: int|
                0 <= i < entries@.len() && (#[trigger] entries@[i]).0@ == key@ && no_match_before(
                    entries@,
                    key@,
                    i,
                ) && value@ == entries@[i].1@,
        },
{
    let mut i: usize = 0;
    while i < entries.len()
        invariant
            i <= entries@.len(),
            no_match_before(entries@, key@, i as int),
        decreases entries@.len() - i,
    {
        let entry = &entries[i];
        if same_text(entry.0.as_str(), key) {
            assert(entries@[i as int].0@ == key@);
            return Some(entry.1.as_str());
        }
        i = i + 1;
    }
    None
}

} // verus!
