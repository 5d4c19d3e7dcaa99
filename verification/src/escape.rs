use vstd::prelude::*;

verus! {

/// What `unescaper::unescape` returns for a text: the text with its escape
/// sequences resolved, or `None` where it reports a malformed escape.
pub uninterp spec fn unescaped(s: Seq<char>) -> Option<Seq<char>>;

/// Resolves the escape sequences of `s` with `unescaper::unescape`.
/// Trusted: the result is `unescaped(s)`, taken as a function of the text
/// alone, and a text without a backslash comes back unchanged, as the loop of
/// `Unescaper::unescape` shows (it copies every character other than `\`).
/// Which escapes it resolves, and to what, is left unstated.
#[verifier::external_body]
pub(crate) fn unescape(s: &str) -> (r: Option<String>)
    ensures
        match r {
            Some(t) => unescaped(s@) == Some(t@),
            None => unescaped(s@) is None,
        },
        (forall|i: int| 0 <= i < s@.len() ==> s@[i] != '\\') ==> (r is Some && r->0@ == s@),
{
    match unescaper::unescape(s) {
        Ok(t) => Some(t),
        Err(_) => None,
    }
}

} // verus!
