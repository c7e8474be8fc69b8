//! Static asset lookup for the HTTP routes.

use vstd::prelude::*;

use crate::text::push_str;

verus! {

/// A name for the MIME type (its essence, such as `text/javascript`) that
/// `mime_guess` guesses for a path.
pub uninterp spec fn guessed_mime(path: Seq<char>) -> Seq<char>;

/// `application/octet-stream`.
pub open spec fn octet_stream() -> Seq<char> {
    seq!['a', 'p', 'p', 'l', 'i', 'c', 'a', 't', 'i', 'o', 'n', '/', 'o', 'c', 't', 'e', 't', '-', 's', 't', 'r', 'e', 'a', 'm']
}

/// `mime_guess::from_path(path).first_or_octet_stream()`, as its essence
/// string. The guess goes by the path's extension; the contract names the
/// result and states the documented fallback: a path without any `.` has
/// no extension and is guessed as `application/octet-stream`. The table of
/// extensions is not stated.
#[verifier::external_body]
fn mime_essence_for_path(path: &str) -> (res: String)
    ensures
        res@ == guessed_mime(path@),
        !path@.contains('.') ==> res@ == octet_stream(),
{
    mime_guess::from_path(path).first_or_octet_stream().essence_str().to_string()
}

/// The embedded path of a wasm-bindgen snippet (`snippets/<tail>`).
pub open spec fn snippet_path(tail: Seq<char>) -> Seq<char> {
    seq!['s', 'n', 'i', 'p', 'p', 'e', 't', 's', '/'] + tail
}

/// Where a `/snippets/<tail>` request is served from, and the content type
/// it is served with (guessed from the path, octet-stream when unknown).
pub fn snippet_asset(tail: &str) -> (res: (String, String))
    ensures
        res.0@ == snippet_path(tail@),
        res.1@ == guessed_mime(snippet_path(tail@)),
{
    let mut rel = "snippets/".to_owned();
    proof {
        reveal_strlit("snippets/");
        assert(rel@ =~= seq!['s', 'n', 'i', 'p', 'p', 'e', 't', 's', '/']);
    }
    push_str(&mut rel, tail);
    let mime = mime_essence_for_path(rel.as_str());
    (rel, mime)
}

} // verus!
