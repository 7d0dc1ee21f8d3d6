//! How the files of the dashboard are labelled when they are served.

use vstd::prelude::*;
use vstd::string::{StringExecFns, StringSliceAdditionalSpecFns};
use vstd::utf8::encode_utf8;

verus! {

/// The bytes of `text` end with the bytes of `suffix`.
pub open spec fn ends_with(text: Seq<char>, suffix: Seq<char>) -> bool {
    let t = encode_utf8(text);
    let s = encode_utf8(suffix);
    s.len() <= t.len() && t.subrange(t.len() - s.len(), t.len() as int) == s
}

/// The content type of a path: by its ending, and HTML where the ending
/// says nothing.
pub open spec fn content_type_of(path: Seq<char>) -> Seq<char> {
    if ends_with(path, ".js"@) {
        "text/javascript"@
    } else if ends_with(path, ".css"@) {
        "text/css"@
    } else if ends_with(path, ".png"@) {
        "image/png"@
    } else if ends_with(path, ".txt"@) {
        "text/plain"@
    } else {
        "text/html"@
    }
}

/// Whether the bytes of `text` end with the bytes of `suffix`.
pub fn text_ends_with(text: &str, suffix: &str) -> (r: bool)
    ensures
        r == ends_with(text@, suffix@),
{
    let t = text.as_bytes();
    let s = suffix.as_bytes();
    if s.len() > t.len() {
        return false;
    }
    let start = t.len() - s.len();
    let ghost tail = t@.subrange(start as int, t@.len() as int);
    let mut i: usize = 0;
    while i < s.len()
        invariant
            i <= s.len(),
            start + s.len() == t.len(),
            t@ == encode_utf8(text@),
            s@ == encode_utf8(suffix@),
            tail == t@.subrange(start as int, t@.len() as int),
            forall|j: int| 0 <= j < i ==> tail[j] == s@[j],
        decreases s.len() - i,
    {
        if t[start + i] != s[i] {
            assert(tail[i as int] != s@[i as int]);
            return false;
        }
        assert(tail[i as int] == t@[start + i]);
        i = i + 1;
    }
    assert(tail =~= s@);
    true
}

/// The content type under which a file of the dashboard is served.
pub fn content_type(path: &str) -> (r: &'static str)
    ensures
        r@ == content_type_of(path@),
{
    if text_ends_with(path, ".js") {
        "text/javascript"
    } else if text_ends_with(path, ".css") {
        "text/css"
    } else if text_ends_with(path, ".png") {
        "image/png"
    } else if text_ends_with(path, ".txt") {
        "text/plain"
    } else {
        "text/html"
    }
}

/// The files to try for a request, in order: the path itself, then the
/// index of the directory it names, then the index of the dashboard. A
/// request without a path gets the index of the dashboard alone.
pub open spec fn candidates_of(path: Option<Seq<char>>) -> Seq<Seq<char>> {
    match path {
        Some(p) => seq![p, p + "index.html"@, "index.html"@],
        None => seq!["index.html"@],
    }
}

/// The files to try for a request, in order.
pub fn candidates(path: Option<&str>) -> (files: Vec<String>)
    ensures
        files@.map_values(|f: String| f@) == candidates_of(
            match path {
                Some(p) => Some(p@),
                None => None,
            },
        ),
{
    let mut files: Vec<String> = Vec::new();
    match path {
        Some(p) => {
            files.push(p.to_owned());
            files.push(String::from_str(p).concat("index.html"));
        },
        None => {},
    }
    files.push("index.html".to_owned());
    assert(files@.map_values(|f: String| f@) =~= candidates_of(
        match path {
            Some(p) => Some(p@),
            None => None,
        },
    ));
    files
}

} // verus!
