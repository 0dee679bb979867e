//! The searchable form of a chunk.

use vstd::prelude::*;

use crate::contracts::Chunk;
use crate::text::{owned, push_str};

verus! {

/// The heading path of a chunk, empty when it has none.
pub open spec fn heading_or_empty(chunk: Chunk) -> Seq<char> {
    match chunk.heading_path {
        Some(h) => h@,
        None => seq![],
    }
}

/// `《title》 > heading：body`, degrading in one direction when a piece is missing.
pub open spec fn indexed_form(title: Seq<char>, heading: Seq<char>, body: Seq<char>) -> Seq<char> {
    if title.len() > 0 && heading.len() > 0 {
        "《"@ + title + "》 > "@ + heading + "："@ + body
    } else if title.len() > 0 {
        "《"@ + title + "》："@ + body
    } else if heading.len() > 0 {
        heading + "："@ + body
    } else {
        body
    }
}

/// The searchable form of one chunk: `《title》 > heading_path：body`.
///
/// Index-only: the canonical chunk text stays the verbatim source slice. No
/// heading gives `《title》：body`; no title gives `heading_path：body`;
/// neither gives the bare body.
pub fn indexed_text(title: &str, chunk: &Chunk) -> (out: String)
    ensures
        out@ == indexed_form(title@, heading_or_empty(*chunk), chunk.text@),
{
    let empty = String::new();
    let heading: &String = match &chunk.heading_path {
        Some(h) => h,
        None => &empty,
    };
    let has_title = !title.is_empty();
    let has_heading = !heading.as_str().is_empty();
    let mut out = String::new();
    if has_title && has_heading {
        push_str(&mut out, "《");
        push_str(&mut out, title);
        push_str(&mut out, "》 > ");
        push_str(&mut out, heading.as_str());
        push_str(&mut out, "：");
    } else if has_title {
        push_str(&mut out, "《");
        push_str(&mut out, title);
        push_str(&mut out, "》：");
    } else if has_heading {
        push_str(&mut out, heading.as_str());
        push_str(&mut out, "：");
    }
    push_str(&mut out, chunk.text.as_str());
    out
}

} // verus!
