//! The Markdown event stream, as plain values.
//!
//! `pulldown-cmark` does the parsing; the library only reads the events it
//! needs: heading starts and ends with their level, text, and the ends of the
//! four foldable block kinds with the byte span of the whole block.

use pulldown_cmark::{Event, Options, Parser, Tag, TagEnd};
use vstd::prelude::*;

use self::BlockKind::{Code, List, Paragraph, Table};
use self::MdEvent::{BlockEnd, HeadingEnd, HeadingStart, Other, Text};

verus! {

/// The four block kinds the chunker folds.
#[derive(Debug, Clone, Copy, PartialEq, Eq, Structural)]
pub enum BlockKind {
    /// A paragraph.
    Paragraph,
    /// A fenced or indented code block.
    Code,
    /// A table.
    Table,
    /// A list, ordered or not.
    List,
}

/// Whether overlap may flow into or out of a block of this kind.
pub open spec fn is_text_kind(kind: BlockKind) -> bool {
    kind == BlockKind::Paragraph || kind == BlockKind::List
}

impl BlockKind {
    /// Paragraphs and lists are text; code and tables are not.
    pub fn is_text_kind(self) -> (r: bool)
        ensures
            r == is_text_kind(self),
    {
        match self {
            BlockKind::Paragraph | BlockKind::List => true,
            _ => false,
        }
    }
}

/// One parser event, reduced to what the library reads.
#[derive(Debug, Clone, PartialEq, Eq)]
pub enum MdEvent {
    /// `Start(Heading)` with its level, 1 through 6.
    HeadingStart(u8),
    /// `End(Heading)` with its level.
    HeadingEnd(u8),
    /// A `Text` event.
    Text(String),
    /// The end of a paragraph, code block, table or list, with the block's
    /// byte span `start..end`.
    BlockEnd(BlockKind, usize, usize),
    /// Any other event.
    Other,
}

/// The event stream `pulldown-cmark` produces for `text` with tables enabled.
pub uninterp spec fn markdown_events(text: Seq<char>) -> Seq<MdEvent>;

/// Wraps `pulldown_cmark::Parser::new_ext(text, ENABLE_TABLES).into_offset_iter()`,
/// mapping each event onto [`MdEvent`]. Nothing is stated about the stream
/// beyond its name: not even that the spans lie inside `text`.
#[verifier::external_body]
pub(crate) fn parse_markdown(text: &str) -> (events: Vec<MdEvent>)
    ensures
        events@ == markdown_events(text@),
{
    Parser::new_ext(text, Options::ENABLE_TABLES).into_offset_iter().map(|(event, r)| match event {
        Event::Start(Tag::Heading { level, .. }) => HeadingStart(level as u8),
        Event::End(TagEnd::Heading(level)) => HeadingEnd(level as u8),
        Event::Text(t) => Text(t.to_string()),
        Event::End(TagEnd::Paragraph) => BlockEnd(Paragraph, r.start, r.end),
        Event::End(TagEnd::CodeBlock) => BlockEnd(Code, r.start, r.end),
        Event::End(TagEnd::Table) => BlockEnd(Table, r.start, r.end),
        Event::End(TagEnd::List(_)) => BlockEnd(List, r.start, r.end),
        _ => Other,
    }).collect()
}

} // verus!
