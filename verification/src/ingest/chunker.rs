//! Deterministic Markdown chunking driven by `IndexPolicy`.
//!
//! Blocks are folded from the parser's offset events: a block's `End` event
//! carries the full byte span of the block. Chunk text is always the verbatim
//! source slice; packed blocks are joined with the literal separator `"\n\n"`
//! and nothing is ever re-serialized.

use vstd::prelude::*;
use vstd::string::*;
use vstd::utf8::*;

use super::hash::{chunk_hash_message, chunk_id_message, hex_sha256};
use super::markdown::{is_text_kind, markdown_events, parse_markdown, BlockKind, MdEvent};
use crate::contracts::{estimate_chars, token_estimate, Chunk, IndexPolicy};
use crate::text::{
    blank, chars_of, decimal, is_blank, join, push_char, push_chars, push_decimal, push_joined,
    push_str, same_chars, string_of, trim_chars, trimmed,
};

verus! {

broadcast use {vstd::utf8::encode_utf8_valid_utf8, vstd::utf8::encode_utf8_decode_utf8};

/// One foldable block, as the specification sees it.
#[verifier::ext_equal]
pub struct BlockView {
    /// Block kind.
    pub kind: BlockKind,
    /// First byte of the block.
    pub start: int,
    /// One past the last byte of the block.
    pub end: int,
    /// Non-empty heading titles above the block, outermost first.
    pub heading: Seq<Seq<char>>,
    /// The block's verbatim text.
    pub text: Seq<char>,
}

/// One foldable block: a byte span, its text, and the heading outline above it.
pub struct Block {
    /// Block kind.
    pub kind: BlockKind,
    /// First byte of the block.
    pub start: usize,
    /// One past the last byte of the block.
    pub end: usize,
    /// Non-empty heading titles above the block, outermost first.
    pub heading: Vec<Vec<char>>,
    /// The block's verbatim text.
    pub text: Vec<char>,
}

/// The characters of every title in `h`.
pub open spec fn titles_view(h: Seq<Vec<char>>) -> Seq<Seq<char>> {
    h.map_values(|v: Vec<char>| v@)
}

/// A block as the specification sees it.
pub open spec fn block_view(b: Block) -> BlockView {
    BlockView {
        kind: b.kind,
        start: b.start as int,
        end: b.end as int,
        heading: titles_view(b.heading@),
        text: b.text@,
    }
}

/// Every block as the specification sees it.
pub open spec fn blocks_view(bs: Seq<Block>) -> Seq<BlockView> {
    bs.map_values(|b: Block| block_view(b))
}

/// Whether `start..end` is a non-empty slice of `bytes` cut on character
/// boundaries.
pub open spec fn slice_ok(bytes: Seq<u8>, start: int, end: int) -> bool {
    &&& 0 <= start < end <= bytes.len()
    &&& is_char_boundary(bytes, end)
    &&& is_char_boundary(bytes.subrange(0, end), start)
}

/// The text of the byte span `start..end`.
pub open spec fn slice_text(bytes: Seq<u8>, start: int, end: int) -> Seq<char> {
    decode_utf8(bytes.subrange(start, end))
}

/// The heading outline and the blocks folded so far.
#[verifier::ext_equal]
pub struct Outline {
    /// Levels of the open headings, outermost first.
    pub levels: Seq<u8>,
    /// Titles of the open headings, outermost first.
    pub titles: Seq<Seq<char>>,
    /// Text gathered inside the heading being read.
    pub heading_text: Seq<char>,
    /// Whether a heading is being read.
    pub in_heading: bool,
    /// Blocks folded so far.
    pub blocks: Seq<BlockView>,
}

/// How many open headings survive a new heading of `level`: every heading of
/// the same or a deeper level is closed.
pub open spec fn kept_depth(levels: Seq<u8>, level: u8) -> nat
    decreases levels.len(),
{
    if levels.len() > 0 && levels.last() >= level {
        kept_depth(levels.drop_last(), level)
    } else {
        levels.len()
    }
}

/// Whether heading levels strictly rise from the outermost heading in.
pub open spec fn strictly_rising(levels: Seq<u8>) -> bool {
    forall|i: int, j: int| 0 <= i < j < levels.len() ==> levels[i] < levels[j]
}

/// Law: a new heading of `level` closes exactly the open headings of the same
/// or a deeper level. Of nested open headings, those kept are the ones
/// shallower than `level`, and every one closed is at `level` or deeper.
pub proof fn law_heading_closes_same_and_deeper(levels: Seq<u8>, level: u8)
    requires
        strictly_rising(levels),
    ensures
        kept_depth(levels, level) <= levels.len(),
        forall|i: int| 0 <= i < kept_depth(levels, level) ==> #[trigger] levels[i] < level,
        forall|i: int| kept_depth(levels, level) <= i < levels.len() ==> #[trigger] levels[i] >= level,
    decreases levels.len(),
{
    if levels.len() > 0 && levels.last() >= level {
        let d = levels.drop_last();
        assert forall|i: int, j: int| 0 <= i < j < d.len() implies d[i] < d[j] by {
            assert(d[i] == levels[i] && d[j] == levels[j]);
        }
        law_heading_closes_same_and_deeper(d, level);
        assert forall|i: int| kept_depth(levels, level) <= i < levels.len() implies #[trigger] levels[i]
            >= level by {
            if i < d.len() {
                assert(d[i] == levels[i]);
            }
        }
        assert forall|i: int| 0 <= i < kept_depth(levels, level) implies #[trigger] levels[i] < level by {
            assert(d[i] == levels[i]);
        }
    } else if levels.len() > 0 {
        assert forall|i: int| 0 <= i < kept_depth(levels, level) implies #[trigger] levels[i] < level by {
            if i < levels.len() - 1 {
                assert(levels[i] < levels[levels.len() - 1]);
            }
        }
    }
}

/// The non-empty titles, in order.
pub open spec fn nonempty_titles(titles: Seq<Seq<char>>) -> Seq<Seq<char>>
    decreases titles.len(),
{
    if titles.len() == 0 {
        seq![]
    } else if titles.last().len() == 0 {
        nonempty_titles(titles.drop_last())
    } else {
        nonempty_titles(titles.drop_last()).push(titles.last())
    }
}

/// One event folded into the outline.
pub open spec fn outline_step(o: Outline, e: MdEvent, bytes: Seq<u8>) -> Outline {
    match e {
        MdEvent::HeadingStart(level) => {
            let k = kept_depth(o.levels, level) as int;
            Outline {
                levels: o.levels.take(k).push(level),
                titles: o.titles.take(k).push(seq![]),
                heading_text: seq![],
                in_heading: true,
                blocks: o.blocks,
            }
        },
        MdEvent::Text(t) => if o.in_heading {
            Outline {
                levels: o.levels,
                titles: o.titles,
                heading_text: o.heading_text + t@,
                in_heading: o.in_heading,
                blocks: o.blocks,
            }
        } else {
            o
        },
        MdEvent::HeadingEnd(_) => Outline {
            levels: o.levels,
            titles: if o.titles.len() > 0 {
                o.titles.update(o.titles.len() - 1, trimmed(o.heading_text))
            } else {
                o.titles
            },
            heading_text: o.heading_text,
            in_heading: false,
            blocks: o.blocks,
        },
        MdEvent::BlockEnd(kind, start, end) => if slice_ok(bytes, start as int, end as int) {
            Outline {
                levels: o.levels,
                titles: o.titles,
                heading_text: o.heading_text,
                in_heading: o.in_heading,
                blocks: o.blocks.push(
                    BlockView {
                        kind,
                        start: start as int,
                        end: end as int,
                        heading: nonempty_titles(o.titles),
                        text: slice_text(bytes, start as int, end as int),
                    },
                ),
            }
        } else {
            o
        },
        MdEvent::Other => o,
    }
}

/// The outline after the first `n` events.
pub open spec fn outline_after(events: Seq<MdEvent>, n: int, bytes: Seq<u8>) -> Outline
    decreases n,
{
    if n <= 0 {
        Outline { levels: seq![], titles: seq![], heading_text: seq![], in_heading: false, blocks: seq![] }
    } else {
        outline_step(outline_after(events, n - 1, bytes), events[n - 1], bytes)
    }
}

/// Law: open headings always nest. Whatever the events, the levels of the
/// open headings strictly rise from the outermost in, and each open heading
/// has one title.
pub proof fn law_open_headings_nest(events: Seq<MdEvent>, n: int, bytes: Seq<u8>)
    requires
        n <= events.len(),
    ensures
        strictly_rising(outline_after(events, n, bytes).levels),
        outline_after(events, n, bytes).levels.len() == outline_after(events, n, bytes).titles.len(),
    decreases n,
{
    if n > 0 {
        law_open_headings_nest(events, n - 1, bytes);
        let o = outline_after(events, n - 1, bytes);
        match events[n - 1] {
            MdEvent::HeadingStart(level) => {
                law_heading_closes_same_and_deeper(o.levels, level);
                let k = kept_depth(o.levels, level) as int;
                let nl = o.levels.take(k).push(level);
                assert forall|i: int, j: int| 0 <= i < j < nl.len() implies nl[i] < nl[j] by {
                    assert(nl[i] == o.levels[i]);
                    if j < k {
                        assert(nl[j] == o.levels[j]);
                    }
                }
            },
            _ => {},
        }
    }
}

/// Law: a heading of level `L` is filed under exactly the open headings
/// shallower than `L`. After it opens, the open headings are those of the
/// previous outline with a level below `L`, in order and with their titles,
/// followed by the new heading; every open heading of level `L` or deeper is
/// closed. So `## Usage` after `# Guide > ## Install > ### Linux` sits under
/// `Guide` alone.
pub proof fn law_heading_files_under_shallower(events: Seq<MdEvent>, n: int, bytes: Seq<u8>, level: u8)
    requires
        0 < n <= events.len(),
        events[n - 1] == MdEvent::HeadingStart(level),
    ensures
        ({
            let before = outline_after(events, n - 1, bytes);
            let after = outline_after(events, n, bytes);
            &&& after.levels.len() >= 1
            &&& after.levels.last() == level
            &&& forall|i: int|
                0 <= i < after.levels.len() - 1 ==> #[trigger] after.levels[i] < level && after.levels[i]
                    == before.levels[i] && after.titles[i] == before.titles[i]
            &&& forall|i: int|
                0 <= i < before.levels.len() ==> (#[trigger] before.levels[i] < level <==> i
                    < after.levels.len() - 1)
        }),
{
    law_open_headings_nest(events, n - 1, bytes);
    let before = outline_after(events, n - 1, bytes);
    law_heading_closes_same_and_deeper(before.levels, level);
}

/// The blocks of a normalized document, in event order.
pub open spec fn doc_blocks(normalized: Seq<char>) -> Seq<BlockView> {
    let events = markdown_events(normalized);
    outline_after(events, events.len() as int, encode_utf8(normalized)).blocks
}

/// A chunk being packed: `first_start` and `heading` describe its first real
/// block, `last_*` its trailing block.
#[verifier::ext_equal]
pub struct Draft {
    /// The chunk text so far.
    pub text: Seq<char>,
    /// First byte of the first real block.
    pub first_start: int,
    /// Heading titles of the first real block.
    pub heading: Seq<Seq<char>>,
    /// Text of the trailing block.
    pub last_text: Seq<char>,
    /// One past the last byte of the trailing block.
    pub last_end: int,
    /// Whether the trailing block is text-kind.
    pub last_is_text: bool,
    /// Whether the chunk holds an oversized block.
    pub truncated: bool,
}

/// The open chunk and the closed ones.
#[verifier::ext_equal]
pub struct Packing {
    /// The chunk being packed, if any.
    pub current: Option<Draft>,
    /// Closed chunks, in order.
    pub done: Seq<Draft>,
}

/// `a` and `b` joined by a blank line.
pub open spec fn joined(a: Seq<char>, b: Seq<char>) -> Seq<char> {
    a + seq!['\n', '\n'] + b
}

/// How many trailing characters of `s` fit `max` tokens, extending the suffix
/// from `m` characters one character at a time while it fits.
pub open spec fn fitting_suffix_len(s: Seq<char>, max: nat, m: nat) -> nat
    decreases s.len() - m,
{
    if m < s.len() && token_estimate(s.skip(s.len() - (m + 1))) <= max {
        fitting_suffix_len(s, max, m + 1)
    } else {
        m
    }
}

/// The longest suffix of `s` that fits `max` tokens, found from the end.
pub open spec fn overlap_of(s: Seq<char>, max: nat) -> Seq<char> {
    if max == 0 {
        seq![]
    } else {
        s.skip(s.len() - fitting_suffix_len(s, max, 0))
    }
}

/// A chunk opened on block `b`.
pub open spec fn fresh(b: BlockView, text: Seq<char>, truncated: bool) -> Draft {
    Draft {
        text,
        first_start: b.start,
        heading: b.heading,
        last_text: b.text,
        last_end: b.end,
        last_is_text: is_text_kind(b.kind),
        truncated,
    }
}

/// One block packed: close the open chunk on a heading change or overflow,
/// seeding the next with overlap when both sides are text; emit an oversized
/// block on its own; otherwise append.
pub open spec fn pack_step(p: Packing, b: BlockView, max: nat, overlap: nat) -> Packing {
    let atomic = token_estimate(b.text) > max;
    match p.current {
        Some(open) => {
            let over = token_estimate(joined(open.text, b.text)) > max;
            if atomic || open.heading != b.heading || over {
                let seed_overlap = !atomic && open.heading == b.heading && over;
                let seed = if seed_overlap && open.last_is_text && is_text_kind(b.kind) {
                    overlap_of(open.last_text, overlap)
                } else {
                    seq![]
                };
                let text = if seed.len() == 0 {
                    b.text
                } else {
                    joined(seed, b.text)
                };
                Packing { current: Some(fresh(b, text, atomic)), done: p.done.push(open) }
            } else {
                Packing {
                    current: Some(
                        Draft {
                            text: joined(open.text, b.text),
                            first_start: open.first_start,
                            heading: open.heading,
                            last_text: b.text,
                            last_end: b.end,
                            last_is_text: is_text_kind(b.kind),
                            truncated: open.truncated,
                        },
                    ),
                    done: p.done,
                }
            }
        },
        None => if atomic {
            Packing { current: None, done: p.done.push(fresh(b, b.text, true)) }
        } else {
            Packing { current: Some(fresh(b, b.text, false)), done: p.done }
        },
    }
}

/// The packing state after the first `n` blocks.
pub open spec fn pack_prefix(blocks: Seq<BlockView>, n: int, max: nat, overlap: nat) -> Packing
    decreases n,
{
    if n <= 0 {
        Packing { current: None, done: seq![] }
    } else {
        pack_step(pack_prefix(blocks, n - 1, max, overlap), blocks[n - 1], max, overlap)
    }
}

/// Every chunk, closed or still open, after all blocks are packed.
pub open spec fn all_drafts(blocks: Seq<BlockView>, max: nat, overlap: nat) -> Seq<Draft> {
    let p = pack_prefix(blocks, blocks.len() as int, max, overlap);
    match p.current {
        Some(d) => p.done.push(d),
        None => p.done,
    }
}

/// The chunk drafts of a normalized document under a policy.
pub open spec fn chunk_drafts(normalized: Seq<char>, max: nat, overlap: nat) -> Seq<Draft> {
    if is_blank(normalized) {
        seq![]
    } else {
        all_drafts(doc_blocks(normalized), max, overlap)
    }
}

/// Line-start offsets: 0, then one past every newline byte.
pub open spec fn line_starts_of(bytes: Seq<u8>) -> Seq<int>
    decreases bytes.len(),
{
    if bytes.len() == 0 {
        seq![0]
    } else if bytes.last() == 10u8 {
        line_starts_of(bytes.drop_last()).push(bytes.len() as int)
    } else {
        line_starts_of(bytes.drop_last())
    }
}

/// How many entries of `s` are at most `x`.
pub open spec fn count_at_most(s: Seq<int>, x: int) -> nat
    decreases s.len(),
{
    if s.len() == 0 {
        0
    } else {
        count_at_most(s.drop_last(), x) + if s.last() <= x {
            1nat
        } else {
            0nat
        }
    }
}

/// The 1-based line holding byte `offset`.
pub open spec fn line_of(bytes: Seq<u8>, offset: int) -> nat {
    count_at_most(line_starts_of(bytes), offset)
}

/// The heading path a chunk shows: titles joined with ` > `.
pub open spec fn heading_path_of(heading: Seq<Seq<char>>) -> Option<Seq<char>> {
    if heading.len() == 0 {
        None
    } else {
        Some(join(heading, seq![' ', '>', ' ']))
    }
}

/// The JSON locator of a chunk.
pub open spec fn locator_text(
    start_byte: nat,
    end_byte: nat,
    start_line: nat,
    end_line: nat,
    truncated: bool,
) -> Seq<char> {
    "{\"start_byte\":"@ + decimal(start_byte) + ",\"end_byte\":"@ + decimal(end_byte)
        + ",\"start_line\":"@ + decimal(start_line) + ",\"end_line\":"@ + decimal(end_line)
        + ",\"truncated\":"@ + (if truncated {
        "true"@
    } else {
        "false"@
    }) + "}"@
}

/// Whether `c` is chunk number `i` of a revision, built from draft `d`.
pub open spec fn chunk_is(
    c: Chunk,
    source_key: Seq<char>,
    revision_hash: Seq<char>,
    bytes: Seq<u8>,
    i: int,
    d: Draft,
) -> bool {
    &&& c.chunk_id@ == hex_sha256(chunk_id_message(source_key, revision_hash, (i as u32) as nat))
    &&& c.source_key@ == source_key
    &&& c.revision_hash@ == revision_hash
    &&& c.ordinal == i as u32
    &&& match c.heading_path {
        Some(h) => heading_path_of(d.heading) == Some(h@),
        None => heading_path_of(d.heading) is None,
    }
    &&& c.text@ == d.text
    &&& c.locator_json@ == locator_text(
        d.first_start as nat,
        d.last_end as nat,
        line_of(bytes, d.first_start),
        line_of(bytes, d.last_end),
        d.truncated,
    )
    &&& c.chunk_hash@ == hex_sha256(chunk_hash_message(c.chunk_id@, d.text))
    &&& c.token_estimate == token_estimate(d.text) as u32
}

/// Whether `chunks` are exactly the chunks built from `drafts`, in order.
pub open spec fn chunks_are(
    chunks: Seq<Chunk>,
    source_key: Seq<char>,
    revision_hash: Seq<char>,
    bytes: Seq<u8>,
    drafts: Seq<Draft>,
) -> bool {
    &&& chunks.len() == drafts.len()
    &&& forall|i: int|
        0 <= i < chunks.len() ==> chunk_is(
            #[trigger] chunks[i],
            source_key,
            revision_hash,
            bytes,
            i,
            drafts[i],
        )
}

/// Appends `b` to `a`.
fn push_all(a: &mut Vec<char>, b: &[char])
    ensures
        final(a)@ == old(a)@ + b@,
{
    let mut i: usize = 0;
    while i < b.len()
        invariant
            i <= b@.len(),
            a@ == old(a)@ + b@.take(i as int),
        decreases b@.len() - i,
    {
        a.push(b[i]);
        assert(b@.take(i + 1) =~= b@.take(i as int).push(b@[i as int]));
        i = i + 1;
    }
    assert(b@.take(b@.len() as int) =~= b@);
}

/// A copy of `v`.
fn copy_chars(v: &[char]) -> (out: Vec<char>)
    ensures
        out@ == v@,
{
    let mut out: Vec<char> = Vec::new();
    push_all(&mut out, v);
    out
}

/// A copy of a list of titles.
fn copy_titles(h: &Vec<Vec<char>>) -> (out: Vec<Vec<char>>)
    ensures
        titles_view(out@) == titles_view(h@),
{
    let mut out: Vec<Vec<char>> = Vec::new();
    let mut i: usize = 0;
    while i < h.len()
        invariant
            i <= h@.len(),
            titles_view(out@) == titles_view(h@).take(i as int),
        decreases h@.len() - i,
    {
        let ghost before = out@;
        let c = copy_chars(h[i].as_slice());
        out.push(c);
        assert(out@ == before.push(c));
        assert(titles_view(out@) =~= titles_view(before).push(c@));
        assert(titles_view(out@) =~= titles_view(h@).take(i + 1));
        i = i + 1;
    }
    assert(titles_view(h@).take(h@.len() as int) =~= titles_view(h@));
    out
}

/// Whether two title lists are equal.
fn same_titles(a: &Vec<Vec<char>>, b: &Vec<Vec<char>>) -> (r: bool)
    ensures
        r == (titles_view(a@) == titles_view(b@)),
{
    if a.len() != b.len() {
        assert(titles_view(a@).len() != titles_view(b@).len());
        return false;
    }
    let mut i: usize = 0;
    while i < a.len()
        invariant
            a@.len() == b@.len(),
            i <= a@.len(),
            forall|j: int| 0 <= j < i ==> titles_view(a@)[j] == titles_view(b@)[j],
        decreases a@.len() - i,
    {
        if !same_chars(a[i].as_slice(), b[i].as_slice()) {
            assert(titles_view(a@)[i as int] != titles_view(b@)[i as int]);
            return false;
        }
        i = i + 1;
    }
    assert(titles_view(a@) =~= titles_view(b@));
    true
}

/// The non-empty titles of `titles`, copied.
fn nonempty_titles_of(titles: &Vec<Vec<char>>) -> (out: Vec<Vec<char>>)
    ensures
        titles_view(out@) == nonempty_titles(titles_view(titles@)),
{
    let mut out: Vec<Vec<char>> = Vec::new();
    let mut i: usize = 0;
    while i < titles.len()
        invariant
            i <= titles@.len(),
            titles_view(out@) == nonempty_titles(titles_view(titles@).take(i as int)),
        decreases titles@.len() - i,
    {
        let ghost before = titles_view(titles@).take(i as int);
        assert(titles_view(titles@).take(i + 1).drop_last() =~= before);
        if titles[i].len() > 0 {
            out.push(copy_chars(titles[i].as_slice()));
            assert(titles_view(out@) =~= nonempty_titles(titles_view(titles@).take(i + 1)));
        }
        i = i + 1;
    }
    assert(titles_view(titles@).take(titles@.len() as int) =~= titles_view(titles@));
    out
}

/// The text of `normalized` between two byte offsets, when the span is a
/// non-empty slice cut on character boundaries.
fn slice_of(normalized: &str, start: usize, end: usize) -> (r: Option<Vec<char>>)
    ensures
        match r {
            Some(t) => slice_ok(normalized.spec_bytes(), start as int, end as int) && t@ == slice_text(
                normalized.spec_bytes(),
                start as int,
                end as int,
            ),
            None => !slice_ok(normalized.spec_bytes(), start as int, end as int),
        },
{
    let bytes = normalized.as_bytes();
    if !(start < end && end <= bytes.len()) {
        return None;
    }
    if !normalized.is_char_boundary(end) {
        return None;
    }
    let (left, _) = normalized.split_at(end);
    assert(left.spec_bytes() =~= normalized.spec_bytes().subrange(0, end as int));
    if !left.is_char_boundary(start) {
        return None;
    }
    let (_, piece) = left.split_at(start);
    assert(piece.spec_bytes() =~= normalized.spec_bytes().subrange(start as int, end as int));
    Some(chars_of(piece))
}

/// Folds the event stream into ordered blocks, snapshotting the heading
/// outline at each block. Headings are boundaries only; their text feeds the
/// outline for subsequent blocks.
fn collect_blocks(normalized: &str) -> (blocks: Vec<Block>)
    ensures
        blocks_view(blocks@) == doc_blocks(normalized@),
{
    let events = parse_markdown(normalized);
    blocks_from_events(normalized, &events)
}

/// Folds a Markdown event stream of `normalized` into ordered blocks: each
/// block carries its kind, its byte span, its verbatim text and the outline of
/// non-blank heading titles above it. Block ends whose span is not a
/// character range of the text are skipped.
pub fn blocks_from_events(normalized: &str, events: &Vec<MdEvent>) -> (blocks: Vec<Block>)
    ensures
        blocks_view(blocks@) == outline_after(
            events@,
            events@.len() as int,
            encode_utf8(normalized@),
        ).blocks,
{
    let ghost bytes = normalized.spec_bytes();
    let mut levels: Vec<u8> = Vec::new();
    let mut titles: Vec<Vec<char>> = Vec::new();
    let mut heading_text: Vec<char> = Vec::new();
    let mut in_heading = false;
    let mut blocks: Vec<Block> = Vec::new();
    let mut i: usize = 0;
    assert(titles_view(titles@) =~= seq![]);
    assert(blocks_view(blocks@) =~= seq![]);
    assert(levels@ =~= seq![]);
    assert(heading_text@ =~= seq![]);
    while i < events.len()
        invariant
            i <= events@.len(),
            bytes == encode_utf8(normalized@),
            levels@.len() == titles@.len(),
            outline_after(events@, i as int, bytes) == (Outline {
                levels: levels@,
                titles: titles_view(titles@),
                heading_text: heading_text@,
                in_heading,
                blocks: blocks_view(blocks@),
            }),
        decreases events@.len() - i,
    {
        let ghost o = outline_after(events@, i as int, bytes);
        match &events[i] {
            MdEvent::HeadingStart(level) => {
                let level = *level;
                while levels.len() > 0 && levels[levels.len() - 1] >= level
                    invariant
                        levels@.len() == titles@.len(),
                        levels@ == o.levels.take(levels@.len() as int),
                        titles_view(titles@) == o.titles.take(levels@.len() as int),
                        levels@.len() <= o.levels.len(),
                        o.levels.len() == o.titles.len(),
                        kept_depth(o.levels, level) == kept_depth(levels@, level),
                    decreases levels@.len(),
                {
                    assert(levels@.drop_last() =~= o.levels.take(levels@.len() - 1));
                    levels.pop();
                    titles.pop();
                    assert(titles_view(titles@) =~= o.titles.take(levels@.len() as int));
                }
                assert(kept_depth(levels@, level) == levels@.len());
                levels.push(level);
                titles.push(Vec::new());
                assert(titles_view(titles@) =~= o.titles.take(kept_depth(o.levels, level) as int).push(
                    seq![],
                ));
                in_heading = true;
                heading_text = Vec::new();
            },
            MdEvent::Text(t) => {
                if in_heading {
                    let more = chars_of(t.as_str());
                    push_all(&mut heading_text, more.as_slice());
                }
            },
            MdEvent::HeadingEnd(_) => {
                if titles.len() > 0 {
                    let last = titles.len() - 1;
                    let cut = trim_chars(heading_text.as_slice());
                    titles.set(last, cut);
                    assert(titles_view(titles@) =~= o.titles.update(last as int, trimmed(o.heading_text)));
                }
                in_heading = false;
            },
            MdEvent::BlockEnd(kind, start, end) => {
                match slice_of(normalized, *start, *end) {
                    Some(text) => {
                        let heading = nonempty_titles_of(&titles);
                        let block = Block { kind: *kind, start: *start, end: *end, heading, text };
                        blocks.push(block);
                        assert(blocks_view(blocks@) =~= o.blocks.push(block_view(block)));
                    },
                    None => {},
                }
            },
            MdEvent::Other => {},
        }
        i = i + 1;
    }
    blocks
}

/// Largest suffix of `text` whose token estimate fits `max_tokens`, found by
/// walking characters from the end so the cut always lands on a boundary.
pub fn overlap_suffix(text: &str, max_tokens: u32) -> (out: String)
    ensures
        out@ == overlap_of(text@, max_tokens as nat),
{
    let chars = chars_of(text);
    let suffix = overlap_chars(chars.as_slice(), max_tokens);
    string_of(suffix.as_slice())
}

fn suffix_from(s: &[char], from: usize) -> (out: Vec<char>)
    requires
        from <= s@.len(),
    ensures
        out@ == s@.skip(from as int),
{
    let mut out: Vec<char> = Vec::new();
    let mut i = from;
    while i < s.len()
        invariant
            from <= i <= s@.len(),
            out@ == s@.subrange(from as int, i as int),
        decreases s@.len() - i,
    {
        out.push(s[i]);
        assert(s@.subrange(from as int, i + 1) =~= s@.subrange(from as int, i as int).push(s@[i as int]));
        i = i + 1;
    }
    assert(s@.subrange(from as int, s@.len() as int) =~= s@.skip(from as int));
    out
}

fn overlap_chars(s: &[char], max_tokens: u32) -> (out: Vec<char>)
    ensures
        out@ == overlap_of(s@, max_tokens as nat),
{
    if max_tokens == 0 {
        return Vec::new();
    }
    let n = s.len();
    let mut best: usize = n;
    while best > 0
        invariant
            best <= n,
            n == s@.len(),
            fitting_suffix_len(s@, max_tokens as nat, 0) == fitting_suffix_len(
                s@,
                max_tokens as nat,
                (n - best) as nat,
            ),
        ensures
            best <= n,
            fitting_suffix_len(s@, max_tokens as nat, 0) == (n - best) as nat,
        decreases best,
    {
        let candidate = suffix_from(s, best - 1);
        assert(candidate@ == s@.skip(s@.len() - ((n - best) as nat + 1)));
        if estimate_chars(candidate.as_slice()) > max_tokens as u64 {
            assert(fitting_suffix_len(s@, max_tokens as nat, (n - best) as nat) == (n - best) as nat);
            break;
        }
        best = best - 1;
    }
    suffix_from(s, best)
}

/// Line-start offsets of `bytes`.
fn line_starts(bytes: &[u8]) -> (starts: Vec<usize>)
    ensures
        starts@.len() == line_starts_of(bytes@).len(),
        forall|j: int| 0 <= j < starts@.len() ==> starts@[j] as int == #[trigger] line_starts_of(bytes@)[j],
{
    let mut starts: Vec<usize> = Vec::new();
    starts.push(0);
    let mut idx: usize = 0;
    assert(bytes@.take(0) =~= Seq::<u8>::empty());
    while idx < bytes.len()
        invariant
            idx <= bytes@.len(),
            starts@.len() == line_starts_of(bytes@.take(idx as int)).len(),
            forall|j: int|
                0 <= j < starts@.len() ==> starts@[j] as int == #[trigger] line_starts_of(
                    bytes@.take(idx as int),
                )[j],
        decreases bytes@.len() - idx,
    {
        assert(bytes@.take(idx + 1).drop_last() =~= bytes@.take(idx as int));
        if bytes[idx] == 10u8 {
            starts.push(idx + 1);
        }
        idx = idx + 1;
    }
    assert(bytes@.take(bytes@.len() as int) =~= bytes@);
    starts
}

/// Line starts are strictly increasing and at most the length.
proof fn lemma_line_starts_sorted(bytes: Seq<u8>)
    ensures
        line_starts_of(bytes).len() >= 1,
        line_starts_of(bytes)[0] == 0,
        forall|a: int, b: int|
            0 <= a < b < line_starts_of(bytes).len() ==> line_starts_of(bytes)[a] < line_starts_of(
                bytes,
            )[b],
        forall|a: int| 0 <= a < line_starts_of(bytes).len() ==> 0 <= #[trigger] line_starts_of(bytes)[a] <= bytes.len(),
    decreases bytes.len(),
{
    if bytes.len() > 0 {
        lemma_line_starts_sorted(bytes.drop_last());
    }
}

/// In a strictly increasing sequence, the count of entries at most `x` is the
/// first index whose entry exceeds `x`.
proof fn lemma_count_at_most_split(s: Seq<int>, x: int, p: int)
    requires
        0 <= p <= s.len(),
        forall|a: int| 0 <= a < p ==> s[a] <= x,
        forall|a: int| p <= a < s.len() ==> s[a] > x,
    ensures
        count_at_most(s, x) == p,
    decreases s.len(),
{
    if s.len() > 0 {
        if p == s.len() {
            lemma_count_at_most_split(s.drop_last(), x, p - 1);
        } else {
            lemma_count_at_most_split(s.drop_last(), x, p);
        }
    }
}

/// 1-based line number containing `offset`.
fn line_number_for(starts: &[usize], offset: usize, ghost_starts: Ghost<Seq<int>>) -> (n: usize)
    requires
        starts@.len() == ghost_starts@.len(),
        forall|j: int| 0 <= j < starts@.len() ==> starts@[j] as int == #[trigger] ghost_starts@[j],
        forall|a: int, b: int| 0 <= a < b < ghost_starts@.len() ==> ghost_starts@[a] < ghost_starts@[b],
    ensures
        n == count_at_most(ghost_starts@, offset as int),
{
    let mut lo: usize = 0;
    let mut hi: usize = starts.len();
    assert forall|a: int, b: int| 0 <= a < b < starts@.len() implies starts@[a] < starts@[b] by {
        assert(starts@[a] as int == ghost_starts@[a]);
        assert(starts@[b] as int == ghost_starts@[b]);
    }
    while lo < hi
        invariant
            lo <= hi <= starts@.len(),
            forall|a: int| 0 <= a < lo ==> starts@[a] <= offset,
            forall|a: int| hi <= a < starts@.len() ==> starts@[a] > offset,
            forall|a: int, b: int| 0 <= a < b < starts@.len() ==> starts@[a] < starts@[b],
        decreases hi - lo,
    {
        let mid = lo + (hi - lo) / 2;
        if starts[mid] <= offset {
            lo = mid + 1;
        } else {
            hi = mid;
        }
    }
    proof {
        lemma_count_at_most_split(ghost_starts@, offset as int, lo as int);
    }
    lo
}

/// A chunk being packed.
struct Open {
    text: Vec<char>,
    first_start: usize,
    heading: Vec<Vec<char>>,
    last_text: Vec<char>,
    last_end: usize,
    last_is_text: bool,
    truncated: bool,
}

spec fn open_view(o: Open) -> Draft {
    Draft {
        text: o.text@,
        first_start: o.first_start as int,
        heading: titles_view(o.heading@),
        last_text: o.last_text@,
        last_end: o.last_end as int,
        last_is_text: o.last_is_text,
        truncated: o.truncated,
    }
}

/// The JSON locator string, written by hand so no serializer is involved.
fn locator_json(
    start_byte: usize,
    end_byte: usize,
    start_line: usize,
    end_line: usize,
    truncated: bool,
) -> (s: String)
    ensures
        s@ == locator_text(
            start_byte as nat,
            end_byte as nat,
            start_line as nat,
            end_line as nat,
            truncated,
        ),
{
    let mut s = String::new();
    push_str(&mut s, "{\"start_byte\":");
    push_decimal(&mut s, start_byte as u64);
    push_str(&mut s, ",\"end_byte\":");
    push_decimal(&mut s, end_byte as u64);
    push_str(&mut s, ",\"start_line\":");
    push_decimal(&mut s, start_line as u64);
    push_str(&mut s, ",\"end_line\":");
    push_decimal(&mut s, end_line as u64);
    push_str(&mut s, ",\"truncated\":");
    if truncated {
        push_str(&mut s, "true");
    } else {
        push_str(&mut s, "false");
    }
    push_str(&mut s, "}");
    s
}

/// Closes one chunk: ordinal, id, hash, estimate and locator are computed
/// from the draft and the position it lands at.
fn emit(
    chunks: &mut Vec<Chunk>,
    open: Open,
    source_key: &str,
    revision_hash: &str,
    starts: &Vec<usize>,
    bytes: Ghost<Seq<u8>>,
)
    requires
        starts@.len() == line_starts_of(bytes@).len(),
        forall|j: int| 0 <= j < starts@.len() ==> starts@[j] as int == #[trigger] line_starts_of(bytes@)[j],
    ensures
        final(chunks)@.len() == old(chunks)@.len() + 1,
        final(chunks)@.take(old(chunks)@.len() as int) == old(chunks)@,
        chunk_is(
            final(chunks)@.last(),
            source_key@,
            revision_hash@,
            bytes@,
            old(chunks)@.len() as int,
            open_view(open),
        ),
{
    proof {
        lemma_line_starts_sorted(bytes@);
    }
    #[verifier::truncate]
    let ordinal = chunks.len() as u32;
    let id = super::hash::chunk_id(source_key, revision_hash, ordinal);
    let heading_path = if open.heading.len() == 0 {
        None
    } else {
        let mut path = String::new();
        let sep = [' ', '>', ' '];
        assert(sep@ =~= seq![' ', '>', ' ']);
        push_joined(&mut path, &open.heading, &sep);
        Some(path)
    };
    let text = string_of(open.text.as_slice());
    let estimate = estimate_chars(open.text.as_slice());
    let hash = super::hash::chunk_hash(id.as_str(), text.as_str());
    let start_line = line_number_for(starts.as_slice(), open.first_start, Ghost(line_starts_of(bytes@)));
    let end_line = line_number_for(starts.as_slice(), open.last_end, Ghost(line_starts_of(bytes@)));
    let locator = locator_json(open.first_start, open.last_end, start_line, end_line, open.truncated);
    #[verifier::truncate]
    let token_estimate = estimate as u32;
    let chunk = Chunk {
        chunk_id: id,
        source_key: crate::text::owned(source_key),
        revision_hash: crate::text::owned(revision_hash),
        ordinal,
        heading_path,
        text,
        locator_json: locator,
        chunk_hash: hash,
        token_estimate,
    };
    let ghost before = chunks@;
    chunks.push(chunk);
    assert(chunks@.take(before.len() as int) =~= before);
}

/// `a`, a blank line, then `b`.
fn join_chars(a: &[char], b: &[char]) -> (out: Vec<char>)
    ensures
        out@ == joined(a@, b@),
{
    let mut out = copy_chars(a);
    out.push('\n');
    out.push('\n');
    push_all(&mut out, b);
    assert(out@ =~= joined(a@, b@));
    out
}

fn open_on(block: &Block, text: Vec<char>, truncated: bool) -> (o: Open)
    ensures
        open_view(o) == fresh(block_view(*block), text@, truncated),
{
    Open {
        text,
        first_start: block.start,
        heading: copy_titles(&block.heading),
        last_text: copy_chars(block.text.as_slice()),
        last_end: block.end,
        last_is_text: block.kind.is_text_kind(),
        truncated,
    }
}

/// Chunk normalized Markdown into policy-bounded chunks of verbatim text.
///
/// Blocks are packed greedily while the joined text stays within
/// `max_chunk_tokens`. Packing resets when the heading outline changes and
/// when a block would overflow. A block whose own estimate exceeds the budget
/// is emitted atomically as its own chunk with `truncated: true` in the
/// locator. Closing a chunk on overflow seeds the next chunk with a
/// token-bounded suffix of the closing chunk's last block when both sides are
/// text-kind (never into or out of code or tables). The locator's
/// `start_byte` points at the chunk's first real block; an overlap prefix is
/// part of the chunk text but not of the locator span. Ordinals are the chunk
/// positions as `u32`.
pub fn chunk_markdown(
    source_key: &str,
    revision_hash: &str,
    normalized: &str,
    policy: &IndexPolicy,
) -> (chunks: Vec<Chunk>)
    ensures
        chunks_are(
            chunks@,
            source_key@,
            revision_hash@,
            encode_utf8(normalized@),
            chunk_drafts(
                normalized@,
                policy.max_chunk_tokens as nat,
                policy.chunk_overlap_tokens as nat,
            ),
        ),
{
    let chars = chars_of(normalized);
    if blank(chars.as_slice()) {
        return Vec::new();
    }
    let blocks = collect_blocks(normalized);
    let ghost bv = blocks_view(blocks@);
    let ghost bytes = encode_utf8(normalized@);
    let max = policy.max_chunk_tokens;
    let overlap = policy.chunk_overlap_tokens;
    let ghost maxn = max as nat;
    let ghost ovn = overlap as nat;
    let mut chunks: Vec<Chunk> = Vec::new();
    if blocks.len() == 0 {
        assert(chunks_are(chunks@, source_key@, revision_hash@, bytes, all_drafts(bv, maxn, ovn)));
        return chunks;
    }
    let starts = line_starts(normalized.as_bytes());
    let mut current: Option<Open> = None;
    let mut i: usize = 0;
    while i < blocks.len()
        invariant
            i <= blocks@.len(),
            bv == blocks_view(blocks@),
            bv == doc_blocks(normalized@),
            bytes == encode_utf8(normalized@),
            maxn == max as nat,
            ovn == overlap as nat,
            starts@.len() == line_starts_of(bytes).len(),
            forall|j: int| 0 <= j < starts@.len() ==> starts@[j] as int == #[trigger] line_starts_of(bytes)[j],
            chunks_are(
                chunks@,
                source_key@,
                revision_hash@,
                bytes,
                pack_prefix(bv, i as int, maxn, ovn).done,
            ),
            match current {
                Some(o) => pack_prefix(bv, i as int, maxn, ovn).current == Some(open_view(o)),
                None => pack_prefix(bv, i as int, maxn, ovn).current is None,
            },
        decreases blocks@.len() - i,
    {
        let block = &blocks[i];
        let ghost b = bv[i as int];
        assert(b == block_view(*block));
        let ghost before = pack_prefix(bv, i as int, maxn, ovn);
        let ghost after = pack_prefix(bv, i + 1, maxn, ovn);
        assert(after == pack_step(before, b, maxn, ovn));
        let atomic = estimate_chars(block.text.as_slice()) > max as u64;
        let state = current;
        current = None;
        match state {
            Some(mut open) => {
                let ghost d = open_view(open);
                let mut seed_overlap = false;
                let mut close = atomic || !same_titles(&open.heading, &block.heading);
                if !close {
                    let j = join_chars(open.text.as_slice(), block.text.as_slice());
                    if estimate_chars(j.as_slice()) > max as u64 {
                        close = true;
                        seed_overlap = true;
                    } else {
                        open.text = j;
                        open.last_text = copy_chars(block.text.as_slice());
                        open.last_end = block.end;
                        open.last_is_text = block.kind.is_text_kind();
                        assert(after.current == Some(open_view(open)));
                        assert(after.done == before.done);
                        current = Some(open);
                        i = i + 1;
                        continue;
                    }
                }
                {
                    assert(seed_overlap == (!atomic && d.heading == b.heading && token_estimate(
                        joined(d.text, b.text),
                    ) > maxn));
                    let seed = if seed_overlap && open.last_is_text && block.kind.is_text_kind() {
                        overlap_chars(open.last_text.as_slice(), overlap)
                    } else {
                        Vec::new()
                    };
                    let ghost old_chunks = chunks@;
                    emit(&mut chunks, open, source_key, revision_hash, &starts, Ghost(bytes));
                    assert forall|k: int| 0 <= k < chunks@.len() implies chunk_is(
                        #[trigger] chunks@[k],
                        source_key@,
                        revision_hash@,
                        bytes,
                        k,
                        after.done[k],
                    ) by {
                        if k < old_chunks.len() {
                            assert(chunks@[k] == chunks@.take(old_chunks.len() as int)[k]);
                        }
                    }
                    let text = if seed.len() == 0 {
                        copy_chars(block.text.as_slice())
                    } else {
                        join_chars(seed.as_slice(), block.text.as_slice())
                    };
                    let next = open_on(block, text, atomic);
                    current = Some(next);
                }
            },
            None => {
                if atomic {
                    let text = copy_chars(block.text.as_slice());
                    let fresh_open = open_on(block, text, true);
                    let ghost old_chunks = chunks@;
                    emit(&mut chunks, fresh_open, source_key, revision_hash, &starts, Ghost(bytes));
                    assert forall|k: int| 0 <= k < chunks@.len() implies chunk_is(
                        #[trigger] chunks@[k],
                        source_key@,
                        revision_hash@,
                        bytes,
                        k,
                        after.done[k],
                    ) by {
                        if k < old_chunks.len() {
                            assert(chunks@[k] == chunks@.take(old_chunks.len() as int)[k]);
                        }
                    }
                } else {
                    let text = copy_chars(block.text.as_slice());
                    current = Some(open_on(block, text, false));
                }
            },
        }
        i = i + 1;
    }
    let ghost last = pack_prefix(bv, blocks@.len() as int, maxn, ovn);
    match current {
        Some(open) => {
            let ghost old_chunks = chunks@;
            emit(&mut chunks, open, source_key, revision_hash, &starts, Ghost(bytes));
            assert forall|k: int| 0 <= k < chunks@.len() implies chunk_is(
                #[trigger] chunks@[k],
                source_key@,
                revision_hash@,
                bytes,
                k,
                all_drafts(bv, maxn, ovn)[k],
            ) by {
                if k < old_chunks.len() {
                    assert(chunks@[k] == chunks@.take(old_chunks.len() as int)[k]);
                }
            }
        },
        None => {},
    }
    chunks
}

/// Every block folded from the events is a valid slice of the document.
proof fn lemma_outline_blocks_ok(events: Seq<MdEvent>, n: int, bytes: Seq<u8>)
    ensures
        forall|j: int|
            0 <= j < outline_after(events, n, bytes).blocks.len() ==> slice_ok(
                bytes,
                #[trigger] outline_after(events, n, bytes).blocks[j].start,
                outline_after(events, n, bytes).blocks[j].end,
            ),
    decreases n,
{
    if n > 0 {
        lemma_outline_blocks_ok(events, n - 1, bytes);
        let before = outline_after(events, n - 1, bytes);
        let after = outline_after(events, n, bytes);
        assert forall|j: int| 0 <= j < after.blocks.len() implies slice_ok(
            bytes,
            #[trigger] after.blocks[j].start,
            after.blocks[j].end,
        ) by {
            if j < before.blocks.len() {
                assert(after.blocks[j] == before.blocks[j]);
            }
        }
    }
}

/// Whether a draft's locator span starts inside a document of `len` bytes and
/// ends no later than its end.
pub open spec fn draft_in_bounds(d: Draft, len: int) -> bool {
    0 <= d.first_start < len && 0 < d.last_end <= len
}

proof fn lemma_packing_in_bounds(blocks: Seq<BlockView>, n: int, max: nat, overlap: nat, len: int)
    requires
        0 <= n <= blocks.len(),
        forall|j: int| 0 <= j < blocks.len() ==> 0 <= #[trigger] blocks[j].start < blocks[j].end <= len,
    ensures
        forall|k: int|
            0 <= k < pack_prefix(blocks, n, max, overlap).done.len() ==> draft_in_bounds(
                #[trigger] pack_prefix(blocks, n, max, overlap).done[k],
                len,
            ),
        pack_prefix(blocks, n, max, overlap).current matches Some(d) ==> draft_in_bounds(d, len),
    decreases n,
{
    if n > 0 {
        lemma_packing_in_bounds(blocks, n - 1, max, overlap, len);
        let before = pack_prefix(blocks, n - 1, max, overlap);
        let after = pack_prefix(blocks, n, max, overlap);
        let b = blocks[n - 1];
        assert(0 <= b.start < b.end <= len);
        assert forall|k: int| 0 <= k < after.done.len() implies draft_in_bounds(
            #[trigger] after.done[k],
            len,
        ) by {
            if k < before.done.len() {
                assert(after.done[k] == before.done[k]);
            }
        }
    }
}

/// Law: every chunk's locator addresses the source document — its first byte
/// lies inside the document and its end byte is no later than the document's
/// end, whatever the parser reported.
pub proof fn law_locators_stay_within_document(normalized: Seq<char>, max: nat, overlap: nat)
    ensures
        forall|k: int|
            0 <= k < chunk_drafts(normalized, max, overlap).len() ==> draft_in_bounds(
                #[trigger] chunk_drafts(normalized, max, overlap)[k],
                encode_utf8(normalized).len() as int,
            ),
{
    if !is_blank(normalized) {
        let events = markdown_events(normalized);
        let bytes = encode_utf8(normalized);
        let blocks = doc_blocks(normalized);
        lemma_outline_blocks_ok(events, events.len() as int, bytes);
        assert forall|j: int| 0 <= j < blocks.len() implies 0 <= #[trigger] blocks[j].start
            < blocks[j].end <= bytes.len() by {
            assert(slice_ok(bytes, blocks[j].start, blocks[j].end));
        }
        lemma_packing_in_bounds(blocks, blocks.len() as int, max, overlap, bytes.len() as int);
        let p = pack_prefix(blocks, blocks.len() as int, max, overlap);
        let all = all_drafts(blocks, max, overlap);
        assert forall|k: int| 0 <= k < all.len() implies draft_in_bounds(
            #[trigger] all[k],
            bytes.len() as int,
        ) by {
            if k < p.done.len() {
                assert(all[k] == p.done[k]);
            }
        }
    }
}

/// The CJK count of a concatenation is the sum of the counts.
pub proof fn lemma_cjk_count_concat(a: Seq<char>, b: Seq<char>)
    ensures
        crate::contracts::cjk_count(a + b) == crate::contracts::cjk_count(a)
            + crate::contracts::cjk_count(b),
    decreases b.len(),
{
    if b.len() > 0 {
        lemma_cjk_count_concat(a, b.drop_last());
        assert((a + b).drop_last() =~= a + b.drop_last());
    }
}

/// The estimate of a text never drops when text is added on either side.
pub proof fn lemma_estimate_grows(a: Seq<char>, b: Seq<char>)
    ensures
        token_estimate(a + b) >= token_estimate(a),
        token_estimate(a + b) >= token_estimate(b),
{
    lemma_cjk_count_concat(a, b);
    crate::contracts::lemma_cjk_count_bound(a);
    crate::contracts::lemma_cjk_count_bound(b);
}

proof fn lemma_truncated_over_budget(blocks: Seq<BlockView>, n: int, max: nat, overlap: nat)
    requires
        0 <= n <= blocks.len(),
    ensures
        forall|k: int|
            0 <= k < pack_prefix(blocks, n, max, overlap).done.len() ==> (#[trigger] pack_prefix(
                blocks,
                n,
                max,
                overlap,
            ).done[k]).truncated ==> token_estimate(pack_prefix(blocks, n, max, overlap).done[k].text)
                > max,
        pack_prefix(blocks, n, max, overlap).current matches Some(d) ==> d.truncated
            ==> token_estimate(d.text) > max,
    decreases n,
{
    if n > 0 {
        lemma_truncated_over_budget(blocks, n - 1, max, overlap);
        let before = pack_prefix(blocks, n - 1, max, overlap);
        let after = pack_prefix(blocks, n, max, overlap);
        let b = blocks[n - 1];
        if let Some(open) = before.current {
            lemma_estimate_grows(open.text + seq!['\n', '\n'], b.text);
            lemma_estimate_grows(open.text, seq!['\n', '\n'] + b.text);
            assert(joined(open.text, b.text) =~= open.text + (seq!['\n', '\n'] + b.text));
            let seed = overlap_of(open.last_text, overlap);
            lemma_estimate_grows(seed + seq!['\n', '\n'], b.text);
        }
        assert forall|k: int| 0 <= k < after.done.len() && (#[trigger] after.done[k]).truncated
            implies token_estimate(after.done[k].text) > max by {
            if k < before.done.len() {
                assert(after.done[k] == before.done[k]);
            }
        }
    }
}

/// Law: a chunk flagged `truncated` really is over budget — the flag marks an
/// oversized block that was kept whole rather than split.
pub proof fn law_truncated_chunks_exceed_budget(normalized: Seq<char>, max: nat, overlap: nat)
    ensures
        forall|k: int|
            0 <= k < chunk_drafts(normalized, max, overlap).len() ==> (#[trigger] chunk_drafts(
                normalized,
                max,
                overlap,
            )[k]).truncated ==> token_estimate(chunk_drafts(normalized, max, overlap)[k].text)
                > max,
{
    if !is_blank(normalized) {
        let blocks = doc_blocks(normalized);
        lemma_truncated_over_budget(blocks, blocks.len() as int, max, overlap);
        let p = pack_prefix(blocks, blocks.len() as int, max, overlap);
        let all = all_drafts(blocks, max, overlap);
        assert forall|k: int| 0 <= k < all.len() && (#[trigger] all[k]).truncated
            implies token_estimate(all[k].text) > max by {
            if k < p.done.len() {
                assert(all[k] == p.done[k]);
            }
        }
    }
}

/// Law: a code block or table is never split and never seeded with overlap —
/// it either opens a chunk with exactly its own text or is appended verbatim
/// after a blank line.
pub proof fn law_code_and_tables_stay_whole(p: Packing, b: BlockView, max: nat, overlap: nat)
    requires
        !is_text_kind(b.kind),
    ensures
        pack_step(p, b, max, overlap).current matches Some(d) ==> (d.text == b.text || (
        p.current matches Some(open) && d.text == joined(open.text, b.text))),
        pack_step(p, b, max, overlap).current is None ==> pack_step(p, b, max, overlap).done.last().text
            == b.text,
{
}

/// Law: the overlap seed fits its budget and is a suffix of the text it came
/// from.
pub proof fn law_overlap_fits_budget(s: Seq<char>, max: nat)
    ensures
        token_estimate(overlap_of(s, max)) <= max,
        overlap_of(s, max).len() <= s.len(),
        overlap_of(s, max) == s.skip(s.len() - overlap_of(s, max).len()),
{
    if max > 0 {
        lemma_fitting_suffix(s, max, 0);
    } else {
        assert(token_estimate(seq![]) == 0);
    }
}

proof fn lemma_fitting_suffix(s: Seq<char>, max: nat, m: nat)
    requires
        m <= s.len(),
        m == 0 || token_estimate(s.skip(s.len() - m)) <= max,
    ensures
        m <= fitting_suffix_len(s, max, m) <= s.len(),
        fitting_suffix_len(s, max, m) == 0 || token_estimate(
            s.skip(s.len() - fitting_suffix_len(s, max, m)),
        ) <= max,
    decreases s.len() - m,
{
    if m < s.len() && token_estimate(s.skip(s.len() - (m + 1))) <= max {
        lemma_fitting_suffix(s, max, m + 1);
    }
    if fitting_suffix_len(s, max, m) == 0 {
        assert(s.skip(s.len() as int) =~= Seq::<char>::empty());
    }
}

} // verus!
