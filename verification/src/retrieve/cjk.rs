//! CJK bigram tokenizer.
//!
//! Splits text into maximal CJK runs and maximal alphanumeric runs; anything
//! else separates runs. CJK runs of two or more characters emit overlapping
//! bigrams, an isolated CJK character emits a unigram. An alphanumeric run is
//! lowercased into one word token, and a word longer than
//! [`MAX_TOKEN_CHARS`] characters is dropped while still consuming a position.
//! Offsets are byte offsets into the UTF-8 encoding of the input.

use vstd::prelude::*;
use vstd::utf8::{encode_scalar, encode_utf8};

use crate::contracts::{is_cjk, is_cjk_code};

verus! {

/// Name under which the tokenizer is registered on an index.
pub const CJK_TOKENIZER_NAME: &'static str = "cjk";

/// Longest accepted word token, in characters; longer words are dropped.
pub const MAX_TOKEN_CHARS: usize = 40;

/// What `char::is_alphanumeric` answers for `c` (Unicode `Alphabetic` or
/// `Numeric`).
pub uninterp spec fn alphanumeric(c: char) -> bool;

/// The characters `char::to_lowercase` yields for `c`.
pub uninterp spec fn lowercase(c: char) -> Seq<char>;

/// `char::is_alphanumeric`; its answer is named [`alphanumeric`].
#[verifier::external_body]
pub(crate) fn is_alphanumeric(c: char) -> (r: bool)
    ensures
        r == alphanumeric(c),
{
    c.is_alphanumeric()
}

/// `char::to_lowercase`, collected; its result is named [`lowercase`], and the
/// documentation promises one or more characters.
#[verifier::external_body]
fn lowercase_chars(c: char) -> (out: Vec<char>)
    ensures
        out@ == lowercase(c),
        out@.len() >= 1,
{
    c.to_lowercase().collect()
}

/// One token: its byte range in the input, its position and its text.
#[derive(Debug, Clone, PartialEq, Eq)]
pub struct CjkToken {
    /// Byte offset of the first character the token covers.
    pub offset_from: usize,
    /// Byte offset just past the last character the token covers.
    pub offset_to: usize,
    /// Position of the token in the stream.
    pub position: usize,
    /// The token text.
    pub text: String,
}

/// A token as plain values.
pub struct TokenView {
    pub from: nat,
    pub to: nat,
    pub position: nat,
    pub text: Seq<char>,
}

impl View for CjkToken {
    type V = TokenView;

    open spec fn view(&self) -> TokenView {
        TokenView {
            from: self.offset_from as nat,
            to: self.offset_to as nat,
            position: self.position as nat,
            text: self.text@,
        }
    }
}

/// The views of a token list.
pub open spec fn token_views(tokens: Seq<CjkToken>) -> Seq<TokenView> {
    tokens.map_values(|t: CjkToken| t@)
}

/// The class of a character: `1` for CJK, `2` for other alphanumerics, `0`
/// for separators.
pub open spec fn class_of(c: char) -> int {
    if is_cjk_code(c as u32) {
        1
    } else if alphanumeric(c) {
        2
    } else {
        0
    }
}

/// Byte offset of character `i` of `s` in its UTF-8 encoding.
pub open spec fn byte_offset(s: Seq<char>, i: int) -> nat {
    encode_utf8(s.take(i)).len()
}

/// End (exclusive) of the run of same-class characters that starts at `i`.
pub open spec fn run_end(s: Seq<char>, i: int) -> int
    decreases s.len() - i,
{
    if i + 1 >= s.len() || class_of(s[i + 1]) != class_of(s[i]) {
        i + 1
    } else {
        run_end(s, i + 1)
    }
}

/// The bigram of characters `i` and `i + 1`.
pub open spec fn bigram(s: Seq<char>, i: int, position: nat) -> TokenView {
    TokenView {
        from: byte_offset(s, i),
        to: byte_offset(s, i + 2),
        position,
        text: seq![s[i], s[i + 1]],
    }
}

/// The tokens of the CJK run `start..end`: a unigram for a single character,
/// overlapping bigrams otherwise.
pub open spec fn cjk_run_tokens(s: Seq<char>, start: int, end: int, position: nat) -> Seq<
    TokenView,
> {
    if end - start == 1 {
        seq![
            TokenView {
                from: byte_offset(s, start),
                to: byte_offset(s, end),
                position,
                text: seq![s[start]],
            },
        ]
    } else {
        Seq::new((end - start - 1) as nat, |k: int| bigram(s, start + k, position + k as nat))
    }
}

/// Positions a CJK run of `n` characters consumes.
pub open spec fn cjk_run_positions(n: int) -> nat {
    if n == 1 {
        1
    } else {
        (n - 1) as nat
    }
}

/// The lowercase form of `s`, character by character.
pub open spec fn lowered(s: Seq<char>) -> Seq<char>
    decreases s.len(),
{
    if s.len() == 0 {
        seq![]
    } else {
        lowered(s.drop_last()) + lowercase(s.last())
    }
}

/// The tokens of the run `start..end` and the next free position.
pub open spec fn run_tokens(s: Seq<char>, start: int, end: int, position: nat) -> (
    Seq<TokenView>,
    nat,
) {
    if class_of(s[start]) == 1 {
        (cjk_run_tokens(s, start, end, position), position + cjk_run_positions(end - start))
    } else {
        let text = lowered(s.subrange(start, end));
        if text.len() > MAX_TOKEN_CHARS {
            (seq![], position + 1)
        } else {
            (
                seq![
                    TokenView {
                        from: byte_offset(s, start),
                        to: byte_offset(s, end),
                        position,
                        text,
                    },
                ],
                position + 1,
            )
        }
    }
}

/// The tokens of `s` from character `i` on, positions counted from `position`.
pub open spec fn tokens_from(s: Seq<char>, i: int, position: nat) -> Seq<TokenView>
    decreases s.len() - i,
{
    if i < 0 || i >= s.len() {
        seq![]
    } else if class_of(s[i]) == 0 {
        tokens_from(s, i + 1, position)
    } else {
        let end = run_end(s, i);
        proof {
            lemma_run_end(s, i);
        }
        let (tokens, next) = run_tokens(s, i, end, position);
        tokens + tokens_from(s, end, next)
    }
}

/// The token stream of `s`.
pub open spec fn tokenization(s: Seq<char>) -> Seq<TokenView> {
    tokens_from(s, 0, 0)
}

/// Every token of `ts` has text.
pub open spec fn texts_nonempty(ts: Seq<TokenView>) -> bool {
    forall|k: int| 0 <= k < ts.len() ==> #[trigger] ts[k].text.len() >= 1
}

/// Whether `t` covers whole characters `a..b` of `s`, `a < b`.
pub open spec fn spans_chars(s: Seq<char>, t: TokenView) -> bool {
    exists|a: int, b: int|
        0 <= a < b <= s.len() && t.from == #[trigger] byte_offset(s, a) && t.to
            == #[trigger] byte_offset(s, b)
}

/// Positions strictly increase along `ts`.
pub open spec fn positions_increase(ts: Seq<TokenView>) -> bool {
    forall|j: int, k: int| 0 <= j < k < ts.len() ==> ts[j].position < ts[k].position
}

/// Every position in `ts` is at least `lo`.
pub open spec fn positions_at_least(ts: Seq<TokenView>, lo: nat) -> bool {
    forall|k: int| 0 <= k < ts.len() ==> lo <= #[trigger] ts[k].position
}

/// Every position in `ts` is below `hi`.
pub open spec fn positions_below(ts: Seq<TokenView>, hi: nat) -> bool {
    forall|k: int| 0 <= k < ts.len() ==> #[trigger] ts[k].position < hi
}

/// Every token of `ts` covers whole characters of `s`.
pub open spec fn all_span(s: Seq<char>, ts: Seq<TokenView>) -> bool {
    forall|k: int| 0 <= k < ts.len() ==> spans_chars(s, #[trigger] ts[k])
}

/// The tokens of one run cover whole characters and take the positions
/// `position..next` in increasing order.
proof fn lemma_run_tokens(s: Seq<char>, start: int, end: int, position: nat)
    requires
        0 <= start < end <= s.len(),
        class_of(s[start]) != 0,
    ensures
        ({
            let (ts, next) = run_tokens(s, start, end, position);
            &&& positions_increase(ts)
            &&& positions_at_least(ts, position)
            &&& positions_below(ts, next)
            &&& all_span(s, ts)
            &&& position < next
        }),
{
    let (ts, next) = run_tokens(s, start, end, position);
    if class_of(s[start]) == 1 && end - start != 1 {
        assert forall|k: int| 0 <= k < ts.len() implies spans_chars(s, #[trigger] ts[k]) by {
            assert(ts[k] == bigram(s, start + k, position + k as nat));
            assert(0 <= start + k < start + k + 2 <= s.len());
        }
    } else {
        assert forall|k: int| 0 <= k < ts.len() implies spans_chars(s, #[trigger] ts[k]) by {
            assert(ts[k].from == byte_offset(s, start));
            assert(ts[k].to == byte_offset(s, end));
        }
    }
}

/// Concatenation keeps positions increasing when the first part ends below
/// where the second begins.
proof fn lemma_increase_concat(a: Seq<TokenView>, b: Seq<TokenView>, mid: nat)
    requires
        positions_increase(a),
        positions_increase(b),
        positions_below(a, mid),
        positions_at_least(b, mid),
    ensures
        positions_increase(a + b),
{
    let c = a + b;
    assert forall|j: int, k: int| 0 <= j < k < c.len() implies c[j].position < c[k].position by {
        if k < a.len() {
            assert(c[j] == a[j] && c[k] == a[k]);
        } else if j < a.len() {
            assert(c[j] == a[j] && c[k] == b[k - a.len()]);
            assert(a[j].position < mid);
            assert(mid <= b[k - a.len()].position);
        } else {
            assert(c[j] == b[j - a.len()] && c[k] == b[k - a.len()]);
        }
    }
}

/// The stream from character `i` on covers whole characters and has strictly
/// increasing positions, none below `position`.
proof fn lemma_tokens_from(s: Seq<char>, i: int, position: nat)
    requires
        0 <= i,
    ensures
        positions_increase(tokens_from(s, i, position)),
        positions_at_least(tokens_from(s, i, position), position),
        all_span(s, tokens_from(s, i, position)),
    decreases s.len() - i,
{
    if i < s.len() {
        if class_of(s[i]) == 0 {
            lemma_tokens_from(s, i + 1, position);
        } else {
            let end = run_end(s, i);
            lemma_run_end(s, i);
            let (run, next) = run_tokens(s, i, end, position);
            lemma_run_tokens(s, i, end, position);
            lemma_tokens_from(s, end, next);
            let rest = tokens_from(s, end, next);
            assert(tokens_from(s, i, position) == run + rest);
            lemma_increase_concat(run, rest, next);
            let all = run + rest;
            assert forall|k: int| 0 <= k < all.len() implies position <= #[trigger] all[k].position
                && spans_chars(s, all[k]) by {
                if k < run.len() {
                    assert(all[k] == run[k]);
                } else {
                    assert(all[k] == rest[k - run.len()]);
                }
            }
        }
    }
}

/// Law: every token covers whole characters of the input, so its offsets are
/// a nonempty byte range on character boundaries within the encoded text, and
/// positions strictly increase along the stream.
pub proof fn law_tokens_are_ordered_char_ranges(s: Seq<char>)
    ensures
        positions_increase(tokenization(s)),
        all_span(s, tokenization(s)),
        forall|k: int|
            0 <= k < tokenization(s).len() ==> #[trigger] tokenization(s)[k].from
                < tokenization(s)[k].to <= encode_utf8(s).len(),
{
    lemma_tokens_from(s, 0, 0);
    let ts = tokenization(s);
    assert forall|k: int| 0 <= k < ts.len() implies #[trigger] ts[k].from < ts[k].to
        <= encode_utf8(s).len() by {
        assert(spans_chars(s, ts[k]));
        let (a, b) = choose|a: int, b: int|
            0 <= a < b <= s.len() && ts[k].from == #[trigger] byte_offset(s, a) && ts[k].to
                == #[trigger] byte_offset(s, b);
        lemma_offset_step(s, a);
        lemma_offset_mono(s, a + 1, b);
        lemma_offset_bound(s, b);
    }
}

/// Law: text of two or more CJK characters (Han, kana, Hangul, ...) is cut
/// into its overlapping bigrams: `n` characters give `n - 1` tokens, token `k`
/// holding characters `k` and `k + 1` at position `k` (`한국어` gives `한국`
/// and `국어`). Such text is never one word token.
pub proof fn law_cjk_text_gives_bigrams(s: Seq<char>)
    requires
        s.len() >= 2,
        forall|i: int| 0 <= i < s.len() ==> is_cjk_code(#[trigger] s[i] as u32),
    ensures
        tokenization(s).len() == s.len() - 1,
        forall|k: int|
            0 <= k < s.len() - 1 ==> (#[trigger] tokenization(s)[k]).text == seq![s[k], s[k + 1]]
                && tokenization(s)[k].position == k,
{
    assert forall|k: int| 0 <= k < s.len() implies class_of(#[trigger] s[k]) == class_of(s[0]) by {
        assert(is_cjk_code(s[k] as u32));
        assert(is_cjk_code(s[0] as u32));
    }
    lemma_run_end_is(s, 0, s.len() as int);
    assert(class_of(s[0]) == 1);
    let (tokens, next) = run_tokens(s, 0, s.len() as int, 0);
    assert(tokens_from(s, s.len() as int, next) =~= Seq::<TokenView>::empty());
    assert(tokenization(s) =~= tokens);
}

/// Law: a word of alphanumeric, non-CJK characters is one token: its
/// lowercase form, covering the whole word, at position 0, as long as it has
/// at most [`MAX_TOKEN_CHARS`] characters once lowercased; a longer word gives
/// no token at all.
pub proof fn law_word_gives_one_lowercase_token(s: Seq<char>)
    requires
        s.len() >= 1,
        forall|i: int| 0 <= i < s.len() ==> !is_cjk_code(#[trigger] s[i] as u32) && alphanumeric(s[i]),
    ensures
        lowered(s).len() <= MAX_TOKEN_CHARS ==> tokenization(s) == seq![
            TokenView { from: 0, to: byte_offset(s, s.len() as int), position: 0, text: lowered(s) },
        ],
        lowered(s).len() > MAX_TOKEN_CHARS ==> tokenization(s).len() == 0,
{
    assert forall|k: int| 0 <= k < s.len() implies class_of(#[trigger] s[k]) == class_of(s[0]) by {
        assert(!is_cjk_code(s[k] as u32) && alphanumeric(s[k]));
        assert(!is_cjk_code(s[0] as u32) && alphanumeric(s[0]));
    }
    lemma_run_end_is(s, 0, s.len() as int);
    assert(class_of(s[0]) == 2);
    assert(s.subrange(0, s.len() as int) =~= s);
    assert(s.take(0) =~= Seq::<char>::empty());
    assert(byte_offset(s, 0) == 0);
    let (tokens, next) = run_tokens(s, 0, s.len() as int, 0);
    assert(tokens_from(s, s.len() as int, next) =~= Seq::<TokenView>::empty());
    assert(tokenization(s) =~= tokens);
}

/// A run ends after its start, within the text, and holds one class.
pub proof fn lemma_run_end(s: Seq<char>, i: int)
    requires
        0 <= i < s.len(),
    ensures
        i < run_end(s, i) <= s.len(),
        forall|k: int| i <= k < run_end(s, i) ==> class_of(#[trigger] s[k]) == class_of(s[i]),
        run_end(s, i) < s.len() ==> class_of(s[run_end(s, i)]) != class_of(s[i]),
    decreases s.len() - i,
{
    if !(i + 1 >= s.len() || class_of(s[i + 1]) != class_of(s[i])) {
        lemma_run_end(s, i + 1);
    }
}

/// A same-class stretch that cannot be extended is the run.
proof fn lemma_run_end_is(s: Seq<char>, i: int, j: int)
    requires
        0 <= i < j <= s.len(),
        forall|k: int| i <= k < j ==> class_of(#[trigger] s[k]) == class_of(s[i]),
        j < s.len() ==> class_of(s[j]) != class_of(s[i]),
    ensures
        run_end(s, i) == j,
    decreases j - i,
{
    if i + 1 < j {
        assert(class_of(s[i + 1]) == class_of(s[i]));
        lemma_run_end_is(s, i + 1, j);
    }
}

/// Appending a character adds its encoded length.
proof fn lemma_encode_push(t: Seq<char>, c: char)
    ensures
        encode_utf8(t.push(c)).len() == encode_utf8(t).len() + encode_scalar(c as u32).len(),
    decreases t.len(),
{
    let pushed = t.push(c);
    assert(pushed[0] == if t.len() == 0 { c } else { t[0] });
    if t.len() == 0 {
        assert(pushed.drop_first() =~= Seq::<char>::empty());
        assert(encode_utf8(pushed.drop_first()).len() == 0);
    } else {
        assert(pushed.drop_first() =~= t.drop_first().push(c));
        lemma_encode_push(t.drop_first(), c);
    }
}

/// UTF-8 width of a character, from its scalar value.
pub open spec fn width(c: char) -> nat {
    let u = c as u32;
    if u < 0x80 {
        1
    } else if u < 0x800 {
        2
    } else if u < 0x10000 {
        3
    } else {
        4
    }
}

/// The width is the length of the scalar's encoding.
proof fn lemma_width(c: char)
    ensures
        width(c) == encode_scalar(c as u32).len(),
{
}

/// The offset after character `i` is the offset before it plus its width.
proof fn lemma_offset_step(s: Seq<char>, i: int)
    requires
        0 <= i < s.len(),
    ensures
        byte_offset(s, i + 1) == byte_offset(s, i) + width(s[i]),
{
    assert(s.take(i + 1) =~= s.take(i).push(s[i]));
    lemma_encode_push(s.take(i), s[i]);
    lemma_width(s[i]);
}

/// Offsets grow with the character index.
proof fn lemma_offset_mono(s: Seq<char>, i: int, j: int)
    requires
        0 <= i <= j <= s.len(),
    ensures
        byte_offset(s, i) <= byte_offset(s, j),
    decreases j - i,
{
    if i < j {
        lemma_offset_mono(s, i, j - 1);
        lemma_offset_step(s, j - 1);
    }
}

/// Every offset lies within the encoding.
proof fn lemma_offset_bound(s: Seq<char>, i: int)
    requires
        0 <= i <= s.len(),
    ensures
        byte_offset(s, i) <= encode_utf8(s).len(),
{
    lemma_offset_mono(s, i, s.len() as int);
    assert(s.take(s.len() as int) =~= s);
}

/// The class of `c`, as computed.
fn char_class(c: char) -> (k: u8)
    ensures
        k == class_of(c),
{
    if is_cjk(c) {
        1
    } else if is_alphanumeric(c) {
        2
    } else {
        0
    }
}

/// The UTF-8 width of `c`.
fn utf8_width(c: char) -> (w: usize)
    ensures
        w == width(c),
{
    let u = c as u32;
    if u < 0x80 {
        1
    } else if u < 0x800 {
        2
    } else if u < 0x10000 {
        3
    } else {
        4
    }
}

/// The Momotaro CJK bigram tokenizer.
#[derive(Debug, Clone, Copy)]
pub struct CjkTokenizer;

impl CjkTokenizer {
    /// The tokens of `text`, in stream order.
    pub fn tokens(&self, text: &str) -> (tokens: Vec<CjkToken>)
        ensures
            token_views(tokens@) == tokenization(text@),
            texts_nonempty(token_views(tokens@)),
    {
        tokenize(text)
    }
}

/// Finds the end of the run that starts at `i`, with its byte offset.
fn scan_run(chars: &Vec<char>, i: usize, offset: usize, Ghost(total): Ghost<nat>) -> (r: (
    usize,
    usize,
))
    requires
        i < chars@.len(),
        offset == byte_offset(chars@, i as int),
        total == encode_utf8(chars@).len(),
        total <= usize::MAX,
    ensures
        r.0 == run_end(chars@, i as int),
        r.1 == byte_offset(chars@, r.0 as int),
{
    let ghost s = chars@;
    let _count: usize = chars.len();
    let class = char_class(chars[i]);
    proof {
        lemma_offset_step(s, i as int);
        lemma_offset_bound(s, i + 1);
    }
    let mut j: usize = i + 1;
    let mut end_offset: usize = offset + utf8_width(chars[i]);
    while j < chars.len()
        invariant
            s == chars@,
            i < j <= s.len(),
            class == class_of(s[i as int]),
            forall|k: int| i <= k < j ==> class_of(#[trigger] s[k]) == class_of(s[i as int]),
            end_offset == byte_offset(s, j as int),
            total == encode_utf8(s).len(),
            total <= usize::MAX,
        ensures
            i < j <= s.len(),
            forall|k: int| i <= k < j ==> class_of(#[trigger] s[k]) == class_of(s[i as int]),
            end_offset == byte_offset(s, j as int),
            j < s.len() ==> class_of(s[j as int]) != class_of(s[i as int]),
        decreases s.len() - j,
    {
        if char_class(chars[j]) != class {
            break;
        }
        proof {
            lemma_offset_step(s, j as int);
            lemma_offset_bound(s, j + 1);
        }
        end_offset = end_offset + utf8_width(chars[j]);
        j = j + 1;
    }
    proof {
        lemma_run_end_is(s, i as int, j as int);
    }
    (j, end_offset)
}

/// Appends the tokens of the CJK run `start..end`.
fn emit_cjk_run(
    chars: &Vec<char>,
    start: usize,
    end: usize,
    start_offset: usize,
    end_offset: usize,
    position: usize,
    tokens: &mut Vec<CjkToken>,
    Ghost(total): Ghost<nat>,
) -> (next: usize)
    requires
        start < end <= chars@.len(),
        start_offset == byte_offset(chars@, start as int),
        end_offset == byte_offset(chars@, end as int),
        total == encode_utf8(chars@).len(),
        total <= usize::MAX,
        position + (end - start) <= usize::MAX,
    ensures
        token_views(final(tokens)@) == token_views(old(tokens)@) + cjk_run_tokens(
            chars@,
            start as int,
            end as int,
            position as nat,
        ),
        next == position + cjk_run_positions(end - start),
{
    let ghost s = chars@;
    if end - start == 1 {
        let mut text = String::new();
        crate::text::push_char(&mut text, chars[start]);
        let token = CjkToken { offset_from: start_offset, offset_to: end_offset, position, text };
        tokens.push(token);
        proof {
            assert(text@ =~= seq![s[start as int]]);
            assert(token_views(tokens@) =~= token_views(old(tokens)@) + cjk_run_tokens(
                s,
                start as int,
                end as int,
                position as nat,
            ));
        }
        return position + 1;
    }
    let ghost base = token_views(old(tokens)@);
    let ghost run = cjk_run_tokens(s, start as int, end as int, position as nat);
    let mut k: usize = start;
    let mut off: usize = start_offset;
    while k + 1 < end
        invariant
            s == chars@,
            start <= k < end <= s.len(),
            end - start >= 2,
            off == byte_offset(s, k as int),
            total == encode_utf8(s).len(),
            total <= usize::MAX,
            position + (end - start) <= usize::MAX,
            run == cjk_run_tokens(s, start as int, end as int, position as nat),
            base == token_views(old(tokens)@),
            token_views(tokens@) == base + run.take(k - start),
        decreases end - k,
    {
        proof {
            lemma_offset_step(s, k as int);
            lemma_offset_step(s, k + 1);
            lemma_offset_bound(s, k + 2);
        }
        let next_off = off + utf8_width(chars[k]);
        let to = next_off + utf8_width(chars[k + 1]);
        let mut text = String::new();
        crate::text::push_char(&mut text, chars[k]);
        crate::text::push_char(&mut text, chars[k + 1]);
        let token = CjkToken {
            offset_from: off,
            offset_to: to,
            position: position + (k - start),
            text,
        };
        let ghost before = tokens@;
        tokens.push(token);
        proof {
            assert(text@ =~= seq![s[k as int], s[k + 1]]);
            assert(token@ == run[k - start]);
            assert(token_views(tokens@) =~= token_views(before).push(token@));
            assert(run.take(k + 1 - start) =~= run.take(k - start).push(run[k - start]));
        }
        off = next_off;
        k = k + 1;
    }
    proof {
        assert(run.take(k - start) =~= run);
    }
    position + (end - start - 1)
}

/// Appends the word token of the alphanumeric run `start..end`, unless it is
/// overlong.
fn emit_word_run(
    chars: &Vec<char>,
    start: usize,
    end: usize,
    start_offset: usize,
    end_offset: usize,
    position: usize,
    tokens: &mut Vec<CjkToken>,
) -> (next: usize)
    requires
        start < end <= chars@.len(),
        start_offset == byte_offset(chars@, start as int),
        end_offset == byte_offset(chars@, end as int),
        position < usize::MAX,
    ensures
        ({
            let text = lowered(chars@.subrange(start as int, end as int));
            &&& text.len() > MAX_TOKEN_CHARS ==> token_views(final(tokens)@) == token_views(
                old(tokens)@,
            )
            &&& text.len() <= MAX_TOKEN_CHARS ==> token_views(final(tokens)@) == token_views(
                old(tokens)@,
            ).push(
                TokenView {
                    from: start_offset as nat,
                    to: end_offset as nat,
                    position: position as nat,
                    text,
                },
            )
        }),
        next == position + 1,
        lowered(chars@.subrange(start as int, end as int)).len() >= 1,
{
    let ghost s = chars@;
    let mut text: Vec<char> = Vec::new();
    let mut j: usize = start;
    while j < end
        invariant
            s == chars@,
            start <= j <= end <= s.len(),
            text@ == lowered(s.subrange(start as int, j as int)),
            j > start ==> text@.len() >= 1,
        decreases end - j,
    {
        let lower = lowercase_chars(chars[j]);
        let mut m: usize = 0;
        let ghost before = text@;
        while m < lower.len()
            invariant
                m <= lower@.len(),
                text@ == before + lower@.take(m as int),
            decreases lower@.len() - m,
        {
            text.push(lower[m]);
            proof {
                assert(lower@.take(m + 1) =~= lower@.take(m as int).push(lower@[m as int]));
            }
            m = m + 1;
        }
        proof {
            assert(lower@.take(m as int) =~= lower@);
            let sub = s.subrange(start as int, j + 1);
            assert(sub.drop_last() =~= s.subrange(start as int, j as int));
            assert(sub.last() == s[j as int]);
        }
        j = j + 1;
    }
    if text.len() > MAX_TOKEN_CHARS {
        return position + 1;
    }
    let token = CjkToken {
        offset_from: start_offset,
        offset_to: end_offset,
        position,
        text: crate::text::string_of(text.as_slice()),
    };
    let ghost before = tokens@;
    tokens.push(token);
    proof {
        assert(token_views(tokens@) =~= token_views(before).push(token@));
    }
    position + 1
}

/// Tokenizes `text` into CJK unigrams and bigrams and lowercased words.
pub fn tokenize(text: &str) -> (tokens: Vec<CjkToken>)
    ensures
        token_views(tokens@) == tokenization(text@),
        texts_nonempty(token_views(tokens@)),
{
    let bytes = text.as_bytes();
    let chars = crate::text::chars_of(text);
    let ghost s = text@;
    let ghost total = encode_utf8(s).len();
    let _byte_count: usize = bytes.len();
    let _char_count: usize = chars.len();
    assert(bytes@.len() == total);
    assert(total <= usize::MAX && s.len() <= usize::MAX);
    let mut tokens: Vec<CjkToken> = Vec::new();
    let mut position: usize = 0;
    let mut i: usize = 0;
    let mut offset: usize = 0;
    assert(s.take(0) =~= Seq::<char>::empty());
    while i < chars.len()
        invariant
            chars@ == s,
            i <= s.len(),
            offset == byte_offset(s, i as int),
            total == encode_utf8(s).len(),
            total <= usize::MAX,
            s.len() <= usize::MAX,
            position <= i,
            texts_nonempty(token_views(tokens@)),
            token_views(tokens@) + tokens_from(s, i as int, position as nat) == tokenization(s),
        decreases s.len() - i,
    {
        let c = chars[i];
        let class = char_class(c);
        if class == 0 {
            proof {
                lemma_offset_step(s, i as int);
                lemma_offset_bound(s, i + 1);
            }
            offset = offset + utf8_width(c);
            i = i + 1;
        } else {
            let (end, end_offset) = scan_run(&chars, i, offset, Ghost(total));
            proof {
                lemma_run_end(s, i as int);
            }
            let ghost before = token_views(tokens@);
            let next = if class == 1 {
                emit_cjk_run(&chars, i, end, offset, end_offset, position, &mut tokens, Ghost(total))
            } else {
                emit_word_run(&chars, i, end, offset, end_offset, position, &mut tokens)
            };
            proof {
                let (run, p) = run_tokens(s, i as int, end as int, position as nat);
                assert(token_views(tokens@) == before + run);
                assert(next == p);
                assert(texts_nonempty(run));
                assert(texts_nonempty(token_views(tokens@))) by {
                    let all = token_views(tokens@);
                    assert forall|k: int| 0 <= k < all.len() implies #[trigger] all[k].text.len()
                        >= 1 by {
                        if k >= before.len() {
                            assert(all[k] == run[k - before.len()]);
                        } else {
                            assert(all[k] == before[k]);
                        }
                    }
                }
                assert(tokens_from(s, i as int, position as nat) == run + tokens_from(
                    s,
                    end as int,
                    p,
                ));
                assert(token_views(tokens@) + tokens_from(s, end as int, next as nat) =~= before
                    + tokens_from(s, i as int, position as nat));
            }
            position = next;
            i = end;
            offset = end_offset;
        }
    }
    proof {
        assert(token_views(tokens@) =~= token_views(tokens@) + tokens_from(
            s,
            i as int,
            position as nat,
        ));
    }
    tokens
}

} // verus!
