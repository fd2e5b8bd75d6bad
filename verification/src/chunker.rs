//! Cutting text into chunks.
//!
//! Positions count characters, never bytes, so no cut can fall inside a
//! character. A chunk names the span `[start, end)` of the text that it holds.

use crate::backend::{
    effective_batch_size, embed, embeds, outcome_view, results_view, texts_view, SemanticEncoder,
};
use crate::config::OverlapRatio;
use crate::error::EmbedError;
use crate::text::chars_of;
use vstd::prelude::*;

verus! {

/// A non-empty piece of a document, with the span that it covers.
#[derive(Debug, PartialEq, Eq)]
pub struct TextChunk {
    /// The position of the first character of the chunk.
    pub start: usize,
    /// The position behind the last character of the chunk.
    pub end: usize,
    /// The characters of the span.
    pub text: String,
}

/// A chunk as a mathematical value.
pub struct ChunkView {
    pub start: int,
    pub end: int,
    pub text: Seq<char>,
}

impl View for TextChunk {
    type V = ChunkView;

    open spec fn view(&self) -> ChunkView {
        ChunkView { start: self.start as int, end: self.end as int, text: self.text@ }
    }
}

/// The chunks as mathematical values.
pub open spec fn chunks_view(chunks: Seq<TextChunk>) -> Seq<ChunkView> {
    chunks.map_values(|c: TextChunk| c@)
}

/// The text of each chunk.
pub open spec fn chunk_texts(chunks: Seq<ChunkView>) -> Seq<Seq<char>> {
    chunks.map_values(|c: ChunkView| c.text)
}

/// The texts of the chunks, one string each.
pub fn texts_of_chunks(chunks: &Vec<TextChunk>) -> (texts: Vec<String>)
    ensures
        texts_view(texts@) == chunk_texts(chunks_view(chunks@)),
{
    let ghost all = chunk_texts(chunks_view(chunks@));
    let mut texts: Vec<String> = Vec::new();
    let mut i: usize = 0;
    while i < chunks.len()
        invariant
            i <= chunks@.len(),
            all == chunk_texts(chunks_view(chunks@)),
            texts_view(texts@) == all.take(i as int),
        decreases chunks@.len() - i,
    {
        let ghost before = texts_view(texts@);
        texts.push(chunks[i].text.clone());
        assert(texts_view(texts@) =~= before.push(all[i as int]));
        assert(all.take(i + 1) =~= all.take(i as int).push(all[i as int]));
        i += 1;
    }
    assert(all.take(all.len() as int) =~= all);
    texts
}

/// A character that ends a sentence.
pub open spec fn is_terminator(c: char) -> bool {
    c == '.' || c == '!' || c == '?'
}

/// A character that separates words.
pub open spec fn is_space(c: char) -> bool {
    c == ' ' || c == '\n' || c == '\t' || c == '\r'
}

/// Position `p` is a sentence boundary of `text`: the end of the text, or the
/// position behind a terminator that white space follows.
pub open spec fn is_boundary(text: Seq<char>, p: int) -> bool {
    0 < p <= text.len() && (p == text.len() || (is_terminator(text[p - 1]) && is_space(text[p])))
}

/// The furthest position that a chunk starting at `start` may reach.
pub open spec fn limit_of(len: int, start: int, max_chunk_size: int) -> int {
    if start + max_chunk_size <= len {
        start + max_chunk_size
    } else {
        len
    }
}

/// `end` is where a chunk ends that must reach beyond `prev_end` and not
/// beyond `limit`: the last sentence boundary in that range, or `limit`
/// itself where the range holds none.
pub open spec fn is_chunk_end(text: Seq<char>, prev_end: int, limit: int, end: int) -> bool {
    &&& prev_end < end <= limit
    &&& forall|q: int| end < q <= limit ==> !is_boundary(text, q)
    &&& is_boundary(text, end) || (end == limit && forall|q: int|
        prev_end < q <= limit ==> !is_boundary(text, q))
}

/// Where the chunk before chunk `i` ends; the start of the text for the first.
pub open spec fn prev_end(chunks: Seq<ChunkView>, i: int) -> int {
    if i <= 0 {
        0
    } else {
        chunks[i - 1].end
    }
}

/// Where the chunk behind `prev` starts: `overlap` characters before the end
/// of `prev`, but not before its start.
pub open spec fn next_start(prev: ChunkView, overlap: int) -> int {
    if prev.end - prev.start > overlap {
        prev.end - overlap
    } else {
        prev.start
    }
}

/// Where chunk `i` has to start.
pub open spec fn start_of(chunks: Seq<ChunkView>, overlap: int, i: int) -> int {
    if i <= 0 {
        0
    } else {
        next_start(chunks[i - 1], overlap)
    }
}

/// `chunks` is the sentence chunking of `text` for chunks of at most
/// `max_chunk_size` characters that share `overlap` characters.
///
/// The first chunk starts the text and the last ends it. Each chunk holds the
/// characters of its span, starts `overlap` characters before the end of the
/// chunk before it (at most that whole chunk), and reaches to the last
/// sentence boundary within `max_chunk_size` characters of its start that
/// lies beyond the chunk before it; where there is no such boundary it is cut
/// at `max_chunk_size` characters.
pub open spec fn is_sentence_chunking(
    text: Seq<char>,
    max_chunk_size: int,
    overlap: int,
    chunks: Seq<ChunkView>,
) -> bool {
    &&& chunks.len() == 0 <==> text.len() == 0
    &&& chunks.len() > 0 ==> chunks.last().end == text.len()
    &&& forall|i: int|
        0 <= i < chunks.len() ==> is_sentence_chunk(text, max_chunk_size, overlap, chunks, i)
}

/// Chunk `i` of `chunks` is as the sentence chunking of `text` asks.
pub open spec fn is_sentence_chunk(
    text: Seq<char>,
    max_chunk_size: int,
    overlap: int,
    chunks: Seq<ChunkView>,
    i: int,
) -> bool {
    let c = chunks[i];
    &&& c.start == start_of(chunks, overlap, i)
    &&& 0 <= c.start < c.end <= text.len()
    &&& c.text == text.subrange(c.start, c.end)
    &&& is_chunk_end(
        text,
        prev_end(chunks, i),
        limit_of(text.len() as int, c.start, max_chunk_size),
        c.end,
    )
}

/// What chunk `i` adds to the chunks before it: its text without the
/// characters that it shares with the chunk before.
pub open spec fn unique_part(chunks: Seq<ChunkView>, i: int) -> Seq<char> {
    chunks[i].text.skip(prev_end(chunks, i) - chunks[i].start)
}

/// The unique parts of the first `k` chunks, joined in order.
pub open spec fn reassembled(chunks: Seq<ChunkView>, k: int) -> Seq<char>
    decreases k,
{
    if k <= 0 {
        Seq::empty()
    } else {
        reassembled(chunks, k - 1) + unique_part(chunks, k - 1)
    }
}

/// Chunk `i` holds the characters of its span, starts no later than the
/// chunk before it ends, and ends behind it.
pub open spec fn continues(text: Seq<char>, chunks: Seq<ChunkView>, i: int) -> bool {
    let c = chunks[i];
    &&& 0 <= c.start <= prev_end(chunks, i) < c.end <= text.len()
    &&& c.text == text.subrange(c.start, c.end)
}

/// The chunks cover the text: each continues the one before it without a
/// gap, and the last ends the text.
pub open spec fn covers(text: Seq<char>, chunks: Seq<ChunkView>) -> bool {
    &&& chunks.len() == 0 <==> text.len() == 0
    &&& chunks.len() > 0 ==> chunks.last().end == text.len()
    &&& forall|i: int| 0 <= i < chunks.len() ==> continues(text, chunks, i)
}

proof fn lemma_reassembled_prefix(text: Seq<char>, chunks: Seq<ChunkView>, k: int)
    requires
        0 <= k <= chunks.len(),
        forall|i: int| 0 <= i < chunks.len() ==> continues(text, chunks, i),
    ensures
        reassembled(chunks, k) == text.subrange(0, prev_end(chunks, k)),
        0 <= prev_end(chunks, k) <= text.len(),
    decreases k,
{
    if k == 0 {
        assert(text.subrange(0, 0) =~= Seq::<char>::empty());
    } else {
        lemma_reassembled_prefix(text, chunks, k - 1);
        let c = chunks[k - 1];
        let p = prev_end(chunks, k - 1);
        assert(continues(text, chunks, k - 1));
        assert(unique_part(chunks, k - 1) =~= text.subrange(p, c.end));
        assert(text.subrange(0, p) + text.subrange(p, c.end) =~= text.subrange(0, c.end));
    }
}

/// Joining the unique parts of chunks that cover a text, in order, gives back
/// the text: nothing is lost between two chunks and nothing but the overlap
/// is said twice.
pub proof fn law_unique_parts_reconstruct_text(text: Seq<char>, chunks: Seq<ChunkView>)
    requires
        covers(text, chunks),
    ensures
        reassembled(chunks, chunks.len() as int) == text,
{
    lemma_reassembled_prefix(text, chunks, chunks.len() as int);
    if chunks.len() == 0 {
        assert(text =~= Seq::<char>::empty());
    } else {
        assert(text.subrange(0, text.len() as int) =~= text);
    }
}

/// A sentence chunking covers its text, whatever the chunk size and the
/// overlap. So the unique parts of its chunks reconstruct the text.
pub proof fn law_sentence_chunking_covers(
    text: Seq<char>,
    max_chunk_size: int,
    overlap: int,
    chunks: Seq<ChunkView>,
)
    requires
        0 <= overlap,
        is_sentence_chunking(text, max_chunk_size, overlap, chunks),
    ensures
        covers(text, chunks),
        reassembled(chunks, chunks.len() as int) == text,
{
    assert forall|i: int| 0 <= i < chunks.len() implies continues(text, chunks, i) by {
        assert(is_sentence_chunk(text, max_chunk_size, overlap, chunks, i));
        if i > 0 {
            assert(is_sentence_chunk(text, max_chunk_size, overlap, chunks, i - 1));
        }
    }
    law_unique_parts_reconstruct_text(text, chunks);
}

/// In a sentence chunking with an overlap below the chunk size, no chunk is
/// empty or longer than the chunk size, every chunk ends behind the one
/// before it, and two neighbours share at most `overlap` characters and leave
/// no gap.
pub proof fn law_chunks_are_bounded(
    text: Seq<char>,
    max_chunk_size: int,
    overlap: int,
    chunks: Seq<ChunkView>,
    i: int,
)
    requires
        is_sentence_chunking(text, max_chunk_size, overlap, chunks),
        0 <= overlap,
        0 <= i < chunks.len(),
    ensures
        0 < chunks[i].end - chunks[i].start <= max_chunk_size,
        chunks[i].text.len() == chunks[i].end - chunks[i].start,
        prev_end(chunks, i) < chunks[i].end,
        chunks[i].start <= prev_end(chunks, i) <= chunks[i].start + overlap,
{
    assert(is_sentence_chunk(text, max_chunk_size, overlap, chunks, i));
    if i > 0 {
        assert(is_sentence_chunk(text, max_chunk_size, overlap, chunks, i - 1));
    }
}

proof fn lemma_chunk_end_unique(text: Seq<char>, prev: int, limit: int, e1: int, e2: int)
    requires
        is_chunk_end(text, prev, limit, e1),
        is_chunk_end(text, prev, limit, e2),
    ensures
        e1 == e2,
{
    if e1 < e2 {
        assert(!is_boundary(text, e2));
        assert(is_boundary(text, e1));
    } else if e2 < e1 {
        assert(!is_boundary(text, e1));
        assert(is_boundary(text, e2));
    }
}

proof fn lemma_same_prefix(
    text: Seq<char>,
    max_chunk_size: int,
    overlap: int,
    a: Seq<ChunkView>,
    b: Seq<ChunkView>,
    k: int,
)
    requires
        is_sentence_chunking(text, max_chunk_size, overlap, a),
        is_sentence_chunking(text, max_chunk_size, overlap, b),
        0 <= k <= a.len(),
        k <= b.len(),
    ensures
        forall|i: int| 0 <= i < k ==> a[i] == b[i],
    decreases k,
{
    if k > 0 {
        lemma_same_prefix(text, max_chunk_size, overlap, a, b, k - 1);
        let i = k - 1;
        assert(is_sentence_chunk(text, max_chunk_size, overlap, a, i));
        assert(is_sentence_chunk(text, max_chunk_size, overlap, b, i));
        if i > 0 {
            assert(a[i - 1] == b[i - 1]);
        }
        assert(a[i].start == b[i].start);
        lemma_chunk_end_unique(
            text,
            prev_end(a, i),
            limit_of(text.len() as int, a[i].start, max_chunk_size),
            a[i].end,
            b[i].end,
        );
        assert(a[i].text =~= b[i].text);
    }
}

/// A text has one sentence chunking for a chunk size and an overlap: what
/// the chunker returns is determined by the three.
pub proof fn law_sentence_chunking_is_unique(
    text: Seq<char>,
    max_chunk_size: int,
    overlap: int,
    a: Seq<ChunkView>,
    b: Seq<ChunkView>,
)
    requires
        is_sentence_chunking(text, max_chunk_size, overlap, a),
        is_sentence_chunking(text, max_chunk_size, overlap, b),
    ensures
        a == b,
{
    let k = if a.len() <= b.len() {
        a.len() as int
    } else {
        b.len() as int
    };
    lemma_same_prefix(text, max_chunk_size, overlap, a, b, k);
    if a.len() < b.len() {
        assert(is_sentence_chunk(text, max_chunk_size, overlap, b, k));
        if k > 0 {
            assert(a[k - 1] == b[k - 1]);
        }
    } else if b.len() < a.len() {
        assert(is_sentence_chunk(text, max_chunk_size, overlap, a, k));
        if k > 0 {
            assert(a[k - 1] == b[k - 1]);
        }
    }
    assert(a =~= b);
}

/// Whether position `p` of `chars` is a sentence boundary.
fn at_boundary(chars: &Vec<char>, p: usize) -> (r: bool)
    requires
        0 < p <= chars@.len(),
    ensures
        r == is_boundary(chars@, p as int),
{
    if p == chars.len() {
        true
    } else {
        let before = chars[p - 1];
        let after = chars[p];
        (before == '.' || before == '!' || before == '?') && (after == ' ' || after == '\n'
            || after == '\t' || after == '\r')
    }
}

/// The end of the chunk that must reach beyond `prev_end` and not beyond
/// `limit`.
fn find_chunk_end(chars: &Vec<char>, prev_end: usize, limit: usize) -> (end: usize)
    requires
        prev_end < limit <= chars@.len(),
    ensures
        is_chunk_end(chars@, prev_end as int, limit as int, end as int),
{
    let mut q: usize = limit;
    while q > prev_end
        invariant
            prev_end <= q <= limit <= chars@.len(),
            forall|p: int| q < p <= limit ==> !is_boundary(chars@, p),
        decreases q,
    {
        if at_boundary(chars, q) {
            return q;
        }
        q -= 1;
    }
    limit
}

/// Cuts `text` into chunks of at most `max_chunk_size` characters along
/// sentence boundaries.
///
/// Each chunk but the first starts `overlap_ratio` of `max_chunk_size`
/// characters, rounded down, before the end of the chunk before it. An empty
/// text gives no chunk. A `max_chunk_size` of zero is a configuration error.
pub fn split_sentences(text: &str, max_chunk_size: usize, overlap_ratio: &OverlapRatio) -> (r:
    Result<Vec<TextChunk>, EmbedError>)
    ensures
        max_chunk_size == 0 ==> r matches Err(EmbedError::ConfigurationError),
        max_chunk_size > 0 ==> (r matches Ok(chunks) && is_sentence_chunking(
            text@,
            max_chunk_size as int,
            overlap_ratio.share_of(max_chunk_size as nat) as int,
            chunks_view(chunks@),
        )),
        r matches Ok(chunks) ==> reassembled(chunks_view(chunks@), chunks@.len() as int)
            == text@,
{
    if max_chunk_size == 0 {
        return Err(EmbedError::ConfigurationError);
    }
    let overlap = overlap_ratio.overlap_for(max_chunk_size);
    let chars = chars_of(text);
    let n = chars.len();
    let mut chunks: Vec<TextChunk> = Vec::new();
    let mut start: usize = 0;
    let mut done: usize = 0;
    let ghost m = max_chunk_size as int;
    let ghost o = overlap as int;
    while done < n
        invariant
            chars@ == text@,
            n == chars@.len(),
            m == max_chunk_size,
            o == overlap,
            0 <= o < m,
            start <= done <= n,
            done - start <= o,
            done == prev_end(chunks_view(chunks@), chunks@.len() as int),
            start == start_of(chunks_view(chunks@), o, chunks@.len() as int),
            chunks@.len() == 0 <==> done == 0,
            forall|i: int|
                0 <= i < chunks@.len() ==> is_sentence_chunk(
                    text@,
                    m,
                    o,
                    chunks_view(chunks@),
                    i,
                ),
        decreases n - done,
    {
        let limit = if n - start > max_chunk_size {
            start + max_chunk_size
        } else {
            n
        };
        let end = find_chunk_end(&chars, done, limit);
        let piece = text.substring_char(start, end).to_owned();
        let ghost before = chunks_view(chunks@);
        let ghost k = chunks@.len() as int;
        chunks.push(TextChunk { start, end, text: piece });
        proof {
            let now = chunks_view(chunks@);
            assert(now =~= before.push(
                ChunkView { start: start as int, end: end as int, text: piece@ },
            ));
            assert forall|i: int| 0 <= i < now.len() implies is_sentence_chunk(
                text@,
                m,
                o,
                now,
                i,
            ) by {
                if i < k {
                    assert(is_sentence_chunk(text@, m, o, before, i));
                    assert(now[i] == before[i]);
                    if i > 0 {
                        assert(now[i - 1] == before[i - 1]);
                    }
                } else {
                    if k > 0 {
                        assert(now[k - 1] == before[k - 1]);
                    }
                }
            }
        }
        start = if end - start > overlap {
            end - overlap
        } else {
            start
        };
        done = end;
    }
    proof {
        let now = chunks_view(chunks@);
        if now.len() > 0 {
            assert(now.last().end == n);
        }
        law_sentence_chunking_covers(text@, m, o, now);
    }
    Ok(chunks)
}

/// Unit `i` of `units` is one sentence of `text`: it starts where the unit
/// before it ends, ends at a sentence boundary and holds no other.
pub open spec fn is_sentence_unit(text: Seq<char>, units: Seq<ChunkView>, i: int) -> bool {
    let u = units[i];
    &&& u.start == prev_end(units, i)
    &&& 0 <= u.start < u.end <= text.len()
    &&& u.text == text.subrange(u.start, u.end)
    &&& is_boundary(text, u.end)
    &&& forall|q: int| u.start < q < u.end ==> !is_boundary(text, q)
}

/// `units` are the sentences of `text`, in order and without a gap.
pub open spec fn is_unit_tiling(text: Seq<char>, units: Seq<ChunkView>) -> bool {
    &&& units.len() == 0 <==> text.len() == 0
    &&& units.len() > 0 ==> units.last().end == text.len()
    &&& forall|i: int| 0 <= i < units.len() ==> is_sentence_unit(text, units, i)
}

/// Cuts `text` into its sentences: every sentence boundary ends a unit.
pub fn split_units(text: &str) -> (units: Vec<TextChunk>)
    ensures
        is_unit_tiling(text@, chunks_view(units@)),
        reassembled(chunks_view(units@), units@.len() as int) == text@,
{
    let chars = chars_of(text);
    let n = chars.len();
    let mut units: Vec<TextChunk> = Vec::new();
    let mut start: usize = 0;
    while start < n
        invariant
            chars@ == text@,
            n == chars@.len(),
            start <= n,
            start == prev_end(chunks_view(units@), units@.len() as int),
            units@.len() == 0 <==> start == 0,
            forall|i: int|
                0 <= i < units@.len() ==> is_sentence_unit(text@, chunks_view(units@), i),
        decreases n - start,
    {
        let mut end: usize = start + 1;
        while !at_boundary(&chars, end)
            invariant
                start < end <= n,
                n == chars@.len(),
                forall|q: int| start < q < end ==> !is_boundary(chars@, q),
            decreases n - end,
        {
            end += 1;
        }
        let piece = text.substring_char(start, end).to_owned();
        let ghost before = chunks_view(units@);
        let ghost k = units@.len() as int;
        units.push(TextChunk { start, end, text: piece });
        proof {
            let now = chunks_view(units@);
            assert(now =~= before.push(
                ChunkView { start: start as int, end: end as int, text: piece@ },
            ));
            assert forall|i: int| 0 <= i < now.len() implies is_sentence_unit(text@, now, i) by {
                if i < k {
                    assert(is_sentence_unit(text@, before, i));
                    assert(now[i] == before[i]);
                    if i > 0 {
                        assert(now[i - 1] == before[i - 1]);
                    }
                } else {
                    if k > 0 {
                        assert(now[k - 1] == before[k - 1]);
                    }
                }
            }
        }
        start = end;
    }
    proof {
        law_units_tile(text@, chunks_view(units@));
        law_unique_parts_reconstruct_text(text@, chunks_view(units@));
    }
    units
}

/// Units `i` and `i + 1` are judged to belong together.
pub open spec fn joins_at(joins: Seq<bool>, i: int) -> bool {
    0 <= i < joins.len() && joins[i]
}

/// One chunk that spans two neighbours.
pub open spec fn fused(left: ChunkView, right: ChunkView) -> ChunkView {
    ChunkView { start: left.start, end: right.end, text: left.text + right.text }
}

/// The first `k` units, merged: a unit goes into the chunk of the unit before
/// it where the two are judged to belong together, and starts a new chunk
/// where they are not.
pub open spec fn merged(units: Seq<ChunkView>, joins: Seq<bool>, k: int) -> Seq<ChunkView>
    decreases k,
{
    if k <= 0 {
        Seq::empty()
    } else {
        let before = merged(units, joins, k - 1);
        if k >= 2 && joins_at(joins, k - 2) && before.len() > 0 {
            before.drop_last().push(fused(before.last(), units[k - 1]))
        } else {
            before.push(units[k - 1])
        }
    }
}

/// Merges neighbouring units that are judged to belong together.
///
/// `joins[i]` says whether unit `i` and unit `i + 1` belong together; a pair
/// that `joins` does not reach does not.
pub fn merge_units(units: Vec<TextChunk>, joins: &[bool]) -> (chunks: Vec<TextChunk>)
    ensures
        chunks_view(chunks@) == merged(chunks_view(units@), joins@, units@.len() as int),
{
    let ghost all = chunks_view(units@);
    let mut chunks: Vec<TextChunk> = Vec::new();
    let mut seen: usize = 0;
    let total = units.len();
    assert(chunks_view(chunks@) =~= merged(all, joins@, 0));
    for unit in it: units
        invariant
            it.seq() == units@,
            all == chunks_view(units@),
            total == units@.len(),
            seen == it.index(),
            chunks_view(chunks@) == merged(all, joins@, it.index() as int),
    {
        let ghost i = it.index() as int;
        let ghost before = chunks_view(chunks@);
        assert(unit == units@[i]);
        assert(unit@ == all[i]);
        assert(seen < total);
        if seen >= 1 && seen - 1 < joins.len() && joins[seen - 1] && chunks.len() > 0 {
            let mut last = chunks.pop().unwrap();
            let ghost held = last@;
            last.text.append(unit.text.as_str());
            last.end = unit.end;
            assert(last@.text =~= held.text + unit@.text);
            chunks.push(last);
            assert(chunks_view(chunks@) =~= before.drop_last().push(fused(held, unit@)));
        } else {
            chunks.push(unit);
            assert(chunks_view(chunks@) =~= before.push(unit@));
        }
        seen += 1;
    }
    chunks
}

/// The chunks tile the text: each holds the characters of its span and
/// starts where the one before it ends, and the last ends the text.
pub open spec fn is_tiling(text: Seq<char>, chunks: Seq<ChunkView>) -> bool {
    &&& covers(text, chunks)
    &&& forall|i: int| 0 <= i < chunks.len() ==> (#[trigger] chunks[i]).start == prev_end(chunks, i)
}

/// The sentences of a text tile it.
pub proof fn law_units_tile(text: Seq<char>, units: Seq<ChunkView>)
    requires
        is_unit_tiling(text, units),
    ensures
        is_tiling(text, units),
{
    assert forall|i: int| 0 <= i < units.len() implies continues(text, units, i) && (
    #[trigger] units[i]).start == prev_end(units, i) by {
        assert(is_sentence_unit(text, units, i));
    }
}

/// Each chunk holds the characters of its span and starts where the one
/// before it ends.
pub open spec fn follows_on(text: Seq<char>, chunks: Seq<ChunkView>) -> bool {
    forall|j: int|
        0 <= j < chunks.len() ==> continues(text, chunks, j) && (#[trigger] chunks[j]).start
            == prev_end(chunks, j)
}

proof fn lemma_follows_on_push(text: Seq<char>, before: Seq<ChunkView>, u: ChunkView)
    requires
        follows_on(text, before),
        u.start == prev_end(before, before.len() as int),
        0 <= u.start < u.end <= text.len(),
        u.text == text.subrange(u.start, u.end),
    ensures
        follows_on(text, before.push(u)),
{
    let m = before.push(u);
    assert forall|j: int| 0 <= j < m.len() implies continues(text, m, j) && (#[trigger] m[j]).start
        == prev_end(m, j) by {
        if j > 0 {
            assert(m[j - 1] == before[j - 1]);
        }
        if j < before.len() {
            assert(m[j] == before[j]);
            assert(continues(text, before, j));
            assert(before[j].start == prev_end(before, j));
        }
    }
}

proof fn lemma_follows_on_fuse(text: Seq<char>, before: Seq<ChunkView>, u: ChunkView)
    requires
        follows_on(text, before),
        before.len() > 0,
        u.start == before.last().end,
        0 <= u.start < u.end <= text.len(),
        u.text == text.subrange(u.start, u.end),
    ensures
        follows_on(text, before.drop_last().push(fused(before.last(), u))),
{
    let last = before.last();
    let f = fused(last, u);
    let init = before.drop_last();
    let m = init.push(f);
    let k = before.len() - 1;
    assert(continues(text, before, k));
    assert(last.start == prev_end(before, k));
    assert(f.text =~= text.subrange(f.start, f.end));
    assert forall|j: int| 0 <= j < m.len() implies continues(text, m, j) && (#[trigger] m[j]).start
        == prev_end(m, j) by {
        if j > 0 {
            assert(m[j - 1] == before[j - 1]);
        }
        if j < k {
            assert(m[j] == before[j]);
            assert(continues(text, before, j));
            assert(before[j].start == prev_end(before, j));
        } else {
            assert(m[j] == f);
            assert(prev_end(m, j) == prev_end(before, k));
        }
    }
}

proof fn lemma_merged_prefix(text: Seq<char>, units: Seq<ChunkView>, joins: Seq<bool>, k: int)
    requires
        is_tiling(text, units),
        0 <= k <= units.len(),
    ensures
        merged(units, joins, k).len() == 0 <==> k == 0,
        k > 0 ==> merged(units, joins, k).last().end == units[k - 1].end,
        follows_on(text, merged(units, joins, k)),
    decreases k,
{
    if k > 0 {
        lemma_merged_prefix(text, units, joins, k - 1);
        let before = merged(units, joins, k - 1);
        let u = units[k - 1];
        assert(continues(text, units, k - 1));
        assert(u.start == prev_end(units, k - 1));
        assert(u.start == prev_end(before, before.len() as int));
        if k >= 2 && joins_at(joins, k - 2) && before.len() > 0 {
            lemma_follows_on_fuse(text, before, u);
        } else {
            lemma_follows_on_push(text, before, u);
        }
    }
}

/// Merging units that tile a text gives chunks that tile it, whatever the
/// judgements. So the chunks of the semantic strategy reconstruct the text.
pub proof fn law_merging_keeps_tiling(text: Seq<char>, units: Seq<ChunkView>, joins: Seq<bool>)
    requires
        is_tiling(text, units),
    ensures
        is_tiling(text, merged(units, joins, units.len() as int)),
        reassembled(
            merged(units, joins, units.len() as int),
            merged(units, joins, units.len() as int).len() as int,
        ) == text,
{
    lemma_merged_prefix(text, units, joins, units.len() as int);
    let m = merged(units, joins, units.len() as int);
    assert forall|i: int| 0 <= i < m.len() implies continues(text, m, i) && (#[trigger] m[i]).start
        == prev_end(m, i) by {
        assert(follows_on(text, m));
    }
    law_unique_parts_reconstruct_text(text, m);
}

/// `joins` holds one judgement of `encoder` for each pair of neighbouring
/// vectors.
pub open spec fn is_judgement<E: SemanticEncoder>(
    encoder: &E,
    vectors: Seq<Seq<E::Scalar>>,
    joins: Seq<bool>,
) -> bool {
    &&& joins.len() == if vectors.len() == 0 {
        0
    } else {
        vectors.len() - 1
    }
    &&& forall|i: int|
        0 <= i < joins.len() ==> encoder.cohesive_spec(
            vectors[i],
            vectors[i + 1],
            #[trigger] joins[i],
        )
}

/// `r` is a possible result of the semantic strategy on `text`: the
/// sentences of the text are embedded through `encoder` in sub-batches of
/// `batch_size`, and neighbours that `encoder` judges to belong together are
/// merged. A failure of the encoder is the failure of the whole.
pub open spec fn splits_semantically<E: SemanticEncoder>(
    encoder: &E,
    text: Seq<char>,
    batch_size: Option<usize>,
    r: Result<Seq<ChunkView>, EmbedError>,
) -> bool {
    if batch_size == Some(0usize) {
        r == Err::<Seq<ChunkView>, EmbedError>(EmbedError::ConfigurationError)
    } else {
        exists|units: Seq<ChunkView>, encoded: Result<Seq<Seq<E::Scalar>>, EmbedError>|
            is_unit_tiling(text, units) && embeds(
                encoder,
                chunk_texts(units),
                effective_batch_size(batch_size),
                encoded,
            ) && match encoded {
                Err(e) => r == Err::<Seq<ChunkView>, EmbedError>(e),
                Ok(vectors) => vectors.len() == units.len() && exists|joins: Seq<bool>|
                    is_judgement(encoder, vectors, joins) && r == Ok::<
                        Seq<ChunkView>,
                        EmbedError,
                    >(merged(units, joins, units.len() as int)),
            }
    }
}

/// The outcome of a chunking call, chunks taken as mathematical values.
pub open spec fn chunks_outcome(out: Result<Vec<TextChunk>, EmbedError>) -> Result<
    Seq<ChunkView>,
    EmbedError,
> {
    match out {
        Ok(chunks) => Ok(chunks_view(chunks@)),
        Err(e) => Err(e),
    }
}

/// Cuts `text` into chunks by similarity.
///
/// The sentences of the text are embedded through `encoder`. A sentence
/// joins the chunk of the sentence before it where `encoder` judges the two
/// to belong together, and starts a new chunk where it does not. An empty
/// text gives no chunk.
pub fn split_semantic<E: SemanticEncoder>(text: &str, encoder: &E, batch_size: Option<usize>) -> (r:
    Result<Vec<TextChunk>, EmbedError>)
    ensures
        splits_semantically(encoder, text@, batch_size, chunks_outcome(r)),
        r matches Ok(chunks) ==> reassembled(chunks_view(chunks@), chunks@.len() as int)
            == text@,
{
    let units = split_units(text);
    let texts = texts_of_chunks(&units);
    let encoded = embed(encoder, texts.as_slice(), batch_size);
    let ghost seen = outcome_view(encoded);
    let ghost views = chunks_view(units@);
    let results = match encoded {
        Ok(results) => results,
        Err(e) => {
            return Err(e);
        },
    };
    let ghost vectors = results_view(results@);
    let mut joins: Vec<bool> = Vec::new();
    let mut i: usize = 1;
    while i < results.len()
        invariant
            1 <= i,
            i == 1 || i <= results@.len(),
            vectors == results_view(results@),
            joins@.len() == i - 1,
            forall|k: int|
                0 <= k < joins@.len() ==> encoder.cohesive_spec(
                    vectors[k],
                    vectors[k + 1],
                    #[trigger] joins@[k],
                ),
        decreases results@.len() - i,
    {
        let together = encoder.cohesive(results[i - 1].as_dense(), results[i].as_dense());
        joins.push(together);
        i += 1;
    }
    proof {
        assert(vectors.len() == views.len()) by {
            assert(texts_view(texts@).len() == texts@.len());
            assert(chunk_texts(views).len() == views.len());
        }
        assert(vectors.len() == results@.len());
        assert(is_judgement(encoder, vectors, joins@));
        law_units_tile(text@, views);
        law_merging_keeps_tiling(text@, views, joins@);
    }
    let chunks = merge_units(units, joins.as_slice());
    Ok(chunks)
}

} // verus!
