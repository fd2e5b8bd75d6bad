use embed_anything::chunker::{split_sentences, TextChunk};
use embed_anything::config::OverlapRatio;
use embed_anything::error::EmbedError;

fn chunk(start: usize, end: usize, text: &str) -> TextChunk {
    TextChunk { start, end, text: text.to_string() }
}

fn rebuild(chunks: &[TextChunk]) -> String {
    let mut out = String::new();
    let mut done = 0usize;
    for c in chunks {
        let skip = done - c.start;
        out.extend(c.text.chars().skip(skip));
        done = c.end;
    }
    out
}

#[test]
fn empty_text_gives_no_chunk() {
    let chunks = split_sentences("", 10, &OverlapRatio::zero()).unwrap();
    assert!(chunks.is_empty());
}

#[test]
fn zero_chunk_size_is_a_configuration_error() {
    assert_eq!(
        split_sentences("abc", 0, &OverlapRatio::zero()),
        Err(EmbedError::ConfigurationError)
    );
    assert_eq!(
        split_sentences("", 0, &OverlapRatio::zero()),
        Err(EmbedError::ConfigurationError)
    );
}

#[test]
fn short_text_is_one_chunk() {
    let chunks = split_sentences("Hello there.", 256, &OverlapRatio::zero()).unwrap();
    assert_eq!(chunks, vec![chunk(0, 12, "Hello there.")]);
}

#[test]
fn chunks_end_at_sentence_boundaries() {
    let text = "One two. Three four. Five.";
    let chunks = split_sentences(text, 12, &OverlapRatio::zero()).unwrap();
    assert_eq!(
        chunks,
        vec![chunk(0, 8, "One two."), chunk(8, 20, " Three four."), chunk(20, 26, " Five.")]
    );
    assert_eq!(rebuild(&chunks), text);
}

#[test]
fn text_without_boundary_is_cut_at_the_chunk_size() {
    let chunks = split_sentences("abcdefghij", 4, &OverlapRatio::zero()).unwrap();
    assert_eq!(chunks, vec![chunk(0, 4, "abcd"), chunk(4, 8, "efgh"), chunk(8, 10, "ij")]);
}

#[test]
fn neighbours_share_the_overlap() {
    let half = OverlapRatio::new(1, 2).unwrap();
    let text = "abcdefghij";
    let chunks = split_sentences(text, 4, &half).unwrap();
    assert_eq!(
        chunks,
        vec![
            chunk(0, 4, "abcd"),
            chunk(2, 6, "cdef"),
            chunk(4, 8, "efgh"),
            chunk(6, 10, "ghij")
        ]
    );
    assert_eq!(rebuild(&chunks), text);
}

#[test]
fn overlap_is_rounded_down() {
    let ratio = OverlapRatio::new(3, 10).unwrap();
    assert_eq!(ratio.overlap_for(256), 76);
    assert_eq!(ratio.overlap_for(0), 0);
    assert_eq!(ratio.overlap_for(1), 0);
    assert_eq!(OverlapRatio::new(999, 1000).unwrap().overlap_for(10), 9);
}

#[test]
fn ratio_of_one_or_more_is_refused() {
    assert_eq!(OverlapRatio::new(1, 1), None);
    assert_eq!(OverlapRatio::new(5, 2), None);
    assert_eq!(OverlapRatio::new(0, 0), None);
    assert_eq!(OverlapRatio::new(0, 1), Some(OverlapRatio::zero()));
}

#[test]
fn cuts_fall_between_characters_not_bytes() {
    let text = "héllo wörld. ünïcode ✓ done.";
    let chunks = split_sentences(text, 5, &OverlapRatio::new(2, 5).unwrap()).unwrap();
    for c in &chunks {
        assert!(c.end > c.start);
        assert!(c.end - c.start <= 5);
        let expected: String = text.chars().skip(c.start).take(c.end - c.start).collect();
        assert_eq!(c.text, expected);
    }
    assert_eq!(rebuild(&chunks), text);
}

#[test]
fn reconstruction_holds_over_many_sizes_and_ratios() {
    let text = "First sentence here. Second one! Third? A much longer fourth sentence without end";
    for size in 1..40usize {
        for top in 0..10u32 {
            let ratio = OverlapRatio::new(top, 10).unwrap();
            let chunks = split_sentences(text, size, &ratio).unwrap();
            assert_eq!(rebuild(&chunks), text);
            let mut done = 0usize;
            for c in &chunks {
                assert!(c.start <= done && done < c.end);
                assert!(done - c.start <= ratio.overlap_for(size));
                done = c.end;
            }
            assert_eq!(done, text.chars().count());
        }
    }
}
