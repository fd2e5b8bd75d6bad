use embed_anything::backend::{BertEmbed, EmbedImage, NoEncoder, SemanticEncoder};
use embed_anything::chunker::{merge_units, split_semantic, split_units, TextChunk};
use embed_anything::config::TextEmbedConfig;
use embed_anything::error::EmbedError;
use embed_anything::pipeline::{chunk_text, embed_file, Embeder, FileContent};
use embed_anything::scheduler::EmbedData;
use std::cell::RefCell;

/// Embeds a sentence as the code of its first letter, and judges two
/// sentences to belong together when they start with the same letter.
struct ByFirstLetter {
    batches: RefCell<Vec<usize>>,
    fails: bool,
}

impl ByFirstLetter {
    fn new() -> Self {
        ByFirstLetter { batches: RefCell::new(Vec::new()), fails: false }
    }
}

impl BertEmbed for ByFirstLetter {
    type Scalar = f32;

    fn forward(&self, texts: &[String]) -> Result<Vec<Vec<f32>>, EmbedError> {
        if self.fails {
            return Err(EmbedError::BackendCallError);
        }
        self.batches.borrow_mut().push(texts.len());
        Ok(texts
            .iter()
            .map(|t| vec![t.trim_start().chars().next().map(|c| c as u32).unwrap_or(0) as f32])
            .collect())
    }
}

impl SemanticEncoder for ByFirstLetter {
    fn cohesive(&self, left: &Vec<f32>, right: &Vec<f32>) -> bool {
        left == right
    }
}

struct Lengths;

impl BertEmbed for Lengths {
    type Scalar = f32;

    fn forward(&self, texts: &[String]) -> Result<Vec<Vec<f32>>, EmbedError> {
        Ok(texts.iter().map(|t| vec![t.chars().count() as f32]).collect())
    }
}

struct NoImages;

impl EmbedImage for NoImages {
    type Scalar = f32;

    fn embed_image(&self, _path: &str) -> Result<Vec<f32>, EmbedError> {
        Err(EmbedError::InvalidModelSelection)
    }
}

fn chunk(start: usize, end: usize, text: &str) -> TextChunk {
    TextChunk { start, end, text: text.to_string() }
}

const TEXT: &str = "Apples are red. Avocados are green. Bananas bend! Berries? Cherries.";

#[test]
fn units_are_the_sentences() {
    assert_eq!(
        split_units(TEXT),
        vec![
            chunk(0, 15, "Apples are red."),
            chunk(15, 35, " Avocados are green."),
            chunk(35, 49, " Bananas bend!"),
            chunk(49, 58, " Berries?"),
            chunk(58, 68, " Cherries.")
        ]
    );
    assert!(split_units("").is_empty());
    assert_eq!(split_units("no end"), vec![chunk(0, 6, "no end")]);
    assert_eq!(split_units("a.b. c"), vec![chunk(0, 4, "a.b."), chunk(4, 6, " c")]);
    assert_eq!(split_units(". "), vec![chunk(0, 1, "."), chunk(1, 2, " ")]);
}

#[test]
fn merging_joins_neighbours_that_belong_together() {
    let merged = merge_units(split_units(TEXT), &[true, false, true, false]);
    assert_eq!(
        merged,
        vec![
            chunk(0, 35, "Apples are red. Avocados are green."),
            chunk(35, 58, " Bananas bend! Berries?"),
            chunk(58, 68, " Cherries.")
        ]
    );
}

#[test]
fn merging_treats_missing_judgements_as_no() {
    assert_eq!(merge_units(split_units(TEXT), &[]), split_units(TEXT));
    let merged = merge_units(split_units(TEXT), &[true, true, true, true, true, true]);
    assert_eq!(merged, vec![chunk(0, 68, TEXT)]);
    let merged = merge_units(split_units(TEXT), &[true]);
    assert_eq!(merged.len(), 4);
    assert!(merge_units(vec![], &[true]).is_empty());
}

#[test]
fn semantic_strategy_starts_a_chunk_where_the_similarity_drops() {
    let encoder = ByFirstLetter::new();
    let chunks = split_semantic(TEXT, &encoder, Some(2)).unwrap();
    assert_eq!(
        chunks,
        vec![
            chunk(0, 35, "Apples are red. Avocados are green."),
            chunk(35, 58, " Bananas bend! Berries?"),
            chunk(58, 68, " Cherries.")
        ]
    );
    assert_eq!(*encoder.batches.borrow(), vec![2, 2, 1]);
    let joined: String = chunks.iter().map(|c| c.text.clone()).collect();
    assert_eq!(joined, TEXT);
}

#[test]
fn semantic_strategy_on_an_empty_text_gives_no_chunk() {
    let encoder = ByFirstLetter::new();
    assert_eq!(split_semantic("", &encoder, None), Ok(vec![]));
    assert!(encoder.batches.borrow().is_empty());
}

#[test]
fn semantic_strategy_fails_with_its_encoder() {
    let encoder = ByFirstLetter { batches: RefCell::new(Vec::new()), fails: true };
    assert_eq!(split_semantic(TEXT, &encoder, None), Err(EmbedError::BackendCallError));
    assert_eq!(
        split_semantic(TEXT, &ByFirstLetter::new(), Some(0)),
        Err(EmbedError::ConfigurationError)
    );
    assert_eq!(split_semantic(TEXT, &NoEncoder, None), Err(EmbedError::InvalidModelSelection));
}

#[test]
fn chunking_follows_the_strategy_of_the_configuration() {
    let semantic = TextEmbedConfig::new(
        Some(10),
        None,
        None,
        None,
        Some("semantic"),
        Some(ByFirstLetter::new()),
        None,
        None,
    )
    .ok()
    .unwrap();
    let chunks = chunk_text(TEXT, Some(&semantic)).unwrap();
    assert_eq!(chunks.len(), 3);
    assert_eq!(chunks[0].text, "Apples are red. Avocados are green.");
    let sentence = TextEmbedConfig::<ByFirstLetter>::new(
        Some(20),
        None,
        None,
        None,
        Some("sentence"),
        None,
        None,
        None,
    )
    .ok()
    .unwrap();
    let chunks = chunk_text(TEXT, Some(&sentence)).unwrap();
    assert_eq!(chunks[0], chunk(0, 15, "Apples are red."));
    assert_eq!(chunks[1], chunk(15, 35, " Avocados are green."));
    assert_eq!(chunk_text(TEXT, None::<&TextEmbedConfig<NoEncoder>>).unwrap(), vec![chunk(0, 68, TEXT)]);
}

#[test]
fn semantic_strategy_without_its_encoder_is_a_configuration_error() {
    let mut config = TextEmbedConfig::<ByFirstLetter>::default();
    config.splitting_strategy = Some(embed_anything::config::SplittingStrategy::Semantic);
    assert_eq!(chunk_text(TEXT, Some(&config)), Err(EmbedError::ConfigurationError));
    let mut zero = TextEmbedConfig::<NoEncoder>::default();
    zero.chunk_size = Some(0);
    assert_eq!(chunk_text(TEXT, Some(&zero)), Err(EmbedError::ConfigurationError));
}

#[test]
fn embed_file_chunks_by_similarity_under_the_semantic_strategy() {
    let config = TextEmbedConfig::new(
        None,
        None,
        None,
        None,
        Some("semantic"),
        Some(ByFirstLetter::new()),
        None,
        None,
    )
    .ok()
    .unwrap();
    let backend: Embeder<Lengths, NoImages> = Embeder::Jina(Lengths);
    let records = embed_file(
        "fruit.txt",
        FileContent::Text(TEXT.to_string()),
        None,
        &backend,
        Some(&config),
        None::<fn(Vec<EmbedData<f32>>)>,
    )
    .unwrap()
    .unwrap();
    let texts: Vec<String> = records.iter().map(|d| d.text.clone().unwrap()).collect();
    assert_eq!(
        texts,
        vec!["Apples are red. Avocados are green.", " Bananas bend! Berries?", " Cherries."]
    );
    let sizes: Vec<Vec<f32>> = records.iter().map(|d| d.embedding.clone()).collect();
    assert_eq!(sizes, vec![vec![35.0], vec![23.0], vec![10.0]]);
}
