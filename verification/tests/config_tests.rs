use embed_anything::config::{
    ImageEmbedConfig, OverlapRatio, SplittingStrategy, TextEmbedConfig, DEFAULT_BUFFER_SIZE,
    DEFAULT_CHUNK_SIZE,
};
use embed_anything::error::EmbedError;

fn error_of<E>(r: Result<TextEmbedConfig<E>, EmbedError>) -> Option<EmbedError> {
    match r {
        Ok(_) => None,
        Err(e) => Some(e),
    }
}

#[test]
fn semantic_strategy_without_encoder_is_a_configuration_error() {
    let r = TextEmbedConfig::<u8>::new(None, None, None, None, Some("semantic"), None, None, None);
    assert_eq!(error_of(r), Some(EmbedError::ConfigurationError));
}

#[test]
fn semantic_strategy_with_encoder_is_accepted() {
    let c = TextEmbedConfig::new(None, None, None, None, Some("semantic"), Some(7u8), None, None)
        .ok()
        .unwrap();
    assert_eq!(c.splitting_strategy, Some(SplittingStrategy::Semantic));
    assert_eq!(c.semantic_encoder, Some(7));
}

#[test]
fn every_option_has_its_default() {
    let c = TextEmbedConfig::<u8>::new(None, None, None, None, None, None, None, None)
        .ok()
        .unwrap();
    assert_eq!(DEFAULT_CHUNK_SIZE, 256);
    assert_eq!(DEFAULT_BUFFER_SIZE, 100);
    assert_eq!(c.chunk_size(), Some(256));
    assert_eq!(c.batch_size(), Some(32));
    assert_eq!(c.buffer_size, Some(100));
    assert_eq!(c.overlap_ratio, None);
    assert_eq!(c.splitting_strategy, Some(SplittingStrategy::Sentence));
    assert_eq!(c.semantic_encoder, None);
    assert_eq!(c.use_ocr, Some(false));
    assert_eq!(c.tesseract_path, None);
}

#[test]
fn default_configuration_holds_the_defaults() {
    let c = TextEmbedConfig::<u8>::default();
    assert_eq!(c.chunk_size, Some(256));
    assert_eq!(c.batch_size, Some(32));
    assert_eq!(c.buffer_size, Some(100));
    assert_eq!(c.splitting_strategy, Some(SplittingStrategy::Sentence));
    assert_eq!(c.use_ocr, Some(false));
}

#[test]
fn given_options_are_kept() {
    let ratio = OverlapRatio::new(3, 10).unwrap();
    let c = TextEmbedConfig::<u8>::new(
        Some(512),
        Some(8),
        Some(20),
        Some(ratio),
        Some("sentence"),
        None,
        Some(true),
        Some("/usr/bin/tesseract"),
    )
    .ok()
    .unwrap();
    assert_eq!(c.chunk_size, Some(512));
    assert_eq!(c.batch_size, Some(8));
    assert_eq!(c.buffer_size, Some(20));
    assert_eq!(c.overlap_ratio, Some(ratio));
    assert_eq!(c.use_ocr, Some(true));
    assert_eq!(c.tesseract_path, Some("/usr/bin/tesseract".to_string()));
}

#[test]
fn unknown_strategy_name_means_sentence() {
    let c = TextEmbedConfig::<u8>::new(None, None, None, None, Some("paragraph"), None, None, None)
        .ok()
        .unwrap();
    assert_eq!(c.splitting_strategy, Some(SplittingStrategy::Sentence));
    assert_eq!(SplittingStrategy::from_name("sentence"), Some(SplittingStrategy::Sentence));
    assert_eq!(SplittingStrategy::from_name("semantic"), Some(SplittingStrategy::Semantic));
    assert_eq!(SplittingStrategy::from_name("Semantic"), None);
    assert_eq!(SplittingStrategy::from_name(""), None);
}

#[test]
fn zero_sizes_are_configuration_errors() {
    let chunk = TextEmbedConfig::<u8>::new(Some(0), None, None, None, None, None, None, None);
    assert_eq!(error_of(chunk), Some(EmbedError::ConfigurationError));
    let batch = TextEmbedConfig::<u8>::new(None, Some(0), None, None, None, None, None, None);
    assert_eq!(error_of(batch), Some(EmbedError::ConfigurationError));
}

#[test]
fn image_configuration_defaults_its_buffer() {
    assert_eq!(ImageEmbedConfig::new(None).buffer_size(), Some(100));
    assert_eq!(ImageEmbedConfig::new(Some(5)).buffer_size(), Some(5));
    assert_eq!(ImageEmbedConfig::default().buffer_size, Some(100));
}

#[test]
fn overlap_ratio_keeps_its_parts() {
    assert_eq!(OverlapRatio::new(3, 10).unwrap().parts(), (3, 10));
    assert_eq!(OverlapRatio::zero().parts(), (0, 1));
    assert_eq!(OverlapRatio::new(1, 2).unwrap().overlap_for(usize::MAX), usize::MAX / 2);
    assert_eq!(
        OverlapRatio::new(u32::MAX - 1, u32::MAX).unwrap().overlap_for(usize::MAX),
        ((usize::MAX as u128 * (u32::MAX as u128 - 1)) / u32::MAX as u128) as usize
    );
}
