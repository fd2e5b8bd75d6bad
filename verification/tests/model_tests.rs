use embed_anything::error::EmbedError;
use embed_anything::model::{
    default_pooling, is_file_named, resolve_max_length, resolve_onnx_source, weights_path, AddedToken,
    AudioDecoderOptions, Dtype, ModelInfo, OnnxSource, TokenizerConfig, WeightsFormat, WhichModel,
    DEFAULT_MAX_LENGTH,
};
use embed_anything::pooling::Pooling;
use embed_anything::text::{chars_of, parse_i64, same_text};

#[test]
fn model_kinds_are_read_by_name() {
    assert_eq!(WhichModel::from("openai"), Ok(WhichModel::OpenAI));
    assert_eq!(WhichModel::from("OpenAI"), Ok(WhichModel::OpenAI));
    assert_eq!(WhichModel::from("cohere"), Ok(WhichModel::Cohere));
    assert_eq!(WhichModel::from("Cohere"), Ok(WhichModel::Cohere));
    assert_eq!(WhichModel::from("bert"), Ok(WhichModel::Bert));
    assert_eq!(WhichModel::from("Bert"), Ok(WhichModel::Bert));
    assert_eq!(WhichModel::from("clip"), Ok(WhichModel::Clip));
    assert_eq!(WhichModel::from("Clip"), Ok(WhichModel::Clip));
    assert_eq!(WhichModel::from("jina"), Ok(WhichModel::Jina));
    assert_eq!(WhichModel::from("Jina"), Ok(WhichModel::Jina));
}

#[test]
fn unknown_model_name_is_a_construction_error() {
    assert_eq!(WhichModel::from("BERT"), Err(EmbedError::ModelConstructionError));
    assert_eq!(WhichModel::from(""), Err(EmbedError::ModelConstructionError));
    assert_eq!(WhichModel::from("gpt"), Err(EmbedError::ModelConstructionError));
}

#[test]
fn each_kind_has_its_default_model() {
    assert_eq!(WhichModel::Bert.default_id(), "sentence-transformers/all-MiniLM-L12-v2");
    assert_eq!(WhichModel::Clip.default_id(), "openai/clip-vit-base-patch32");
    assert_eq!(WhichModel::Jina.default_id(), "jinaai/jina-embeddings-v2-small-en");
    assert_eq!(WhichModel::OpenAI.default_id(), "text-embedding-3-small");
    assert_eq!(WhichModel::Cohere.default_id(), "embed-english-v3.0");
}

#[test]
fn hub_models_are_for_local_kinds() {
    assert_eq!(
        WhichModel::Bert.hub_model_id(None),
        Ok("sentence-transformers/all-MiniLM-L12-v2".to_string())
    );
    assert_eq!(WhichModel::Jina.hub_model_id(Some("my/model")), Ok("my/model".to_string()));
    assert_eq!(
        WhichModel::Clip.hub_model_id(None),
        Ok("openai/clip-vit-base-patch32".to_string())
    );
    assert_eq!(WhichModel::OpenAI.hub_model_id(None), Err(EmbedError::InvalidModelSelection));
    assert_eq!(WhichModel::Cohere.hub_model_id(Some("x")), Err(EmbedError::InvalidModelSelection));
}

#[test]
fn cloud_models_are_for_remote_kinds() {
    assert_eq!(WhichModel::OpenAI.cloud_model_id(None), Ok("text-embedding-3-small".to_string()));
    assert_eq!(WhichModel::Cohere.cloud_model_id(Some("embed-v4")), Ok("embed-v4".to_string()));
    assert_eq!(WhichModel::Bert.cloud_model_id(None), Err(EmbedError::InvalidModelSelection));
    assert_eq!(WhichModel::Clip.cloud_model_id(None), Err(EmbedError::InvalidModelSelection));
    assert_eq!(WhichModel::Jina.cloud_model_id(None), Err(EmbedError::InvalidModelSelection));
}

#[test]
fn weights_file_follows_the_precision() {
    assert_eq!(weights_path("onnx/model.onnx", None), "onnx/model.onnx");
    assert_eq!(weights_path("onnx/model.onnx", Some(Dtype::Q4F16)), "onnx/model_q4f16.onnx");
    assert_eq!(weights_path("onnx/model.onnx", Some(Dtype::F16)), "onnx/model_fp16.onnx");
    assert_eq!(weights_path("onnx/model.onnx", Some(Dtype::INT8)), "onnx/model_int8.onnx");
    assert_eq!(weights_path("onnx/model.onnx", Some(Dtype::Q4)), "onnx/model_q4.onnx");
    assert_eq!(weights_path("onnx/model.onnx", Some(Dtype::UINT8)), "onnx/model_uint8.onnx");
    assert_eq!(weights_path("onnx/model.onnx", Some(Dtype::BNB4)), "onnx/model_bnb4.onnx");
    assert_eq!(weights_path("onnx/model.onnx", Some(Dtype::F32)), "onnx/model.onnx");
    assert_eq!(
        weights_path("onnx/model.onnx", Some(Dtype::QUANTIZED)),
        "onnx/model_quantized.onnx"
    );
}

#[test]
fn weights_file_goes_beside_the_last_component() {
    assert_eq!(weights_path("a/b/c.onnx", Some(Dtype::INT8)), "a/b/model_int8.onnx");
    assert_eq!(weights_path("model.onnx", Some(Dtype::F16)), "/model_fp16.onnx");
    assert_eq!(weights_path("", Some(Dtype::F16)), "/model_fp16.onnx");
    assert_eq!(weights_path("dir/", Some(Dtype::Q4)), "dir/model_q4.onnx");
    assert_eq!(weights_path("/x", Some(Dtype::Q4)), "/model_q4.onnx");
    assert_eq!(weights_path("dé/ü.onnx", Some(Dtype::Q4)), "dé/model_q4.onnx");
}

#[test]
fn token_limit_is_the_smaller_or_the_default() {
    assert_eq!(DEFAULT_MAX_LENGTH, 128);
    assert_eq!(resolve_max_length(Some(512), Some(256)), 256);
    assert_eq!(resolve_max_length(Some(100), Some(256)), 100);
    assert_eq!(resolve_max_length(Some(77), None), 77);
    assert_eq!(resolve_max_length(None, Some(8192)), 8192);
    assert_eq!(resolve_max_length(None, None), 128);
}

#[test]
fn weights_format_prefers_safetensors() {
    assert_eq!(WeightsFormat::preferred(true, true), Ok(WeightsFormat::Safetensors));
    assert_eq!(WeightsFormat::preferred(true, false), Ok(WeightsFormat::Safetensors));
    assert_eq!(WeightsFormat::preferred(false, true), Ok(WeightsFormat::Pytorch));
    assert_eq!(WeightsFormat::preferred(false, false), Err(EmbedError::ModelConstructionError));
    assert_eq!(WeightsFormat::Safetensors.file_name(), "model.safetensors");
    assert_eq!(WeightsFormat::Pytorch.file_name(), "pytorch_model.bin");
}

#[test]
fn weights_format_is_read_off_the_file_name() {
    assert_eq!(WeightsFormat::of_path("/cache/x/model.safetensors"), WeightsFormat::Safetensors);
    assert_eq!(WeightsFormat::of_path("model.safetensors"), WeightsFormat::Safetensors);
    assert_eq!(WeightsFormat::of_path("/cache/x/my_model.safetensors"), WeightsFormat::Pytorch);
    assert_eq!(WeightsFormat::of_path("/cache/x/pytorch_model.bin"), WeightsFormat::Pytorch);
    assert_eq!(WeightsFormat::of_path("model.safetensors/"), WeightsFormat::Pytorch);
    assert!(is_file_named("a/b", "b"));
    assert!(!is_file_named("a/b", "a/b"));
    assert!(is_file_named("", ""));
}

fn known() -> ModelInfo {
    ModelInfo {
        model_code: "org/known-model".to_string(),
        model_file: "onnx/model.onnx".to_string(),
        default_pooling: Some(Pooling::Cls),
    }
}

#[test]
fn onnx_request_needs_a_name_or_an_identifier() {
    assert_eq!(
        resolve_onnx_source(None, None, None, None),
        Err(EmbedError::ModelConstructionError)
    );
    assert_eq!(
        resolve_onnx_source(None, None, Some(Dtype::F16), Some("onnx/model.onnx")),
        Err(EmbedError::ModelConstructionError)
    );
}

#[test]
fn onnx_request_by_identifier_takes_the_defaults() {
    assert_eq!(
        resolve_onnx_source(None, Some("org/m"), None, None),
        Ok(OnnxSource {
            model_id: "org/m".to_string(),
            weights_path: "model.onnx".to_string(),
            pooling: Pooling::Mean
        })
    );
    assert_eq!(
        resolve_onnx_source(None, Some("org/m"), Some(Dtype::INT8), None),
        Ok(OnnxSource {
            model_id: "org/m".to_string(),
            weights_path: "/model_int8.onnx".to_string(),
            pooling: Pooling::Mean
        })
    );
}

#[test]
fn onnx_request_by_name_takes_the_registry_entry() {
    let info = known();
    assert_eq!(
        resolve_onnx_source(Some(&info), None, Some(Dtype::Q4), None),
        Ok(OnnxSource {
            model_id: "org/known-model".to_string(),
            weights_path: "onnx/model_q4.onnx".to_string(),
            pooling: Pooling::Cls
        })
    );
    assert_eq!(
        resolve_onnx_source(Some(&info), Some("other/id"), None, Some("custom/file.onnx")),
        Ok(OnnxSource {
            model_id: "other/id".to_string(),
            weights_path: "custom/file.onnx".to_string(),
            pooling: Pooling::Cls
        })
    );
    let plain = ModelInfo { default_pooling: None, ..known() };
    assert_eq!(resolve_onnx_source(Some(&plain), None, None, None).unwrap().pooling, Pooling::Mean);
}

fn token(id: &str, content: &str) -> AddedToken {
    AddedToken { id: id.to_string(), content: content.to_string() }
}

fn tokenizer(tokens: Option<Vec<AddedToken>>) -> TokenizerConfig {
    TokenizerConfig {
        max_length: Some(512),
        model_max_length: Some(256),
        mask_token: Some("[MASK]".to_string()),
        added_tokens_decoder: tokens,
    }
}

#[test]
fn token_id_is_the_identifier_of_the_first_match() {
    let config = tokenizer(Some(vec![
        token("0", "[PAD]"),
        token("103", "[MASK]"),
        token("104", "[MASK]"),
    ]));
    assert_eq!(config.get_token_id_from_token("[MASK]"), Some(103));
    assert_eq!(config.get_token_id_from_token("[PAD]"), Some(0));
    assert_eq!(config.get_token_id_from_token("[CLS]"), None);
    assert_eq!(config.truncation_length(), 256);
}

#[test]
fn token_id_needs_added_tokens_and_a_number() {
    assert_eq!(tokenizer(None).get_token_id_from_token("[MASK]"), None);
    assert_eq!(tokenizer(Some(vec![])).get_token_id_from_token("[MASK]"), None);
    let odd = tokenizer(Some(vec![token("x1", "[MASK]"), token("5", "[MASK]")]));
    assert_eq!(odd.get_token_id_from_token("[MASK]"), None);
}

#[test]
fn decimal_integers_are_read_as_the_standard_library_reads_them() {
    for text in [
        "0", "7", "-7", "+7", "007", "-0", "+0", "9223372036854775807", "-9223372036854775808",
        "9223372036854775808", "-9223372036854775809", "99999999999999999999999", "", "-", "+",
        "+-5", "1 ", " 1", "12a", "a12", "1_000", "1.5", "٣", "--1", "00000000000000000000000001",
        "-00000000000000000000000001", "18446744073709551616",
    ] {
        assert_eq!(parse_i64(text), text.parse::<i64>().ok());
    }
    assert_eq!(parse_i64("103"), Some(103));
    assert_eq!(parse_i64("-9223372036854775808"), Some(i64::MIN));
    assert_eq!(parse_i64("9223372036854775808"), None);
}

#[test]
fn text_helpers_compare_and_list_characters() {
    assert!(same_text("abc", "abc"));
    assert!(!same_text("abc", "abd"));
    assert!(!same_text("abc", "ab"));
    assert!(same_text("", ""));
    assert_eq!(chars_of("hé✓"), vec!['h', 'é', '✓']);
    assert_eq!(chars_of(""), Vec::<char>::new());
}

#[test]
fn audio_decoder_options_have_defaults() {
    assert_eq!(
        AudioDecoderOptions::resolve(None, None, None, None),
        AudioDecoderOptions {
            model_id: "openai/whisper-tiny.en".to_string(),
            revision: "main".to_string(),
            model_type: "tiny-en".to_string(),
            quantized: false
        }
    );
    assert_eq!(
        AudioDecoderOptions::resolve(Some("m"), Some("r"), Some("t"), Some(true)),
        AudioDecoderOptions {
            model_id: "m".to_string(),
            revision: "r".to_string(),
            model_type: "t".to_string(),
            quantized: true
        }
    );
}

#[test]
fn pooling_defaults_to_the_mean() {
    assert_eq!(default_pooling(None), Pooling::Mean);
    assert_eq!(default_pooling(Some(&known())), Pooling::Cls);
    let plain = ModelInfo { default_pooling: None, ..known() };
    assert_eq!(default_pooling(Some(&plain)), Pooling::Mean);
}
