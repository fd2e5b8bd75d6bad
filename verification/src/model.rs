//! Choosing a model: the kinds of backend, their default identifiers and the
//! files that a model is loaded from.
//!
//! Nothing here touches a hub or a disk. These are the decisions that come
//! before: which identifier, which weights file, which token limit.

use crate::error::EmbedError;
use crate::pooling::Pooling;
use crate::text::{chars_of, parse_i64, parsed_i64, same_text};
use vstd::prelude::*;

verus! {

/// The kinds of backend.
#[derive(Clone, Copy, Debug, PartialEq, Eq)]
pub enum WhichModel {
    OpenAI,
    Cohere,
    Bert,
    Clip,
    Jina,
}

impl WhichModel {
    /// The kind that a name stands for.
    pub open spec fn named(name: Seq<char>) -> Option<WhichModel> {
        if name == "openai"@ || name == "OpenAI"@ {
            Some(WhichModel::OpenAI)
        } else if name == "cohere"@ || name == "Cohere"@ {
            Some(WhichModel::Cohere)
        } else if name == "bert"@ || name == "Bert"@ {
            Some(WhichModel::Bert)
        } else if name == "clip"@ || name == "Clip"@ {
            Some(WhichModel::Clip)
        } else if name == "jina"@ || name == "Jina"@ {
            Some(WhichModel::Jina)
        } else {
            None
        }
    }

    /// Reads a kind by its name, in lower case or capitalised. A name that
    /// stands for no kind is a model construction error.
    pub fn from(name: &str) -> (r: Result<WhichModel, EmbedError>)
        ensures
            match Self::named(name@) {
                Some(kind) => r == Ok::<WhichModel, EmbedError>(kind),
                None => r matches Err(EmbedError::ModelConstructionError),
            },
    {
        if same_text(name, "openai") || same_text(name, "OpenAI") {
            Ok(WhichModel::OpenAI)
        } else if same_text(name, "cohere") || same_text(name, "Cohere") {
            Ok(WhichModel::Cohere)
        } else if same_text(name, "bert") || same_text(name, "Bert") {
            Ok(WhichModel::Bert)
        } else if same_text(name, "clip") || same_text(name, "Clip") {
            Ok(WhichModel::Clip)
        } else if same_text(name, "jina") || same_text(name, "Jina") {
            Ok(WhichModel::Jina)
        } else {
            Err(EmbedError::ModelConstructionError)
        }
    }

    /// Whether models of this kind are served by a remote API.
    pub open spec fn is_cloud(self) -> bool {
        self == WhichModel::OpenAI || self == WhichModel::Cohere
    }

    /// Whether models of this kind embed text.
    pub open spec fn embeds_text(self) -> bool {
        self != WhichModel::Clip
    }

    /// The identifier of the model used where the caller names none.
    pub open spec fn default_model_id(self) -> Seq<char> {
        match self {
            WhichModel::OpenAI => "text-embedding-3-small"@,
            WhichModel::Cohere => "embed-english-v3.0"@,
            WhichModel::Bert => "sentence-transformers/all-MiniLM-L12-v2"@,
            WhichModel::Clip => "openai/clip-vit-base-patch32"@,
            WhichModel::Jina => "jinaai/jina-embeddings-v2-small-en"@,
        }
    }

    /// The identifier of the model used where the caller names none.
    pub fn default_id(&self) -> (id: &'static str)
        ensures
            id@ == self.default_model_id(),
    {
        match self {
            WhichModel::OpenAI => "text-embedding-3-small",
            WhichModel::Cohere => "embed-english-v3.0",
            WhichModel::Bert => "sentence-transformers/all-MiniLM-L12-v2",
            WhichModel::Clip => "openai/clip-vit-base-patch32",
            WhichModel::Jina => "jinaai/jina-embeddings-v2-small-en",
        }
    }

    /// The identifier that a request for a model of this kind resolves to.
    pub open spec fn resolved_id(self, model_id: Option<&str>) -> Seq<char> {
        match model_id {
            Some(id) => id@,
            None => self.default_model_id(),
        }
    }

    /// The identifier of the hub model to load for this kind. Kinds served by
    /// a remote API have no hub model: asking for one is an invalid model
    /// selection.
    pub fn hub_model_id(&self, model_id: Option<&str>) -> (r: Result<String, EmbedError>)
        ensures
            self.is_cloud() ==> r matches Err(EmbedError::InvalidModelSelection),
            !self.is_cloud() ==> (r matches Ok(id) && id@ == self.resolved_id(model_id)),
    {
        match self {
            WhichModel::OpenAI | WhichModel::Cohere => Err(EmbedError::InvalidModelSelection),
            _ => match model_id {
                Some(id) => Ok(String::from_str(id)),
                None => Ok(String::from_str(self.default_id())),
            },
        }
    }

    /// The identifier of the remote model to call for this kind. Kinds loaded
    /// from the hub have no remote model: asking for one is an invalid model
    /// selection.
    pub fn cloud_model_id(&self, model_id: Option<&str>) -> (r: Result<String, EmbedError>)
        ensures
            !self.is_cloud() ==> r matches Err(EmbedError::InvalidModelSelection),
            self.is_cloud() ==> (r matches Ok(id) && id@ == self.resolved_id(model_id)),
    {
        match self {
            WhichModel::OpenAI | WhichModel::Cohere => match model_id {
                Some(id) => Ok(String::from_str(id)),
                None => Ok(String::from_str(self.default_id())),
            },
            _ => Err(EmbedError::InvalidModelSelection),
        }
    }
}

/// The numeric precision of a set of weights.
#[derive(Clone, Copy, Debug, PartialEq, Eq)]
pub enum Dtype {
    F16,
    INT8,
    Q4,
    UINT8,
    BNB4,
    F32,
    Q4F16,
    QUANTIZED,
}

impl Dtype {
    /// The name of the weights file of this precision.
    pub open spec fn file_name_spec(self) -> Seq<char> {
        match self {
            Dtype::Q4F16 => "model_q4f16.onnx"@,
            Dtype::F16 => "model_fp16.onnx"@,
            Dtype::INT8 => "model_int8.onnx"@,
            Dtype::Q4 => "model_q4.onnx"@,
            Dtype::UINT8 => "model_uint8.onnx"@,
            Dtype::BNB4 => "model_bnb4.onnx"@,
            Dtype::F32 => "model.onnx"@,
            Dtype::QUANTIZED => "model_quantized.onnx"@,
        }
    }

    /// The name of the weights file of this precision.
    pub fn file_name(&self) -> (name: &'static str)
        ensures
            name@ == self.file_name_spec(),
    {
        match self {
            Dtype::Q4F16 => "model_q4f16.onnx",
            Dtype::F16 => "model_fp16.onnx",
            Dtype::INT8 => "model_int8.onnx",
            Dtype::Q4 => "model_q4.onnx",
            Dtype::UINT8 => "model_uint8.onnx",
            Dtype::BNB4 => "model_bnb4.onnx",
            Dtype::F32 => "model.onnx",
            Dtype::QUANTIZED => "model_quantized.onnx",
        }
    }
}

/// The part of a path before its last `/`; empty where it has none.
pub open spec fn directory_of(path: Seq<char>) -> Seq<char>
    decreases path.len(),
{
    if path.len() == 0 {
        Seq::empty()
    } else if path.last() == '/' {
        path.drop_last()
    } else {
        directory_of(path.drop_last())
    }
}

/// The part of a path behind its last `/`; the whole path where it has none.
pub open spec fn file_of(path: Seq<char>) -> Seq<char>
    decreases path.len(),
{
    if path.len() == 0 {
        Seq::empty()
    } else if path.last() == '/' {
        Seq::empty()
    } else {
        file_of(path.drop_last()).push(path.last())
    }
}

/// The position of the last `/` of a path.
pub(crate) fn last_slash(chars: &Vec<char>) -> (r: Option<usize>)
    ensures
        match r {
            Some(i) => i < chars@.len() && directory_of(chars@) == chars@.take(i as int)
                && file_of(chars@) == chars@.skip(i + 1),
            None => directory_of(chars@) == Seq::<char>::empty() && file_of(chars@) == chars@,
        },
{
    let mut i: usize = chars.len();
    assert(chars@.take(i as int) =~= chars@);
    assert(chars@.skip(i as int) =~= Seq::<char>::empty());
    while i > 0
        invariant
            i <= chars@.len(),
            directory_of(chars@) == directory_of(chars@.take(i as int)),
            file_of(chars@) == file_of(chars@.take(i as int)) + chars@.skip(i as int),
        decreases i,
    {
        let ghost prefix = chars@.take(i as int);
        assert(prefix.last() == chars@[i - 1]);
        assert(prefix.drop_last() =~= chars@.take(i - 1));
        if chars[i - 1] == '/' {
            assert(file_of(prefix) =~= Seq::<char>::empty());
            assert(file_of(chars@) =~= chars@.skip(i as int));
            return Some(i - 1);
        }
        assert(file_of(prefix) + chars@.skip(i as int) =~= file_of(chars@.take(i - 1))
            + chars@.skip(i - 1)) by {
            assert(file_of(prefix) == file_of(chars@.take(i - 1)).push(chars@[i - 1]));
            assert(chars@.skip(i - 1) =~= seq![chars@[i - 1]] + chars@.skip(i as int));
        }
        i -= 1;
    }
    assert(chars@.take(0) =~= Seq::<char>::empty());
    assert(chars@.skip(0) =~= chars@);
    None
}

/// The path of the weights file for a precision: the file of that precision
/// in the directory of `path`, or `path` itself where no precision is asked
/// for.
pub open spec fn weights_path_of(path: Seq<char>, dtype: Option<Dtype>) -> Seq<char> {
    match dtype {
        Some(d) => directory_of(path) + "/"@ + d.file_name_spec(),
        None => path,
    }
}

/// The path of the weights file to fetch for `dtype`, given the path of the
/// model file in its repository.
pub fn weights_path(path: &str, dtype: Option<Dtype>) -> (r: String)
    ensures
        r@ == weights_path_of(path@, dtype),
{
    match dtype {
        None => String::from_str(path),
        Some(d) => {
            let chars = chars_of(path);
            let directory = match last_slash(&chars) {
                Some(i) => String::from_str(path.substring_char(0, i)),
                None => String::new(),
            };
            assert(directory@ =~= directory_of(path@));
            directory.concat("/").concat(d.file_name())
        },
    }
}

/// Whether the file of a path is `name`: the path ends in the component
/// `name`.
pub fn is_file_named(path: &str, name: &str) -> (r: bool)
    ensures
        r == (file_of(path@) == name@),
{
    let chars = chars_of(path);
    let n = chars.len();
    match last_slash(&chars) {
        Some(i) => {
            let file = path.substring_char(i + 1, n);
            assert(file@ =~= file_of(path@));
            same_text(file, name)
        },
        None => same_text(path, name),
    }
}

/// The token limit used where a tokenizer configuration names none.
pub const DEFAULT_MAX_LENGTH: usize = 128;

/// The token limit that two optional limits resolve to: the smaller where
/// both are set, the one that is set, or the default.
pub open spec fn max_length_of(max_length: Option<usize>, model_max_length: Option<usize>) -> usize {
    match (max_length, model_max_length) {
        (Some(a), Some(b)) => if a <= b {
            a
        } else {
            b
        },
        (Some(a), None) => a,
        (None, Some(b)) => b,
        (None, None) => DEFAULT_MAX_LENGTH,
    }
}

/// The number of tokens after which input is truncated.
pub fn resolve_max_length(max_length: Option<usize>, model_max_length: Option<usize>) -> (r:
    usize)
    ensures
        r == max_length_of(max_length, model_max_length),
{
    match (max_length, model_max_length) {
        (Some(a), Some(b)) => if a <= b {
            a
        } else {
            b
        },
        (Some(a), None) => a,
        (None, Some(b)) => b,
        (None, None) => DEFAULT_MAX_LENGTH,
    }
}

/// The format of a weights file.
#[derive(Clone, Copy, Debug, PartialEq, Eq)]
pub enum WeightsFormat {
    Safetensors,
    Pytorch,
}

impl WeightsFormat {
    /// The name of the weights file in this format.
    pub open spec fn file_name_spec(self) -> Seq<char> {
        match self {
            WeightsFormat::Safetensors => "model.safetensors"@,
            WeightsFormat::Pytorch => "pytorch_model.bin"@,
        }
    }

    /// The name of the weights file in this format.
    pub fn file_name(&self) -> (name: &'static str)
        ensures
            name@ == self.file_name_spec(),
    {
        match self {
            WeightsFormat::Safetensors => "model.safetensors",
            WeightsFormat::Pytorch => "pytorch_model.bin",
        }
    }

    /// The format to load, given which weights files a repository holds:
    /// safetensors before pytorch. A repository with neither is a model
    /// construction error.
    pub fn preferred(has_safetensors: bool, has_pytorch: bool) -> (r: Result<
        WeightsFormat,
        EmbedError,
    >)
        ensures
            has_safetensors ==> r == Ok::<WeightsFormat, EmbedError>(WeightsFormat::Safetensors),
            !has_safetensors && has_pytorch ==> r == Ok::<WeightsFormat, EmbedError>(
                WeightsFormat::Pytorch,
            ),
            !has_safetensors && !has_pytorch ==> r matches Err(
                EmbedError::ModelConstructionError,
            ),
    {
        if has_safetensors {
            Ok(WeightsFormat::Safetensors)
        } else if has_pytorch {
            Ok(WeightsFormat::Pytorch)
        } else {
            Err(EmbedError::ModelConstructionError)
        }
    }

    /// The format that a weights file is read as: safetensors where the file
    /// is named `model.safetensors`, pytorch otherwise.
    pub fn of_path(path: &str) -> (r: WeightsFormat)
        ensures
            r == if file_of(path@) == "model.safetensors"@ {
                WeightsFormat::Safetensors
            } else {
                WeightsFormat::Pytorch
            },
    {
        if is_file_named(path, "model.safetensors") {
            WeightsFormat::Safetensors
        } else {
            WeightsFormat::Pytorch
        }
    }
}

/// What the registry of known models holds for one model.
pub struct ModelInfo {
    /// The identifier of the model on the hub.
    pub model_code: String,
    /// The path of the model file in its repository.
    pub model_file: String,
    /// The pooling that the model was trained with.
    pub default_pooling: Option<Pooling>,
}

/// The model file looked for where neither the caller nor the registry names
/// one.
pub open spec fn default_model_file() -> Seq<char> {
    "model.onnx"@
}

/// Where a graph-runtime model comes from and how its output is pooled.
#[derive(Debug, PartialEq, Eq)]
pub struct OnnxSource {
    /// The identifier of the model on the hub.
    pub model_id: String,
    /// The path of the weights file in the repository.
    pub weights_path: String,
    /// How the output is pooled.
    pub pooling: Pooling,
}

/// The optional registry entry of a request names a model.
pub open spec fn names_model(model_id: Option<&str>, known: Option<&ModelInfo>) -> bool {
    model_id is Some || known is Some
}

/// The identifier that a request resolves to: the one given, else that of the
/// registry entry.
pub open spec fn onnx_model_id(model_id: Option<&str>, known: Option<&ModelInfo>) -> Seq<char> {
    match model_id {
        Some(id) => id@,
        None => match known {
            Some(info) => info.model_code@,
            None => Seq::empty(),
        },
    }
}

/// The model file that a request resolves to: the one given, else that of the
/// registry entry, else the default.
pub open spec fn onnx_model_file(path_in_repo: Option<&str>, known: Option<&ModelInfo>) -> Seq<
    char,
> {
    match path_in_repo {
        Some(path) => path@,
        None => match known {
            Some(info) => info.model_file@,
            None => default_model_file(),
        },
    }
}

/// The pooling that a request resolves to: that of the registry entry, else
/// the mean.
pub open spec fn onnx_pooling(known: Option<&ModelInfo>) -> Pooling {
    match known {
        Some(info) => match info.default_pooling {
            Some(p) => p,
            None => Pooling::Mean,
        },
        None => Pooling::Mean,
    }
}

/// The pooling of a model: that of its registry entry, and the mean for a
/// model without an entry or without a pooling of its own.
pub fn default_pooling(known: Option<&ModelInfo>) -> (p: Pooling)
    ensures
        p == onnx_pooling(known),
{
    match known {
        Some(info) => match info.default_pooling {
            Some(p) => p,
            None => Pooling::Mean,
        },
        None => Pooling::Mean,
    }
}

/// Resolves a request for a graph-runtime model.
///
/// The model is named by `model_id`, or by the registry entry `known` of a
/// model name; a request with neither is a model construction error. The
/// weights file is that of `dtype` beside the model file, or the model file
/// itself where no precision is asked for.
pub fn resolve_onnx_source(
    known: Option<&ModelInfo>,
    model_id: Option<&str>,
    dtype: Option<Dtype>,
    path_in_repo: Option<&str>,
) -> (r: Result<OnnxSource, EmbedError>)
    ensures
        !names_model(model_id, known) ==> r matches Err(EmbedError::ModelConstructionError),
        names_model(model_id, known) ==> (r matches Ok(source) && {
            &&& source.model_id@ == onnx_model_id(model_id, known)
            &&& source.weights_path@ == weights_path_of(
                onnx_model_file(path_in_repo, known),
                dtype,
            )
            &&& source.pooling == onnx_pooling(known)
        }),
{
    let id = match model_id {
        Some(id) => String::from_str(id),
        None => match known {
            Some(info) => info.model_code.clone(),
            None => {
                return Err(EmbedError::ModelConstructionError);
            },
        },
    };
    let pooling = default_pooling(known);
    let file = match path_in_repo {
        Some(path) => weights_path(path, dtype),
        None => match known {
            Some(info) => weights_path(info.model_file.as_str(), dtype),
            None => weights_path("model.onnx", dtype),
        },
    };
    Ok(OnnxSource { model_id: id, weights_path: file, pooling })
}

/// The options of an audio decoder, each resolved with its default.
#[derive(Debug, PartialEq, Eq)]
pub struct AudioDecoderOptions {
    pub model_id: String,
    pub revision: String,
    pub model_type: String,
    pub quantized: bool,
}

/// The text of an option, or its default where the option is left out.
pub open spec fn text_or(value: Option<&str>, default: Seq<char>) -> Seq<char> {
    match value {
        Some(v) => v@,
        None => default,
    }
}

impl AudioDecoderOptions {
    /// Resolves the options of an audio decoder: the model
    /// `openai/whisper-tiny.en` of type `tiny-en` at revision `main`, not
    /// quantized, unless the caller says otherwise.
    pub fn resolve(
        model_id: Option<&str>,
        revision: Option<&str>,
        model_type: Option<&str>,
        quantized: Option<bool>,
    ) -> (r: AudioDecoderOptions)
        ensures
            r.model_id@ == text_or(model_id, "openai/whisper-tiny.en"@),
            r.revision@ == text_or(revision, "main"@),
            r.model_type@ == text_or(model_type, "tiny-en"@),
            r.quantized == match quantized {
                Some(q) => q,
                None => false,
            },
    {
        let model_id = match model_id {
            Some(v) => v,
            None => "openai/whisper-tiny.en",
        };
        let revision = match revision {
            Some(v) => v,
            None => "main",
        };
        let model_type = match model_type {
            Some(v) => v,
            None => "tiny-en",
        };
        let quantized = match quantized {
            Some(q) => q,
            None => false,
        };
        AudioDecoderOptions {
            model_id: String::from_str(model_id),
            revision: String::from_str(revision),
            model_type: String::from_str(model_type),
            quantized,
        }
    }
}

/// A token that was added to a vocabulary, under the identifier that the
/// tokenizer configuration files it under.
#[derive(Debug, PartialEq, Eq)]
pub struct AddedToken {
    /// The identifier, as written in the configuration.
    pub id: String,
    /// The text of the token.
    pub content: String,
}

/// What the library reads of a tokenizer configuration.
#[derive(Debug, PartialEq, Eq)]
pub struct TokenizerConfig {
    /// The token limit of the tokenizer.
    pub max_length: Option<usize>,
    /// The token limit of the model.
    pub model_max_length: Option<usize>,
    /// The text of the mask token.
    pub mask_token: Option<String>,
    /// The added tokens, in the order of the configuration.
    pub added_tokens_decoder: Option<Vec<AddedToken>>,
}

/// Entry `i` is the first added token with the text `token`.
pub open spec fn is_first_with_content(tokens: Seq<AddedToken>, token: Seq<char>, i: int) -> bool {
    &&& 0 <= i < tokens.len()
    &&& tokens[i].content@ == token
    &&& forall|j: int| 0 <= j < i ==> (#[trigger] tokens[j]).content@ != token
}

/// No added token has the text `token`.
pub open spec fn has_no_content(tokens: Seq<AddedToken>, token: Seq<char>) -> bool {
    forall|j: int| 0 <= j < tokens.len() ==> (#[trigger] tokens[j]).content@ != token
}

impl TokenizerConfig {
    /// The identifier of the added token with the text `token_string`.
    ///
    /// The first added token with that text decides: the result is its
    /// identifier read as a decimal 64-bit integer, and `None` where it is
    /// not one. Without added tokens, or without one of that text, the
    /// result is `None`.
    pub fn get_token_id_from_token(&self, token_string: &str) -> (r: Option<i64>)
        ensures
            self.added_tokens_decoder is None ==> r is None,
            self.added_tokens_decoder matches Some(tokens) ==> {
                &&& has_no_content(tokens@, token_string@) ==> r is None
                &&& forall|i: int|
                    is_first_with_content(tokens@, token_string@, i) ==> r == parsed_i64(
                        (#[trigger] tokens@[i]).id@,
                    )
            },
    {
        match &self.added_tokens_decoder {
            None => None,
            Some(tokens) => {
                let mut k: usize = 0;
                while k < tokens.len()
                    invariant
                        k <= tokens@.len(),
                        self.added_tokens_decoder == Some(*tokens),
                        forall|j: int| 0 <= j < k ==> (#[trigger] tokens@[j]).content@
                            != token_string@,
                    decreases tokens@.len() - k,
                {
                    if same_text(tokens[k].content.as_str(), token_string) {
                        let r = parse_i64(tokens[k].id.as_str());
                        assert forall|i: int|
                            is_first_with_content(
                                tokens@,
                                token_string@,
                                i,
                            ) implies r == parsed_i64((#[trigger] tokens@[i]).id@) by {
                            if i < k {
                                assert(tokens@[i].content@ != token_string@);
                            } else if i > k {
                                assert(tokens@[k as int].content@ != token_string@);
                            }
                        }
                        assert(!has_no_content(tokens@, token_string@)) by {
                            assert(tokens@[k as int].content@ == token_string@);
                        }
                        return r;
                    }
                    k += 1;
                }
                assert forall|i: int| is_first_with_content(tokens@, token_string@, i) implies false by {
                    assert(tokens@[i].content@ != token_string@);
                }
                None
            },
        }
    }

    /// The number of tokens after which input is truncated under this
    /// configuration.
    pub fn truncation_length(&self) -> (r: usize)
        ensures
            r == max_length_of(self.max_length, self.model_max_length),
    {
        resolve_max_length(self.max_length, self.model_max_length)
    }
}

} // verus!
