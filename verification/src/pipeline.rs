//! The operations that callers see: embedding a query, a file, a web page.
//!
//! Reading a file or fetching a page is the caller's work. These functions
//! take what was read and do the rest: they chunk, embed, attach metadata
//! and route the records to the caller or to its sink.

use crate::backend::{image_view, BertEmbed, EmbedImage, SemanticEncoder};
use crate::chunker::{
    chunk_texts, chunks_outcome, chunks_view, is_sentence_chunking, reassembled, split_semantic,
    split_sentences, splits_semantically, texts_of_chunks, ChunkView, TextChunk,
};
use crate::config::{OverlapRatio, SplittingStrategy, TextEmbedConfig, DEFAULT_CHUNK_SIZE};
use crate::error::EmbedError;
use crate::metadata::Metadata;
use crate::model::WhichModel;
use crate::backend::{effective_batch_size, embed, embeds, outcome_view, results_view, texts_view};
use crate::scheduler::{
    configured_batch_size, embed_texts, embeds_with_metadata, metadata_view, records_outcome,
    records_view, EmbedData, EmbedDataView,
};
use vstd::prelude::*;

verus! {

/// A backend of one of the known kinds: a text model, or an image model for
/// the `Clip` kind.
pub enum Embeder<T, I> {
    OpenAI(T),
    Cohere(T),
    Jina(T),
    Bert(T),
    Clip(I),
}

impl<T, I> Embeder<T, I> {
    /// The kind of the backend.
    pub open spec fn kind_spec(&self) -> WhichModel {
        match self {
            Embeder::OpenAI(_) => WhichModel::OpenAI,
            Embeder::Cohere(_) => WhichModel::Cohere,
            Embeder::Jina(_) => WhichModel::Jina,
            Embeder::Bert(_) => WhichModel::Bert,
            Embeder::Clip(_) => WhichModel::Clip,
        }
    }

    /// The kind of the backend.
    pub fn kind(&self) -> (k: WhichModel)
        ensures
            k == self.kind_spec(),
    {
        match self {
            Embeder::OpenAI(_) => WhichModel::OpenAI,
            Embeder::Cohere(_) => WhichModel::Cohere,
            Embeder::Jina(_) => WhichModel::Jina,
            Embeder::Bert(_) => WhichModel::Bert,
            Embeder::Clip(_) => WhichModel::Clip,
        }
    }

    /// The text model of the backend, where it has one.
    pub open spec fn text_model_spec(&self) -> Option<&T> {
        match self {
            Embeder::OpenAI(m) => Some(m),
            Embeder::Cohere(m) => Some(m),
            Embeder::Jina(m) => Some(m),
            Embeder::Bert(m) => Some(m),
            Embeder::Clip(_) => None,
        }
    }

    /// The text model of the backend, where it has one.
    pub fn text_model(&self) -> (r: Option<&T>)
        ensures
            r == self.text_model_spec(),
    {
        match self {
            Embeder::OpenAI(m) => Some(m),
            Embeder::Cohere(m) => Some(m),
            Embeder::Jina(m) => Some(m),
            Embeder::Bert(m) => Some(m),
            Embeder::Clip(_) => None,
        }
    }
}

/// The batch size under which a backend of this kind embeds a file: remote
/// backends take their own default, local ones that of the configuration.
pub open spec fn file_batch_size(kind: WhichModel, configured: Option<usize>) -> Option<usize> {
    if kind.is_cloud() {
        None
    } else {
        configured
    }
}

/// The chunk size that a configuration asks for.
pub open spec fn configured_chunk_size<E>(config: Option<&TextEmbedConfig<E>>) -> usize {
    match config {
        Some(c) => match c.chunk_size {
            Some(size) => size,
            None => DEFAULT_CHUNK_SIZE,
        },
        None => DEFAULT_CHUNK_SIZE,
    }
}

/// The share of the chunk size that a configuration asks neighbouring chunks
/// to have in common.
pub open spec fn configured_overlap<E>(config: Option<&TextEmbedConfig<E>>, size: usize) -> nat {
    match config {
        Some(c) => match c.overlap_ratio {
            Some(ratio) => ratio.share_of(size as nat),
            None => 0,
        },
        None => 0,
    }
}

/// `r` is a possible result of chunking `text` along sentences and embedding
/// the chunks through `backend`, each with `metadata`.
pub open spec fn embeds_chunks<B: BertEmbed>(
    backend: &B,
    text: Seq<char>,
    chunk_size: usize,
    overlap: nat,
    batch_size: Option<usize>,
    metadata: Option<Seq<(Seq<char>, Seq<char>)>>,
    r: Result<Seq<EmbedDataView<B::Scalar>>, EmbedError>,
) -> bool {
    if chunk_size == 0 {
        r == Err::<Seq<EmbedDataView<B::Scalar>>, EmbedError>(EmbedError::ConfigurationError)
    } else {
        exists|chunks: Seq<ChunkView>|
            is_sentence_chunking(text, chunk_size as int, overlap as int, chunks)
                && embeds_with_metadata(backend, chunk_texts(chunks), batch_size, metadata, r)
    }
}

/// Chunks a text along sentences and embeds every chunk.
///
/// Each record holds the text of its chunk and a copy of `metadata`; the
/// records are in the order of the chunks. A chunk size of zero is a
/// configuration error; a failure of the backend fails the whole text.
pub fn embed_text<B: BertEmbed>(
    text: &str,
    backend: &B,
    chunk_size: usize,
    overlap_ratio: &OverlapRatio,
    batch_size: Option<usize>,
    metadata: &Option<Metadata>,
) -> (r: Result<Vec<EmbedData<B::Scalar>>, EmbedError>)
    ensures
        embeds_chunks(
            backend,
            text@,
            chunk_size,
            overlap_ratio.share_of(chunk_size as nat),
            batch_size,
            metadata_view(*metadata),
            records_outcome(r),
        ),
{
    let chunks = match split_sentences(text, chunk_size, overlap_ratio) {
        Ok(chunks) => chunks,
        Err(e) => {
            return Err(e);
        },
    };
    let ghost views = chunks_view(chunks@);
    let texts = texts_of_chunks(&chunks);
    let r = embed_texts(backend, texts.as_slice(), batch_size, metadata);
    proof {
        assert(is_sentence_chunking(
            text@,
            chunk_size as int,
            overlap_ratio.share_of(chunk_size as nat) as int,
            views,
        ));
        assert(embeds_with_metadata(
            backend,
            chunk_texts(views),
            batch_size,
            metadata_view(*metadata),
            records_outcome(r),
        ));
    }
    r
}

/// The strategy that a configuration asks for.
pub open spec fn configured_strategy<E>(config: Option<&TextEmbedConfig<E>>) -> SplittingStrategy {
    match config {
        Some(c) => match c.splitting_strategy {
            Some(s) => s,
            None => SplittingStrategy::Sentence,
        },
        None => SplittingStrategy::Sentence,
    }
}

/// `r` is a possible outcome of chunking `text` under `config`.
///
/// The sentence strategy cuts along sentences under the chunk size and the
/// overlap of the configuration; a chunk size of zero is a configuration
/// error. The semantic strategy needs the semantic encoder of the
/// configuration, and its absence is a configuration error.
pub open spec fn chunks_under<E: SemanticEncoder>(
    config: Option<&TextEmbedConfig<E>>,
    text: Seq<char>,
    r: Result<Seq<ChunkView>, EmbedError>,
) -> bool {
    match configured_strategy(config) {
        SplittingStrategy::Sentence => if configured_chunk_size(config) == 0 {
            r == Err::<Seq<ChunkView>, EmbedError>(EmbedError::ConfigurationError)
        } else {
            r matches Ok(chunks) && is_sentence_chunking(
                text,
                configured_chunk_size(config) as int,
                configured_overlap(config, configured_chunk_size(config)) as int,
                chunks,
            )
        },
        SplittingStrategy::Semantic => match config->0.semantic_encoder {
            Some(encoder) => splits_semantically(&encoder, text, configured_batch_size(config), r),
            None => r == Err::<Seq<ChunkView>, EmbedError>(EmbedError::ConfigurationError),
        },
    }
}

/// Cuts `text` into chunks by the strategy of `config`.
pub fn chunk_text<E: SemanticEncoder>(text: &str, config: Option<&TextEmbedConfig<E>>) -> (r:
    Result<Vec<TextChunk>, EmbedError>)
    ensures
        chunks_under(config, text@, chunks_outcome(r)),
        r matches Ok(chunks) ==> reassembled(chunks_view(chunks@), chunks@.len() as int)
            == text@,
{
    let semantic = match config {
        Some(c) => match c.splitting_strategy {
            Some(SplittingStrategy::Semantic) => true,
            _ => false,
        },
        None => false,
    };
    if semantic {
        let c = match config {
            Some(c) => c,
            None => {
                return Err(EmbedError::ConfigurationError);
            },
        };
        return match &c.semantic_encoder {
            Some(encoder) => split_semantic(text, encoder, c.batch_size),
            None => Err(EmbedError::ConfigurationError),
        };
    }
    let chunk_size = match config {
        Some(c) => match c.chunk_size {
            Some(size) => size,
            None => DEFAULT_CHUNK_SIZE,
        },
        None => DEFAULT_CHUNK_SIZE,
    };
    let ratio = match config {
        Some(c) => match c.overlap_ratio {
            Some(ratio) => ratio,
            None => OverlapRatio::zero(),
        },
        None => OverlapRatio::zero(),
    };
    proof {
        let size = chunk_size as nat;
        assert(ratio.share_of(size) == configured_overlap(config, chunk_size)) by {
            if config is None || config->0.overlap_ratio is None {
                assert(size * 0 == 0) by (nonlinear_arith);
                assert(0int / 1 == 0);
            }
        }
    }
    split_sentences(text, chunk_size, &ratio)
}

/// `r` is a possible result of chunking `text` under `config` and embedding
/// the chunks through `backend` in sub-batches of `batch_size`, each with
/// `metadata`. A failure to chunk is the failure of the whole.
pub open spec fn embeds_under<B: BertEmbed, E: SemanticEncoder>(
    backend: &B,
    text: Seq<char>,
    config: Option<&TextEmbedConfig<E>>,
    batch_size: Option<usize>,
    metadata: Option<Seq<(Seq<char>, Seq<char>)>>,
    r: Result<Seq<EmbedDataView<B::Scalar>>, EmbedError>,
) -> bool {
    exists|chunked: Result<Seq<ChunkView>, EmbedError>|
        chunks_under(config, text, chunked) && match chunked {
            Ok(chunks) => embeds_with_metadata(
                backend,
                chunk_texts(chunks),
                batch_size,
                metadata,
                r,
            ),
            Err(e) => r == Err::<Seq<EmbedDataView<B::Scalar>>, EmbedError>(e),
        }
}

/// Chunks a text under `config` and embeds every chunk.
///
/// Each record holds the text of its chunk and a copy of `metadata`; the
/// records are in the order of the chunks.
pub fn embed_under<B: BertEmbed, E: SemanticEncoder>(
    text: &str,
    backend: &B,
    config: Option<&TextEmbedConfig<E>>,
    batch_size: Option<usize>,
    metadata: &Option<Metadata>,
) -> (r: Result<Vec<EmbedData<B::Scalar>>, EmbedError>)
    ensures
        embeds_under(
            backend,
            text@,
            config,
            batch_size,
            metadata_view(*metadata),
            records_outcome(r),
        ),
{
    let chunked = chunk_text(text, config);
    let ghost seen = chunks_outcome(chunked);
    let chunks = match chunked {
        Ok(chunks) => chunks,
        Err(e) => {
            return Err(e);
        },
    };
    let texts = texts_of_chunks(&chunks);
    let r = embed_texts(backend, texts.as_slice(), batch_size, metadata);
    proof {
        assert(chunks_under(config, text@, seen));
        assert(embeds_with_metadata(
            backend,
            chunk_texts(seen->Ok_0),
            batch_size,
            metadata_view(*metadata),
            records_outcome(r),
        ));
    }
    r
}

/// Hands the records to the sink, where there is one, or back to the caller.
pub fn route<D, F: Fn(Vec<D>)>(records: Vec<D>, adapter: Option<F>) -> (r: Option<Vec<D>>)
    requires
        adapter matches Some(sink) ==> call_requires(sink, (records,)),
    ensures
        adapter matches Some(sink) ==> r is None && call_ensures(sink, (records,), ()),
        adapter is None ==> r == Some(records),
{
    match adapter {
        Some(sink) => {
            sink(records);
            None
        },
        None => Some(records),
    }
}

/// What was found at the path of a file.
pub enum FileContent {
    /// There is no such file.
    Missing,
    /// The file is of a type that no text can be extracted from.
    Unsupported,
    /// The text that was extracted from the file.
    Text(String),
}

/// The record of one embedded image.
pub open spec fn image_record<S>(
    embedding: Seq<S>,
    metadata: Option<Seq<(Seq<char>, Seq<char>)>>,
) -> EmbedDataView<S> {
    EmbedDataView { embedding, text: None, metadata }
}

/// `r` is a possible outcome of embedding the file `file_name` with what was
/// found at its path, before the records are routed.
pub open spec fn embeds_file<T: BertEmbed, I: EmbedImage<Scalar = T::Scalar>, E: SemanticEncoder>(
    file_name: Seq<char>,
    content: FileContent,
    metadata: Option<Seq<(Seq<char>, Seq<char>)>>,
    embeder: &Embeder<T, I>,
    config: Option<&TextEmbedConfig<E>>,
    r: Result<Seq<EmbedDataView<T::Scalar>>, EmbedError>,
) -> bool {
    match content {
        FileContent::Missing => r matches Err(EmbedError::FileNotFound(name)) && name@
            == file_name,
        FileContent::Unsupported => match embeder {
            Embeder::Clip(model) => embeds_image_file(model, file_name, metadata, r),
            _ => r matches Err(EmbedError::UnsupportedFileType(name)) && name@ == file_name,
        },
        FileContent::Text(text) => match embeder {
            Embeder::Clip(model) => embeds_image_file(model, file_name, metadata, r),
            _ => embeds_under(
                embeder.text_model_spec()->0,
                text@,
                config,
                file_batch_size(embeder.kind_spec(), configured_batch_size(config)),
                metadata,
                r,
            ),
        },
    }
}

/// `r` is a possible outcome of embedding the image file `file_name`: the
/// error of the model, or one record with the vector and the metadata.
pub open spec fn embeds_image_file<I: EmbedImage>(
    model: &I,
    file_name: Seq<char>,
    metadata: Option<Seq<(Seq<char>, Seq<char>)>>,
    r: Result<Seq<EmbedDataView<I::Scalar>>, EmbedError>,
) -> bool {
    exists|out: Result<Seq<I::Scalar>, EmbedError>|
        model.image_spec(file_name, out) && r == match out {
            Ok(v) => Ok(seq![image_record(v, metadata)]),
            Err(e) => Err(e),
        }
}

/// Embeds one image file into one record.
pub fn emb_image<I: EmbedImage>(image_path: &str, embedding_model: &I, metadata: Option<Metadata>) -> (r:
    Result<EmbedData<I::Scalar>, EmbedError>)
    ensures
        exists|out: Result<Seq<I::Scalar>, EmbedError>|
            embedding_model.image_spec(image_path@, out) && match out {
                Ok(v) => r matches Ok(d) && d@ == image_record(v, metadata_view(metadata)),
                Err(e) => r == Err::<EmbedData<I::Scalar>, EmbedError>(e),
            },
{
    let out = embedding_model.embed_image(image_path);
    let ghost seen = image_view(out);
    match out {
        Ok(v) => {
            let d = EmbedData { embedding: v, text: None, metadata };
            assert(d@ == image_record(seen->Ok_0, metadata_view(metadata)));
            Ok(d)
        },
        Err(e) => Err(e),
    }
}

/// The records of a file, before they are routed.
fn file_records<T: BertEmbed, I: EmbedImage<Scalar = T::Scalar>, E: SemanticEncoder>(
    file_name: &str,
    content: FileContent,
    metadata: Option<Metadata>,
    embeder: &Embeder<T, I>,
    config: Option<&TextEmbedConfig<E>>,
) -> (r: Result<Vec<EmbedData<T::Scalar>>, EmbedError>)
    ensures
        embeds_file(
            file_name@,
            content,
            metadata_view(metadata),
            embeder,
            config,
            records_outcome(r),
        ),
{
    let text = match content {
        FileContent::Missing => {
            return Err(EmbedError::FileNotFound(String::from_str(file_name)));
        },
        FileContent::Unsupported => None,
        FileContent::Text(text) => Some(text),
    };
    let model = match embeder {
        Embeder::Clip(image_model) => {
            let ghost meta = metadata_view(metadata);
            let one = emb_image(file_name, image_model, metadata);
            return match one {
                Ok(d) => {
                    let mut records: Vec<EmbedData<T::Scalar>> = Vec::new();
                    let ghost dv = d@;
                    records.push(d);
                    assert(records_view(records@) =~= seq![dv]);
                    Ok(records)
                },
                Err(e) => Err(e),
            };
        },
        Embeder::OpenAI(m) => m,
        Embeder::Cohere(m) => m,
        Embeder::Jina(m) => m,
        Embeder::Bert(m) => m,
    };
    let text = match text {
        Some(text) => text,
        None => {
            return Err(EmbedError::UnsupportedFileType(String::from_str(file_name)));
        },
    };
    let configured = match config {
        Some(c) => c.batch_size,
        None => Some(crate::backend::DEFAULT_BATCH_SIZE),
    };
    let batch_size = match embeder {
        Embeder::OpenAI(_) => None,
        Embeder::Cohere(_) => None,
        _ => configured,
    };
    embed_under(text.as_str(), model, config, batch_size, &metadata)
}

/// `r` is what a call gives for the records `records` under the routing that
/// `adapter` stands for: nothing where a sink took them, else the records.
pub open spec fn routed<D, F: Fn(Vec<D>)>(
    records: Vec<D>,
    adapter: Option<F>,
    r: Option<Vec<D>>,
) -> bool {
    match adapter {
        Some(sink) => r is None && call_ensures(sink, (records,), ()),
        None => r == Some(records),
    }
}

/// Embeds the file `file_name`, given what was found at its path.
///
/// A missing file fails with `FileNotFound`, and a file without extractable
/// text with `UnsupportedFileType`, unless the backend is an image model,
/// which reads the file itself and gives one record. The text is chunked by
/// the strategy of `config`, and the chunks go through the text model: in sub-batches of the configured size
/// for local models, of the model's own default for remote ones. The
/// records carry `metadata`. With a sink they are handed to it and the
/// result is `None`; without, they are the result.
pub fn embed_file<
    T: BertEmbed,
    I: EmbedImage<Scalar = T::Scalar>,
    E: SemanticEncoder,
    F: Fn(Vec<EmbedData<T::Scalar>>),
>(
    file_name: &str,
    content: FileContent,
    metadata: Option<Metadata>,
    embeder: &Embeder<T, I>,
    config: Option<&TextEmbedConfig<E>>,
    adapter: Option<F>,
) -> (r: Result<Option<Vec<EmbedData<T::Scalar>>>, EmbedError>)
    requires
        adapter matches Some(sink) ==> forall|records: Vec<EmbedData<T::Scalar>>|
            call_requires(sink, (records,)),
    ensures
        match r {
            Ok(out) => exists|records: Vec<EmbedData<T::Scalar>>|
                embeds_file(
                    file_name@,
                    content,
                    metadata_view(metadata),
                    embeder,
                    config,
                    Ok(records_view(records@)),
                ) && routed(records, adapter, out),
            Err(e) => embeds_file(
                file_name@,
                content,
                metadata_view(metadata),
                embeder,
                config,
                Err(e),
            ),
        },
{
    match file_records(file_name, content, metadata, embeder, config) {
        Ok(records) => {
            let out = route(records, adapter);
            assert(routed(records, adapter, out));
            Ok(out)
        },
        Err(e) => Err(e),
    }
}

/// `r` is a possible outcome of embedding the text of a web page, before the
/// records are routed. An image model embeds no web page.
pub open spec fn embeds_webpage<T: BertEmbed, I, E: SemanticEncoder>(
    page_text: Seq<char>,
    metadata: Option<Seq<(Seq<char>, Seq<char>)>>,
    embeder: &Embeder<T, I>,
    config: Option<&TextEmbedConfig<E>>,
    r: Result<Seq<EmbedDataView<T::Scalar>>, EmbedError>,
) -> bool {
    match embeder {
        Embeder::Clip(_) => r matches Err(EmbedError::InvalidModelSelection),
        _ => embeds_under(
            embeder.text_model_spec()->0,
            page_text,
            config,
            configured_batch_size(config),
            metadata,
            r,
        ),
    }
}

/// The metadata of a web page: its address under the key `url`.
pub open spec fn webpage_metadata(url: Seq<char>) -> Seq<(Seq<char>, Seq<char>)> {
    seq![("url"@, url)]
}

/// Embeds the text of the web page at `url`.
///
/// An image model is refused with `InvalidModelSelection`. The text is
/// chunked by the strategy of `config` and the chunks go through the text
/// model; every record carries the address of the page. With a sink the records are
/// handed to it and the result is `None`; without, they are the result.
pub fn embed_webpage<T: BertEmbed, I, E: SemanticEncoder, F: Fn(Vec<EmbedData<T::Scalar>>)>(
    url: String,
    page_text: &str,
    embeder: &Embeder<T, I>,
    config: Option<&TextEmbedConfig<E>>,
    adapter: Option<F>,
) -> (r: Result<Option<Vec<EmbedData<T::Scalar>>>, EmbedError>)
    requires
        adapter matches Some(sink) ==> forall|records: Vec<EmbedData<T::Scalar>>|
            call_requires(sink, (records,)),
    ensures
        match r {
            Ok(out) => exists|records: Vec<EmbedData<T::Scalar>>|
                embeds_webpage(
                    page_text@,
                    Some(webpage_metadata(url@)),
                    embeder,
                    config,
                    Ok(records_view(records@)),
                ) && routed(records, adapter, out),
            Err(e) => embeds_webpage(
                page_text@,
                Some(webpage_metadata(url@)),
                embeder,
                config,
                Err(e),
            ),
        },
{
    let model = match embeder {
        Embeder::Clip(_) => {
            return Err(EmbedError::InvalidModelSelection);
        },
        Embeder::OpenAI(m) => m,
        Embeder::Cohere(m) => m,
        Embeder::Jina(m) => m,
        Embeder::Bert(m) => m,
    };
    let batch_size = match config {
        Some(c) => c.batch_size,
        None => Some(crate::backend::DEFAULT_BATCH_SIZE),
    };
    let ghost address = url@;
    let mut metadata = Metadata::new();
    metadata.insert(String::from_str("url"), url);
    let metadata = Some(metadata);
    proof {
        assert(crate::metadata::position_of(Seq::empty(), "url"@) is None);
        assert(metadata_view(metadata) == Some(webpage_metadata(address))) by {
            assert(Seq::<(Seq<char>, Seq<char>)>::empty().push(("url"@, address))
                =~= webpage_metadata(address));
        }
    }
    match embed_under(page_text, model, config, batch_size, &metadata) {
        Ok(records) => {
            let out = route(records, adapter);
            assert(routed(records, adapter, out));
            Ok(out)
        },
        Err(e) => Err(e),
    }
}

/// The metadata of an image: its path under the key `file_name`.
pub open spec fn image_metadata(path: Seq<char>) -> Seq<(Seq<char>, Seq<char>)> {
    seq![("file_name"@, path)]
}

/// Record `i` stands for image `i`: it holds a vector that the model may
/// give for the image, no text, and the path of the image as metadata.
pub open spec fn is_image_record<I: EmbedImage>(
    model: &I,
    paths: Seq<Seq<char>>,
    records: Seq<EmbedDataView<I::Scalar>>,
    i: int,
) -> bool {
    &&& model.image_spec(paths[i], Ok(records[i].embedding))
    &&& records[i] == image_record(records[i].embedding, Some(image_metadata(paths[i])))
}

/// `r` is a possible outcome of embedding the images at `paths` in order:
/// one record per image, or the error of the first image that the model
/// fails on.
pub open spec fn embeds_images<I: EmbedImage>(
    model: &I,
    paths: Seq<Seq<char>>,
    r: Result<Seq<EmbedDataView<I::Scalar>>, EmbedError>,
) -> bool {
    match r {
        Ok(records) => records.len() == paths.len() && forall|i: int|
            0 <= i < paths.len() ==> is_image_record(model, paths, records, i),
        Err(e) => exists|k: int, before: Seq<EmbedDataView<I::Scalar>>|
            0 <= k < paths.len() && before.len() == k && model.image_spec(paths[k], Err(e))
                && forall|i: int| 0 <= i < k ==> is_image_record(model, paths, before, i),
    }
}

/// Embeds every image of a directory listing, one record per image.
///
/// The records are in the order of the paths, each with the path of its
/// image as metadata. The first image that the model fails on fails the
/// whole run with its error.
pub fn emb_image_directory<I: EmbedImage>(paths: &[String], embedding_model: &I) -> (r: Result<
    Vec<EmbedData<I::Scalar>>,
    EmbedError,
>)
    ensures
        embeds_images(embedding_model, texts_view(paths@), records_outcome(r)),
{
    let ghost all = texts_view(paths@);
    let mut records: Vec<EmbedData<I::Scalar>> = Vec::new();
    let mut i: usize = 0;
    while i < paths.len()
        invariant
            i <= paths@.len(),
            all == texts_view(paths@),
            records@.len() == i,
            forall|j: int|
                0 <= j < i ==> is_image_record(embedding_model, all, records_view(records@), j),
        decreases paths@.len() - i,
    {
        let path = paths[i].as_str();
        assert(path@ == all[i as int]);
        let ghost address = path@;
        let mut metadata = Metadata::new();
        metadata.insert(String::from_str("file_name"), String::from_str(path));
        proof {
            assert(crate::metadata::position_of(Seq::empty(), "file_name"@) is None);
            assert(Seq::<(Seq<char>, Seq<char>)>::empty().push(("file_name"@, address))
                =~= image_metadata(address));
        }
        let out = embedding_model.embed_image(path);
        let ghost seen = image_view(out);
        let ghost before = records_view(records@);
        match out {
            Err(e) => {
                assert(embeds_images(
                    embedding_model,
                    all,
                    Err::<Seq<EmbedDataView<I::Scalar>>, EmbedError>(e),
                )) by {
                    assert(embedding_model.image_spec(all[i as int], Err(e)));
                    assert(before.len() == i);
                }
                return Err(e);
            },
            Ok(v) => {
                let d = EmbedData { embedding: v, text: None, metadata: Some(metadata) };
                let ghost dv = d@;
                records.push(d);
                proof {
                    let now = records_view(records@);
                    assert(now =~= before.push(dv));
                    assert forall|j: int| 0 <= j <= i implies is_image_record(
                        embedding_model,
                        all,
                        now,
                        j,
                    ) by {
                        if j < i {
                            assert(is_image_record(embedding_model, all, before, j));
                            assert(now[j] == before[j]);
                        }
                    }
                }
            },
        }
        i += 1;
    }
    assert(records_view(records@).len() == all.len());
    Ok(records)
}

/// One segment of an audio track, as a decoder hands it over: the text that
/// was heard, and when it starts and ends, as written in the metadata.
#[derive(Debug, PartialEq, Eq)]
pub struct AudioSegment {
    /// When the segment starts.
    pub start: String,
    /// When the segment ends.
    pub end: String,
    /// The transcript of the segment.
    pub text: String,
}

/// A segment as a mathematical value.
pub struct AudioSegmentView {
    pub start: Seq<char>,
    pub end: Seq<char>,
    pub text: Seq<char>,
}

impl View for AudioSegment {
    type V = AudioSegmentView;

    open spec fn view(&self) -> AudioSegmentView {
        AudioSegmentView { start: self.start@, end: self.end@, text: self.text@ }
    }
}

/// The segments as mathematical values.
pub open spec fn segments_view(segments: Seq<AudioSegment>) -> Seq<AudioSegmentView> {
    segments.map_values(|s: AudioSegment| s@)
}

/// The transcript of each segment.
pub open spec fn transcripts(segments: Seq<AudioSegmentView>) -> Seq<Seq<char>> {
    segments.map_values(|s: AudioSegmentView| s.text)
}

/// The metadata of a segment: when it starts and ends, and the file of the
/// track.
pub open spec fn segment_metadata(segment: AudioSegmentView, audio_file: Seq<char>) -> Seq<
    (Seq<char>, Seq<char>),
> {
    seq![("start"@, segment.start), ("end"@, segment.end), ("file_name"@, audio_file)]
}

/// The record of segment `i` with vector `i`.
pub open spec fn segment_record<S>(
    vectors: Seq<Seq<S>>,
    segments: Seq<AudioSegmentView>,
    audio_file: Seq<char>,
    i: int,
) -> EmbedDataView<S> {
    EmbedDataView {
        embedding: vectors[i],
        text: Some(segments[i].text),
        metadata: Some(segment_metadata(segments[i], audio_file)),
    }
}

/// The records that stand for the segments of a track, given the outcome of
/// embedding their transcripts.
pub open spec fn audio_records<S>(
    encoded: Result<Seq<Seq<S>>, EmbedError>,
    segments: Seq<AudioSegmentView>,
    audio_file: Seq<char>,
) -> Result<Seq<EmbedDataView<S>>, EmbedError> {
    match encoded {
        Err(e) => Err(e),
        Ok(vectors) => if vectors.len() == segments.len() {
            Ok(
                Seq::new(
                    segments.len(),
                    |i: int| segment_record(vectors, segments, audio_file, i),
                ),
            )
        } else {
            Err(EmbedError::BackendCallError)
        },
    }
}

/// `r` is a possible outcome of embedding the segments of an audio track. An
/// image model embeds no transcript.
pub open spec fn embeds_audio<T: BertEmbed, I, E>(
    audio_file: Seq<char>,
    segments: Seq<AudioSegmentView>,
    embeder: &Embeder<T, I>,
    config: Option<&TextEmbedConfig<E>>,
    r: Result<Seq<EmbedDataView<T::Scalar>>, EmbedError>,
) -> bool {
    match embeder {
        Embeder::Clip(_) => r matches Err(EmbedError::InvalidModelSelection),
        _ => if configured_batch_size(config) == Some(0usize) {
            r matches Err(EmbedError::ConfigurationError)
        } else {
            exists|encoded: Result<Seq<Seq<T::Scalar>>, EmbedError>|
                embeds(
                    embeder.text_model_spec()->0,
                    transcripts(segments),
                    effective_batch_size(configured_batch_size(config)),
                    encoded,
                ) && r == audio_records(encoded, segments, audio_file)
        },
    }
}

fn segment_metadata_of(segment: &AudioSegment, audio_file: &str) -> (m: Metadata)
    ensures
        m@ == segment_metadata(segment@, audio_file@),
{
    let mut m = Metadata::new();
    m.insert(String::from_str("start"), segment.start.clone());
    let ghost one = m@;
    m.insert(String::from_str("end"), segment.end.clone());
    let ghost two = m@;
    m.insert(String::from_str("file_name"), String::from_str(audio_file));
    proof {
        reveal_strlit("start");
        reveal_strlit("end");
        reveal_strlit("file_name");
        let empty = Seq::<(Seq<char>, Seq<char>)>::empty();
        assert("start"@.len() == 5 && "end"@.len() == 3 && "file_name"@.len() == 9);
        assert(crate::metadata::position_of(empty, "start"@) is None);
        assert(one =~= seq![("start"@, segment.start@)]);
        assert(crate::metadata::position_of(one, "end"@) is None) by {
            assert(one[0].0 != "end"@);
        }
        assert(two =~= seq![("start"@, segment.start@), ("end"@, segment.end@)]);
        assert(crate::metadata::position_of(two, "file_name"@) is None) by {
            assert(two[0].0 != "file_name"@);
            assert(two[1].0 != "file_name"@);
        }
        assert(m@ =~= segment_metadata(segment@, audio_file@));
    }
    m
}

/// Embeds the transcript of each segment of an audio track.
///
/// The transcripts go through the text model in sub-batches of the
/// configured size. Record `i` holds the vector and the transcript of
/// segment `i`, and as metadata its start, its end and the file of the track.
/// An image model is refused with `InvalidModelSelection`.
pub fn emb_audio<T: BertEmbed, I, E>(
    audio_file: &str,
    segments: Vec<AudioSegment>,
    embeder: &Embeder<T, I>,
    text_embed_config: Option<&TextEmbedConfig<E>>,
) -> (r: Result<Option<Vec<EmbedData<T::Scalar>>>, EmbedError>)
    ensures
        match r {
            Ok(out) => out matches Some(records) && embeds_audio(
                audio_file@,
                segments_view(segments@),
                embeder,
                text_embed_config,
                Ok(records_view(records@)),
            ),
            Err(e) => embeds_audio(
                audio_file@,
                segments_view(segments@),
                embeder,
                text_embed_config,
                Err(e),
            ),
        },
{
    let model = match embeder {
        Embeder::Clip(_) => {
            return Err(EmbedError::InvalidModelSelection);
        },
        Embeder::OpenAI(m) => m,
        Embeder::Cohere(m) => m,
        Embeder::Jina(m) => m,
        Embeder::Bert(m) => m,
    };
    let batch_size = match text_embed_config {
        Some(c) => c.batch_size,
        None => Some(crate::backend::DEFAULT_BATCH_SIZE),
    };
    let ghost views = segments_view(segments@);
    let ghost heard = transcripts(views);
    let mut texts: Vec<String> = Vec::new();
    let mut i: usize = 0;
    while i < segments.len()
        invariant
            i <= segments@.len(),
            views == segments_view(segments@),
            heard == transcripts(views),
            texts_view(texts@) == heard.take(i as int),
        decreases segments@.len() - i,
    {
        let ghost before = texts_view(texts@);
        texts.push(segments[i].text.clone());
        assert(texts_view(texts@) =~= before.push(heard[i as int]));
        assert(heard.take(i + 1) =~= heard.take(i as int).push(heard[i as int]));
        i += 1;
    }
    assert(heard.take(heard.len() as int) =~= heard);
    let encoded = embed(model, texts.as_slice(), batch_size);
    let ghost seen = outcome_view(encoded);
    let results = match encoded {
        Ok(results) => results,
        Err(e) => {
            return Err(e);
        },
    };
    let ghost vectors = results_view(results@);
    assert(vectors.len() == views.len()) by {
        assert(texts_view(texts@).len() == texts@.len());
        assert(results_view(results@).len() == results@.len());
    }
    let mut records: Vec<EmbedData<T::Scalar>> = Vec::new();
    let mut k: usize = 0;
    let total = segments.len();
    for result in it: results
        invariant
            it.seq() == results@,
            total == segments@.len(),
            vectors == results_view(results@),
            views == segments_view(segments@),
            vectors.len() == views.len(),
            k == it.index(),
            records@.len() == k,
            forall|j: int|
                0 <= j < k ==> (#[trigger] records@[j])@ == segment_record(
                    vectors,
                    views,
                    audio_file@,
                    j,
                ),
    {
        let ghost j = it.index() as int;
        assert(result == results@[j]);
        assert(k < total);
        let segment = &segments[k];
        assert(segment@ == views[j]);
        let record = EmbedData {
            embedding: result.into_dense(),
            text: Some(segment.text.clone()),
            metadata: Some(segment_metadata_of(segment, audio_file)),
        };
        assert(record@ == segment_record(vectors, views, audio_file@, j));
        records.push(record);
        k += 1;
    }
    proof {
        assert(records_view(records@) =~= Seq::new(
            views.len(),
            |i: int| segment_record(vectors, views, audio_file@, i),
        ));
        assert(Ok::<Seq<EmbedDataView<T::Scalar>>, EmbedError>(records_view(records@))
            == audio_records(seen, views, audio_file@));
    }
    Ok(Some(records))
}

} // verus!
