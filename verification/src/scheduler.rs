//! Attaching texts and source metadata to embeddings.
//!
//! Every chunk of one source gets the same metadata, and the records come out
//! in the order of the embeddings.

use crate::backend::{
    embed, embeds, effective_batch_size, outcome_view, results_view, texts_view, BertEmbed,
    EmbeddingResult,
};
use crate::config::TextEmbedConfig;
use crate::error::EmbedError;
use crate::metadata::Metadata;
use vstd::prelude::*;

verus! {

/// One embedded piece of content: the vector, the text it stands for and the
/// metadata of its source.
#[derive(Debug, PartialEq)]
pub struct EmbedData<S> {
    /// The vector.
    pub embedding: Vec<S>,
    /// The text that was embedded.
    pub text: Option<String>,
    /// Where the text came from.
    pub metadata: Option<Metadata>,
}

/// A record as a mathematical value.
pub struct EmbedDataView<S> {
    pub embedding: Seq<S>,
    pub text: Option<Seq<char>>,
    pub metadata: Option<Seq<(Seq<char>, Seq<char>)>>,
}

/// The entries of optional metadata.
pub open spec fn metadata_view(metadata: Option<Metadata>) -> Option<Seq<(Seq<char>, Seq<char>)>> {
    match metadata {
        Some(m) => Some(m@),
        None => None,
    }
}

impl<S> View for EmbedData<S> {
    type V = EmbedDataView<S>;

    open spec fn view(&self) -> EmbedDataView<S> {
        EmbedDataView {
            embedding: self.embedding@,
            text: match self.text {
                Some(t) => Some(t@),
                None => None,
            },
            metadata: metadata_view(self.metadata),
        }
    }
}

/// The records as mathematical values.
pub open spec fn records_view<S>(records: Seq<EmbedData<S>>) -> Seq<EmbedDataView<S>> {
    records.map_values(|r: EmbedData<S>| r@)
}

/// The outcome of a call that gives records, taken as mathematical values.
pub open spec fn records_outcome<S>(out: Result<Vec<EmbedData<S>>, EmbedError>) -> Result<
    Seq<EmbedDataView<S>>,
    EmbedError,
> {
    match out {
        Ok(records) => Ok(records_view(records@)),
        Err(e) => Err(e),
    }
}

impl<S> EmbedData<S> {
    /// A record of its three parts.
    pub fn new(embedding: Vec<S>, text: Option<String>, metadata: Option<Metadata>) -> (d:
        EmbedData<S>)
        ensures
            d.embedding == embedding,
            d.text == text,
            d.metadata == metadata,
    {
        EmbedData { embedding, text, metadata }
    }

    /// The vector.
    pub fn embedding(&self) -> (v: &Vec<S>)
        ensures
            *v == self.embedding,
    {
        &self.embedding
    }

    /// The text that was embedded.
    pub fn text(&self) -> (t: &Option<String>)
        ensures
            *t == self.text,
    {
        &self.text
    }

    /// Where the text came from.
    pub fn metadata(&self) -> (m: &Option<Metadata>)
        ensures
            *m == self.metadata,
    {
        &self.metadata
    }
}

/// The record of vector `i` with text `i` under the shared metadata.
pub open spec fn record_of<S>(
    vectors: Seq<Seq<S>>,
    texts: Seq<Seq<char>>,
    metadata: Option<Seq<(Seq<char>, Seq<char>)>>,
    i: int,
) -> EmbedDataView<S> {
    EmbedDataView { embedding: vectors[i], text: Some(texts[i]), metadata }
}

/// The records that stand for `vectors` and `texts`, one to one and in order,
/// each with the same metadata. Where the two differ in number, the backend
/// broke its contract.
pub open spec fn attached<S>(
    vectors: Seq<Seq<S>>,
    texts: Seq<Seq<char>>,
    metadata: Option<Seq<(Seq<char>, Seq<char>)>>,
) -> Result<Seq<EmbedDataView<S>>, EmbedError> {
    if vectors.len() == texts.len() {
        Ok(Seq::new(vectors.len(), |i: int| record_of(vectors, texts, metadata, i)))
    } else {
        Err(EmbedError::BackendCallError)
    }
}

/// What becomes of the outcome of an embedding call once texts and metadata
/// are attached: its error, or the records.
pub open spec fn attached_outcome<S>(
    encoded: Result<Seq<Seq<S>>, EmbedError>,
    texts: Seq<Seq<char>>,
    metadata: Option<Seq<(Seq<char>, Seq<char>)>>,
) -> Result<Seq<EmbedDataView<S>>, EmbedError> {
    match encoded {
        Ok(vectors) => attached(vectors, texts, metadata),
        Err(e) => Err(e),
    }
}

fn clone_metadata(metadata: &Option<Metadata>) -> (m: Option<Metadata>)
    ensures
        metadata_view(m) == metadata_view(*metadata),
{
    match metadata {
        Some(inner) => Some(inner.clone()),
        None => None,
    }
}

/// Attaches to each embedding its text and the metadata of the source.
///
/// Record `i` holds embedding `i`, text `i` and a copy of `metadata`. Where
/// there are not as many embeddings as texts nothing is attached and the call
/// fails with `BackendCallError`.
pub fn get_text_metadata<S>(
    encodings: Vec<EmbeddingResult<S>>,
    text_batch: &[String],
    metadata: &Option<Metadata>,
) -> (r: Result<Vec<EmbedData<S>>, EmbedError>)
    ensures
        records_outcome(r) == attached(
            results_view(encodings@),
            texts_view(text_batch@),
            metadata_view(*metadata),
        ),
{
    if encodings.len() != text_batch.len() {
        return Err(EmbedError::BackendCallError);
    }
    let ghost vectors = results_view(encodings@);
    let ghost texts = texts_view(text_batch@);
    let ghost meta = metadata_view(*metadata);
    let mut records: Vec<EmbedData<S>> = Vec::new();
    for encoding in it: encodings
        invariant
            it.seq() == encodings@,
            vectors == results_view(encodings@),
            texts == texts_view(text_batch@),
            meta == metadata_view(*metadata),
            encodings@.len() == text_batch@.len(),
            records@.len() == it.index(),
            forall|j: int|
                0 <= j < it.index() ==> (#[trigger] records@[j])@ == record_of(
                    vectors,
                    texts,
                    meta,
                    j,
                ),
    {
        let ghost i = it.index() as int;
        assert(encoding == encodings@[i]);
        let text = text_batch[records.len()].clone();
        let record = EmbedData {
            embedding: encoding.into_dense(),
            text: Some(text),
            metadata: clone_metadata(metadata),
        };
        assert(record@ == record_of(vectors, texts, meta, i));
        records.push(record);
    }
    assert(records_view(records@) =~= Seq::new(
        vectors.len(),
        |i: int| record_of(vectors, texts, meta, i),
    ));
    Ok(records)
}

/// The batch size that a configuration asks for: the default batch size
/// where there is no configuration.
pub open spec fn configured_batch_size<E>(config: Option<&TextEmbedConfig<E>>) -> Option<usize> {
    match config {
        Some(c) => c.batch_size,
        None => Some(crate::backend::DEFAULT_BATCH_SIZE),
    }
}

/// `r` is a possible result of embedding `texts` through `backend` in
/// sub-batches of `batch_size` and attaching `metadata` to each.
pub open spec fn embeds_with_metadata<B: BertEmbed>(
    backend: &B,
    texts: Seq<Seq<char>>,
    batch_size: Option<usize>,
    metadata: Option<Seq<(Seq<char>, Seq<char>)>>,
    r: Result<Seq<EmbedDataView<B::Scalar>>, EmbedError>,
) -> bool {
    if batch_size == Some(0usize) {
        r == Err::<Seq<EmbedDataView<B::Scalar>>, EmbedError>(EmbedError::ConfigurationError)
    } else {
        exists|encoded: Result<Seq<Seq<B::Scalar>>, EmbedError>|
            embeds(backend, texts, effective_batch_size(batch_size), encoded) && r
                == attached_outcome(encoded, texts, metadata)
    }
}

/// Embeds `texts` and attaches `metadata` to every record.
///
/// The texts go through the backend in sub-batches of `batch_size`. If any
/// forward pass fails the whole call fails: no subset of the texts is
/// returned.
pub fn embed_texts<B: BertEmbed>(
    backend: &B,
    texts: &[String],
    batch_size: Option<usize>,
    metadata: &Option<Metadata>,
) -> (r: Result<Vec<EmbedData<B::Scalar>>, EmbedError>)
    ensures
        embeds_with_metadata(
            backend,
            texts_view(texts@),
            batch_size,
            metadata_view(*metadata),
            records_outcome(r),
        ),
        r matches Ok(records) ==> records@.len() == texts@.len(),
{
    let encoded = embed(backend, texts, batch_size);
    let ghost seen = outcome_view(encoded);
    match encoded {
        Err(e) => Err(e),
        Ok(encodings) => {
            let r = get_text_metadata(encodings, texts, metadata);
            proof {
                assert(records_outcome(r) == attached_outcome(
                    seen,
                    texts_view(texts@),
                    metadata_view(*metadata),
                ));
                if r is Ok {
                    assert(records_view(r->Ok_0@).len() == r->Ok_0@.len());
                    assert(texts_view(texts@).len() == texts@.len());
                }
            }
            r
        },
    }
}

/// Embeds queries as they are, without chunking and without metadata.
///
/// The batch size is that of `config`, or the default where there is none.
pub fn embed_query<B: BertEmbed, E>(
    query: Vec<String>,
    embeder: &B,
    config: Option<&TextEmbedConfig<E>>,
) -> (r: Result<Vec<EmbedData<B::Scalar>>, EmbedError>)
    ensures
        embeds_with_metadata(
            embeder,
            texts_view(query@),
            configured_batch_size(config),
            None,
            records_outcome(r),
        ),
        r matches Ok(records) ==> records@.len() == query@.len(),
{
    let batch_size = match config {
        Some(c) => c.batch_size,
        None => Some(crate::backend::DEFAULT_BATCH_SIZE),
    };
    embed_texts(embeder, query.as_slice(), batch_size, &None)
}

} // verus!
