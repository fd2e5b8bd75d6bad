//! The model backend abstraction and the batching policy.
//!
//! A backend embeds one sub-batch of texts at a time. [`embed`] cuts a batch
//! into sub-batches of a fixed size, hands them to the backend in order and
//! joins what comes back, so that the output order is the input order.

use crate::error::EmbedError;
use vstd::prelude::*;

verus! {

/// What a backend yields for one input.
#[derive(Debug, PartialEq)]
pub enum EmbeddingResult<S> {
    /// A dense vector, one component per dimension.
    DenseVector(Vec<S>),
}

impl<S> View for EmbeddingResult<S> {
    type V = Seq<S>;

    open spec fn view(&self) -> Seq<S> {
        match self {
            EmbeddingResult::DenseVector(v) => v@,
        }
    }
}

impl<S> EmbeddingResult<S> {
    /// The components of the vector, borrowed.
    pub fn as_dense(&self) -> (v: &Vec<S>)
        ensures
            v@ == self@,
    {
        match self {
            EmbeddingResult::DenseVector(v) => v,
        }
    }

    /// The components of the vector.
    pub fn into_dense(self) -> (v: Vec<S>)
        ensures
            v@ == self@,
    {
        match self {
            EmbeddingResult::DenseVector(v) => v,
        }
    }
}

/// The sub-batch size used when the caller names none.
pub const DEFAULT_BATCH_SIZE: usize = 32;

/// The characters of each text.
pub open spec fn texts_view(texts: Seq<String>) -> Seq<Seq<char>> {
    texts.map_values(|t: String| t@)
}

/// The components of each row.
pub open spec fn rows_view<S>(rows: Seq<Vec<S>>) -> Seq<Seq<S>> {
    rows.map_values(|r: Vec<S>| r@)
}

/// The components of each result.
pub open spec fn results_view<S>(results: Seq<EmbeddingResult<S>>) -> Seq<Seq<S>> {
    results.map_values(|r: EmbeddingResult<S>| r@)
}

/// The outcome of one forward pass, rows taken by their components.
pub open spec fn forward_view<S>(out: Result<Vec<Vec<S>>, EmbedError>) -> Result<
    Seq<Seq<S>>,
    EmbedError,
> {
    match out {
        Ok(rows) => Ok(rows_view(rows@)),
        Err(e) => Err(e),
    }
}

/// The outcome of a whole call, results taken by their components.
pub open spec fn outcome_view<S>(out: Result<Vec<EmbeddingResult<S>>, EmbedError>) -> Result<
    Seq<Seq<S>>,
    EmbedError,
> {
    match out {
        Ok(results) => Ok(results_view(results@)),
        Err(e) => Err(e),
    }
}

/// A model that turns texts into vectors, one sub-batch per call.
///
/// An implementation says in `forward_spec` what its forward pass may
/// return; one that says nothing promises nothing.
pub trait BertEmbed {
    /// The type of one vector component.
    type Scalar;

    /// Whether `out` is a possible outcome of a forward pass over `texts`.
    open spec fn forward_spec(
        &self,
        texts: Seq<Seq<char>>,
        out: Result<Seq<Seq<Self::Scalar>>, EmbedError>,
    ) -> bool {
        true
    }

    /// Embeds one sub-batch: on success one row per text, in order.
    fn forward(&self, texts: &[String]) -> (out: Result<Vec<Vec<Self::Scalar>>, EmbedError>)
        ensures
            self.forward_spec(texts_view(texts@), forward_view(out)),
    ;
}

/// A text model that also judges whether two neighbouring pieces of text
/// belong together.
///
/// An implementation says in `cohesive_spec` how it judges; one that says
/// nothing promises nothing.
pub trait SemanticEncoder: BertEmbed {
    /// Whether `r` is a possible judgement on the vectors of two neighbours.
    open spec fn cohesive_spec(
        &self,
        left: Seq<Self::Scalar>,
        right: Seq<Self::Scalar>,
        r: bool,
    ) -> bool {
        true
    }

    /// Whether the similarity of two vectors is above the threshold under
    /// which a new chunk starts.
    fn cohesive(&self, left: &Vec<Self::Scalar>, right: &Vec<Self::Scalar>) -> (r: bool)
        ensures
            self.cohesive_spec(left@, right@, r),
    ;
}

/// The encoder of a configuration that has none: it embeds nothing and
/// judges no two texts to belong together.
#[derive(Clone, Copy, Debug, PartialEq, Eq)]
pub struct NoEncoder;

impl BertEmbed for NoEncoder {
    type Scalar = u8;

    open spec fn forward_spec(
        &self,
        texts: Seq<Seq<char>>,
        out: Result<Seq<Seq<u8>>, EmbedError>,
    ) -> bool {
        out == Err::<Seq<Seq<u8>>, EmbedError>(EmbedError::InvalidModelSelection)
    }

    fn forward(&self, texts: &[String]) -> (out: Result<Vec<Vec<u8>>, EmbedError>) {
        Err(EmbedError::InvalidModelSelection)
    }
}

impl SemanticEncoder for NoEncoder {
    open spec fn cohesive_spec(&self, left: Seq<u8>, right: Seq<u8>, r: bool) -> bool {
        !r
    }

    fn cohesive(&self, left: &Vec<u8>, right: &Vec<u8>) -> (r: bool) {
        false
    }
}

/// The outcome of embedding one image, the vector taken by its components.
pub open spec fn image_view<S>(out: Result<Vec<S>, EmbedError>) -> Result<Seq<S>, EmbedError> {
    match out {
        Ok(v) => Ok(v@),
        Err(e) => Err(e),
    }
}

/// A model that turns an image file into a vector.
///
/// An implementation says in `image_spec` what it may return; one that says
/// nothing promises nothing.
pub trait EmbedImage {
    /// The type of one vector component.
    type Scalar;

    /// Whether `out` is a possible outcome of embedding the image at `path`.
    open spec fn image_spec(&self, path: Seq<char>, out: Result<Seq<Self::Scalar>, EmbedError>) -> bool {
        true
    }

    /// Embeds the image at `path`.
    fn embed_image(&self, path: &str) -> (out: Result<Vec<Self::Scalar>, EmbedError>)
        ensures
            self.image_spec(path@, image_view(out)),
    ;
}

/// The image model of a backend that has none: it refuses every image.
pub struct NoImages<S> {
    pub scalar: core::marker::PhantomData<S>,
}

impl<S> NoImages<S> {
    /// The image model that refuses every image.
    pub fn new() -> (m: NoImages<S>)
        ensures
            m == (NoImages::<S> { scalar: core::marker::PhantomData::<S> }),
    {
        NoImages { scalar: core::marker::PhantomData }
    }
}

impl<S> EmbedImage for NoImages<S> {
    type Scalar = S;

    open spec fn image_spec(&self, path: Seq<char>, out: Result<Seq<S>, EmbedError>) -> bool {
        out == Err::<Seq<S>, EmbedError>(EmbedError::InvalidModelSelection)
    }

    fn embed_image(&self, path: &str) -> (out: Result<Vec<S>, EmbedError>) {
        Err(EmbedError::InvalidModelSelection)
    }
}

/// The sub-batch size that `batch_size` stands for.
pub open spec fn effective_batch_size(batch_size: Option<usize>) -> nat {
    match batch_size {
        Some(b) => b as nat,
        None => DEFAULT_BATCH_SIZE as nat,
    }
}

/// Where sub-batch `k` ends in a batch of `n` items cut into pieces of `b`.
pub open spec fn batch_end(n: nat, b: nat, k: int) -> int {
    if (k + 1) * b <= n {
        (k + 1) * b
    } else {
        n as int
    }
}

/// Sub-batch `k` of `items` cut into pieces of `b`.
pub open spec fn sub_batch<T>(items: Seq<T>, b: nat, k: int) -> Seq<T> {
    items.subrange(k * b, batch_end(items.len(), b, k))
}

/// A forward pass is accepted when it succeeds with one row per text.
pub open spec fn accepted<S>(expected: nat, out: Result<Seq<Seq<S>>, EmbedError>) -> bool {
    out matches Ok(rows) && rows.len() == expected
}

/// The error that a forward pass which is not accepted stands for: its own,
/// or `BackendCallError` where it returned the wrong number of rows.
pub open spec fn rejection<S>(out: Result<Seq<Seq<S>>, EmbedError>) -> EmbedError {
    match out {
        Err(e) => e,
        Ok(_) => EmbedError::BackendCallError,
    }
}

/// The parts joined in order.
pub open spec fn joined<T>(parts: Seq<Seq<T>>) -> Seq<T>
    decreases parts.len(),
{
    if parts.len() == 0 {
        Seq::empty()
    } else {
        joined(parts.drop_last()) + parts.last()
    }
}

/// The rows of each outcome, empty for a failed one.
pub open spec fn rows_of<S>(outs: Seq<Result<Seq<Seq<S>>, EmbedError>>) -> Seq<Seq<Seq<S>>> {
    outs.map_values(
        |o: Result<Seq<Seq<S>>, EmbedError>|
            match o {
                Ok(rows) => rows,
                Err(_) => Seq::empty(),
            },
    )
}

/// `outs` lists what the forward passes returned when `texts` went through
/// `backend` in sub-batches of `b`: one outcome per sub-batch in order, every
/// one but the last accepted, and the list stops early only behind one that
/// was not.
pub open spec fn is_run<B: BertEmbed>(
    backend: &B,
    texts: Seq<Seq<char>>,
    b: nat,
    outs: Seq<Result<Seq<Seq<B::Scalar>>, EmbedError>>,
) -> bool {
    &&& outs.len() > 0 ==> (outs.len() - 1) * b < texts.len()
    &&& forall|k: int|
        0 <= k < outs.len() ==> backend.forward_spec(sub_batch(texts, b, k), #[trigger] outs[k])
    &&& forall|k: int|
        0 <= k < outs.len() - 1 ==> accepted(sub_batch(texts, b, k).len(), #[trigger] outs[k])
    &&& outs.len() * b < texts.len() ==> outs.len() > 0 && !accepted(
        sub_batch(texts, b, outs.len() - 1).len(),
        outs.last(),
    )
}

/// What a run amounts to: the error of a last outcome that was not accepted,
/// else all rows in order.
pub open spec fn run_outcome<S>(
    texts: Seq<Seq<char>>,
    b: nat,
    outs: Seq<Result<Seq<Seq<S>>, EmbedError>>,
) -> Result<Seq<Seq<S>>, EmbedError> {
    if outs.len() > 0 && !accepted(sub_batch(texts, b, outs.len() - 1).len(), outs.last()) {
        Err(rejection(outs.last()))
    } else {
        Ok(joined(rows_of(outs)))
    }
}

/// `r` is a possible result of embedding `texts` through `backend` in
/// sub-batches of `b`.
pub open spec fn embeds<B: BertEmbed>(
    backend: &B,
    texts: Seq<Seq<char>>,
    b: nat,
    r: Result<Seq<Seq<B::Scalar>>, EmbedError>,
) -> bool {
    exists|outs: Seq<Result<Seq<Seq<B::Scalar>>, EmbedError>>|
        is_run(backend, texts, b, outs) && r == run_outcome(texts, b, outs)
}

/// Takes in the outcome of one forward pass over `expected` texts.
///
/// An accepted outcome appends its rows to `encodings`, in order. Any other
/// leaves `encodings` as it was and gives the error.
pub fn absorb<S>(
    encodings: &mut Vec<EmbeddingResult<S>>,
    expected: usize,
    out: Result<Vec<Vec<S>>, EmbedError>,
) -> (r: Result<(), EmbedError>)
    ensures
        match r {
            Ok(_) => accepted(expected as nat, forward_view(out)) && results_view(
                final(encodings)@,
            ) == results_view(old(encodings)@) + forward_view(out)->Ok_0,
            Err(e) => !accepted(expected as nat, forward_view(out)) && e == rejection(
                forward_view(out),
            ) && final(encodings)@ == old(encodings)@,
        },
{
    match out {
        Err(e) => Err(e),
        Ok(rows) => {
            if rows.len() != expected {
                return Err(EmbedError::BackendCallError);
            }
            let ghost before = results_view(encodings@);
            let ghost added = rows_view(rows@);
            for row in it: rows
                invariant
                    it.seq() == rows@,
                    results_view(encodings@) == before + added.take(it.index() as int),
                    added == rows_view(rows@),
            {
                let ghost i = it.index() as int;
                let ghost prev = encodings@;
                assert(row == rows@[i]);
                encodings.push(EmbeddingResult::DenseVector(row));
                assert(results_view(encodings@) =~= results_view(prev).push(row@));
                assert(added.take(i + 1) =~= added.take(i).push(added[i]));
                assert(results_view(encodings@) =~= before + added.take(i + 1));
            }
            assert(added.take(added.len() as int) =~= added);
            Ok(())
        },
    }
}

/// Joining after one more part appends that part.
pub proof fn lemma_joined_push<T>(parts: Seq<Seq<T>>, part: Seq<T>)
    ensures
        joined(parts.push(part)) == joined(parts) + part,
{
    assert(parts.push(part).drop_last() =~= parts);
}

/// Embeds `text_batch` through `backend` in sub-batches.
///
/// The batch is cut into sub-batches of `batch_size` texts, or of
/// `DEFAULT_BATCH_SIZE` where none is given; only the last may be shorter.
/// Each goes through one forward pass, in order, and the rows are joined in
/// that order. The first forward pass that fails, or returns another number
/// of rows than it was given texts, ends the call with its error: there is no
/// partial result. A batch size of zero is a configuration error.
pub fn embed<B: BertEmbed>(backend: &B, text_batch: &[String], batch_size: Option<usize>) -> (r:
    Result<Vec<EmbeddingResult<B::Scalar>>, EmbedError>)
    ensures
        batch_size == Some(0usize) ==> outcome_view(r) == Err::<Seq<Seq<B::Scalar>>, EmbedError>(
            EmbedError::ConfigurationError,
        ),
        batch_size != Some(0usize) ==> embeds(
            backend,
            texts_view(text_batch@),
            effective_batch_size(batch_size),
            outcome_view(r),
        ),
        r matches Ok(results) ==> results@.len() == text_batch@.len(),
{
    let size = match batch_size {
        Some(b) => b,
        None => DEFAULT_BATCH_SIZE,
    };
    if size == 0 {
        return Err(EmbedError::ConfigurationError);
    }
    let n = text_batch.len();
    let ghost texts = texts_view(text_batch@);
    let ghost b = size as nat;
    let mut encodings: Vec<EmbeddingResult<B::Scalar>> = Vec::new();
    let mut start: usize = 0;
    let ghost mut outs: Seq<Result<Seq<Seq<B::Scalar>>, EmbedError>> = Seq::empty();
    assert(results_view(encodings@) =~= joined(rows_of(outs)));
    assert(batch_end(n as nat, b, -1) == 0) by {
        assert((-1 + 1) * b == 0) by (nonlinear_arith);
    }
    while start < n
        invariant
            n == text_batch@.len(),
            b == size,
            size > 0,
            batch_size != Some(0usize),
            b == effective_batch_size(batch_size),
            texts == texts_view(text_batch@),
            start <= n,
            start == batch_end(n as nat, b, outs.len() - 1),
            outs.len() > 0 ==> (outs.len() - 1) * b < n,
            forall|k: int|
                0 <= k < outs.len() ==> backend.forward_spec(
                    sub_batch(texts, b, k),
                    #[trigger] outs[k],
                ),
            forall|k: int|
                0 <= k < outs.len() ==> accepted(sub_batch(texts, b, k).len(), #[trigger] outs[k]),
            results_view(encodings@) == joined(rows_of(outs)),
            encodings@.len() == start,
        decreases n - start,
    {
        let ghost k = outs.len() as int;
        assert(start == k * b);
        assert((k + 1) * b == k * b + b) by (nonlinear_arith);
        let end = if n - start > size {
            start + size
        } else {
            n
        };
        assert(end == batch_end(n as nat, b, k));
        let sub = &text_batch[start..end];
        assert(texts_view(sub@) =~= sub_batch(texts, b, k));
        let out = backend.forward(sub);
        let ghost o = forward_view(out);
        let ghost before = outs;
        let ghost held = results_view(encodings@);
        assert(held.len() == start);
        match absorb(&mut encodings, end - start, out) {
            Err(e) => {
                proof {
                    outs = before.push(o);
                    assert(outs.last() == o);
                    assert forall|j: int| 0 <= j < outs.len() implies backend.forward_spec(
                        sub_batch(texts, b, j),
                        #[trigger] outs[j],
                    ) by {
                        if j < k {
                            assert(outs[j] == before[j]);
                        }
                    }
                    assert forall|j: int| 0 <= j < outs.len() - 1 implies accepted(
                        sub_batch(texts, b, j).len(),
                        #[trigger] outs[j],
                    ) by {
                        assert(outs[j] == before[j]);
                    }
                    assert(is_run(backend, texts, b, outs));
                    assert(run_outcome(texts, b, outs) == Err::<Seq<Seq<B::Scalar>>, EmbedError>(e));
                }
                return Err(e);
            },
            Ok(_) => {
                proof {
                    outs = before.push(o);
                    assert forall|j: int| 0 <= j < outs.len() implies backend.forward_spec(
                        sub_batch(texts, b, j),
                        #[trigger] outs[j],
                    ) && accepted(sub_batch(texts, b, j).len(), outs[j]) by {
                        if j < k {
                            assert(outs[j] == before[j]);
                        }
                    }
                    assert(rows_of(outs) =~= rows_of(before).push(o->Ok_0));
                    lemma_joined_push(rows_of(before), o->Ok_0);
                    assert(results_view(encodings@).len() == held.len() + (end - start));
                }
            },
        }
        start = end;
    }
    proof {
        assert(is_run(backend, texts, b, outs));
        if outs.len() > 0 {
            assert(accepted(sub_batch(texts, b, outs.len() - 1).len(), outs[outs.len() - 1]));
        }
        assert(run_outcome(texts, b, outs) == Ok::<Seq<Seq<B::Scalar>>, EmbedError>(
            results_view(encodings@),
        ));
    }
    Ok(encodings)
}

/// A backend is itemwise under `g` when every forward pass succeeds with the
/// vector `g(text)` for each text, whatever else is in the sub-batch.
pub open spec fn itemwise<B: BertEmbed>(
    backend: &B,
    g: spec_fn(Seq<char>) -> Seq<B::Scalar>,
) -> bool {
    forall|texts: Seq<Seq<char>>, out: Result<Seq<Seq<B::Scalar>>, EmbedError>|
        #[trigger] backend.forward_spec(texts, out) ==> out == Ok::<
            Seq<Seq<B::Scalar>>,
            EmbedError,
        >(texts.map_values(g))
}

proof fn lemma_joined_prefix<S>(
    texts: Seq<Seq<char>>,
    g: spec_fn(Seq<char>) -> Seq<S>,
    b: nat,
    outs: Seq<Result<Seq<Seq<S>>, EmbedError>>,
    j: int,
)
    requires
        b > 0,
        0 <= j <= outs.len(),
        outs.len() > 0 ==> (outs.len() - 1) * b < texts.len(),
        forall|k: int|
            0 <= k < outs.len() ==> #[trigger] outs[k] == Ok::<Seq<Seq<S>>, EmbedError>(
                sub_batch(texts, b, k).map_values(g),
            ),
    ensures
        joined(rows_of(outs.take(j))) == texts.map_values(g).subrange(
            0,
            batch_end(texts.len(), b, j - 1),
        ),
        0 <= batch_end(texts.len(), b, j - 1) <= texts.len(),
    decreases j,
{
    let n = texts.len();
    let all = texts.map_values(g);
    if j == 0 {
        assert(rows_of(outs.take(0)) =~= Seq::<Seq<Seq<S>>>::empty());
        assert(batch_end(n, b, -1) == 0) by (nonlinear_arith)
            requires
                batch_end(n, b, -1) == (if (-1 + 1) * b <= n {
                    (-1 + 1) * b
                } else {
                    n as int
                }),
        ;
        assert(all.subrange(0, 0) =~= Seq::<Seq<S>>::empty());
    } else {
        lemma_joined_prefix(texts, g, b, outs, j - 1);
        let lo = (j - 1) * b;
        let hi = batch_end(n, b, j - 1);
        assert(lo < n) by (nonlinear_arith)
            requires
                lo == (j - 1) * b,
                j - 1 <= outs.len() - 1,
                (outs.len() - 1) * b < n,
                b > 0,
        ;
        assert(batch_end(n, b, j - 2) == lo) by {
            assert((j - 2 + 1) * b == lo) by (nonlinear_arith)
                requires
                    lo == (j - 1) * b,
            ;
        }
        assert(lo < hi <= n && hi <= lo + b) by (nonlinear_arith)
            requires
                lo == (j - 1) * b,
                lo < n,
                b > 0,
                hi == (if (j - 1 + 1) * b <= n {
                    (j - 1 + 1) * b
                } else {
                    n as int
                }),
        ;
        let part = sub_batch(texts, b, j - 1).map_values(g);
        assert(outs.take(j).last() == outs[j - 1]);
        assert(rows_of(outs.take(j)) =~= rows_of(outs.take(j - 1)).push(part));
        lemma_joined_push(rows_of(outs.take(j - 1)), part);
        assert(part =~= all.subrange(lo, hi));
        assert(all.subrange(0, lo) + all.subrange(lo, hi) =~= all.subrange(0, hi));
    }
}

/// The batch size does not change the result: where the backend is itemwise
/// under `g`, embedding `texts` in sub-batches of any positive size gives
/// `g` of each text, in the order of the texts. So two calls that differ in
/// their batch size alone give the same vectors.
pub proof fn law_batch_size_does_not_change_result<B: BertEmbed>(
    backend: &B,
    g: spec_fn(Seq<char>) -> Seq<B::Scalar>,
    texts: Seq<Seq<char>>,
    b1: nat,
    b2: nat,
    r1: Result<Seq<Seq<B::Scalar>>, EmbedError>,
    r2: Result<Seq<Seq<B::Scalar>>, EmbedError>,
)
    requires
        itemwise(backend, g),
        b1 > 0,
        b2 > 0,
        embeds(backend, texts, b1, r1),
        embeds(backend, texts, b2, r2),
    ensures
        r1 == r2,
        r1 == Ok::<Seq<Seq<B::Scalar>>, EmbedError>(texts.map_values(g)),
{
    lemma_itemwise_result(backend, g, texts, b1, r1);
    lemma_itemwise_result(backend, g, texts, b2, r2);
}

proof fn lemma_itemwise_result<B: BertEmbed>(
    backend: &B,
    g: spec_fn(Seq<char>) -> Seq<B::Scalar>,
    texts: Seq<Seq<char>>,
    b: nat,
    r: Result<Seq<Seq<B::Scalar>>, EmbedError>,
)
    requires
        itemwise(backend, g),
        b > 0,
        embeds(backend, texts, b, r),
    ensures
        r == Ok::<Seq<Seq<B::Scalar>>, EmbedError>(texts.map_values(g)),
{
    let outs = choose|outs: Seq<Result<Seq<Seq<B::Scalar>>, EmbedError>>|
        is_run(backend, texts, b, outs) && r == run_outcome(texts, b, outs);
    let n = texts.len();
    let len = outs.len() as int;
    assert forall|k: int| 0 <= k < outs.len() implies #[trigger] outs[k] == Ok::<
        Seq<Seq<B::Scalar>>,
        EmbedError,
    >(sub_batch(texts, b, k).map_values(g)) by {
        assert(backend.forward_spec(sub_batch(texts, b, k), outs[k]));
    }
    if len > 0 {
        assert(accepted(sub_batch(texts, b, len - 1).len(), outs.last()));
    }
    assert(len * b >= n);
    lemma_joined_prefix(texts, g, b, outs, len);
    assert(outs.take(len) =~= outs);
    assert(batch_end(n, b, len - 1) == n) by (nonlinear_arith)
        requires
            len * b >= n,
            len > 0 ==> (len - 1) * b < n,
            len >= 0,
            b > 0,
            batch_end(n, b, len - 1) == (if (len - 1 + 1) * b <= n {
                (len - 1 + 1) * b
            } else {
                n as int
            }),
    ;
    assert(texts.map_values(g).subrange(0, n as int) =~= texts.map_values(g));
}

} // verus!
