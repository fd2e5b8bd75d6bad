//! Option sets for text and image embedding, resolved with their defaults when
//! they are made.

use crate::error::EmbedError;
use crate::text::same_text;
use vstd::prelude::*;

verus! {

/// The chunk size used when the caller names none.
pub const DEFAULT_CHUNK_SIZE: usize = 256;

/// The number of results buffered before a flush when the caller names none.
pub const DEFAULT_BUFFER_SIZE: usize = 100;

/// How a document is cut into chunks.
#[derive(Clone, Copy, Debug, PartialEq, Eq)]
pub enum SplittingStrategy {
    /// By length, along sentence boundaries.
    Sentence,
    /// By similarity of neighbouring sentences under a semantic encoder.
    Semantic,
}

impl SplittingStrategy {
    /// The strategy that a name stands for.
    pub open spec fn named(name: Seq<char>) -> Option<SplittingStrategy> {
        if name == "sentence"@ {
            Some(SplittingStrategy::Sentence)
        } else if name == "semantic"@ {
            Some(SplittingStrategy::Semantic)
        } else {
            None
        }
    }

    /// Reads a strategy by its name: `sentence` or `semantic`.
    pub fn from_name(name: &str) -> (r: Option<SplittingStrategy>)
        ensures
            r == Self::named(name@),
    {
        if same_text(name, "sentence") {
            Some(SplittingStrategy::Sentence)
        } else if same_text(name, "semantic") {
            Some(SplittingStrategy::Semantic)
        } else {
            None
        }
    }
}

/// A ratio in `[0, 1)`, held as an exact fraction.
#[derive(Clone, Copy, Debug, PartialEq, Eq)]
pub struct OverlapRatio {
    numerator: u32,
    denominator: u32,
}

impl OverlapRatio {
    #[verifier::type_invariant]
    spec fn inv(self) -> bool {
        self.numerator < self.denominator
    }

    /// The numerator of the fraction.
    pub closed spec fn top(self) -> nat {
        self.numerator as nat
    }

    /// The denominator of the fraction.
    pub closed spec fn bottom(self) -> nat {
        self.denominator as nat
    }

    /// The share of `size` that the ratio stands for, rounded down.
    pub open spec fn share_of(self, size: nat) -> nat {
        (size * self.top()) / self.bottom()
    }

    /// The fraction `numerator / denominator`, where it lies in `[0, 1)`.
    pub fn new(numerator: u32, denominator: u32) -> (r: Option<OverlapRatio>)
        ensures
            r is Some <==> numerator < denominator,
            r matches Some(ratio) ==> ratio.top() == numerator && ratio.bottom() == denominator,
    {
        if numerator < denominator {
            Some(OverlapRatio { numerator, denominator })
        } else {
            None
        }
    }

    /// The ratio zero: no overlap.
    pub fn zero() -> (ratio: OverlapRatio)
        ensures
            ratio.top() == 0,
            ratio.bottom() == 1,
    {
        OverlapRatio { numerator: 0, denominator: 1 }
    }

    /// The numerator and the denominator.
    pub fn parts(&self) -> (p: (u32, u32))
        ensures
            p.0 == self.top(),
            p.1 == self.bottom(),
            p.0 < p.1,
    {
        proof {
            use_type_invariant(self);
        }
        (self.numerator, self.denominator)
    }

    /// The number of items out of `size` that the ratio stands for, rounded
    /// down: always fewer than `size`.
    pub fn overlap_for(&self, size: usize) -> (r: usize)
        ensures
            r == self.share_of(size as nat),
            size > 0 ==> r < size,
            size == 0 ==> r == 0,
    {
        proof {
            use_type_invariant(self);
        }
        let s: u128 = size as u128;
        let t: u128 = self.numerator as u128;
        let d: u128 = self.denominator as u128;
        assert(s * t <= 0xffff_ffff_ffff_ffff * 0xffff_ffff) by (nonlinear_arith)
            requires
                0 <= s <= 0xffff_ffff_ffff_ffff,
                0 <= t <= 0xffff_ffff,
        ;
        let q: u128 = (s * t) / d;
        proof {
            lemma_share_is_less(s as nat, t as nat, d as nat);
        }
        q as usize
    }
}

/// A share under a ratio below one is smaller than the whole.
pub proof fn lemma_share_is_less(size: nat, top: nat, bottom: nat)
    requires
        top < bottom,
    ensures
        (size * top) / bottom <= size,
        size > 0 ==> (size * top) / bottom < size,
{
    let q = (size * top) / bottom;
    vstd::arithmetic::div_mod::lemma_fundamental_div_mod((size * top) as int, bottom as int);
    vstd::arithmetic::div_mod::lemma_mod_bound((size * top) as int, bottom as int);
    assert(bottom * q <= size * top);
    if size > 0 {
        assert(size * top < size * bottom) by (nonlinear_arith)
            requires
                size > 0,
                top < bottom,
        ;
        assert(q < size) by (nonlinear_arith)
            requires
                bottom * q < size * bottom,
                bottom > 0,
        ;
    } else {
        assert(size * top == 0) by (nonlinear_arith)
            requires
                size == 0,
        ;
        assert(q == 0) by (nonlinear_arith)
            requires
                bottom * q <= 0,
                bottom > 0,
                q >= 0,
        ;
    }
}

/// Options for embedding text.
pub struct TextEmbedConfig<E> {
    /// The largest number of characters in a chunk.
    pub chunk_size: Option<usize>,
    /// The number of texts handed to the backend at once.
    pub batch_size: Option<usize>,
    /// The number of results buffered before a flush to a sink.
    pub buffer_size: Option<usize>,
    /// The share of the chunk size that neighbouring chunks have in common.
    pub overlap_ratio: Option<OverlapRatio>,
    /// How text is cut into chunks.
    pub splitting_strategy: Option<SplittingStrategy>,
    /// The model that judges similarity for the semantic strategy.
    pub semantic_encoder: Option<E>,
    /// Whether scanned documents go through text recognition.
    pub use_ocr: Option<bool>,
    /// Where the text recognition tool is installed.
    pub tesseract_path: Option<String>,
}

/// The characters of an optional string slice.
pub open spec fn opt_text(s: Option<&str>) -> Option<Seq<char>> {
    match s {
        Some(t) => Some(t@),
        None => None,
    }
}

/// The characters of an optional string.
pub open spec fn opt_string(s: Option<String>) -> Option<Seq<char>> {
    match s {
        Some(t) => Some(t@),
        None => None,
    }
}

/// The strategy that an optional name stands for: the sentence strategy
/// unless the name is that of another.
pub open spec fn resolved_strategy(name: Option<&str>) -> SplittingStrategy {
    match name {
        Some(n) => match SplittingStrategy::named(n@) {
            Some(s) => s,
            None => SplittingStrategy::Sentence,
        },
        None => SplittingStrategy::Sentence,
    }
}

impl<E> TextEmbedConfig<E> {
    /// Every size is set and positive, and the semantic strategy has its
    /// encoder.
    pub open spec fn wf(&self) -> bool {
        &&& self.chunk_size matches Some(c) && c > 0
        &&& self.batch_size matches Some(b) && b > 0
        &&& self.buffer_size is Some
        &&& self.splitting_strategy is Some
        &&& self.use_ocr is Some
        &&& self.splitting_strategy == Some(SplittingStrategy::Semantic)
            ==> self.semantic_encoder is Some
    }

    /// Whether the arguments of [`TextEmbedConfig::new`] contradict each other
    /// or hold a size of zero.
    pub open spec fn rejects(
        chunk_size: Option<usize>,
        batch_size: Option<usize>,
        splitting_strategy: Option<&str>,
        semantic_encoder: Option<E>,
    ) -> bool {
        ||| chunk_size == Some(0usize)
        ||| batch_size == Some(0usize)
        ||| resolved_strategy(splitting_strategy) == SplittingStrategy::Semantic
            && semantic_encoder is None
    }

    /// Makes a configuration, with the default for each option left out.
    ///
    /// The chunk size defaults to 256, the batch size to 32, the buffer size
    /// to 100, the strategy to the sentence strategy (also where its name is
    /// not known) and text recognition to off. A chunk or batch size of zero,
    /// or the semantic strategy without a semantic encoder, is a
    /// configuration error.
    pub fn new(
        chunk_size: Option<usize>,
        batch_size: Option<usize>,
        buffer_size: Option<usize>,
        overlap_ratio: Option<OverlapRatio>,
        splitting_strategy: Option<&str>,
        semantic_encoder: Option<E>,
        use_ocr: Option<bool>,
        tesseract_path: Option<&str>,
    ) -> (r: Result<TextEmbedConfig<E>, EmbedError>)
        ensures
            Self::rejects(chunk_size, batch_size, splitting_strategy, semantic_encoder) ==> (r
                matches Err(EmbedError::ConfigurationError)),
            !Self::rejects(chunk_size, batch_size, splitting_strategy, semantic_encoder) ==> (r
                matches Ok(c) && {
                &&& c.wf()
                &&& c.chunk_size == Some(
                    match chunk_size {
                        Some(v) => v,
                        None => DEFAULT_CHUNK_SIZE,
                    },
                )
                &&& c.batch_size == Some(
                    match batch_size {
                        Some(v) => v,
                        None => crate::backend::DEFAULT_BATCH_SIZE,
                    },
                )
                &&& c.buffer_size == Some(
                    match buffer_size {
                        Some(v) => v,
                        None => DEFAULT_BUFFER_SIZE,
                    },
                )
                &&& c.overlap_ratio == overlap_ratio
                &&& c.splitting_strategy == Some(resolved_strategy(splitting_strategy))
                &&& c.semantic_encoder == semantic_encoder
                &&& c.use_ocr == Some(
                    match use_ocr {
                        Some(v) => v,
                        None => false,
                    },
                )
                &&& opt_string(c.tesseract_path) == opt_text(tesseract_path)
            }),
    {
        let strategy = match splitting_strategy {
            Some(name) => match SplittingStrategy::from_name(name) {
                Some(s) => s,
                None => SplittingStrategy::Sentence,
            },
            None => SplittingStrategy::Sentence,
        };
        let is_semantic = match strategy {
            SplittingStrategy::Semantic => true,
            SplittingStrategy::Sentence => false,
        };
        if is_semantic && semantic_encoder.is_none() {
            return Err(EmbedError::ConfigurationError);
        }
        let chunk = match chunk_size {
            Some(v) => v,
            None => DEFAULT_CHUNK_SIZE,
        };
        let batch = match batch_size {
            Some(v) => v,
            None => crate::backend::DEFAULT_BATCH_SIZE,
        };
        if chunk == 0 || batch == 0 {
            return Err(EmbedError::ConfigurationError);
        }
        let buffer = match buffer_size {
            Some(v) => v,
            None => DEFAULT_BUFFER_SIZE,
        };
        let ocr = match use_ocr {
            Some(v) => v,
            None => false,
        };
        let path = match tesseract_path {
            Some(p) => Some(String::from_str(p)),
            None => None,
        };
        Ok(
            TextEmbedConfig {
                chunk_size: Some(chunk),
                batch_size: Some(batch),
                buffer_size: Some(buffer),
                overlap_ratio,
                splitting_strategy: Some(strategy),
                semantic_encoder,
                use_ocr: Some(ocr),
                tesseract_path: path,
            },
        )
    }

    /// The largest number of characters in a chunk.
    pub fn chunk_size(&self) -> (r: Option<usize>)
        ensures
            r == self.chunk_size,
    {
        self.chunk_size
    }

    /// The number of texts handed to the backend at once.
    pub fn batch_size(&self) -> (r: Option<usize>)
        ensures
            r == self.batch_size,
    {
        self.batch_size
    }
}

impl<E> Default for TextEmbedConfig<E> {
    /// The configuration with every default and no semantic encoder.
    fn default() -> (c: TextEmbedConfig<E>)
        ensures
            c.wf(),
            c.chunk_size == Some(DEFAULT_CHUNK_SIZE),
            c.batch_size == Some(crate::backend::DEFAULT_BATCH_SIZE),
            c.buffer_size == Some(DEFAULT_BUFFER_SIZE),
            c.overlap_ratio is None,
            c.splitting_strategy == Some(SplittingStrategy::Sentence),
            c.semantic_encoder is None,
            c.use_ocr == Some(false),
            c.tesseract_path is None,
    {
        TextEmbedConfig {
            chunk_size: Some(DEFAULT_CHUNK_SIZE),
            batch_size: Some(crate::backend::DEFAULT_BATCH_SIZE),
            buffer_size: Some(DEFAULT_BUFFER_SIZE),
            overlap_ratio: None,
            splitting_strategy: Some(SplittingStrategy::Sentence),
            semantic_encoder: None,
            use_ocr: Some(false),
            tesseract_path: None,
        }
    }
}

/// Options for embedding images.
#[derive(Clone, Copy, Debug, PartialEq, Eq)]
pub struct ImageEmbedConfig {
    /// The number of results buffered before a flush to a sink.
    pub buffer_size: Option<usize>,
}

impl ImageEmbedConfig {
    /// Makes a configuration; the buffer size defaults to 100.
    pub fn new(buffer_size: Option<usize>) -> (c: ImageEmbedConfig)
        ensures
            c.buffer_size == Some(
                match buffer_size {
                    Some(v) => v,
                    None => DEFAULT_BUFFER_SIZE,
                },
            ),
    {
        let buffer = match buffer_size {
            Some(v) => v,
            None => DEFAULT_BUFFER_SIZE,
        };
        ImageEmbedConfig { buffer_size: Some(buffer) }
    }

    /// The number of results buffered before a flush to a sink.
    pub fn buffer_size(&self) -> (r: Option<usize>)
        ensures
            r == self.buffer_size,
    {
        self.buffer_size
    }
}

impl Default for ImageEmbedConfig {
    fn default() -> (c: ImageEmbedConfig)
        ensures
            c.buffer_size == Some(DEFAULT_BUFFER_SIZE),
    {
        ImageEmbedConfig { buffer_size: Some(DEFAULT_BUFFER_SIZE) }
    }
}

} // verus!
