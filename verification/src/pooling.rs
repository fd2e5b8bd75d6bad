//! The integer side of pooling: which token positions count for a row.
//!
//! Pooling reduces the per-token output of a model to one vector per input.
//! The arithmetic on the components is the caller's; what is decided here is
//! which positions of a row take part, by how many a masked mean divides and
//! whether output and mask agree in shape.

use vstd::prelude::*;

verus! {

/// How per-token output is reduced to one vector.
#[derive(Clone, Copy, Debug, PartialEq, Eq)]
pub enum Pooling {
    /// The mean over the unmasked tokens.
    Mean,
    /// The first token.
    Cls,
    /// The last unmasked token.
    LastToken,
    /// The maximum over the unmasked tokens of `ln(1 + relu(x))`.
    SparseMax,
}

/// A position takes part when its mask value is not zero.
pub open spec fn is_unmasked(value: i64) -> bool {
    value != 0
}

/// The number of unmasked positions of a mask row.
pub open spec fn unmasked(mask: Seq<i64>) -> nat
    decreases mask.len(),
{
    if mask.len() == 0 {
        0
    } else {
        unmasked(mask.drop_last()) + if is_unmasked(mask.last()) {
            1nat
        } else {
            0nat
        }
    }
}

/// A row counts no unmasked position exactly when every position is masked
/// out: then, and only then, the mean divides by one in place of the count.
pub proof fn law_all_masked_row(mask: Seq<i64>)
    ensures
        unmasked(mask) == 0 <==> forall|i: int| 0 <= i < mask.len() ==> !is_unmasked(mask[i]),
        mean_divisor_of(mask) >= 1,
        unmasked(mask) > 0 ==> mean_divisor_of(mask) == unmasked(mask),
    decreases mask.len(),
{
    if mask.len() > 0 {
        let init = mask.drop_last();
        law_all_masked_row(init);
        if unmasked(mask) == 0 {
            assert forall|i: int| 0 <= i < mask.len() implies !is_unmasked(mask[i]) by {
                if i < init.len() {
                    assert(init[i] == mask[i]);
                }
            }
        }
        if forall|i: int| 0 <= i < mask.len() ==> !is_unmasked(mask[i]) {
            assert forall|i: int| 0 <= i < init.len() implies !is_unmasked(init[i]) by {
                assert(init[i] == mask[i]);
            }
            assert(!is_unmasked(mask.last()));
        }
    }
}

/// Counts the unmasked positions of a mask row.
pub fn unmasked_count(mask: &[i64]) -> (count: usize)
    ensures
        count == unmasked(mask@),
{
    let mut count: usize = 0;
    let mut i: usize = 0;
    while i < mask.len()
        invariant
            i <= mask@.len(),
            count == unmasked(mask@.take(i as int)),
            count <= i,
        decreases mask@.len() - i,
    {
        assert(mask@.take(i + 1).drop_last() =~= mask@.take(i as int));
        if mask[i] != 0 {
            count += 1;
        }
        i += 1;
    }
    assert(mask@.take(i as int) =~= mask@);
    count
}

/// The number by which a masked mean divides the sum of a row.
pub open spec fn mean_divisor_of(mask: Seq<i64>) -> nat {
    if unmasked(mask) == 0 {
        1
    } else {
        unmasked(mask)
    }
}

/// The divisor of the masked mean of a row: the number of its unmasked
/// positions, not its length, and one for a row where every position is
/// masked out. It is never zero, and the sum that it divides in such a row is
/// zero.
pub fn mean_divisor(mask: &[i64]) -> (divisor: usize)
    ensures
        divisor == mean_divisor_of(mask@),
        divisor >= 1,
{
    let count = unmasked_count(mask);
    if count == 0 {
        1
    } else {
        count
    }
}

/// `r` is the last unmasked position of `mask`, if it has one.
pub open spec fn is_last_unmasked(mask: Seq<i64>, r: Option<usize>) -> bool {
    match r {
        Some(i) => i < mask.len() && is_unmasked(mask[i as int]) && forall|j: int|
            i < j < mask.len() ==> !is_unmasked(mask[j]),
        None => forall|j: int| 0 <= j < mask.len() ==> !is_unmasked(mask[j]),
    }
}

/// Finds the last unmasked position of a mask row.
pub fn last_unmasked(mask: &[i64]) -> (r: Option<usize>)
    ensures
        is_last_unmasked(mask@, r),
{
    let mut i: usize = mask.len();
    while i > 0
        invariant
            i <= mask@.len(),
            forall|j: int| i <= j < mask@.len() ==> !is_unmasked(mask@[j]),
        decreases i,
    {
        if mask[i - 1] != 0 {
            return Some(i - 1);
        }
        i -= 1;
    }
    None
}

impl Pooling {
    /// `r` is the one position that the strategy reads from a row: the first
    /// for `Cls`, the last unmasked for `LastToken`, none for the strategies
    /// that reduce over all positions or where the row has no such position.
    pub open spec fn selects(self, mask: Seq<i64>, r: Option<usize>) -> bool {
        match self {
            Pooling::Cls => r == if mask.len() > 0 {
                Some(0usize)
            } else {
                None
            },
            Pooling::LastToken => is_last_unmasked(mask, r),
            Pooling::Mean | Pooling::SparseMax => r is None,
        }
    }

    /// The position that the strategy reads from a row with this mask.
    pub fn selected_token(&self, mask: &[i64]) -> (r: Option<usize>)
        ensures
            self.selects(mask@, r),
    {
        match self {
            Pooling::Cls => if mask.len() > 0 {
                Some(0)
            } else {
                None
            },
            Pooling::LastToken => last_unmasked(mask),
            Pooling::Mean => None,
            Pooling::SparseMax => None,
        }
    }
}

/// The mask has `rows` rows of `tokens` values each.
pub open spec fn mask_fits(rows: nat, tokens: nat, mask: Seq<Seq<i64>>) -> bool {
    mask.len() == rows && forall|i: int| 0 <= i < mask.len() ==> (#[trigger] mask[i]).len() == tokens
}

/// Whether an attention mask has the shape of a model output of `rows` rows
/// and `tokens` tokens per row.
pub fn shapes_agree(rows: usize, tokens: usize, mask: &Vec<Vec<i64>>) -> (r: bool)
    ensures
        r == mask_fits(rows as nat, tokens as nat, mask@.map_values(|row: Vec<i64>| row@)),
{
    let ghost m = mask@.map_values(|row: Vec<i64>| row@);
    if mask.len() != rows {
        return false;
    }
    let mut i: usize = 0;
    while i < mask.len()
        invariant
            i <= mask@.len(),
            mask@.len() == rows,
            m == mask@.map_values(|row: Vec<i64>| row@),
            forall|j: int| 0 <= j < i ==> (#[trigger] m[j]).len() == tokens,
        decreases mask@.len() - i,
    {
        if mask[i].len() != tokens {
            assert(m[i as int].len() != tokens);
            return false;
        }
        assert(m[i as int].len() == tokens);
        i += 1;
    }
    true
}

} // verus!
