use vstd::prelude::*;

use crate::error::ChromaError;
use crate::frames::{
    frame_width, has_width, is_rectangular, rotate_chroma, rotated, rows, stack_chroma_frames,
    stacked,
};

verus! {

/// Every row of `m` rotated to the right by `shift` pitch classes.
pub open spec fn transposed<T>(m: Seq<Seq<T>>, shift: nat) -> Seq<Seq<T>> {
    Seq::new(m.len(), |i: int| rotated(m[i], shift))
}

/// The value of a cell of the binary similarity matrix whose best shift is
/// `best_shift`: a shift of zero or one pitch class counts as a match.
pub open spec fn vote<T>(best_shift: nat, match_coefficient: T, mismatch_coefficient: T) -> T {
    if best_shift <= 1 {
        match_coefficient
    } else {
        mismatch_coefficient
    }
}

/// Settings of a cross-similarity computation, with `T` the element type of
/// the chroma frames.
#[derive(Debug)]
pub struct ChromaCrossSimilarity<T> {
    /// Binary OTI voting when set, thresholded distances otherwise.
    pub oti_binary: bool,
    /// Number of frames stacked into one.
    pub frame_stack_size: usize,
    /// Distance between the frames of a stack.
    pub frame_stack_stride: usize,
    /// Number of pitch-class shifts tried.
    pub noti: u32,
    /// Whether the thresholded mode first aligns the reference to the query's key.
    pub oti: bool,
    /// Fraction of the closest distances kept in each row and column.
    pub binarize_percentile: T,
    /// Value of a matching cell in binary mode.
    pub match_coefficient: T,
    /// Value of a mismatching cell in binary mode.
    pub mismatch_coefficient: T,
}

impl<T: Copy> ChromaCrossSimilarity<T> {
    /// Whether the stacking and shift-count parameters are all positive.
    pub open spec fn config_valid(&self) -> bool {
        self.frame_stack_size > 0 && self.frame_stack_stride > 0 && self.noti > 0
    }

    /// The rotation applied to the whole reference before stacking: the
    /// transposition index in thresholded mode with key alignment, else none.
    pub open spec fn global_shift(&self, oti_index: nat) -> nat {
        if !self.oti_binary && self.oti {
            oti_index
        } else {
            0
        }
    }

    /// Settings with every parameter given.
    pub fn with_settings(
        oti_binary: bool,
        frame_stack_size: usize,
        frame_stack_stride: usize,
        noti: u32,
        oti: bool,
        binarize_percentile: T,
        match_coefficient: T,
        mismatch_coefficient: T,
    ) -> (r: Self)
        ensures
            r.oti_binary == oti_binary,
            r.frame_stack_size == frame_stack_size,
            r.frame_stack_stride == frame_stack_stride,
            r.noti == noti,
            r.oti == oti,
            r.binarize_percentile == binarize_percentile,
            r.match_coefficient == match_coefficient,
            r.mismatch_coefficient == mismatch_coefficient,
    {
        ChromaCrossSimilarity {
            oti_binary,
            frame_stack_size,
            frame_stack_stride,
            noti,
            oti,
            binarize_percentile,
            match_coefficient,
            mismatch_coefficient,
        }
    }

    /// Refuses settings with a zero stack size, stride or shift count.
    pub fn check_config(&self) -> (r: Result<(), ChromaError>)
        ensures
            r is Ok <==> self.config_valid(),
            r is Err ==> r == Err::<(), ChromaError>(ChromaError::InvalidConfiguration),
    {
        if self.frame_stack_size == 0 || self.frame_stack_stride == 0 || self.noti == 0 {
            Err(ChromaError::InvalidConfiguration)
        } else {
            Ok(())
        }
    }

    /// Checks the settings and the two sequences before a computation, and
    /// returns the common frame width. The settings are checked first, then
    /// that neither sequence is empty, then that both are rectangular with the
    /// same width.
    pub fn check_inputs(&self, query: &Vec<Vec<T>>, reference: &Vec<Vec<T>>) -> (r: Result<
        usize,
        ChromaError,
    >)
        ensures
            r == Err::<usize, ChromaError>(ChromaError::InvalidConfiguration)
                <==> !self.config_valid(),
            r == Err::<usize, ChromaError>(ChromaError::EmptyInput) <==> self.config_valid() && (
            query@.len() == 0 || reference@.len() == 0),
            r == Err::<usize, ChromaError>(ChromaError::InvalidDimensions) <==> self.config_valid()
                && query@.len() > 0 && reference@.len() > 0 && !(is_rectangular(rows(query@))
                && is_rectangular(rows(reference@)) && query@[0]@.len()
                == reference@[0]@.len()),
            r is Ok ==> r->Ok_0 == query@[0]@.len() && has_width(rows(query@), r->Ok_0 as nat)
                && has_width(rows(reference@), r->Ok_0 as nat),
    {
        if self.check_config().is_err() {
            return Err(ChromaError::InvalidConfiguration);
        }
        if query.len() == 0 || reference.len() == 0 {
            return Err(ChromaError::EmptyInput);
        }
        let wq = frame_width(query);
        let wr = frame_width(reference);
        match wq {
            Ok(a) => match wr {
                Ok(b) => {
                    assert(rows(query@)[0] == query@[0]@);
                    assert(rows(reference@)[0] == reference@[0]@);
                    if a == b {
                        Ok(a)
                    } else {
                        Err(ChromaError::InvalidDimensions)
                    }
                },
                Err(_) => Err(ChromaError::InvalidDimensions),
            },
            Err(_) => Err(ChromaError::InvalidDimensions),
        }
    }

    /// The two sequences as the similarity step compares them: the reference
    /// rotated by `oti_index` pitch classes when the thresholded mode aligns
    /// keys, then both stacked.
    pub fn aligned_stacks(&self, query: Vec<Vec<T>>, reference: Vec<Vec<T>>, oti_index: u32) -> (r: (
        Vec<Vec<T>>,
        Vec<Vec<T>>,
    ))
        requires
            self.config_valid(),
            oti_index < self.noti,
        ensures
            rows(r.0@) == stacked(
                rows(query@),
                self.frame_stack_size as nat,
                self.frame_stack_stride as nat,
            ),
            rows(r.1@) == stacked(
                transposed(rows(reference@), self.global_shift(oti_index as nat)),
                self.frame_stack_size as nat,
                self.frame_stack_stride as nat,
            ),
    {
        let mut reference = reference;
        let ghost before = reference@;
        if !self.oti_binary && self.oti {
            rotate_chroma(&mut reference, oti_index as usize);
            assert(rows(reference@) =~= transposed(rows(before), oti_index as nat));
        } else {
            assert forall|i: int| 0 <= i < before.len() implies #[trigger] rotated(
                before[i]@,
                0,
            ) == before[i]@ by {
                crate::frames::lemma_rotate_full_turn(before[i]@, 0);
            }
            assert(rows(reference@) =~= transposed(rows(before), 0));
        }
        let q = stack_chroma_frames(query, self.frame_stack_size, self.frame_stack_stride);
        let s = stack_chroma_frames(reference, self.frame_stack_size, self.frame_stack_stride);
        (q, s)
    }

    /// The binary similarity matrix from the best shift of every frame pair:
    /// `match_coefficient` where that shift is zero or one, else
    /// `mismatch_coefficient`.
    pub fn binary_similarity(&self, best_shifts: &Vec<Vec<u32>>) -> (r: Vec<Vec<T>>)
        ensures
            r@.len() == best_shifts@.len(),
            forall|i: int|
                0 <= i < best_shifts@.len() ==> (#[trigger] r@[i])@.len() == best_shifts@[i]@.len(),
            forall|i: int, j: int|
                0 <= i < best_shifts@.len() && 0 <= j < best_shifts@[i]@.len() ==> r@[i]@[j]
                    == vote(
                    #[trigger] best_shifts@[i]@[j] as nat,
                    self.match_coefficient,
                    self.mismatch_coefficient,
                ),
            forall|i: int, j: int|
                0 <= i < best_shifts@.len() && 0 <= j < best_shifts@[i]@.len() ==> (
                #[trigger] r@[i]@[j] == self.match_coefficient || r@[i]@[j]
                    == self.mismatch_coefficient),
    {
        let n = best_shifts.len();
        let mut r: Vec<Vec<T>> = Vec::with_capacity(n);
        let mut i: usize = 0;
        while i < n
            invariant
                n == best_shifts@.len(),
                i <= n,
                r@.len() == i,
                forall|t: int| 0 <= t < i ==> (#[trigger] r@[t])@.len() == best_shifts@[t]@.len(),
                forall|t: int, u: int|
                    0 <= t < i && 0 <= u < best_shifts@[t]@.len() ==> r@[t]@[u] == vote(
                        #[trigger] best_shifts@[t]@[u] as nat,
                        self.match_coefficient,
                        self.mismatch_coefficient,
                    ),
            decreases n - i,
        {
            let m = best_shifts[i].len();
            let mut row: Vec<T> = Vec::with_capacity(m);
            let mut j: usize = 0;
            while j < m
                invariant
                    n == best_shifts@.len(),
                    i < n,
                    m == best_shifts@[i as int]@.len(),
                    j <= m,
                    row@.len() == j,
                    forall|u: int|
                        0 <= u < j ==> #[trigger] row@[u] == vote(
                            best_shifts@[i as int]@[u] as nat,
                            self.match_coefficient,
                            self.mismatch_coefficient,
                        ),
                decreases m - j,
            {
                if best_shifts[i][j] <= 1 {
                    row.push(self.match_coefficient);
                } else {
                    row.push(self.mismatch_coefficient);
                }
                j += 1;
            }
            r.push(row);
            i += 1;
        }
        assert forall|i: int, j: int|
            0 <= i < best_shifts@.len() && 0 <= j < best_shifts@[i]@.len() implies (
            #[trigger] r@[i]@[j] == self.match_coefficient || r@[i]@[j]
                == self.mismatch_coefficient) by {
            assert(r@[i]@[j] == vote(
                best_shifts@[i]@[j] as nat,
                self.match_coefficient,
                self.mismatch_coefficient,
            ));
        }
        r
    }
}

/// The mask of the thresholded mode, built in two passes: a column pass sets
/// every cell whose distance is within its column's threshold, then a row pass
/// clears every cell whose distance exceeds its row's threshold. A cell is set
/// exactly when it passes both.
pub fn mutual_threshold_mask(within_column: &Vec<Vec<bool>>, within_row: &Vec<Vec<bool>>) -> (r:
    Vec<Vec<bool>>)
    requires
        within_row@.len() == within_column@.len(),
        forall|i: int|
            0 <= i < within_column@.len() ==> (#[trigger] within_row@[i])@.len()
                == within_column@[i]@.len(),
    ensures
        r@.len() == within_column@.len(),
        forall|i: int|
            0 <= i < within_column@.len() ==> (#[trigger] r@[i])@.len() == within_column@[i]@.len(),
        forall|i: int, j: int|
            0 <= i < within_column@.len() && 0 <= j < within_column@[i]@.len() ==> #[trigger] r@[i]@[j]
                == (within_column@[i]@[j] && within_row@[i]@[j]),
{
    let n = within_column.len();
    let mut csm: Vec<Vec<bool>> = Vec::with_capacity(n);
    let mut i: usize = 0;
    while i < n
        invariant
            n == within_column@.len(),
            i <= n,
            csm@.len() == i,
            forall|t: int|
                0 <= t < i ==> (#[trigger] csm@[t])@ == Seq::new(
                    within_column@[t]@.len(),
                    |u: int| within_column@[t]@[u],
                ),
        decreases n - i,
    {
        let m = within_column[i].len();
        let mut row: Vec<bool> = Vec::with_capacity(m);
        let mut j: usize = 0;
        while j < m
            invariant
                n == within_column@.len(),
                i < n,
                m == within_column@[i as int]@.len(),
                j <= m,
                row@ == Seq::new(j as nat, |u: int| within_column@[i as int]@[u]),
            decreases m - j,
        {
            row.push(within_column[i][j]);
            j += 1;
            assert(row@ =~= Seq::new(j as nat, |u: int| within_column@[i as int]@[u]));
        }
        csm.push(row);
        i += 1;
    }
    let mut k: usize = 0;
    while k < n
        invariant
            n == within_column@.len(),
            within_row@.len() == n,
            forall|t: int|
                0 <= t < n ==> (#[trigger] within_row@[t])@.len() == within_column@[t]@.len(),
            k <= n,
            csm@.len() == n,
            forall|t: int| 0 <= t < n ==> (#[trigger] csm@[t])@.len() == within_column@[t]@.len(),
            forall|t: int, u: int|
                0 <= t < k && 0 <= u < within_column@[t]@.len() ==> #[trigger] csm@[t]@[u] == (
                within_column@[t]@[u] && within_row@[t]@[u]),
            forall|t: int, u: int|
                k <= t < n && 0 <= u < within_column@[t]@.len() ==> #[trigger] csm@[t]@[u]
                    == within_column@[t]@[u],
        decreases n - k,
    {
        let m = within_row[k].len();
        let mut row: Vec<bool> = Vec::with_capacity(m);
        let mut l: usize = 0;
        while l < m
            invariant
                m == within_column@[k as int]@.len(),
                m == within_row@[k as int]@.len(),
                k < n,
                n == within_column@.len(),
                within_row@.len() == n,
                csm@.len() == n,
                csm@[k as int]@.len() == m,
                forall|u: int| 0 <= u < m ==> #[trigger] csm@[k as int]@[u] == within_column@[k as int]@[u],
                l <= m,
                row@.len() == l,
                forall|u: int|
                    0 <= u < l ==> #[trigger] row@[u] == (within_column@[k as int]@[u]
                        && within_row@[k as int]@[u]),
            decreases m - l,
        {
            if within_row[k][l] {
                row.push(csm[k][l]);
            } else {
                row.push(false);
            }
            l += 1;
        }
        csm.set(k, row);
        k += 1;
    }
    csm
}

/// In the thresholded mode, every cell that passes both the column pass and
/// the row pass stays set; in particular, when every diagonal cell passes both
/// passes (a sequence compared with itself, whose distances to itself are
/// zero), the whole diagonal of the mask is set.
pub proof fn lemma_mask_keeps_diagonal(
    within_column: Seq<Seq<bool>>,
    within_row: Seq<Seq<bool>>,
    mask: Seq<Seq<bool>>,
)
    requires
        mask.len() == within_column.len(),
        forall|i: int|
            0 <= i < within_column.len() ==> (#[trigger] mask[i]).len() == within_column[i].len(),
        forall|i: int, j: int|
            0 <= i < within_column.len() && 0 <= j < within_column[i].len() ==> #[trigger] mask[i][j]
                == (within_column[i][j] && within_row[i][j]),
        forall|i: int|
            0 <= i < within_column.len() && i < (#[trigger] within_column[i]).len() ==> within_column[i][i]
                && within_row[i][i],
    ensures
        forall|i: int| 0 <= i < mask.len() && i < (#[trigger] mask[i]).len() ==> mask[i][i],
{
}

} // verus!
