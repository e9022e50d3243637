use vstd::prelude::*;

use crate::error::ChromaError;

verus! {

/// The rows of a matrix, each as a sequence.
pub open spec fn rows<T>(m: Seq<Vec<T>>) -> Seq<Seq<T>> {
    Seq::new(m.len(), |i: int| m[i]@)
}

/// `v` rotated cyclically to the right by `shift` positions, taken modulo its length.
pub open spec fn rotated<T>(v: Seq<T>, shift: nat) -> Seq<T> {
    if v.len() == 0 {
        v
    } else {
        let k = (shift % v.len()) as int;
        Seq::new(v.len(), |j: int| if j >= k { v[j - k] } else { v[j + v.len() - k] })
    }
}

/// Returns a copy of `row` rotated cyclically to the right by `shift` positions.
pub fn rotate_row<T: Copy>(row: &Vec<T>, shift: usize) -> (r: Vec<T>)
    ensures
        r@ == rotated(row@, shift as nat),
{
    let n = row.len();
    if n == 0 {
        return Vec::new();
    }
    let k = shift % n;
    let mut r: Vec<T> = Vec::with_capacity(n);
    let mut j: usize = 0;
    while j < n
        invariant
            n == row@.len(),
            k == shift as nat % n as nat,
            k < n,
            j <= n,
            r@.len() == j,
            forall|t: int| 0 <= t < j ==> #[trigger] r@[t] == (if t >= k { row@[t - k] } else {
                row@[t + n - k]
            }),
        decreases n - j,
    {
        if j >= k {
            r.push(row[j - k]);
        } else {
            r.push(row[n - k + j]);
        }
        j += 1;
    }
    assert(r@ =~= rotated(row@, shift as nat));
    r
}

/// Rotates every row of `input_matrix` cyclically to the right by `oti`
/// positions, taken modulo the row's length: a transposition by `oti` pitch
/// classes.
pub fn rotate_chroma<T: Copy>(input_matrix: &mut Vec<Vec<T>>, oti: usize)
    ensures
        final(input_matrix)@.len() == old(input_matrix)@.len(),
        forall|i: int|
            0 <= i < old(input_matrix)@.len() ==> #[trigger] final(input_matrix)@[i]@ == rotated(
                old(input_matrix)@[i]@,
                oti as nat,
            ),
{
    let n = input_matrix.len();
    let mut i: usize = 0;
    while i < n
        invariant
            n == old(input_matrix)@.len(),
            input_matrix@.len() == n,
            i <= n,
            forall|t: int|
                0 <= t < i ==> #[trigger] input_matrix@[t]@ == rotated(
                    old(input_matrix)@[t]@,
                    oti as nat,
                ),
            forall|t: int| i <= t < n ==> #[trigger] input_matrix@[t] == old(input_matrix)@[t],
        decreases n - i,
    {
        let r = rotate_row(&input_matrix[i], oti);
        input_matrix.set(i, r);
        i += 1;
    }
}

/// The frames at `start`, `start + stride`, `start + 2 * stride`, ... that lie
/// before `stop`, concatenated in that order.
pub open spec fn window<T>(frames: Seq<Seq<T>>, start: int, stop: int, stride: nat) -> Seq<T>
    decreases (if start < stop { stop - start } else { 0 }),
{
    if start < stop && stride > 0 {
        frames[start] + window(frames, start + stride, stop, stride)
    } else {
        Seq::empty()
    }
}

/// The stacked frames whose windows start at `start`, `start + stride`, ...:
/// a window starting at `i` spans `size + stride` input frames and is kept
/// while it ends strictly before the last input frame.
pub open spec fn stacked_from<T>(frames: Seq<Seq<T>>, start: int, size: nat, stride: nat) -> Seq<
    Seq<T>,
>
    decreases frames.len() - start,
{
    if start < 0 || stride == 0 || start + size + stride >= frames.len() {
        Seq::empty()
    } else {
        seq![window(frames, start, start + size + stride, stride)] + stacked_from(
            frames,
            start + stride,
            size,
            stride,
        )
    }
}

/// What frame stacking makes of `frames`: the frames themselves when the stack
/// size is one, else the windows of every `stride`-th start.
pub open spec fn stacked<T>(frames: Seq<Seq<T>>, size: nat, stride: nat) -> Seq<Seq<T>> {
    if size == 1 {
        frames
    } else {
        stacked_from(frames, 0, size, stride)
    }
}

/// Appends the elements of `row` to `out`.
fn append_row<T: Copy>(out: &mut Vec<T>, row: &Vec<T>)
    ensures
        final(out)@ == old(out)@ + row@,
{
    let n = row.len();
    let mut j: usize = 0;
    while j < n
        invariant
            n == row@.len(),
            j <= n,
            out@ == old(out)@ + row@.subrange(0, j as int),
        decreases n - j,
    {
        out.push(row[j]);
        j += 1;
        assert(out@ =~= old(out)@ + row@.subrange(0, j as int));
    }
    assert(row@.subrange(0, n as int) =~= row@);
}

/// The window of `frames` from `start` up to `stop` by `stride`, as one frame.
fn stack_window<T: Copy>(frames: &Vec<Vec<T>>, start: usize, stop: usize, stride: usize) -> (r: Vec<T>)
    requires
        stride > 0,
        stop <= frames@.len(),
    ensures
        r@ == window(rows(frames@), start as int, stop as int, stride as nat),
{
    let ghost all = rows(frames@);
    let mut out: Vec<T> = Vec::new();
    let mut t: usize = start;
    while t < stop
        invariant
            stride > 0,
            stop <= frames@.len(),
            all == rows(frames@),
            start <= t,
            out@ + window(all, t as int, stop as int, stride as nat) == window(
                all,
                start as int,
                stop as int,
                stride as nat,
            ),
        decreases stop - t,
    {
        let ghost before = out@;
        append_row(&mut out, &frames[t]);
        assert(window(all, t as int, stop as int, stride as nat) == all[t as int] + window(
            all,
            t + stride,
            stop as int,
            stride as nat,
        ));
        assert(before + (all[t as int] + window(all, t + stride, stop as int, stride as nat))
            =~= out@ + window(all, t + stride, stop as int, stride as nat));
        if stop - t <= stride {
            t = stop;
        } else {
            t = t + stride;
        }
    }
    assert(out@ + window(all, t as int, stop as int, stride as nat) =~= out@);
    out
}

/// Widens the temporal context of `frames`: each output frame concatenates the
/// input frames at `i`, `i + stride`, ... within a window of `size + stride`
/// frames starting at `i`, for `i = 0, stride, 2 * stride, ...` while the window
/// ends before the last frame. A stack size of one leaves `frames` unchanged.
pub fn stack_chroma_frames<T: Copy>(
    frames: Vec<Vec<T>>,
    frame_stack_size: usize,
    frame_stack_stride: usize,
) -> (r: Vec<Vec<T>>)
    requires
        frame_stack_size == 1 || frame_stack_stride > 0,
    ensures
        rows(r@) == stacked(rows(frames@), frame_stack_size as nat, frame_stack_stride as nat),
        frame_stack_size == 1 ==> r@ == frames@,
{
    if frame_stack_size == 1 {
        return frames;
    }
    let ghost all = rows(frames@);
    let size = frame_stack_size;
    let stride = frame_stack_stride;
    let n = frames.len();
    let mut out: Vec<Vec<T>> = Vec::new();
    if n <= size || n - size <= stride {
        assert(rows(out@) =~= stacked(all, size as nat, stride as nat));
        return out;
    }
    let increment = size + stride;
    let limit = n - increment;
    let mut i: usize = 0;
    while i < limit
        invariant
            stride > 0,
            size != 1,
            n == frames@.len(),
            all == rows(frames@),
            increment == size + stride,
            limit + increment == n,
            i <= limit,
            rows(out@) + stacked_from(all, i as int, size as nat, stride as nat) == stacked_from(
                all,
                0,
                size as nat,
                stride as nat,
            ),
        decreases limit - i,
    {
        let w = stack_window(&frames, i, i + increment, stride);
        let ghost before = rows(out@);
        out.push(w);
        assert(rows(out@) =~= before.push(w@));
        assert(stacked_from(all, i as int, size as nat, stride as nat) == seq![w@] + stacked_from(
            all,
            i + stride,
            size as nat,
            stride as nat,
        ));
        assert(before + (seq![w@] + stacked_from(all, i + stride, size as nat, stride as nat))
            =~= before.push(w@) + stacked_from(all, i + stride, size as nat, stride as nat));
        if limit - i <= stride {
            i = limit;
        } else {
            i = i + stride;
        }
    }
    assert(rows(out@) + stacked_from(all, i as int, size as nat, stride as nat) =~= rows(out@));
    out
}

/// Whether every row of `m` has `width` elements.
pub open spec fn has_width<T>(m: Seq<Seq<T>>, width: nat) -> bool {
    forall|i: int| 0 <= i < m.len() ==> (#[trigger] m[i]).len() == width
}

/// Whether all rows of `m` have the same length.
pub open spec fn is_rectangular<T>(m: Seq<Seq<T>>) -> bool {
    m.len() == 0 || has_width(m, m[0].len())
}

/// The elements at position `index` of every row of `m`, in row order.
pub open spec fn column<T>(m: Seq<Seq<T>>, index: int) -> Seq<T> {
    Seq::new(m.len(), |i: int| m[i][index])
}

/// Returns the elements at position `index` of every row of `input_matrix`.
pub fn get_columns_values_at_vec_index<T: Copy>(input_matrix: Vec<Vec<T>>, index: i32) -> (r: Vec<
    T,
>)
    requires
        index >= 0,
        forall|i: int| 0 <= i < input_matrix@.len() ==> index < (#[trigger] input_matrix@[i])@.len(),
    ensures
        r@ == column(rows(input_matrix@), index as int),
{
    let n = input_matrix.len();
    let c = index as usize;
    let mut r: Vec<T> = Vec::with_capacity(n);
    let mut i: usize = 0;
    while i < n
        invariant
            n == input_matrix@.len(),
            c == index,
            forall|t: int| 0 <= t < n ==> c < (#[trigger] input_matrix@[t])@.len(),
            i <= n,
            r@.len() == i,
            forall|t: int| 0 <= t < i ==> #[trigger] r@[t] == input_matrix@[t]@[c as int],
        decreases n - i,
    {
        r.push(input_matrix[i][c]);
        i += 1;
    }
    assert(r@ =~= column(rows(input_matrix@), index as int));
    r
}

/// Returns a matrix of `height` rows of `width` elements, all equal to `fill`.
pub fn generate_two_dimensional_array<T: Copy>(height: usize, width: usize, fill: T) -> (r: Vec<
    Vec<T>,
>)
    ensures
        r@.len() == height,
        forall|i: int| 0 <= i < height ==> (#[trigger] r@[i])@ == Seq::new(width as nat, |j: int| fill),
{
    let mut r: Vec<Vec<T>> = Vec::with_capacity(height);
    let mut i: usize = 0;
    while i < height
        invariant
            i <= height,
            r@.len() == i,
            forall|t: int| 0 <= t < i ==> (#[trigger] r@[t])@ == Seq::new(width as nat, |j: int| fill),
        decreases height - i,
    {
        let mut row: Vec<T> = Vec::with_capacity(width);
        let mut j: usize = 0;
        while j < width
            invariant
                j <= width,
                row@ == Seq::new(j as nat, |k: int| fill),
            decreases width - j,
        {
            row.push(fill);
            j += 1;
            assert(row@ =~= Seq::new(j as nat, |k: int| fill));
        }
        r.push(row);
        i += 1;
    }
    r
}

/// The candidate transpositions of `profile`: entry `s` is `profile` rotated to
/// the right by `s` pitch classes, for every `s` below `n_shifts`.
pub fn transpositions<T: Copy>(profile: &Vec<T>, n_shifts: usize) -> (r: Vec<Vec<T>>)
    ensures
        r@.len() == n_shifts,
        forall|s: int| 0 <= s < n_shifts ==> (#[trigger] r@[s])@ == rotated(profile@, s as nat),
        n_shifts > 0 ==> r@[0]@ == profile@,
{
    let mut r: Vec<Vec<T>> = Vec::with_capacity(n_shifts);
    let mut s: usize = 0;
    while s < n_shifts
        invariant
            s <= n_shifts,
            r@.len() == s,
            forall|t: int| 0 <= t < s ==> (#[trigger] r@[t])@ == rotated(profile@, t as nat),
        decreases n_shifts - s,
    {
        r.push(rotate_row(profile, s));
        s += 1;
    }
    proof {
        lemma_rotate_full_turn(profile@, 0);
    }
    r
}

/// Rotating by a whole number of turns leaves a row unchanged.
pub proof fn lemma_rotate_full_turn<T>(v: Seq<T>, shift: nat)
    requires
        v.len() == 0 || shift % v.len() == 0,
    ensures
        rotated(v, shift) == v,
{
    if v.len() > 0 {
        assert(rotated(v, shift) =~= v);
    }
}

/// The common width of the frames of `frames`: `EmptyInput` when there is no
/// frame, `InvalidDimensions` when two frames differ in length.
pub fn frame_width<T>(frames: &Vec<Vec<T>>) -> (r: Result<usize, ChromaError>)
    ensures
        frames@.len() == 0 <==> r == Err::<usize, ChromaError>(ChromaError::EmptyInput),
        r == Err::<usize, ChromaError>(ChromaError::InvalidDimensions) <==> (frames@.len() > 0
            && !is_rectangular(rows(frames@))),
        r is Ok <==> frames@.len() > 0 && is_rectangular(rows(frames@)),
        r is Ok ==> frames@.len() > 0 && r->Ok_0 == frames@[0]@.len() && has_width(
            rows(frames@),
            r->Ok_0 as nat,
        ),
{
    let n = frames.len();
    if n == 0 {
        return Err(ChromaError::EmptyInput);
    }
    let width = frames[0].len();
    let mut i: usize = 1;
    while i < n
        invariant
            n == frames@.len(),
            n > 0,
            width == frames@[0]@.len(),
            1 <= i <= n,
            forall|t: int| 0 <= t < i ==> (#[trigger] frames@[t])@.len() == width,
        decreases n - i,
    {
        if frames[i].len() != width {
            assert(rows(frames@)[i as int].len() != rows(frames@)[0].len());
            return Err(ChromaError::InvalidDimensions);
        }
        i += 1;
    }
    assert(has_width(rows(frames@), width as nat));
    Ok(width)
}

} // verus!
