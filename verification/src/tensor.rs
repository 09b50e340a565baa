//! The detector's raw output tensor and its decoding into candidates.

use vstd::prelude::*;

verus! {

/// Number of leading columns that are not class scores: four of box geometry
/// and one of objectness.
pub const HEADER_COLS: usize = 5;

/// Column of the objectness score.
pub const OBJECTNESS_COL: usize = 4;

/// Why a tensor cannot be decoded.
#[derive(Debug, Clone, Copy, PartialEq, Eq, Structural)]
pub enum DecodeError {
    /// The tensor has fewer than five columns.
    TooFewColumns,
    /// The tensor has no rows.
    NoRows,
    /// The buffer does not hold exactly `rows * cols` elements.
    SizeMismatch,
}

/// A read-only numeric buffer of logical shape `(rows, cols)`, stored row by
/// row. Every element is a fixed-point number in steps of `1 / UNIT`.
///
/// Each row is one candidate: columns 0 to 3 are the centre and the size of
/// its box in network pixels, column 4 is the objectness, and the columns
/// from 5 on are the raw scores of the classes.
#[derive(Debug, Clone)]
pub struct RawTensor {
    pub rows: usize,
    pub cols: usize,
    pub data: Vec<i32>,
}

/// A box in network input space, by centre and size.
#[derive(Debug, Clone, Copy, PartialEq, Eq, Structural)]
pub struct NetBox {
    pub cx: i32,
    pub cy: i32,
    pub w: i32,
    pub h: i32,
}

/// One decoded row: its box, the class that scored best, and that class's raw
/// score multiplied by the row's objectness. The product of two fixed-point
/// numbers is kept exact, so it counts steps of `1 / (UNIT * UNIT)`.
#[derive(Debug, Clone, Copy, PartialEq, Eq, Structural)]
pub struct Candidate {
    pub bbox: NetBox,
    pub class_index: usize,
    pub composite_score: i64,
}

impl RawTensor {
    /// The first defect of the shape, if there is one.
    pub open spec fn shape_error(&self) -> Option<DecodeError> {
        if self.cols < HEADER_COLS {
            Some(DecodeError::TooFewColumns)
        } else if self.rows == 0 {
            Some(DecodeError::NoRows)
        } else if self.data@.len() != self.rows * self.cols {
            Some(DecodeError::SizeMismatch)
        } else {
            None
        }
    }

    /// The buffer holds one element for each position of the shape.
    pub open spec fn filled(&self) -> bool {
        self.data@.len() == self.rows * self.cols
    }

    /// The element in row `r` and column `c`.
    pub open spec fn at(&self, r: int, c: int) -> int {
        self.data@[r * self.cols + c] as int
    }

    pub open spec fn objectness(&self, r: int) -> int {
        self.at(r, OBJECTNESS_COL as int)
    }

    pub open spec fn class_count(&self) -> int {
        self.cols - HEADER_COLS
    }

    /// The raw score of class `c` in row `r`, multiplied by the row's
    /// objectness.
    pub open spec fn scaled_score(&self, r: int, c: int) -> int {
        self.at(r, HEADER_COLS + c) * self.objectness(r)
    }

    /// The box of row `r`, as stored.
    pub open spec fn box_of(&self, r: int) -> NetBox {
        NetBox {
            cx: self.data@[r * self.cols + 0],
            cy: self.data@[r * self.cols + 1],
            w: self.data@[r * self.cols + 2],
            h: self.data@[r * self.cols + 3],
        }
    }

    /// `k` is the class that wins row `r`: no class has a larger scaled
    /// score, and every class before `k` has a strictly smaller one, so among
    /// equal maxima the lowest index wins.
    pub open spec fn is_best_class(&self, r: int, k: int) -> bool {
        &&& 0 <= k < self.class_count()
        &&& forall|c: int|
            0 <= c < self.class_count() ==> #[trigger] self.scaled_score(r, c)
                <= self.scaled_score(r, k)
        &&& forall|c: int| 0 <= c < k ==> #[trigger] self.scaled_score(r, c) < self.scaled_score(r, k)
    }

    /// Row `r` yields a candidate: its objectness reaches the threshold and
    /// there is a class to pick.
    pub open spec fn emits(&self, r: int, conf_thresh: int) -> bool {
        self.objectness(r) >= conf_thresh && self.class_count() > 0
    }

    /// The rows below `n` that yield a candidate, in ascending order.
    pub open spec fn emitted_rows(&self, n: int, conf_thresh: int) -> Seq<int>
        decreases n,
    {
        if n <= 0 {
            Seq::empty()
        } else if self.emits(n - 1, conf_thresh) {
            self.emitted_rows(n - 1, conf_thresh).push(n - 1)
        } else {
            self.emitted_rows(n - 1, conf_thresh)
        }
    }

    /// `cand` is what row `r` decodes to.
    pub open spec fn decodes_to(&self, r: int, cand: Candidate) -> bool {
        &&& cand.bbox == self.box_of(r)
        &&& self.is_best_class(r, cand.class_index as int)
        &&& cand.composite_score == self.scaled_score(r, cand.class_index as int)
    }

    /// `cands` is the decoding of the whole tensor: one candidate for each
    /// emitting row, in row order.
    pub open spec fn decoding(&self, cands: Seq<Candidate>, conf_thresh: int) -> bool {
        let rows = self.emitted_rows(self.rows as int, conf_thresh);
        &&& cands.len() == rows.len()
        &&& forall|i: int| 0 <= i < cands.len() ==> self.decodes_to(rows[i], #[trigger] cands[i])
    }

    /// Position of element `(r, c)` in the buffer.
    proof fn lemma_position(&self, r: int, c: int)
        requires
            self.filled(),
            0 <= r < self.rows,
            0 <= c < self.cols,
        ensures
            0 <= r * self.cols + c < self.data@.len(),
            0 <= r * self.cols <= r * self.cols + c <= usize::MAX,
    {
        assert(r * self.cols + self.cols <= self.rows * self.cols) by (nonlinear_arith)
            requires
                0 <= r < self.rows,
                self.cols >= 0,
        ;
        assert(0 <= r * self.cols) by (nonlinear_arith)
            requires
                0 <= r,
                self.cols >= 0,
        ;
        assert(self.data@.len() == self.data.len());
    }

    /// Whether the buffer holds exactly `rows * cols` elements.
    pub fn is_filled(&self) -> (b: bool)
        ensures
            b == self.filled(),
    {
        let len = self.data.len();
        match self.rows.checked_mul(self.cols) {
            Some(n) => len == n,
            None => false,
        }
    }

    /// The element in row `r` and column `c`, or `None` where the position
    /// lies outside the shape or the buffer.
    pub fn get(&self, r: usize, c: usize) -> (v: Option<i32>)
        ensures
            v.is_some() == (r < self.rows && c < self.cols && r * self.cols + c < self.data@.len()),
            v.is_some() ==> v.unwrap() == self.at(r as int, c as int),
    {
        if r >= self.rows || c >= self.cols {
            return None;
        }
        let len = self.data.len();
        proof {
            assert(r * self.cols + c >= r * self.cols >= 0) by (nonlinear_arith)
                requires
                    c >= 0,
                    r >= 0,
                    self.cols >= 0,
            ;
        }
        match r.checked_mul(self.cols) {
            Some(start) => match start.checked_add(c) {
                Some(i) => if i < len {
                    Some(self.data[i])
                } else {
                    None
                },
                None => None,
            },
            None => None,
        }
    }

    /// The element in row `r` and column `c` of a filled tensor.
    fn value(&self, r: usize, c: usize) -> (v: i32)
        requires
            self.filled(),
            r < self.rows,
            c < self.cols,
        ensures
            v == self.at(r as int, c as int),
    {
        proof {
            self.lemma_position(r as int, c as int);
        }
        self.data[r * self.cols + c]
    }

    /// The winning class of row `r` and its scaled score.
    pub fn best_class(&self, r: usize) -> (res: (usize, i64))
        requires
            self.filled(),
            r < self.rows,
            self.cols > HEADER_COLS,
        ensures
            self.is_best_class(r as int, res.0 as int),
            res.1 == self.scaled_score(r as int, res.0 as int),
    {
        let obj: i32 = self.value(r, OBJECTNESS_COL);
        let n: usize = self.cols - HEADER_COLS;
        let mut best: usize = 0;
        let mut best_score: i64 = product(self.value(r, HEADER_COLS), obj);
        let mut c: usize = 1;
        while c < n
            invariant
                self.filled(),
                r < self.rows,
                n == self.cols - HEADER_COLS,
                1 <= c <= n,
                best < c,
                obj == self.objectness(r as int),
                best_score == self.scaled_score(r as int, best as int),
                forall|d: int| 0 <= d < c ==> #[trigger] self.scaled_score(r as int, d) <= best_score,
                forall|d: int| 0 <= d < best ==> #[trigger] self.scaled_score(r as int, d) < best_score,
            decreases n - c,
        {
            let s: i64 = product(self.value(r, HEADER_COLS + c), obj);
            if s > best_score {
                best = c;
                best_score = s;
            }
            c += 1;
        }
        (best, best_score)
    }

    /// The box stored in row `r`.
    pub fn read_box(&self, r: usize) -> (b: NetBox)
        requires
            self.filled(),
            r < self.rows,
            self.cols >= HEADER_COLS,
        ensures
            b == self.box_of(r as int),
    {
        NetBox {
            cx: self.value(r, 0),
            cy: self.value(r, 1),
            w: self.value(r, 2),
            h: self.value(r, 3),
        }
    }

    /// Every emitted row lies below `n` and emits, and the rows ascend.
    pub proof fn lemma_emitted_rows_sound(&self, n: int, conf_thresh: int)
        ensures
            forall|i: int|
                0 <= i < self.emitted_rows(n, conf_thresh).len() ==> ({
                    let r = #[trigger] self.emitted_rows(n, conf_thresh)[i];
                    0 <= r < n && self.emits(r, conf_thresh)
                }),
            forall|i: int, j: int|
                0 <= i < j < self.emitted_rows(n, conf_thresh).len() ==> (#[trigger] self.emitted_rows(
                    n,
                    conf_thresh,
                )[i]) < #[trigger] self.emitted_rows(n, conf_thresh)[j],
        decreases n,
    {
        let rows = self.emitted_rows(n, conf_thresh);
        if n > 0 {
            self.lemma_emitted_rows_sound(n - 1, conf_thresh);
            let prev = self.emitted_rows(n - 1, conf_thresh);
            assert forall|i: int| 0 <= i < rows.len() implies 0 <= #[trigger] rows[i] < n
                && self.emits(rows[i], conf_thresh) by {
                if i < prev.len() {
                    assert(rows[i] == prev[i]);
                }
            }
            assert forall|i: int, j: int| 0 <= i < j < rows.len() implies rows[i] < rows[j] by {
                assert(rows[i] == prev[i]);
                if j < prev.len() {
                    assert(rows[j] == prev[j]);
                }
            }
        }
    }

    /// Every row below `n` that emits is among the emitted rows.
    pub proof fn lemma_emitted_rows_complete(&self, n: int, conf_thresh: int, r: int)
        requires
            0 <= r < n,
            self.emits(r, conf_thresh),
        ensures
            self.emitted_rows(n, conf_thresh).contains(r),
        decreases n,
    {
        let rows = self.emitted_rows(n, conf_thresh);
        if r == n - 1 {
            assert(rows[rows.len() - 1] == r);
        } else {
            self.lemma_emitted_rows_complete(n - 1, conf_thresh, r);
            let prev = self.emitted_rows(n - 1, conf_thresh);
            let i = choose|i: int| 0 <= i < prev.len() && prev[i] == r;
            assert(rows[i] == r);
        }
    }

    /// A row whose objectness is below the threshold yields no candidate:
    /// it is not among the rows that a decoding draws from.
    pub proof fn lemma_row_below_threshold_dropped(&self, conf_thresh: int, r: int)
        requires
            self.objectness(r) < conf_thresh,
        ensures
            !self.emitted_rows(self.rows as int, conf_thresh).contains(r),
    {
        self.lemma_emitted_rows_sound(self.rows as int, conf_thresh);
    }

    /// A row has at most one winning class.
    pub proof fn lemma_best_class_unique(&self, r: int, a: int, b: int)
        requires
            self.is_best_class(r, a),
            self.is_best_class(r, b),
        ensures
            a == b,
    {
        if a < b {
            assert(self.scaled_score(r, a) < self.scaled_score(r, b));
            assert(self.scaled_score(r, b) <= self.scaled_score(r, a));
        } else if b < a {
            assert(self.scaled_score(r, b) < self.scaled_score(r, a));
            assert(self.scaled_score(r, a) <= self.scaled_score(r, b));
        }
    }

    /// A tensor has at most one decoding.
    pub proof fn lemma_decoding_unique(
        &self,
        a: Seq<Candidate>,
        b: Seq<Candidate>,
        conf_thresh: int,
    )
        requires
            self.decoding(a, conf_thresh),
            self.decoding(b, conf_thresh),
        ensures
            a == b,
    {
        let rows = self.emitted_rows(self.rows as int, conf_thresh);
        assert forall|i: int| 0 <= i < a.len() implies a[i] == b[i] by {
            assert(self.decodes_to(rows[i], a[i]));
            assert(self.decodes_to(rows[i], b[i]));
            self.lemma_best_class_unique(rows[i], a[i].class_index as int, b[i].class_index as int);
        }
        assert(a =~= b);
    }
}

/// The exact product of two fixed-point numbers.
fn product(a: i32, b: i32) -> (p: i64)
    ensures
        p == a * b,
{
    assert(-0x4000_0000_0000_0000 <= a * b <= 0x4000_0000_0000_0000) by (nonlinear_arith)
        requires
            -0x8000_0000 <= a <= 0x7fff_ffff,
            -0x8000_0000 <= b <= 0x7fff_ffff,
    ;
    (a as i64) * (b as i64)
}

/// Decodes a tensor into candidates.
///
/// Fails as a whole on a malformed shape. Otherwise every row whose
/// objectness reaches `conf_thresh` yields one candidate, in row order: its
/// box as stored, the class with the largest scaled score (the lowest index
/// among equals), and that score. A tensor without class columns yields no
/// candidates.
pub fn decode(tensor: &RawTensor, conf_thresh: i32) -> (res: Result<Vec<Candidate>, DecodeError>)
    ensures
        (match res {
            Ok(cands) => tensor.shape_error().is_none() && tensor.decoding(
                cands@,
                conf_thresh as int,
            ),
            Err(e) => tensor.shape_error() == Some(e),
        }),
{
    if tensor.cols < HEADER_COLS {
        return Err(DecodeError::TooFewColumns);
    }
    if tensor.rows == 0 {
        return Err(DecodeError::NoRows);
    }
    if !tensor.is_filled() {
        return Err(DecodeError::SizeMismatch);
    }
    let ghost conf = conf_thresh as int;
    let mut out: Vec<Candidate> = Vec::new();
    let mut r: usize = 0;
    while r < tensor.rows
        invariant
            tensor.filled(),
            tensor.cols >= HEADER_COLS,
            r <= tensor.rows,
            conf == conf_thresh,
            out@.len() == tensor.emitted_rows(r as int, conf).len(),
            forall|i: int|
                0 <= i < out@.len() ==> tensor.decodes_to(
                    tensor.emitted_rows(r as int, conf)[i],
                    #[trigger] out@[i],
                ),
        decreases tensor.rows - r,
    {
        let objectness: i32 = tensor.value(r, OBJECTNESS_COL);
        if objectness >= conf_thresh && tensor.cols > HEADER_COLS {
            let (class_index, composite_score) = tensor.best_class(r);
            let bbox = tensor.read_box(r);
            out.push(Candidate { bbox, class_index, composite_score });
        }
        r += 1;
    }
    Ok(out)
}

} // verus!
