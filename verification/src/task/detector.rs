//! Deadlock detection over resource matrices (the banker's safety test).
//!
//! A detector records, for `m` kinds of resources and `n` threads, the
//! vector `available` (free units of each kind), the matrix `allocation`
//! (units each thread holds) and the matrix `need` (units each thread still
//! waits for).  The safety test simulates the threads finishing one after
//! another: a thread whose need fits into the currently free units may run
//! to completion and give back what it holds.
use vstd::prelude::*;

verus! {

/// Resource bookkeeping for deadlock detection.
pub struct BankerDeadlockDetector {
    /// Free units of each resource kind.
    pub available: Vec<isize>,
    /// `allocation[i][j]`: units of kind `j` held by thread `i`.
    pub allocation: Vec<Vec<isize>>,
    /// `need[i][j]`: units of kind `j` thread `i` still waits for.
    pub need: Vec<Vec<isize>>,
}

/// The mathematical state of a detector: free units per kind, and units
/// held and needed per thread and kind.
pub struct DetectorState {
    pub available: Seq<int>,
    pub allocation: Seq<Seq<int>>,
    pub need: Seq<Seq<int>>,
}

/// `mat` with entry `(i, j)` replaced by `v`.
pub open spec fn set_entry(mat: Seq<Seq<int>>, i: int, j: int, v: int) -> Seq<Seq<int>> {
    mat.update(i, mat[i].update(j, v))
}

/// Reads a vector of `isize` as integers.
pub open spec fn ints(v: Seq<isize>) -> Seq<int> {
    v.map_values(|x: isize| x as int)
}

/// Reads a matrix of `isize` as integers.
pub open spec fn int_rows(m: Seq<Vec<isize>>) -> Seq<Seq<int>> {
    m.map_values(|r: Vec<isize>| ints(r@))
}

impl View for BankerDeadlockDetector {
    type V = DetectorState;

    open spec fn view(&self) -> DetectorState {
        DetectorState {
            available: ints(self.available@),
            allocation: int_rows(self.allocation@),
            need: int_rows(self.need@),
        }
    }
}

/// Reads a vector of thread numbers as integers.
pub open spec fn indices(v: Seq<usize>) -> Seq<int> {
    v.map_values(|x: usize| x as int)
}

/// The finished-mask of a run: index `i < n` is marked when `s` holds it.
pub open spec fn mask_of(s: Seq<int>, n: int) -> Seq<bool> {
    Seq::new(n as nat, |i: int| s.contains(i))
}

/// Number of unmarked entries of a mask.
pub open spec fn count_false(mask: Seq<bool>) -> nat
    decreases mask.len(),
{
    if mask.len() == 0 {
        0
    } else {
        count_false(mask.drop_last()) + if mask.last() { 0nat } else { 1nat }
    }
}

impl DetectorState {
    /// Number of threads (rows of `allocation`).
    pub open spec fn threads(&self) -> int {
        self.allocation.len() as int
    }

    /// Number of resource kinds.
    pub open spec fn kinds(&self) -> int {
        self.available.len() as int
    }

    pub open spec fn avail_at(&self, j: int) -> int {
        self.available[j]
    }

    pub open spec fn alloc_at(&self, i: int, j: int) -> int {
        self.allocation[i][j]
    }

    pub open spec fn need_at(&self, i: int, j: int) -> int {
        self.need[i][j]
    }

    /// The shape the safety test reads: a need row for every thread and
    /// every row at least as wide as `available`.
    pub open spec fn well_shaped(&self) -> bool {
        &&& self.need.len() >= self.allocation.len()
        &&& forall|i: int|
            0 <= i < self.threads() ==> #[trigger] self.allocation[i].len() >= self.kinds()
                && self.need[i].len() >= self.kinds()
    }

    /// Units of kind `j` held by the threads `i < k` that `mask` marks.
    pub open spec fn held(&self, mask: Seq<bool>, j: int, k: int) -> int
        decreases k,
    {
        if k <= 0 {
            0
        } else {
            self.held(mask, j, k - 1) + if mask[k - 1] {
                self.alloc_at(k - 1, j)
            } else {
                0
            }
        }
    }

    /// Sum of the magnitudes of the units of kind `j` held by threads `i < k`.
    pub open spec fn held_abs(&self, j: int, k: int) -> int
        decreases k,
    {
        if k <= 0 {
            0
        } else {
            self.held_abs(j, k - 1) + if self.alloc_at(k - 1, j) >= 0 {
                self.alloc_at(k - 1, j)
            } else {
                -self.alloc_at(k - 1, j)
            }
        }
    }

    /// Free units of kind `j` once the threads marked in `done` have finished.
    pub open spec fn work_of(&self, done: Seq<bool>, j: int) -> int {
        self.avail_at(j) + self.held(done, j, self.threads())
    }

    /// Thread `i` can run to completion once the threads in `done` have finished.
    pub open spec fn can_finish(&self, i: int, done: Seq<bool>) -> bool {
        forall|j: int| 0 <= j < self.kinds() ==> #[trigger] self.need_at(i, j) <= self.work_of(done, j)
    }

    /// Step `k` of `s` takes the lowest-numbered unfinished thread that can finish.
    pub open spec fn greedy_step(&self, s: Seq<int>, k: int) -> bool {
        let done = mask_of(s.take(k), self.threads());
        &&& 0 <= s[k] < self.threads()
        &&& !done[s[k]]
        &&& self.can_finish(s[k], done)
        &&& forall|i: int|
            0 <= i < s[k] && !done[i] ==> !#[trigger] self.can_finish(i, done)
    }

    /// `s` is the order in which the detection lets threads finish: each step
    /// takes the lowest-numbered unfinished thread that can finish, and at
    /// the end no unfinished thread can.
    pub open spec fn is_greedy_run(&self, s: Seq<int>) -> bool {
        &&& forall|k: int| 0 <= k < s.len() ==> #[trigger] self.greedy_step(s, k)
        &&& forall|i: int|
            0 <= i < self.threads() && !mask_of(s, self.threads())[i] ==> !#[trigger] self.can_finish(
                i,
                mask_of(s, self.threads()),
            )
    }

    /// The detection lets every thread finish.
    pub open spec fn greedy_completes(&self) -> bool {
        exists|s: Seq<int>| self.is_greedy_run(s) && s.len() == self.threads()
    }

    /// `t` orders all threads so that each can finish once those before it have.
    pub open spec fn is_safe_sequence(&self, t: Seq<int>) -> bool {
        &&& t.len() == self.threads()
        &&& forall|i: int| 0 <= i < self.threads() ==> #[trigger] t.contains(i)
        &&& forall|k: int|
            0 <= k < t.len() ==> 0 <= #[trigger] t[k] < self.threads() && self.can_finish(
                t[k],
                mask_of(t.take(k), self.threads()),
            )
    }

    /// The state is safe: some order lets every thread finish.
    pub open spec fn has_safe_sequence(&self) -> bool {
        exists|t: Seq<int>| self.is_safe_sequence(t)
    }

    /// No thread holds a negative number of units.
    pub open spec fn allocation_nonnegative(&self) -> bool {
        forall|i: int, j: int|
            0 <= i < self.threads() && 0 <= j < self.kinds() ==> #[trigger] self.alloc_at(i, j) >= 0
    }

    /// Every holding is an `isize`, as in a detector's view.
    pub open spec fn holdings_in_isize(&self) -> bool {
        forall|i: int, j: int|
            0 <= i < self.threads() && 0 <= j < self.kinds() ==> isize::MIN <= #[trigger] self.alloc_at(
                i,
                j,
            ) <= isize::MAX
    }

    proof fn lemma_held_abs_at_most(&self, j: int, k: int)
        requires
            self.holdings_in_isize(),
            0 <= j < self.kinds(),
            0 <= k <= self.threads(),
        ensures
            0 <= self.held_abs(j, k) <= k * 0x8000_0000_0000_0000,
        decreases k,
    {
        if k > 0 {
            self.lemma_held_abs_at_most(j, k - 1);
            assert(isize::MIN <= self.alloc_at(k - 1, j) <= isize::MAX);
        }
    }

    /// The number of threads fits in `isize`, as the length of any vector does.
    pub open spec fn threads_fit(&self) -> bool {
        self.threads() <= isize::MAX
    }

    /// Same number of kinds and threads, and rows of the same widths.
    pub open spec fn same_shape(self, other: DetectorState) -> bool {
        &&& self.available.len() == other.available.len()
        &&& self.allocation.len() == other.allocation.len()
        &&& self.need.len() == other.need.len()
        &&& forall|i: int|
            0 <= i < self.allocation.len() ==> #[trigger] self.allocation[i].len()
                == other.allocation[i].len()
        &&& forall|i: int| 0 <= i < self.need.len() ==> #[trigger] self.need[i].len() == other.need[i].len()
    }

    pub(crate) proof fn lemma_same_shape_well_shaped(self, other: DetectorState)
        requires
            self.same_shape(other),
        ensures
            self.well_shaped() == other.well_shaped(),
    {
        if self.well_shaped() {
            assert forall|i: int| 0 <= i < other.threads() implies #[trigger] other.allocation[i].len()
                >= other.kinds() && other.need[i].len() >= other.kinds() by {
                assert(self.allocation[i].len() >= self.kinds());
            }
        }
        if other.well_shaped() {
            assert forall|i: int| 0 <= i < self.threads() implies #[trigger] self.allocation[i].len()
                >= self.kinds() && self.need[i].len() >= self.kinds() by {
                assert(other.allocation[i].len() >= other.kinds());
            }
        }
    }

    /// `available` and the first `rows` rows of both matrices have exactly
    /// `width` entries: the matrices are `rows` by `width`.
    pub open spec fn is_matrix(self, rows: int, width: int) -> bool {
        &&& self.available.len() == width
        &&& 0 <= rows <= self.allocation.len()
        &&& rows <= self.need.len()
        &&& forall|i: int|
            0 <= i < rows ==> #[trigger] self.allocation[i].len() == width && self.need[i].len() == width
    }

    /// Adding a kind to the first `rows` rows widens a `rows`-row matrix by
    /// one, and keeps the matrices wide enough when `rows` covers every thread.
    pub proof fn lemma_kind_for_rows_shape(self, rows: int, v: int)
        requires
            0 <= rows <= self.allocation.len(),
            rows <= self.need.len(),
        ensures
            self.with_kind_for_rows(rows, v).threads() == self.threads(),
            self.well_shaped() && rows == self.threads() ==> self.with_kind_for_rows(rows, v).well_shaped(),
            forall|w: int| #[trigger] self.is_matrix(rows, w) ==> self.with_kind_for_rows(rows, v).is_matrix(rows, w + 1),
    {
        let e = self.with_kind_for_rows(rows, v);
        if self.well_shaped() && rows == self.threads() {
            assert forall|i: int| 0 <= i < e.threads() implies #[trigger] e.allocation[i].len() >= e.kinds()
                && e.need[i].len() >= e.kinds() by {
                assert(self.allocation[i].len() >= self.kinds());
            }
        }
        assert forall|w: int| #[trigger] self.is_matrix(rows, w) implies e.is_matrix(rows, w + 1) by {
            assert forall|i: int| 0 <= i < rows implies #[trigger] e.allocation[i].len() == w + 1
                && e.need[i].len() == w + 1 by {
                assert(self.allocation[i].len() == w);
            }
        }
    }

    /// Resetting a kind in the first `rows` rows changes no length.
    pub proof fn lemma_kind_reset_for_rows_shape(self, rows: int, j: int, v: int)
        requires
            0 <= j < self.available.len(),
            0 <= rows <= self.allocation.len(),
            rows <= self.need.len(),
            forall|i: int| 0 <= i < rows ==> j < #[trigger] self.allocation[i].len(),
            forall|i: int| 0 <= i < rows ==> j < #[trigger] self.need[i].len(),
        ensures
            self.with_kind_reset_for_rows(rows, j, v).same_shape(self),
            self.with_kind_reset_for_rows(rows, j, v).well_shaped() == self.well_shaped(),
            forall|r: int, w: int|
                #[trigger] self.is_matrix(r, w) == self.with_kind_reset_for_rows(rows, j, v).is_matrix(r, w),
    {
        let e = self.with_kind_reset_for_rows(rows, j, v);
        assert forall|i: int| 0 <= i < e.allocation.len() implies #[trigger] e.allocation[i].len()
            == self.allocation[i].len() by {
            if i < rows {
                assert(j < self.allocation[i].len());
            }
        }
        assert forall|i: int| 0 <= i < e.need.len() implies #[trigger] e.need[i].len() == self.need[i].len() by {
            if i < rows {
                assert(j < self.need[i].len());
            }
        }
        e.lemma_same_shape_well_shaped(self);
        assert forall|r: int, w: int| #[trigger] self.is_matrix(r, w) == e.is_matrix(r, w) by {
            if self.is_matrix(r, w) {
                assert forall|i: int| 0 <= i < r implies #[trigger] e.allocation[i].len() == w
                    && e.need[i].len() == w by {
                    assert(self.allocation[i].len() == w);
                }
            }
            if e.is_matrix(r, w) {
                assert forall|i: int| 0 <= i < r implies #[trigger] self.allocation[i].len() == w
                    && self.need[i].len() == w by {
                    assert(e.allocation[i].len() == w);
                }
            }
        }
    }

    /// No resource kinds and one empty row, for the main thread.
    pub open spec fn initial() -> DetectorState {
        DetectorState {
            available: Seq::empty(),
            allocation: seq![Seq::empty()],
            need: seq![Seq::empty()],
        }
    }

    /// The state with a new resource kind with `v` free units, and a zero
    /// entry for it appended to row `i` of both matrices.
    pub open spec fn with_kind_for_row(self, i: int, v: int) -> DetectorState {
        DetectorState {
            available: self.available.push(v),
            allocation: self.allocation.update(i, self.allocation[i].push(0)),
            need: self.need.update(i, self.need[i].push(0)),
        }
    }

    /// The state with resource kind `j` reset to `v` free units, and zero
    /// entries for it in row `i` of both matrices.
    pub open spec fn with_kind_reset_for_row(self, i: int, j: int, v: int) -> DetectorState {
        DetectorState {
            available: self.available.update(j, v),
            allocation: set_entry(self.allocation, i, j, 0),
            need: set_entry(self.need, i, j, 0),
        }
    }

    /// The state with a new resource kind with `v` free units, and a zero
    /// entry for it appended to each of the rows `i < rows` of both matrices.
    pub open spec fn with_kind_for_rows(self, rows: int, v: int) -> DetectorState {
        DetectorState {
            available: self.available.push(v),
            allocation: Seq::new(
                self.allocation.len(),
                |i: int| if i < rows { self.allocation[i].push(0) } else { self.allocation[i] },
            ),
            need: Seq::new(
                self.need.len(),
                |i: int| if i < rows { self.need[i].push(0) } else { self.need[i] },
            ),
        }
    }

    /// The state with resource kind `j` reset to `v` free units, and zero
    /// entries for it in each of the rows `i < rows` of both matrices.
    pub open spec fn with_kind_reset_for_rows(self, rows: int, j: int, v: int) -> DetectorState {
        DetectorState {
            available: self.available.update(j, v),
            allocation: Seq::new(
                self.allocation.len(),
                |i: int| if i < rows { self.allocation[i].update(j, 0) } else { self.allocation[i] },
            ),
            need: Seq::new(
                self.need.len(),
                |i: int| if i < rows { self.need[i].update(j, 0) } else { self.need[i] },
            ),
        }
    }

    /// The state with `need[i][j]` set to `v`.
    pub open spec fn with_need(self, i: int, j: int, v: int) -> DetectorState {
        DetectorState { available: self.available, allocation: self.allocation, need: set_entry(self.need, i, j, v) }
    }

    /// The state with `allocation[i][j]` set to `v`.
    pub open spec fn with_alloc(self, i: int, j: int, v: int) -> DetectorState {
        DetectorState { available: self.available, allocation: set_entry(self.allocation, i, j, v), need: self.need }
    }

    /// The state with `available[j]` set to `v`.
    pub open spec fn with_avail(self, j: int, v: int) -> DetectorState {
        DetectorState { available: self.available.update(j, v), allocation: self.allocation, need: self.need }
    }

    proof fn lemma_held_none(&self, mask: Seq<bool>, j: int, k: int)
        requires
            forall|i: int| 0 <= i < k ==> !mask[i],
        ensures
            self.held(mask, j, k) == 0,
        decreases k,
    {
        if k > 0 {
            self.lemma_held_none(mask, j, k - 1);
        }
    }

    /// Marking thread `x` adds what it holds, once.
    proof fn lemma_held_mark(&self, mask: Seq<bool>, x: int, j: int, k: int)
        requires
            0 <= x < mask.len(),
            !mask[x],
            k <= mask.len(),
        ensures
            self.held(mask.update(x, true), j, k) == self.held(mask, j, k) + if x < k {
                self.alloc_at(x, j)
            } else {
                0
            },
        decreases k,
    {
        if k > 0 {
            self.lemma_held_mark(mask, x, j, k - 1);
        }
    }

    proof fn lemma_held_bounded(&self, mask: Seq<bool>, j: int, k: int)
        ensures
            -self.held_abs(j, k) <= self.held(mask, j, k) <= self.held_abs(j, k),
        decreases k,
    {
        if k > 0 {
            self.lemma_held_bounded(mask, j, k - 1);
        }
    }

    proof fn lemma_count_false_all_false(&self, mask: Seq<bool>)
        requires
            forall|i: int| 0 <= i < mask.len() ==> !mask[i],
        ensures
            count_false(mask) == mask.len(),
        decreases mask.len(),
    {
        if mask.len() > 0 {
            self.lemma_count_false_all_false(mask.drop_last());
        }
    }

    proof fn lemma_count_false_mark(&self, mask: Seq<bool>, x: int)
        requires
            0 <= x < mask.len(),
            !mask[x],
        ensures
            count_false(mask.update(x, true)) + 1 == count_false(mask),
        decreases mask.len(),
    {
        if x < mask.len() - 1 {
            assert(mask.update(x, true).drop_last() =~= mask.drop_last().update(x, true));
            self.lemma_count_false_mark(mask.drop_last(), x);
        } else {
            assert(mask.update(x, true).drop_last() =~= mask.drop_last());
        }
    }

    proof fn lemma_count_false_zero(&self, mask: Seq<bool>)
        ensures
            count_false(mask) == 0 <==> forall|i: int| 0 <= i < mask.len() ==> #[trigger] mask[i],
        decreases mask.len(),
    {
        if mask.len() > 0 {
            self.lemma_count_false_zero(mask.drop_last());
            if count_false(mask) == 0 {
                assert forall|i: int| 0 <= i < mask.len() implies #[trigger] mask[i] by {
                    if i < mask.len() - 1 {
                        assert(mask.drop_last()[i] == mask[i]);
                    }
                }
            }
            if forall|i: int| 0 <= i < mask.len() ==> #[trigger] mask[i] {
                assert(forall|i: int| 0 <= i < mask.drop_last().len() ==> #[trigger] mask.drop_last()[i] == mask[i]);
                assert(mask[mask.len() - 1]);
            }
        }
    }

    proof fn lemma_greedy_prefix(&self, s: Seq<int>, t: Seq<int>, k: int)
        requires
            self.is_greedy_run(s),
            self.is_greedy_run(t),
            0 <= k <= s.len(),
            k <= t.len(),
        ensures
            s.take(k) == t.take(k),
        decreases k,
    {
        if k > 0 {
            let p = k - 1;
            self.lemma_greedy_prefix(s, t, p);
            let n = self.threads();
            assert(self.greedy_step(s, p));
            assert(self.greedy_step(t, p));
            let done = mask_of(s.take(p), n);
            assert(done == mask_of(t.take(p), n));
            if s[p] < t[p] {
                assert(!self.can_finish(s[p], done));
            } else if t[p] < s[p] {
                assert(!self.can_finish(t[p], done));
            }
            assert(s.take(k) =~= s.take(p).push(s[p]));
            assert(t.take(k) =~= t.take(p).push(t[p]));
        }
    }

    /// Two runs that both follow the detection's rule are the same run, so the
    /// order the detection reports is determined by the detector alone.
    pub proof fn lemma_greedy_run_unique(&self, s: Seq<int>, t: Seq<int>)
        requires
            self.is_greedy_run(s),
            self.is_greedy_run(t),
        ensures
            s == t,
    {
        let n = self.threads();
        let k: int = if s.len() < t.len() { s.len() as int } else { t.len() as int };
        self.lemma_greedy_prefix(s, t, k);
        if k < t.len() {
            assert(s.take(k) =~= s);
            assert(self.greedy_step(t, k));
            assert(!self.can_finish(t[k], mask_of(s, n)));
        } else if k < s.len() {
            assert(t.take(k) =~= t);
            assert(self.greedy_step(s, k));
            assert(!self.can_finish(s[k], mask_of(t, n)));
        }
        assert(s =~= s.take(k));
        assert(t =~= t.take(k));
    }

    /// The lowest-numbered thread `q >= i` that is unfinished in `done` and
    /// can finish, or `threads()` when there is none.
    spec fn first_finishable(&self, done: Seq<bool>, i: int) -> int
        decreases self.threads() - i,
    {
        if i >= self.threads() || i < 0 {
            self.threads()
        } else if !done[i] && self.can_finish(i, done) {
            i
        } else {
            self.first_finishable(done, i + 1)
        }
    }

    proof fn lemma_first_finishable(&self, done: Seq<bool>, i: int)
        requires
            0 <= i <= self.threads(),
        ensures
            i <= self.first_finishable(done, i) <= self.threads(),
            self.first_finishable(done, i) < self.threads() ==> !done[self.first_finishable(done, i)]
                && self.can_finish(self.first_finishable(done, i), done),
            forall|q: int|
                i <= q < self.first_finishable(done, i) && !done[q] ==> !#[trigger] self.can_finish(
                    q,
                    done,
                ),
        decreases self.threads() - i,
    {
        if i < self.threads() && !(!done[i] && self.can_finish(i, done)) {
            self.lemma_first_finishable(done, i + 1);
        }
    }

    proof fn lemma_mask_push(&self, s: Seq<int>, p: int)
        requires
            0 <= p < self.threads(),
        ensures
            mask_of(s.push(p), self.threads()) == mask_of(s, self.threads()).update(p, true),
    {
        let n = self.threads();
                assert forall|x: int| 0 <= x < n implies mask_of(s.push(p), n)[x] == mask_of(s, n).update(
            p,
            true,
        )[x] by {
            if s.contains(x) {
                let w = choose|w: int| 0 <= w < s.len() && s[w] == x;
                assert(s.push(p)[w] == x);
            }
            if x == p {
                assert(s.push(p)[s.len() as int] == p);
            }
            if s.push(p).contains(x) && x != p {
                let w = choose|w: int| 0 <= w < s.len() + 1 && s.push(p)[w] == x;
                if w == s.len() {
                    assert(s.push(p)[w] == p);
                    assert(false);
                }
                assert(s[w] == x);
            }
        }
        assert(mask_of(s.push(p), n) =~= mask_of(s, n).update(p, true));
    }

    /// A run whose steps all follow the detection's rule: its length plus the
    /// number of unfinished threads is the number of threads.
    proof fn lemma_steps_count(&self, s: Seq<int>, k: int)
        requires
            0 <= k <= s.len(),
            forall|x: int| 0 <= x < s.len() ==> #[trigger] self.greedy_step(s, x),
        ensures
            k + count_false(mask_of(s.take(k), self.threads())) == self.threads(),
        decreases k,
    {
        let n = self.threads();
        if k == 0 {
            assert(mask_of(s.take(0), n) =~= Seq::new(n as nat, |i: int| false));
            self.lemma_count_false_all_false(mask_of(s.take(0), n));
        } else {
            self.lemma_steps_count(s, k - 1);
            assert(self.greedy_step(s, k - 1));
            assert(s.take(k) =~= s.take(k - 1).push(s[k - 1]));
            self.lemma_mask_push(s.take(k - 1), s[k - 1]);
            self.lemma_count_false_mark(mask_of(s.take(k - 1), n), s[k - 1]);
        }
    }

    /// Extends a run that follows the detection's rule until no unfinished
    /// thread can finish.
    proof fn lemma_extend_run(&self, s: Seq<int>) -> (r: Seq<int>)
        requires
            forall|x: int| 0 <= x < s.len() ==> #[trigger] self.greedy_step(s, x),
        ensures
            self.is_greedy_run(r),
        decreases count_false(mask_of(s, self.threads())),
    {
        let n = self.threads();
                let done = mask_of(s, n);
        self.lemma_first_finishable(done, 0);
        let p = self.first_finishable(done, 0);
        assert(s.take(s.len() as int) =~= s);
        if p >= n {
            s
        } else {
            let s2 = s.push(p);
            assert(s2.take(s.len() as int) =~= s);
            assert forall|x: int| 0 <= x < s2.len() implies #[trigger] self.greedy_step(s2, x) by {
                if x < s.len() {
                    assert(s2.take(x) =~= s.take(x));
                    assert(self.greedy_step(s, x));
                } else {
                    assert(s2[x] == p);
                    assert(mask_of(s2.take(x), n) == done);
                }
            }
            self.lemma_mask_push(s, p);
            self.lemma_count_false_mark(done, p);
            self.lemma_extend_run(s2)
        }
    }

    /// The detection's run always exists.
    proof fn lemma_greedy_run_exists(&self) -> (r: Seq<int>)
        ensures
            self.is_greedy_run(r),
    {
        self.lemma_extend_run(Seq::empty())
    }

    proof fn lemma_held_monotone(&self, a: Seq<bool>, b: Seq<bool>, j: int, k: int)
        requires
            forall|i: int| 0 <= i < k ==> a[i] ==> b[i],
            forall|i: int| 0 <= i < k ==> #[trigger] self.alloc_at(i, j) >= 0,
        ensures
            self.held(a, j, k) <= self.held(b, j, k),
        decreases k,
    {
        if k > 0 {
            self.lemma_held_monotone(a, b, j, k - 1);
        }
    }

    proof fn lemma_safe_prefix_in_run(&self, g: Seq<int>, t: Seq<int>, k: int)
        requires
            self.allocation_nonnegative(),
            self.is_greedy_run(g),
            self.is_safe_sequence(t),
            0 <= k <= t.len(),
        ensures
            forall|x: int| 0 <= x < k ==> #[trigger] mask_of(g, self.threads())[t[x]],
        decreases k,
    {
        let n = self.threads();
        if k > 0 {
            let p = k - 1;
            self.lemma_safe_prefix_in_run(g, t, p);
            let a = mask_of(t.take(p), n);
            let b = mask_of(g, n);
            assert forall|i: int| 0 <= i < n && a[i] implies b[i] by {
                {
                    let w = choose|w: int| 0 <= w < p && t.take(p)[w] == i;
                    assert(t[w] == i);
                    assert(b[t[w]]);
                }
            }
            assert(t[p] < n && self.can_finish(t[p], a));
            assert forall|j: int| 0 <= j < self.kinds() implies #[trigger] self.need_at(t[p], j)
                <= self.work_of(b, j) by {
                self.lemma_held_monotone(a, b, j, n);
                assert(self.need_at(t[p], j) <= self.work_of(a, j));
            }
            assert(self.can_finish(t[p], b));
        }
    }

    proof fn lemma_held_same(&self, other: DetectorState, mask: Seq<bool>, j: int, k: int)
        requires
            self.allocation == other.allocation,
        ensures
            self.held(mask, j, k) == other.held(mask, j, k),
        decreases k,
    {
        if k > 0 {
            self.lemma_held_same(other, mask, j, k - 1);
        }
    }

    /// A safe state stays safe with more free units or smaller needs (for
    /// nonnegative holdings): if the detection lets every thread finish in
    /// `self`, it does so in `other`, which holds the same and has at least
    /// as many free units and at most the same needs.
    pub proof fn lemma_safe_monotone(&self, other: DetectorState)
        requires
            self.allocation_nonnegative(),
            self.greedy_completes(),
            other.allocation == self.allocation,
            other.available.len() == self.available.len(),
            forall|j: int| 0 <= j < self.kinds() ==> #[trigger] other.available[j] >= self.available[j],
            forall|i: int, j: int|
                0 <= i < self.threads() && 0 <= j < self.kinds() ==> #[trigger] other.need_at(i, j)
                    <= self.need_at(i, j),
        ensures
            other.greedy_completes(),
    {
        let n = self.threads();
        self.lemma_safe_iff_safe_sequence();
        let t = choose|t: Seq<int>| self.is_safe_sequence(t);
        assert forall|k: int| 0 <= k < t.len() implies 0 <= #[trigger] t[k] < other.threads()
            && other.can_finish(t[k], mask_of(t.take(k), other.threads())) by {
            assert(0 <= t[k] < n && self.can_finish(t[k], mask_of(t.take(k), n)));
            let mask = mask_of(t.take(k), n);
            assert forall|j: int| 0 <= j < other.kinds() implies #[trigger] other.need_at(t[k], j)
                <= other.work_of(mask, j) by {
                self.lemma_held_same(other, mask, j, n);
                assert(self.need_at(t[k], j) <= self.work_of(mask, j));
            }
        }
        assert forall|i: int| 0 <= i < other.threads() implies #[trigger] t.contains(i) by {
            assert(t.contains(i));
        }
        assert(other.is_safe_sequence(t));
        assert forall|i: int, j: int|
            0 <= i < other.threads() && 0 <= j < other.kinds() implies #[trigger] other.alloc_at(i, j) >= 0 by {
            assert(self.alloc_at(i, j) >= 0);
        }
        other.lemma_safe_iff_safe_sequence();
    }

    /// When the detection lets every thread finish, the order it reports is a
    /// safe sequence: it names every thread, and each can finish once those
    /// before it have.
    pub proof fn lemma_reported_order_is_safe_sequence(&self, s: Seq<int>)
        requires
            self.is_greedy_run(s),
            s.len() == self.threads(),
        ensures
            self.is_safe_sequence(s),
    {
        let n = self.threads();
        self.lemma_steps_count(s, s.len() as int);
        assert(s.take(s.len() as int) =~= s);
        self.lemma_count_false_zero(mask_of(s, n));
        assert forall|k: int| 0 <= k < s.len() implies 0 <= #[trigger] s[k] < n && self.can_finish(
            s[k],
            mask_of(s.take(k), n),
        ) by {
            assert(self.greedy_step(s, k));
        }
        assert forall|i: int| 0 <= i < n implies #[trigger] s.contains(i) by {
            assert(mask_of(s, n)[i]);
        }
    }

    /// The safety test answers "safe" exactly when the state is safe in the
    /// classical sense: some order lets every thread finish.  This needs
    /// every held amount to be nonnegative (with negative holdings, letting a
    /// thread finish can shrink the free pool and the detection's fixed order may
    /// get stuck where another order would not).
    pub proof fn lemma_safe_iff_safe_sequence(&self)
        requires
            self.allocation_nonnegative(),
        ensures
            self.greedy_completes() <==> self.has_safe_sequence(),
    {
        let n = self.threads();
        if self.greedy_completes() {
            let g = choose|g: Seq<int>| self.is_greedy_run(g) && g.len() == n;
            self.lemma_reported_order_is_safe_sequence(g);
        }
        if self.has_safe_sequence() {
            let t = choose|t: Seq<int>| self.is_safe_sequence(t);
            let g = self.lemma_greedy_run_exists();
            self.lemma_safe_prefix_in_run(g, t, t.len() as int);
            assert forall|i: int| 0 <= i < n implies #[trigger] mask_of(g, n)[i] by {
                assert(t.contains(i));
                let w = choose|w: int| 0 <= w < t.len() && t[w] == i;
                assert(mask_of(g, n)[t[w]]);
            }
            self.lemma_count_false_zero(mask_of(g, n));
            self.lemma_steps_count(g, g.len() as int);
            assert(g.take(g.len() as int) =~= g);
            assert(self.is_greedy_run(g) && g.len() == n);
        }
    }
}

impl BankerDeadlockDetector {
    /// A detector with no resource kinds and one (empty) row for the main thread.
    pub fn new() -> (d: Self)
        ensures
            d@ == DetectorState::initial(),
            d.available@.len() == 0,
            d.allocation@.len() == 1,
            d.allocation@[0]@.len() == 0,
            d.need@.len() == 1,
            d.need@[0]@.len() == 0,
    {
        let mut allocation: Vec<Vec<isize>> = Vec::new();
        allocation.push(Vec::new());
        let mut need: Vec<Vec<isize>> = Vec::new();
        need.push(Vec::new());
        let d = BankerDeadlockDetector { available: Vec::new(), allocation, need };
        proof {
            assert(ints(d.allocation@[0]@) =~= Seq::<int>::empty());
            assert(d@.available =~= Seq::<int>::empty());
            assert(d@.allocation =~= seq![Seq::<int>::empty()]);
            assert(d@.need =~= seq![Seq::<int>::empty()]);
        }
        d
    }

    /// How the view reads the vectors.
    pub(crate) proof fn lemma_view(&self)
        ensures
            self@.available.len() == self.available@.len(),
            self@.allocation.len() == self.allocation@.len(),
            self@.need.len() == self.need@.len(),
            forall|j: int|
                0 <= j < self.available@.len() ==> #[trigger] self@.available[j]
                    == self.available@[j] as int,
            forall|i: int|
                0 <= i < self.allocation@.len() ==> #[trigger] self@.allocation[i] == ints(
                    self.allocation@[i]@,
                ),
            forall|i: int|
                0 <= i < self.need@.len() ==> #[trigger] self@.need[i] == ints(self.need@[i]@),
    {
    }

    /// Runs the safety test.  Returns whether every thread can finish and,
    /// if so, the order in which the detection let them finish; otherwise an
    /// empty order.
    pub fn is_safe_state(&self) -> (r: (bool, Vec<usize>))
        requires
            self@.well_shaped(),
            self@.threads_fit(),
        ensures
            r.0 == self@.greedy_completes(),
            r.0 ==> self@.is_greedy_run(indices(r.1@)) && r.1@.len() == self@.threads(),
            !r.0 ==> r.1@.len() == 0,
    {
        let ghost d = self@;
        proof {
            self.lemma_view();
        }
        let n = self.allocation.len();
        let m = self.available.len();
        proof {
            assert(d.holdings_in_isize()) by {
                assert forall|i: int, j: int| 0 <= i < d.threads() && 0 <= j < d.kinds() implies isize::MIN
                    <= #[trigger] d.alloc_at(i, j) <= isize::MAX by {
                    assert(d.allocation[i] == ints(self.allocation@[i]@));
                    assert(d.allocation[i][j] == self.allocation@[i]@[j] as int);
                }
            }
        }
        let mut work: Vec<i128> = Vec::new();
        let mut w: usize = 0;
        while w < m
            invariant
                w <= m,
                m == self.available@.len(),
                work@.len() == w,
                forall|j: int| 0 <= j < w ==> #[trigger] work@[j] == self.available@[j] as int,
            decreases m - w,
        {
            work.push(self.available[w] as i128);
            w = w + 1;
        }
        let mut finish: Vec<bool> = Vec::new();
        let mut z: usize = 0;
        while z < n
            invariant
                z <= n,
                finish@.len() == z,
                forall|i: int| 0 <= i < z ==> !finish@[i],
            decreases n - z,
        {
            finish.push(false);
            z = z + 1;
        }
        let mut safe_sequence: Vec<usize> = Vec::new();
        proof {
            assert(finish@ =~= mask_of(indices(safe_sequence@), n as int));
            d.lemma_count_false_all_false(finish@);
            assert forall|j: int| 0 <= j < m implies work@[j] == d.work_of(finish@, j) by {
                d.lemma_held_none(finish@, j, n as int);
                assert(d.available[j] == self.available@[j] as int);
            }
        }
        loop
            invariant
                d == self@,
                d.well_shaped(),
                d.threads_fit(),
                d.holdings_in_isize(),
                n == d.threads(),
                m == d.kinds(),
                n == self.allocation@.len(),
                d.need.len() == self.need@.len(),
                forall|i: int| 0 <= i < self.allocation@.len() ==> #[trigger] d.allocation[i] == ints(self.allocation@[i]@),
                forall|i: int| 0 <= i < self.need@.len() ==> #[trigger] d.need[i] == ints(self.need@[i]@),
                work@.len() == m,
                finish@ == mask_of(indices(safe_sequence@), n as int),
                safe_sequence@.len() + count_false(finish@) == n,
                forall|k: int| 0 <= k < safe_sequence@.len() ==> #[trigger] d.greedy_step(indices(safe_sequence@), k),
                forall|j: int| 0 <= j < m ==> #[trigger] work@[j] == d.work_of(finish@, j),
            ensures
                forall|i2: int| 0 <= i2 < n && !finish@[i2] ==> !#[trigger] d.can_finish(i2, finish@),
            decreases count_false(finish@),
        {
            let mut found = false;
            let mut i: usize = 0;
            let ghost start_finish = finish@;
            while i < n
                invariant_except_break
                    !found,
                    finish@ == start_finish,
                    forall|i2: int| 0 <= i2 < i && !finish@[i2] ==> !#[trigger] d.can_finish(i2, finish@),
                invariant
                    i <= n,
                    d == self@,
                    d.well_shaped(),
                    d.threads_fit(),
                    d.holdings_in_isize(),
                d.threads_fit(),
                d.holdings_in_isize(),
                        n == d.threads(),
                    m == d.kinds(),
                    n == self.allocation@.len(),
                    d.need.len() == self.need@.len(),
                    forall|i3: int| 0 <= i3 < self.allocation@.len() ==> #[trigger] d.allocation[i3] == ints(self.allocation@[i3]@),
                    forall|i3: int| 0 <= i3 < self.need@.len() ==> #[trigger] d.need[i3] == ints(self.need@[i3]@),
                    work@.len() == m,
                    finish@.len() == n,
                    safe_sequence@.len() + count_false(finish@) == n,
                    finish@ == mask_of(indices(safe_sequence@), n as int),
                    forall|k: int| 0 <= k < safe_sequence@.len() ==> #[trigger] d.greedy_step(indices(safe_sequence@), k),
                    forall|j: int| 0 <= j < m ==> #[trigger] work@[j] == d.work_of(finish@, j),
                ensures
                    found ==> count_false(finish@) < count_false(start_finish),
                    !found ==> finish@ == start_finish,
                    !found ==> forall|i2: int| 0 <= i2 < n && !finish@[i2] ==> !#[trigger] d.can_finish(i2, finish@),
                decreases n - i,
            {
                proof {
                    assert(d.allocation[i as int] == ints(self.allocation@[i as int]@));
                    assert(d.need[i as int] == ints(self.need@[i as int]@));
                    assert(d.allocation[i as int].len() >= m);
                }
                if !finish[i] {
                    let ok = Self::fits(&self.need[i], &work, m);
                    if !ok {
                        proof {
                            let j = choose|j: int| 0 <= j < m && !(self.need@[i as int]@[j] <= work@[j]);
                            assert(work@[j] == d.work_of(finish@, j));
                            assert(d.need[i as int][j] == self.need@[i as int]@[j] as int);
                            assert(!(d.need_at(i as int, j) <= d.work_of(finish@, j)));
                        }
                    } else {
                        let ghost old_finish = finish@;
                        let ghost old_seq = indices(safe_sequence@);
                        let ghost old_work = work@;
                        proof {
                            assert(d.can_finish(i as int, finish@)) by {
                                assert forall|j: int| 0 <= j < m implies #[trigger] d.need_at(i as int, j) <= d.work_of(finish@, j) by {
                                    assert(work@[j] == d.work_of(finish@, j));
                                    assert(d.need[i as int][j] == self.need@[i as int]@[j] as int);
                                }
                            }
                            assert(d.greedy_step(old_seq.push(i as int), old_seq.len() as int)) by {
                                assert(old_seq.push(i as int).take(old_seq.len() as int) =~= old_seq);
                            }
                        }
                        let mut j: usize = 0;
                        while j < m
                            invariant
                                j <= m,
                                i < n,
                                d == self@,
                                d.well_shaped(),
                    d.threads_fit(),
                    d.holdings_in_isize(),
                d.threads_fit(),
                d.holdings_in_isize(),
                                                n == d.threads(),
                                m == d.kinds(),
                                d.allocation[i as int] == ints(self.allocation@[i as int]@),
                                self.allocation@[i as int]@.len() >= m,
                                !old_finish[i as int],
                                old_finish.len() == n,
                                work@.len() == m,
                                forall|j2: int| 0 <= j2 < m ==> #[trigger] old_work[j2] == d.work_of(old_finish, j2),
                                forall|j2: int| 0 <= j2 < j ==> #[trigger] work@[j2] == old_work[j2] + d.alloc_at(i as int, j2),
                                forall|j2: int| j <= j2 < m ==> #[trigger] work@[j2] == old_work[j2],
                            decreases m - j,
                        {
                            proof {
                                d.lemma_held_mark(old_finish, i as int, j as int, n as int);
                                d.lemma_held_bounded(old_finish.update(i as int, true), j as int, n as int);
                                d.lemma_held_abs_at_most(j as int, n as int);
                                assert(old_work[j as int] == d.work_of(old_finish, j as int));
                                assert(d.allocation[i as int][j as int] == self.allocation@[i as int]@[j as int] as int);
                            }
                            let a = self.allocation[i][j] as i128;
                            work.set(j, work[j] + a);
                            j = j + 1;
                        }
                        finish.set(i, true);
                        safe_sequence.push(i);
                        proof {
                            let ns = indices(safe_sequence@);
                            assert(ns =~= old_seq.push(i as int));
                            d.lemma_mask_push(old_seq, i as int);
                            assert(finish@ =~= old_finish.update(i as int, true));
                            d.lemma_count_false_mark(old_finish, i as int);
                            assert forall|k: int| 0 <= k < ns.len() implies #[trigger] d.greedy_step(ns, k) by {
                                if k < old_seq.len() {
                                    assert(ns.take(k) =~= old_seq.take(k));
                                    assert(d.greedy_step(old_seq, k));
                                }
                            }
                            assert forall|j2: int| 0 <= j2 < m implies #[trigger] work@[j2] == d.work_of(finish@, j2) by {
                                d.lemma_held_mark(old_finish, i as int, j2, n as int);
                            }
                        }
                        found = true;
                        break;
                    }
                }
                i = i + 1;
            }
            if !found {
                break;
            }
        }
        let ghost s = indices(safe_sequence@);
        proof {
            assert(d.is_greedy_run(s));
            d.lemma_count_false_zero(finish@);
        }
        let mut all = true;
        let mut k: usize = 0;
        while k < n
            invariant
                k <= n,
                finish@.len() == n,
                all == (forall|x: int| 0 <= x < k ==> #[trigger] finish@[x]),
            decreases n - k,
        {
            if !finish[k] {
                all = false;
            }
            k = k + 1;
        }
        proof {
            if all {
                assert(s.len() == n);
            } else {
                assert(s.len() < n);
                if d.greedy_completes() {
                    let g = choose|g: Seq<int>| d.is_greedy_run(g) && g.len() == d.threads();
                    d.lemma_greedy_run_unique(s, g);
                }
            }
        }
        if all {
            (true, safe_sequence)
        } else {
            (false, Vec::new())
        }
    }

    /// Whether `need_row[j] <= work[j]` for every `j < m`.
    fn fits(need_row: &Vec<isize>, work: &Vec<i128>, m: usize) -> (r: bool)
        requires
            need_row@.len() >= m,
            work@.len() >= m,
        ensures
            r == forall|j: int| 0 <= j < m ==> #[trigger] need_row@[j] <= work@[j],
    {
        let mut j: usize = 0;
        while j < m
            invariant
                j <= m,
                need_row@.len() >= m,
                work@.len() >= m,
                forall|j2: int| 0 <= j2 < j ==> #[trigger] need_row@[j2] <= work@[j2],
            decreases m - j,
        {
            if need_row[j] as i128 > work[j] {
                return false;
            }
            j = j + 1;
        }
        true
    }


    /// Sets `need[i][j]`.
    pub(crate) fn set_need(&mut self, i: usize, j: usize, v: isize)
        requires
            i < old(self)@.need.len(),
            j < old(self)@.need[i as int].len(),
        ensures
            final(self)@ == old(self)@.with_need(i as int, j as int, v as int),
    {
        proof {
            self.lemma_view();
        }
        self.need[i][j] = v;
        proof {
            self.lemma_view();
            assert(self@.need =~~= old(self)@.with_need(i as int, j as int, v as int).need);
            assert(self@.available =~= old(self)@.available);
            assert(self@.allocation =~~= old(self)@.allocation);
        }
    }

    /// Sets `allocation[i][j]`.
    pub(crate) fn set_alloc(&mut self, i: usize, j: usize, v: isize)
        requires
            i < old(self)@.allocation.len(),
            j < old(self)@.allocation[i as int].len(),
        ensures
            final(self)@ == old(self)@.with_alloc(i as int, j as int, v as int),
    {
        proof {
            self.lemma_view();
        }
        self.allocation[i][j] = v;
        proof {
            self.lemma_view();
            assert(self@.allocation =~~= old(self)@.with_alloc(i as int, j as int, v as int).allocation);
            assert(self@.available =~= old(self)@.available);
            assert(self@.need =~~= old(self)@.need);
        }
    }

    /// Sets `available[j]`.
    pub(crate) fn set_avail(&mut self, j: usize, v: isize)
        requires
            j < old(self)@.available.len(),
        ensures
            final(self)@ == old(self)@.with_avail(j as int, v as int),
    {
        proof {
            self.lemma_view();
        }
        self.available[j] = v;
        proof {
            self.lemma_view();
            assert(self@.available =~= old(self)@.with_avail(j as int, v as int).available);
            assert(self@.allocation =~~= old(self)@.allocation);
            assert(self@.need =~~= old(self)@.need);
        }
    }

    /// Adds a resource kind with `v` free units and zero entries in row `i`.
    pub(crate) fn add_kind_for_row(&mut self, i: usize, v: isize)
        requires
            i < old(self)@.allocation.len(),
            i < old(self)@.need.len(),
        ensures
            final(self)@ == old(self)@.with_kind_for_row(i as int, v as int),
    {
        proof {
            self.lemma_view();
        }
        self.available.push(v);
        self.allocation[i].push(0);
        self.need[i].push(0);
        proof {
            self.lemma_view();
            let e = old(self)@.with_kind_for_row(i as int, v as int);
            assert(self@.available =~= e.available);
            assert(self@.allocation =~~= e.allocation);
            assert(self@.need =~~= e.need);
        }
    }

    /// Resets resource kind `j` to `v` free units with zero entries in row `i`.
    pub(crate) fn reset_kind_for_row(&mut self, i: usize, j: usize, v: isize)
        requires
            j < old(self)@.available.len(),
            i < old(self)@.allocation.len(),
            j < old(self)@.allocation[i as int].len(),
            i < old(self)@.need.len(),
            j < old(self)@.need[i as int].len(),
        ensures
            final(self)@ == old(self)@.with_kind_reset_for_row(i as int, j as int, v as int),
    {
        self.set_avail(j, v);
        self.set_alloc(i, j, 0);
        self.set_need(i, j, 0);
        proof {
            let e = old(self)@.with_kind_reset_for_row(i as int, j as int, v as int);
            assert(self@.available =~= e.available);
            assert(self@.allocation =~~= e.allocation);
            assert(self@.need =~~= e.need);
        }
    }

    /// Adds a resource kind with `v` free units and zero entries in rows `i < rows`.
    pub(crate) fn add_kind_for_rows(&mut self, rows: usize, v: isize)
        requires
            rows <= old(self)@.allocation.len(),
            rows <= old(self)@.need.len(),
        ensures
            final(self)@ == old(self)@.with_kind_for_rows(rows as int, v as int),
    {
        proof {
            self.lemma_view();
        }
        self.available.push(v);
        let mut i: usize = 0;
        while i < rows
            invariant
                i <= rows,
                rows <= old(self)@.allocation.len(),
                rows <= old(self)@.need.len(),
                self.available@ == old(self).available@.push(v),
                self.allocation@.len() == old(self).allocation@.len(),
                self.need@.len() == old(self).need@.len(),
                forall|k: int| 0 <= k < i ==> #[trigger] self.allocation@[k]@ == old(self).allocation@[k]@.push(0),
                forall|k: int| i <= k < self.allocation@.len() ==> #[trigger] self.allocation@[k]@ == old(self).allocation@[k]@,
                forall|k: int| 0 <= k < i ==> #[trigger] self.need@[k]@ == old(self).need@[k]@.push(0),
                forall|k: int| i <= k < self.need@.len() ==> #[trigger] self.need@[k]@ == old(self).need@[k]@,
            decreases rows - i,
        {
            self.allocation[i].push(0);
            self.need[i].push(0);
            i = i + 1;
        }
        proof {
            self.lemma_view();
            old(self).lemma_view();
            let e = old(self)@.with_kind_for_rows(rows as int, v as int);
            assert(self@.available =~= e.available);
            assert forall|k: int| 0 <= k < self@.allocation.len() implies #[trigger] self@.allocation[k] =~= e.allocation[k] by {
                if k < rows {
                    assert(ints(old(self).allocation@[k]@.push(0)) =~= ints(old(self).allocation@[k]@).push(0));
                }
            }
            assert forall|k: int| 0 <= k < self@.need.len() implies #[trigger] self@.need[k] =~= e.need[k] by {
                if k < rows {
                    assert(ints(old(self).need@[k]@.push(0)) =~= ints(old(self).need@[k]@).push(0));
                }
            }
            assert(self@.allocation =~= e.allocation);
            assert(self@.need =~= e.need);
        }
    }

    /// Resets resource kind `j` to `v` free units with zero entries in rows `i < rows`.
    pub(crate) fn reset_kind_for_rows(&mut self, rows: usize, j: usize, v: isize)
        requires
            j < old(self)@.available.len(),
            rows <= old(self)@.allocation.len(),
            rows <= old(self)@.need.len(),
            forall|i: int| 0 <= i < rows ==> j < #[trigger] old(self)@.allocation[i].len(),
            forall|i: int| 0 <= i < rows ==> j < #[trigger] old(self)@.need[i].len(),
        ensures
            final(self)@ == old(self)@.with_kind_reset_for_rows(rows as int, j as int, v as int),
    {
        self.set_avail(j, v);
        let ghost start = self@;
        let mut i: usize = 0;
        while i < rows
            invariant
                i <= rows,
                rows <= start.allocation.len(),
                rows <= start.need.len(),
                forall|k: int| 0 <= k < rows ==> j < #[trigger] start.allocation[k].len(),
                forall|k: int| 0 <= k < rows ==> j < #[trigger] start.need[k].len(),
                self@.available == start.available,
                self@.allocation.len() == start.allocation.len(),
                self@.need.len() == start.need.len(),
                forall|k: int| 0 <= k < i ==> #[trigger] self@.allocation[k] == start.allocation[k].update(j as int, 0),
                forall|k: int| i <= k < self@.allocation.len() ==> #[trigger] self@.allocation[k] == start.allocation[k],
                forall|k: int| 0 <= k < i ==> #[trigger] self@.need[k] == start.need[k].update(j as int, 0),
                forall|k: int| i <= k < self@.need.len() ==> #[trigger] self@.need[k] == start.need[k],
            decreases rows - i,
        {
            self.set_alloc(i, j, 0);
            self.set_need(i, j, 0);
            i = i + 1;
        }
        proof {
            let e = old(self)@.with_kind_reset_for_rows(rows as int, j as int, v as int);
            assert(self@.available =~= e.available);
            assert(self@.allocation =~= e.allocation);
            assert(self@.need =~= e.need);
        }
    }
}

} // verus!
