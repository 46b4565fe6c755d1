use vstd::prelude::*;
use crate::particle::{Particle, SUBPIXELS};

verus! {

/// The entries of `s` are distinct.
pub open spec fn distinct<T>(s: Seq<T>) -> bool {
    forall|i: int, j: int| 0 <= i < s.len() && 0 <= j < s.len() && i != j ==> s[i] != s[j]
}

/// The entries of `s` increase strictly.
pub open spec fn increasing(s: Seq<usize>) -> bool {
    forall|i: int, j: int| 0 <= i < j < s.len() ==> s[i] < s[j]
}

/// The pair `e` takes its first index from `l` and its second from `m`; when the two
/// lists are one cell (`same`), the first comes strictly before the second.
pub open spec fn in_block(l: Seq<usize>, m: Seq<usize>, same: bool, e: (usize, usize)) -> bool {
    exists|i: int, j: int|
        0 <= i < l.len() && 0 <= j < m.len() && (same ==> i < j) && e == (l[i], m[j])
}

/// `e` is a pair of `in_block(l, m, same, _)` whose positions `(a, b)` come before `(i, j)`.
pub open spec fn made_before(
    l: Seq<usize>,
    m: Seq<usize>,
    same: bool,
    e: (usize, usize),
    i: int,
    j: int,
) -> bool {
    exists|a: int, b: int|
        0 <= a <= i && 0 <= a < l.len() && 0 <= b < m.len() && (same ==> a < b) && (a == i ==> b < j)
            && e == (l[a], m[b])
}

/// Appends every pair of `in_block(l, m, same, _)`, each once.
fn append_block(out: &mut Vec<(usize, usize)>, l: &Vec<usize>, m: &Vec<usize>, same: bool)
    requires
        distinct(l@),
        distinct(m@),
        same ==> l@ == m@,
    ensures
        final(out)@.len() >= old(out)@.len(),
        final(out)@.subrange(0, old(out)@.len() as int) == old(out)@,
        forall|k: int|
            old(out)@.len() <= k < final(out)@.len() ==> in_block(l@, m@, same, #[trigger] final(out)@[k]),
        forall|k1: int, k2: int|
            old(out)@.len() <= k1 < final(out)@.len() && old(out)@.len() <= k2 < final(out)@.len()
                && k1 != k2 ==> final(out)@[k1] != final(out)@[k2],
        forall|i: int, j: int|
            0 <= i < l@.len() && 0 <= j < m@.len() && (same ==> i < j) ==> final(out)@.contains(
                (l@[i], m@[j]),
            ),
{
    let ghost start = out@.len() as int;
    let ghost orig = out@;
    let mut i: usize = 0;
    while i < l.len()
        invariant
            i <= l@.len(),
            distinct(l@),
            distinct(m@),
            same ==> l@ == m@,
            out@.len() >= start,
            start == orig.len(),
            out@.subrange(0, start) == orig,
            forall|k: int|
                start <= k < out@.len() ==> made_before(l@, m@, same, #[trigger] out@[k], i - 1, m@.len() as int),
            forall|k1: int, k2: int|
                start <= k1 < out@.len() && start <= k2 < out@.len() && k1 != k2 ==> out@[k1]
                    != out@[k2],
            forall|a: int, b: int|
                0 <= a < i && 0 <= b < m@.len() && (same ==> a < b) ==> out@.contains(
                    (l@[a], m@[b]),
                ),
        decreases l@.len() - i,
    {
        let mut j: usize = if same { i + 1 } else { 0 };
        assert forall|k: int| start <= k < out@.len() implies made_before(l@, m@, same, #[trigger] out@[k], i as int, j as int) by {
            let (a, b) = choose|a: int, b: int|
                0 <= a <= i - 1 && 0 <= a < l@.len() && 0 <= b < m@.len() && (same ==> a < b) && (a == i - 1 ==> b < m@.len())
                    && out@[k] == (l@[a], m@[b]);
            assert(0 <= a <= i && (a == i ==> b < j) && out@[k] == (l@[a], m@[b]));
        }
        while j < m.len()
            invariant
                i < l@.len(),
                same ==> i + 1 <= j,
                j <= m@.len(),
                distinct(l@),
                distinct(m@),
                same ==> l@ == m@,
                out@.len() >= start,
                start == orig.len(),
                out@.subrange(0, start) == orig,
                forall|k: int|
                    start <= k < out@.len() ==> made_before(l@, m@, same, #[trigger] out@[k], i as int, j as int),
                forall|k1: int, k2: int|
                    start <= k1 < out@.len() && start <= k2 < out@.len() && k1 != k2 ==> out@[k1]
                        != out@[k2],
                forall|a: int, b: int|
                    0 <= a <= i && 0 <= b < m@.len() && (same ==> a < b) && (a == i ==> b < j)
                        ==> out@.contains((l@[a], m@[b])),
            decreases m@.len() - j,
        {
            let e = (l[i], m[j]);
            let ghost before = out@;
            assert forall|k: int| start <= k < before.len() implies before[k] != e by {
                assert(made_before(l@, m@, same, before[k], i as int, j as int));
                let (a, b) = choose|a: int, b: int|
                    0 <= a <= i && 0 <= a < l@.len() && 0 <= b < m@.len() && (same ==> a < b) && (a == i ==> b < j)
                        && before[k] == (l@[a], m@[b]);
                assert(l@[a] == l@[i as int] ==> a == i);
                assert(m@[b] == m@[j as int] ==> b == j);
            }
            out.push(e);
            assert(out@.subrange(0, start) =~= orig);
            assert forall|a: int, b: int|
                0 <= a <= i && 0 <= b < m@.len() && (same ==> a < b) && (a == i ==> b < j + 1)
                    implies out@.contains((l@[a], m@[b])) by {
                if a == i && b == j {
                    assert(out@[out@.len() - 1] == (l@[a], m@[b]));
                } else {
                    assert(before.contains((l@[a], m@[b])));
                    let k = choose|k: int| 0 <= k < before.len() && before[k] == (l@[a], m@[b]);
                    assert(out@[k] == (l@[a], m@[b]));
                }
            }
            assert forall|k: int| start <= k < out@.len() implies made_before(l@, m@, same, #[trigger] out@[k], i as int, j + 1) by {
                if k == out@.len() - 1 {
                    assert(out@[k] == (l@[i as int], m@[j as int]));
                } else {
                    assert(out@[k] == before[k]);
                    assert(made_before(l@, m@, same, before[k], i as int, j as int));
                    let (a, b) = choose|a: int, b: int|
                        0 <= a <= i && 0 <= a < l@.len() && 0 <= b < m@.len() && (same ==> a < b) && (a == i ==> b < j)
                            && before[k] == (l@[a], m@[b]);
                    assert(0 <= a <= i && (a == i ==> b < j + 1) && out@[k] == (l@[a], m@[b]));
                }
            }
            j = j + 1;
        }
        assert forall|a: int, b: int|
            0 <= a < i + 1 && 0 <= b < m@.len() && (same ==> a < b) implies out@.contains(
                (l@[a], m@[b]),
            ) by {
            if a == i {
                assert(b < j);
            }
        }
        i = i + 1;
    }
    assert forall|k: int| start <= k < out@.len() implies in_block(l@, m@, same, #[trigger] out@[k]) by {
        assert(made_before(l@, m@, same, out@[k], i - 1, m@.len() as int));
        let (a, b) = choose|a: int, b: int|
            0 <= a <= i - 1 && 0 <= a < l@.len() && 0 <= b < m@.len() && (same ==> a < b) && (a == i - 1 ==> b < m@.len())
                && out@[k] == (l@[a], m@[b]);
        assert(0 <= a < l@.len() && 0 <= b < m@.len() && (same ==> a < b) && out@[k] == (
            l@[a],
            m@[b],
        ));
    }
}

} // verus!

verus! {

/// Side of a grid cell, in pixels.
pub const CELL_SIZE: u32 = 25;

/// A uniform grid over the screen whose cells hold the indices of the particles centred
/// in them. Cell `(col, row)` is stored at `col * rows + row`.
pub struct SpatialGrid {
    pub cell_size: u32,
    pub cols: usize,
    pub rows: usize,
    pub cells: Vec<Vec<usize>>,
    /// For each particle index, the cell it was put in, or -1 when it lies outside.
    pub assigned: Ghost<Seq<int>>,
}

impl SpatialGrid {
    /// The cell holding a centre at `(x, y)` (in sub-pixels), or -1 beyond the grid.
    /// Negative coordinates count as column or row 0.
    pub open spec fn cell_of(&self, x: int, y: int) -> int {
        let side = self.cell_size as int * SUBPIXELS;
        let cx = if x < 0 { 0 } else { x / side };
        let cy = if y < 0 { 0 } else { y / side };
        if cx < self.cols && cy < self.rows {
            cx * self.rows + cy
        } else {
            -1
        }
    }

    /// The cell of each particle of `ps`.
    pub open spec fn assignment(&self, ps: Seq<Particle>) -> Seq<int> {
        Seq::new(ps.len(), |k: int| self.cell_of(ps[k].x as int, ps[k].y as int))
    }

    /// How cell `cb` lies from cell `ca`: 0 the same cell, 1 east, 2 south, 3 south-east,
    /// -1 none of these.
    pub open spec fn link(&self, ca: int, cb: int) -> int {
        if cb == ca {
            0
        } else if cb == ca + self.rows && ca / self.rows as int + 1 < self.cols {
            1
        } else if cb == ca + 1 && ca % self.rows as int + 1 < self.rows {
            2
        } else if cb == ca + self.rows + 1 && ca / self.rows as int + 1 < self.cols && ca
            % self.rows as int + 1 < self.rows {
            3
        } else {
            -1
        }
    }

    /// Particles `a` and `b` form a candidate pair: both are in the grid, and either they
    /// share a cell and `a < b`, or `b`'s cell is the east, south or south-east neighbour
    /// of `a`'s.
    pub open spec fn related(&self, a: int, b: int) -> bool {
        let asg = self.assigned@;
        &&& 0 <= a < asg.len()
        &&& 0 <= b < asg.len()
        &&& asg[a] >= 0
        &&& asg[b] >= 0
        &&& ((self.link(asg[a], asg[b]) == 0 && a < b) || self.link(asg[a], asg[b]) >= 1)
    }

    pub open spec fn wf(&self) -> bool {
        let total = self.cols * self.rows;
        let asg = self.assigned@;
        &&& self.cell_size > 0
        &&& 1 <= self.cols <= 0x1_0000_0000
        &&& 1 <= self.rows <= 0x1_0000_0000
        &&& total <= usize::MAX
        &&& asg.len() <= usize::MAX
        &&& self.cells@.len() == total
        &&& forall|c: int| 0 <= c < total ==> increasing(#[trigger] self.cells@[c]@)
        &&& forall|c: int, i: int|
            0 <= c < total && 0 <= i < self.cells@[c]@.len() ==> self.cells@[c]@[i] < asg.len()
                && asg[self.cells@[c]@[i] as int] == c
        &&& forall|k: int|
            0 <= k < asg.len() ==> -1 <= #[trigger] asg[k] < total && (asg[k] >= 0
                ==> self.cells@[asg[k]]@.contains(k as usize))
    }

    /// An empty grid covering a `width` by `height` pixel screen.
    pub fn new(width: u32, height: u32, cell_size: u32) -> (g: Self)
        requires
            cell_size > 0,
            (width / cell_size + 1) as int * (height / cell_size + 1) as int <= usize::MAX,
        ensures
            g.wf(),
            g.cell_size == cell_size,
            g.cols == width / cell_size + 1,
            g.rows == height / cell_size + 1,
            g.assigned@.len() == 0,
    {
        let ghost wc = (width / cell_size + 1) as int;
        let ghost hc = (height / cell_size + 1) as int;
        assert(wc <= usize::MAX && hc <= usize::MAX) by (nonlinear_arith)
            requires wc * hc <= usize::MAX, wc >= 1, hc >= 1;
        let cols = (width / cell_size) as usize + 1;
        let rows = (height / cell_size) as usize + 1;
        let total = cols * rows;
        let mut cells: Vec<Vec<usize>> = Vec::new();
        while cells.len() < total
            invariant
                cells@.len() <= total,
                forall|c: int| 0 <= c < cells@.len() ==> (#[trigger] cells@[c])@.len() == 0,
            decreases total - cells@.len(),
        {
            cells.push(Vec::new());
        }
        SpatialGrid { cell_size, cols, rows, cells, assigned: Ghost(Seq::empty()) }
    }

    /// Empties every cell and puts each particle's index into the cell of its centre.
    pub fn rebuild(&mut self, particles: &Vec<Particle>)
        requires
            old(self).wf(),
        ensures
            final(self).wf(),
            final(self).cell_size == old(self).cell_size,
            final(self).cols == old(self).cols,
            final(self).rows == old(self).rows,
            final(self).assigned@ == old(self).assignment(particles@),
    {
        let total = self.cols * self.rows;
        let ghost asg = self.assignment(particles@);
        let mut c: usize = 0;
        while c < total
            invariant
                total == self.cols * self.rows,
                self.cells@.len() == total,
                self.cell_size == old(self).cell_size,
                self.cols == old(self).cols,
                self.rows == old(self).rows,
                c <= total,
                forall|d: int| 0 <= d < c ==> (#[trigger] self.cells@[d])@.len() == 0,
            decreases total - c,
        {
            self.cells.set(c, Vec::new());
            c = c + 1;
        }
        let side: i64 = self.cell_size as i64 * SUBPIXELS;
        let mut k: usize = 0;
        while k < particles.len()
            invariant
                total == self.cols * self.rows,
                self.cells@.len() == total,
                self.cell_size == old(self).cell_size,
                self.cols == old(self).cols,
                self.rows == old(self).rows,
                self.cell_size > 0,
                1 <= self.cols <= 0x1_0000_0000,
                1 <= self.rows <= 0x1_0000_0000,
                side == self.cell_size * SUBPIXELS,
                asg == self.assignment(particles@),
                k <= particles@.len(),
                forall|d: int| 0 <= d < total ==> increasing(#[trigger] self.cells@[d]@),
                forall|d: int, i: int|
                    0 <= d < total && 0 <= i < self.cells@[d]@.len() ==> self.cells@[d]@[i] < k
                        && asg[self.cells@[d]@[i] as int] == d,
                forall|j: int|
                    0 <= j < k ==> -1 <= #[trigger] asg[j] < total && (asg[j] >= 0
                        ==> self.cells@[asg[j]]@.contains(j as usize)),
            decreases particles@.len() - k,
        {
            let x = particles[k].x;
            let y = particles[k].y;
            let cx: i64 = if x < 0 { 0 } else { x / side };
            let cy: i64 = if y < 0 { 0 } else { y / side };
            proof {
                let c0 = asg[k as int];
                if cx < self.cols && cy < self.rows {
                    assert(cx * self.rows + cy < self.cols * self.rows) by (nonlinear_arith)
                        requires 0 <= cx < self.cols, 0 <= cy < self.rows;
                }
                assert(-1 <= c0 < total);
            }
            if cx < self.cols as i64 && cy < self.rows as i64 {
                let id = cx as usize * self.rows + cy as usize;
                let ghost before = self.cells@;
                let mut bucket = Vec::new();
                std::mem::swap(&mut bucket, &mut self.cells[id]);
                bucket.push(k);
                self.cells.set(id, bucket);
                assert forall|d: int| 0 <= d < total implies increasing(#[trigger] self.cells@[d]@) by {
                    if d == id {
                        assert(self.cells@[d]@ == before[d]@.push(k));
                    } else {
                        assert(self.cells@[d] == before[d]);
                    }
                }
                assert forall|j: int|
                    0 <= j < k + 1 implies -1 <= #[trigger] asg[j] < total && (asg[j] >= 0
                        ==> self.cells@[asg[j]]@.contains(j as usize)) by {
                    if j < k && asg[j] >= 0 {
                        let d = asg[j];
                        assert(before[d]@.contains(j as usize));
                        if d == id {
                            let w = choose|w: int| 0 <= w < before[d]@.len() && before[d]@[w] == j as usize;
                            assert(self.cells@[d]@[w] == j as usize);
                        } else {
                            assert(self.cells@[d] == before[d]);
                        }
                    }
                    if j == k {
                        assert(self.cells@[id as int]@[self.cells@[id as int]@.len() - 1] == k);
                    }
                }
            }
            k = k + 1;
        }
        self.assigned = Ghost(asg);
    }
}


impl SpatialGrid {
    /// Position of the pair `(a, b)` in the order in which pairs are produced: cell by
    /// cell, and within a cell the same-cell pairs, then east, south and south-east.
    pub open spec fn pair_key(&self, a: int, b: int) -> int {
        self.assigned@[a] * 4 + self.link(self.assigned@[a], self.assigned@[b])
    }

    /// Appends the pairs between cell `c` and the cell `d`, which lies in direction `dir`.
    fn append_cells(&self, out: &mut Vec<(usize, usize)>, c: usize, d: usize, dir: Ghost<int>)
        requires
            self.wf(),
            c < self.cols * self.rows,
            d < self.cols * self.rows,
            0 <= dir@ <= 3,
            self.link(c as int, d as int) == dir@,
            forall|e: (usize, usize)| #[trigger] old(out)@.contains(e) ==> self.related(e.0 as int, e.1 as int)
                && self.pair_key(e.0 as int, e.1 as int) < c * 4 + dir@,
            distinct(old(out)@),
            forall|a: int, b: int|
                self.related(a, b) && self.pair_key(a, b) < c * 4 + dir@ ==> old(out)@.contains(
                    (a as usize, b as usize),
                ),
        ensures
            forall|e: (usize, usize)| #[trigger] final(out)@.contains(e) ==> self.related(e.0 as int, e.1 as int)
                && self.pair_key(e.0 as int, e.1 as int) < c * 4 + dir@ + 1,
            distinct(final(out)@),
            forall|a: int, b: int|
                self.related(a, b) && self.pair_key(a, b) < c * 4 + dir@ + 1 ==> final(out)@.contains(
                    (a as usize, b as usize),
                ),
    {
        let ghost before = out@;
        let ghost asg = self.assigned@;
        let same = c == d;
        proof {
            assert(increasing(self.cells@[c as int]@));
            assert(increasing(self.cells@[d as int]@));
        }
        append_block(out, &self.cells[c], &self.cells[d], same);
        let ghost l = self.cells@[c as int]@;
        let ghost m = self.cells@[d as int]@;
        assert forall|e: (usize, usize)| #[trigger] out@.contains(e) implies self.related(e.0 as int, e.1 as int)
            && self.pair_key(e.0 as int, e.1 as int) < c * 4 + dir@ + 1 by {
            let k = choose|k: int| 0 <= k < out@.len() && out@[k] == e;
            if k < before.len() {
                assert(out@.subrange(0, before.len() as int)[k] == e);
                assert(before.contains(e));
            } else {
                assert(in_block(l, m, same, out@[k]));
                let (i, j) = choose|i: int, j: int|
                    0 <= i < l.len() && 0 <= j < m.len() && (same ==> i < j) && out@[k] == (l[i], m[j]);
                assert(asg[l[i] as int] == c);
                assert(asg[m[j] as int] == d);
            }
        }
        assert forall|k1: int, k2: int| 0 <= k1 < out@.len() && 0 <= k2 < out@.len() && k1 != k2
            implies out@[k1] != out@[k2] by {
            if k1 < before.len() && k2 < before.len() {
                assert(out@.subrange(0, before.len() as int)[k1] == before[k1]);
                assert(out@.subrange(0, before.len() as int)[k2] == before[k2]);
            } else if k1 >= before.len() && k2 >= before.len() {
            } else {
                let (ko, kn) = if k1 < before.len() { (k1, k2) } else { (k2, k1) };
                assert(out@.subrange(0, before.len() as int)[ko] == before[ko]);
                assert(before.contains(before[ko]));
                assert(in_block(l, m, same, out@[kn]));
                let (i, j) = choose|i: int, j: int|
                    0 <= i < l.len() && 0 <= j < m.len() && (same ==> i < j) && out@[kn] == (l[i], m[j]);
                assert(self.pair_key(l[i] as int, m[j] as int) == c * 4 + dir@);
            }
        }
        assert forall|a: int, b: int|
            self.related(a, b) && self.pair_key(a, b) < c * 4 + dir@ + 1 implies out@.contains(
                (a as usize, b as usize),
            ) by {
            if self.pair_key(a, b) < c * 4 + dir@ {
                assert(before.contains((a as usize, b as usize)));
                let k = choose|k: int| 0 <= k < before.len() && before[k] == (a as usize, b as usize);
                assert(out@.subrange(0, before.len() as int)[k] == before[k]);
                assert(out@[k] == (a as usize, b as usize));
            } else {
                let ca = asg[a];
                let cb = asg[b];
                assert(ca * 4 + self.link(ca, cb) == c * 4 + dir@);
                assert(ca == c && cb == d) by {
                    assert(0 <= self.link(ca, cb) <= 3);
                    if self.link(ca, cb) == 0 {
                        assert(cb == ca);
                    }
                }
                assert(l.contains(a as usize));
                assert(m.contains(b as usize));
                let i = choose|i: int| 0 <= i < l.len() && l[i] == a as usize;
                let j = choose|j: int| 0 <= j < m.len() && m[j] == b as usize;
                if same {
                    assert(l == m);
                    assert(a < b);
                    if j < i {
                        assert(l[j] < l[i]);
                    }
                    assert(i < j);
                }
                assert(out@.contains((l[i], m[j])));
                assert((l[i], m[j]) == (a as usize, b as usize));
            }
        }
    }
}


impl SpatialGrid {
    /// The pairs of particle indices to test for contact: those of `related`, each once.
    pub fn candidate_pairs(&self) -> (r: Vec<(usize, usize)>)
        requires
            self.wf(),
        ensures
            forall|e: (usize, usize)| #[trigger] r@.contains(e) <==> self.related(e.0 as int, e.1 as int),
            distinct(r@),
    {
        let rows = self.rows;
        let cols = self.cols;
        let total = cols * rows;
        let mut out: Vec<(usize, usize)> = Vec::new();
        let mut c: usize = 0;
        while c < total
            invariant
                self.wf(),
                rows == self.rows,
                cols == self.cols,
                total == cols * rows,
                c <= total,
                forall|e: (usize, usize)| #[trigger] out@.contains(e) ==> self.related(e.0 as int, e.1 as int)
                    && self.pair_key(e.0 as int, e.1 as int) < c * 4,
                distinct(out@),
                forall|a: int, b: int|
                    self.related(a, b) && self.pair_key(a, b) < c * 4 ==> out@.contains(
                        (a as usize, b as usize),
                    ),
            decreases total - c,
        {
            let col = c / rows;
            let row = c % rows;
            proof {
                vstd::arithmetic::div_mod::lemma_fundamental_div_mod(c as int, rows as int);
                assert(col < cols) by (nonlinear_arith)
                    requires c == rows * col + row, c < total, total == cols * rows, 0 <= row < rows, col >= 0;
                if col + 1 < cols {
                    assert(c + rows < total) by (nonlinear_arith)
                        requires c == rows * col + row, col + 1 < cols, total == cols * rows, 0 <= row < rows;
                }
                if row + 1 < rows {
                    assert(c + 1 < total) by (nonlinear_arith)
                        requires c == rows * col + row, col < cols, total == cols * rows, row + 1 < rows;
                }
                if col + 1 < cols && row + 1 < rows {
                    assert(c + rows + 1 < total) by (nonlinear_arith)
                        requires c == rows * col + row, col + 1 < cols, total == cols * rows, row + 1 < rows;
                }
            }
            self.append_cells(&mut out, c, c, Ghost(0));
            if col + 1 < cols {
                self.append_cells(&mut out, c, c + rows, Ghost(1));
            }
            if row + 1 < rows {
                self.append_cells(&mut out, c, c + 1, Ghost(2));
            }
            if col + 1 < cols && row + 1 < rows {
                self.append_cells(&mut out, c, c + rows + 1, Ghost(3));
            }
            c = c + 1;
        }
        assert forall|e: (usize, usize)| self.related(e.0 as int, e.1 as int) implies #[trigger] out@.contains(e) by {
            let asg = self.assigned@;
            assert(asg[e.0 as int] < total);
        }
        out
    }
}


/// A candidate pair holds in one order only and never joins a particle to itself, so a
/// listing of the candidate pairs without repeats tests each unordered pair at most once.
pub proof fn lemma_candidate_pair_unordered(g: SpatialGrid, a: int, b: int)
    requires
        g.wf(),
    ensures
        g.related(a, b) ==> a != b && !g.related(b, a),
{
    if g.related(a, b) {
        let ca = g.assigned@[a];
        let cb = g.assigned@[b];
        assert(g.link(ca, cb) >= 1 ==> cb > ca);
        assert(g.link(cb, ca) >= 1 ==> ca > cb);
    }
}

} // verus!
