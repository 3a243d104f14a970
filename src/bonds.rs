use vstd::prelude::*;
use crate::layout::{coord_len, fits, line_len};

verus! {

/// A bond between particles `i < j`, drawn with color value `alpha`.
pub type BondSpec<T> = (int, int, T);

/// The bonds of row `i` among its first `len` entries: entry `k` of the row
/// stands for the pair `(i, i + 1 + k)` and is `Some(alpha)` when that pair is
/// drawn.
pub open spec fn row_bonds<T>(i: int, row: Seq<Option<T>>, len: int) -> Seq<BondSpec<T>>
    decreases len,
{
    if len <= 0 {
        seq![]
    } else {
        let prev = row_bonds(i, row, len - 1);
        match row[len - 1] {
            Some(a) => prev.push((i, i + len, a)),
            None => prev,
        }
    }
}

/// The bonds of the first `m` rows, in order: by `i`, then by `j`.
pub open spec fn bonds_upto<T>(rows: Seq<Vec<Option<T>>>, m: int) -> Seq<BondSpec<T>>
    decreases m,
{
    if m <= 0 {
        seq![]
    } else {
        bonds_upto(rows, m - 1) + row_bonds(m - 1, rows[m - 1]@, rows[m - 1]@.len() as int)
    }
}

/// All bonds that a table of per-pair decisions selects, in pair order.
pub open spec fn bonds_of<T>(rows: Seq<Vec<Option<T>>>) -> Seq<BondSpec<T>> {
    bonds_upto(rows, rows.len() as int)
}

/// A table of per-pair decisions for `natom` particles: row `i` holds one
/// entry for each `j` with `i < j < natom`.
pub open spec fn pair_table<T>(rows: Seq<Vec<Option<T>>>, natom: int) -> bool {
    &&& rows.len() == natom
    &&& forall|i: int| 0 <= i < natom ==> #[trigger] rows[i]@.len() == natom - i - 1
}

/// Number of pairs `(i, j)` with `i < m` and `i < j < natom`.
pub open spec fn pairs_before(natom: int, m: int) -> int
    decreases m,
{
    if m <= 0 {
        0
    } else {
        pairs_before(natom, m - 1) + (natom - m)
    }
}

/// Segment `b` of the line buffers holds the endpoints of `bond` and its
/// color value, once per vertex channel.
pub open spec fn segment_at<T>(lines: Seq<T>, colors: Seq<T>, pos: Seq<T>, b: int, bond: BondSpec<T>) -> bool {
    let (i, j, a) = bond;
    &&& lines[6 * b] == pos[3 * i]
    &&& lines[6 * b + 1] == pos[3 * i + 1]
    &&& lines[6 * b + 2] == pos[3 * i + 2]
    &&& lines[6 * b + 3] == pos[3 * j]
    &&& lines[6 * b + 4] == pos[3 * j + 1]
    &&& lines[6 * b + 5] == pos[3 * j + 2]
    &&& colors[6 * b] == a
    &&& colors[6 * b + 1] == a
    &&& colors[6 * b + 2] == a
    &&& colors[6 * b + 3] == a
    &&& colors[6 * b + 4] == a
    &&& colors[6 * b + 5] == a
}

/// The line buffers begin with one segment for each of `bs`, in order.
pub open spec fn holds_segments<T>(lines: Seq<T>, colors: Seq<T>, pos: Seq<T>, bs: Seq<BondSpec<T>>) -> bool {
    forall|b: int| 0 <= b < bs.len() ==> #[trigger] segment_at(lines, colors, pos, b, bs[b])
}

/// Past the segments in use, the buffers keep what they held before.
pub open spec fn unchanged_from<T>(now: Seq<T>, before: Seq<T>, start: int) -> bool {
    &&& now.len() == before.len()
    &&& forall|k: int| start <= k < now.len() ==> #[trigger] now[k] == before[k]
}

/// What a bond-line list holds.
pub ghost struct BondLinesModel<T> {
    pub natom: nat,
    pub lines: Seq<T>,
    pub colors: Seq<T>,
    pub count: nat,
}

/// The list as it stands right after construction.
pub open spec fn fresh<T>(natom: nat, blank: T) -> BondLinesModel<T> {
    BondLinesModel {
        natom,
        lines: Seq::new(line_len(natom as int) as nat, |k: int| blank),
        colors: Seq::new(line_len(natom as int) as nat, |k: int| blank),
        count: 0,
    }
}

/// Construction depends on its parameters alone and starts blank: two lists
/// built for the same `natom` and `blank` are equal, no segment is in use, and
/// every slot of both buffers holds `blank`.
pub proof fn lemma_construction_blank<T>(natom: nat, blank: T, a: BondLinesModel<T>, b: BondLinesModel<T>)
    requires
        a == fresh(natom, blank),
        b == fresh(natom, blank),
    ensures
        a == b,
        a.count == 0,
        a.lines.len() == line_len(natom as int),
        a.colors.len() == line_len(natom as int),
        forall|k: int| 0 <= k < a.lines.len() ==> #[trigger] a.lines[k] == blank,
        forall|k: int| 0 <= k < a.colors.len() ==> #[trigger] a.colors[k] == blank,
{
}

/// Line segments between close particle pairs, for drawing: two flat
/// buffers of `3 * natom * natom` values (endpoint coordinates and per-vertex
/// colors), of which the first `6 * count` are meaningful.
pub struct BondLines<T> {
    natom: usize,
    lines: Vec<T>,
    colors: Vec<T>,
    count: usize,
}

impl<T> View for BondLines<T> {
    type V = BondLinesModel<T>;

    closed spec fn view(&self) -> BondLinesModel<T> {
        BondLinesModel {
            natom: self.natom as nat,
            lines: self.lines@,
            colors: self.colors@,
            count: self.count as nat,
        }
    }
}

proof fn lemma_row_bonds_len<T>(i: int, row: Seq<Option<T>>, len: int)
    requires
        len >= 0,
    ensures
        row_bonds(i, row, len).len() <= len,
    decreases len,
{
    if len > 0 {
        lemma_row_bonds_len(i, row, len - 1);
    }
}

proof fn lemma_bonds_upto_len<T>(rows: Seq<Vec<Option<T>>>, natom: int, m: int)
    requires
        pair_table(rows, natom),
        0 <= m <= natom,
    ensures
        bonds_upto(rows, m).len() <= pairs_before(natom, m),
    decreases m,
{
    if m > 0 {
        lemma_bonds_upto_len(rows, natom, m - 1);
        assert(rows[m - 1]@.len() == natom - m);
        lemma_row_bonds_len(m - 1, rows[m - 1]@, rows[m - 1]@.len() as int);
    }
}

proof fn lemma_pairs_before_closed(natom: int, m: int)
    requires
        0 <= m,
    ensures
        2 * pairs_before(natom, m) == m * (2 * natom - m - 1),
    decreases m,
{
    if m == 0 {
        assert(m * (2 * natom - m - 1) == 0) by (nonlinear_arith)
            requires
                m == 0,
        ;
    } else {
        lemma_pairs_before_closed(natom, m - 1);
        let p = pairs_before(natom, m - 1);
        assert(pairs_before(natom, m) == p + (natom - m));
        assert(2 * (p + (natom - m)) == m * (2 * natom - m - 1)) by (nonlinear_arith)
            requires
                2 * p == (m - 1) * (2 * natom - (m - 1) - 1),
        ;
    }
}

/// The pairs `(i, j)`, `i < j < natom`, number at most half of `natom * natom`:
/// so the line buffers always have room for a segment per pair.
pub proof fn lemma_pairs_fit(natom: int, m: int)
    requires
        0 <= m <= natom,
    ensures
        2 * pairs_before(natom, m) <= natom * natom,
{
    lemma_pairs_before_closed(natom, m);
    assert(m * (2 * natom - m - 1) <= natom * natom) by (nonlinear_arith)
        requires
            0 <= m <= natom,
    ;
}

fn filled<T: Copy>(len: usize, v: T) -> (r: Vec<T>)
    ensures
        r@ == Seq::new(len as nat, |k: int| v),
{
    let mut r: Vec<T> = Vec::with_capacity(len);
    let mut k: usize = 0;
    while k < len
        invariant
            k <= len,
            r@ == Seq::new(k as nat, |x: int| v),
        decreases len - k,
    {
        r.push(v);
        k += 1;
        assert(r@ =~= Seq::new(k as nat, |x: int| v));
    }
    r
}

impl<T: Copy> BondLines<T> {
    /// The buffers have their fixed length and `count` segments fit in them.
    pub open spec fn wf(&self) -> bool {
        &&& fits(self@.natom as int)
        &&& self@.lines.len() == line_len(self@.natom as int)
        &&& self@.colors.len() == line_len(self@.natom as int)
        &&& 2 * self@.count <= self@.natom * self@.natom
        &&& 6 * self@.count <= self@.lines.len()
    }

    /// An empty list for `natom` particles, every buffer slot set to `blank`.
    pub fn new(natom: usize, blank: T) -> (r: Self)
        requires
            fits(natom as int),
        ensures
            r.wf(),
            r@ == fresh(natom as nat, blank),
    {
        assert(3 * natom <= 3 * natom * natom) by (nonlinear_arith);
        let len = 3 * natom * natom;
        BondLines { natom, lines: filled(len, blank), colors: filled(len, blank), count: 0 }
    }

    fn put_segment(&mut self, pos: &Vec<T>, i: usize, j: usize, a: T)
        requires
            old(self).wf(),
            pos@.len() == coord_len(old(self)@.natom as int),
            i < old(self)@.natom,
            j < old(self)@.natom,
            2 * (old(self)@.count + 1) <= old(self)@.natom * old(self)@.natom,
        ensures
            final(self).wf(),
            final(self)@.natom == old(self)@.natom,
            final(self)@.count == old(self)@.count + 1,
            segment_at(final(self)@.lines, final(self)@.colors, pos@, old(self)@.count as int, (i as int, j as int, a)),
            forall|k: int|
                0 <= k < old(self)@.lines.len() && !(6 * old(self)@.count <= k < 6 * old(self)@.count + 6)
                    ==> #[trigger] final(self)@.lines[k] == old(self)@.lines[k],
            forall|k: int|
                0 <= k < old(self)@.colors.len() && !(6 * old(self)@.count <= k < 6 * old(self)@.count + 6)
                    ==> #[trigger] final(self)@.colors[k] == old(self)@.colors[k],
    {
        proof {
            let n = self.natom as int;
            let c = self.count as int;
            assert(6 * (c + 1) <= 3 * n * n) by (nonlinear_arith)
                requires
                    2 * (c + 1) <= n * n,
            ;
            assert(3 * n <= 3 * n * n) by (nonlinear_arith);
        }
        let b = 6 * self.count;
        self.lines[b] = pos[3 * i];
        self.lines[b + 1] = pos[3 * i + 1];
        self.lines[b + 2] = pos[3 * i + 2];
        self.lines[b + 3] = pos[3 * j];
        self.lines[b + 4] = pos[3 * j + 1];
        self.lines[b + 5] = pos[3 * j + 2];
        self.colors[b] = a;
        self.colors[b + 1] = a;
        self.colors[b + 2] = a;
        self.colors[b + 3] = a;
        self.colors[b + 4] = a;
        self.colors[b + 5] = a;
        self.count = self.count + 1;
    }

    /// Rebuilds the list from `pos` (the flat positions of the particles) and
    /// a table with one entry per pair `i < j`: `Some(alpha)` draws the pair
    /// with color value `alpha`. Segments are laid out in pair order (by `i`,
    /// then by `j`) and the count starts again from zero. Slots past the new
    /// segments keep their old values. When `connected` is false nothing
    /// changes at all.
    pub fn extract(&mut self, pos: &Vec<T>, rows: &Vec<Vec<Option<T>>>, connected: bool)
        requires
            old(self).wf(),
            pos@.len() == coord_len(old(self)@.natom as int),
            connected ==> pair_table(rows@, old(self)@.natom as int),
        ensures
            final(self).wf(),
            !connected ==> final(self)@ == old(self)@,
            connected ==> {
                let bs = bonds_of(rows@);
                &&& final(self)@.natom == old(self)@.natom
                &&& final(self)@.count == bs.len()
                &&& holds_segments(final(self)@.lines, final(self)@.colors, pos@, bs)
                &&& unchanged_from(final(self)@.lines, old(self)@.lines, 6 * bs.len() as int)
                &&& unchanged_from(final(self)@.colors, old(self)@.colors, 6 * bs.len() as int)
            },
    {
        if !connected {
            return;
        }
        let ghost old_lines = self.lines@;
        let ghost old_colors = self.colors@;
        let n = self.natom;
        self.count = 0;
        let mut i: usize = 0;
        while i < n
            invariant
                self.wf(),
                self.natom == n,
                0 <= i <= n,
                pos@.len() == coord_len(n as int),
                pair_table(rows@, n as int),
                self.count == bonds_upto(rows@, i as int).len(),
                holds_segments(self.lines@, self.colors@, pos@, bonds_upto(rows@, i as int)),
                unchanged_from(self.lines@, old_lines, 6 * self.count as int),
                unchanged_from(self.colors@, old_colors, 6 * self.count as int),
            decreases n - i,
        {
            let row = &rows[i];
            assert(row@.len() == n - i - 1);
            let ghost done = bonds_upto(rows@, i as int);
            proof {
                lemma_bonds_upto_len(rows@, n as int, i as int);
            }
            let mut k: usize = 0;
            while k < row.len()
                invariant
                    self.wf(),
                    self.natom == n,
                    0 <= i < n,
                    0 <= k <= row@.len(),
                    row@.len() == n - i - 1,
                    row == rows@[i as int],
                    pos@.len() == coord_len(n as int),
                    done == bonds_upto(rows@, i as int),
                    done.len() <= pairs_before(n as int, i as int),
                    self.count == (done + row_bonds(i as int, row@, k as int)).len(),
                    holds_segments(self.lines@, self.colors@, pos@, done + row_bonds(i as int, row@, k as int)),
                    unchanged_from(self.lines@, old_lines, 6 * self.count as int),
                    unchanged_from(self.colors@, old_colors, 6 * self.count as int),
                decreases row@.len() - k,
            {
                let ghost before = done + row_bonds(i as int, row@, k as int);
                match row[k] {
                    Some(a) => {
                        proof {
                            lemma_row_bonds_len(i as int, row@, k as int);
                            lemma_pairs_fit(n as int, i as int + 1);
                            assert(pairs_before(n as int, i as int + 1) == pairs_before(n as int, i as int) + (n - i - 1));
                        }
                        let ghost prev = self@;
                        self.put_segment(pos, i, i + 1 + k, a);
                        proof {
                            let after = done + row_bonds(i as int, row@, k as int + 1);
                            assert(row_bonds(i as int, row@, k as int + 1) == row_bonds(i as int, row@, k as int).push((i as int, i as int + 1 + k as int, a)));
                            assert(after =~= before.push((i as int, i as int + 1 + k as int, a)));
                            assert forall|b: int| 0 <= b < after.len() implies #[trigger] segment_at(self.lines@, self.colors@, pos@, b, after[b]) by {
                                if b < before.len() {
                                    assert(after[b] == before[b]);
                                    assert(segment_at(prev.lines, prev.colors, pos@, b, before[b]));
                                    assert(6 * b + 5 < 6 * prev.count);
                                } else {
                                    assert(b == prev.count);
                                }
                            }
                        }
                    },
                    None => {
                        assert(row_bonds(i as int, row@, k as int + 1) == row_bonds(i as int, row@, k as int));
                    },
                }
                k += 1;
            }
            assert(bonds_upto(rows@, i as int + 1) == done + row_bonds(i as int, row@, row@.len() as int));
            i += 1;
        }
    }

    /// Number of particles the list was sized for.
    pub fn natom(&self) -> (r: usize)
        ensures
            r == self@.natom,
    {
        self.natom
    }

    /// Number of segments drawn by the last extraction.
    pub fn num_connected(&self) -> (r: usize)
        ensures
            r == self@.count,
    {
        self.count
    }

    /// Endpoint coordinates, six per segment.
    pub fn line_positions(&self) -> (r: &Vec<T>)
        ensures
            r@ == self@.lines,
    {
        &self.lines
    }

    /// Color values, six per segment.
    pub fn line_colors(&self) -> (r: &Vec<T>)
        ensures
            r@ == self@.colors,
    {
        &self.colors
    }
}

} // verus!
