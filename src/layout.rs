use vstd::prelude::*;

verus! {

/// Length of a flat per-particle buffer `[x0, y0, z0, x1, y1, z1, ...]`.
pub open spec fn coord_len(natom: int) -> int {
    3 * natom
}

/// Length of each bond-line buffer. At six values per segment it has room
/// for a segment per pair `i < j`, of which there are `natom * (natom - 1) / 2`.
pub open spec fn line_len(natom: int) -> int {
    3 * natom * natom
}

/// Whether every buffer of a system of `natom` particles is addressable.
pub open spec fn fits(natom: int) -> bool {
    line_len(natom) <= usize::MAX
}

proof fn lemma_overflow_grows(x: int, y: int)
    requires
        x > usize::MAX,
        y >= 1,
    ensures
        x * y > usize::MAX,
        3 * (x * y) * (x * y) > usize::MAX,
{
    assert(x * y >= x) by (nonlinear_arith)
        requires
            x > 0,
            y >= 1,
    ;
    let p = x * y;
    assert(3 * p * p >= p) by (nonlinear_arith)
        requires
            p >= 1,
    ;
}

/// The number of particles of an `nx` by `ny` by `nz` lattice, or `None`
/// when the buffers of that many particles are not addressable.
pub fn particle_count(nx: usize, ny: usize, nz: usize) -> (r: Option<usize>)
    ensures
        r is Some <==> fits(nx * ny * nz),
        r matches Some(n) ==> n == nx * ny * nz,
{
    if nx == 0 || ny == 0 || nz == 0 {
        assert(nx * ny * nz == 0) by (nonlinear_arith)
            requires
                nx == 0 || ny == 0 || nz == 0,
        ;
        return Some(0);
    }
    let nxy = match nx.checked_mul(ny) {
        Some(v) => v,
        None => {
            proof {
                lemma_overflow_grows(nx * ny, nz as int);
            }
            return None;
        },
    };
    let n = match nxy.checked_mul(nz) {
        Some(v) => v,
        None => {
            proof {
                lemma_overflow_grows(nxy * nz, 1);
            }
            return None;
        },
    };
    assert(n == nx * ny * nz) by (nonlinear_arith)
        requires
            n == nxy * nz,
            nxy == nx * ny,
    ;
    let nn = match n.checked_mul(n) {
        Some(v) => v,
        None => {
            assert(3 * n * n > usize::MAX) by (nonlinear_arith)
                requires
                    n * n > usize::MAX,
            ;
            return None;
        },
    };
    match nn.checked_mul(3) {
        Some(_) => {
            assert(line_len(n as int) == nn * 3) by (nonlinear_arith)
                requires
                    nn == n * n,
            ;
            Some(n)
        },
        None => {
            assert(line_len(n as int) == nn * 3) by (nonlinear_arith)
                requires
                    nn == n * n,
            ;
            None
        },
    }
}

} // verus!
