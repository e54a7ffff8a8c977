use vstd::prelude::*;
use crate::pos::{Pos, fits_i32, pos_sum_int, shifted};
use crate::shape::{
    Shape, ShapeKind, can_rotate, can_shift, canonical_cells, overlap, rotate_cell, rotate_cells,
    shift_cells,
};

verus! {

/// Moving a piece by `d1` and then by `d2` gives the same cells, and the same
/// anchor, as moving it once by `d1 + d2`.
pub proof fn lemma_translate_compose(cells: Set<Pos>, anchor: Pos, d1: Pos, d2: Pos)
    requires
        can_shift(cells, d1),
        fits_i32(pos_sum_int(anchor, d1)),
        can_shift(shift_cells(cells, d1), d2),
        fits_i32(pos_sum_int(shifted(anchor, d1), d2)),
        fits_i32(pos_sum_int(d1, d2)),
    ensures
        shift_cells(shift_cells(cells, d1), d2) == shift_cells(cells, shifted(d1, d2)),
        shifted(shifted(anchor, d1), d2) == shifted(anchor, shifted(d1, d2)),
{
    let d = shifted(d1, d2);
    let once = shift_cells(cells, d1);
    assert forall|p: Pos| shift_cells(once, d2).contains(p) <==> shift_cells(cells, d).contains(p) by {
        if shift_cells(once, d2).contains(p) {
            let q = choose|q: Pos| once.contains(q) && shifted(q, d2) == p;
            let c = choose|c: Pos| cells.contains(c) && shifted(c, d1) == q;
            assert(fits_i32(pos_sum_int(c, d1)));
            assert(fits_i32(pos_sum_int(q, d2)));
            assert(shifted(c, d) == p);
        }
        if shift_cells(cells, d).contains(p) {
            let c = choose|c: Pos| cells.contains(c) && shifted(c, d) == p;
            let q = shifted(c, d1);
            assert(once.contains(q));
            assert(fits_i32(pos_sum_int(c, d1)));
            assert(fits_i32(pos_sum_int(q, d2)));
            assert(shifted(q, d2) == p);
        }
    }
    assert(shift_cells(once, d2) =~= shift_cells(cells, d));
}

/// Collision is symmetric: `a` collides with `b` exactly when `b` collides with `a`.
pub proof fn lemma_collides_symmetric(a: Shape, b: Shape)
    ensures
        overlap(a.cells(), b.cells()) == overlap(b.cells(), a.cells()),
{
}

/// A piece with at least one cell collides with itself.
pub proof fn lemma_collides_with_itself(a: Shape)
    requires
        a.cells().len() > 0,
    ensures
        overlap(a.cells(), a.cells()),
{
    if !overlap(a.cells(), a.cells()) {
        assert(a.cells() =~= Set::<Pos>::empty());
    }
}

/// A freshly built piece does not collide with a copy of itself moved more
/// than four columns or more than two rows away.
pub proof fn lemma_canonical_apart(k: ShapeKind, d: Pos)
    requires
        d.0 > 4 || d.0 < -4 || d.1 > 2 || d.1 < -2,
        can_shift(canonical_cells(k), d),
    ensures
        !overlap(canonical_cells(k), shift_cells(canonical_cells(k), d)),
{
    let c = canonical_cells(k);
    assert forall|p: Pos| c.contains(p) implies -1 <= p.0 <= 3 && 0 <= p.1 <= 2 by {}
    if overlap(c, shift_cells(c, d)) {
        let p = choose|p: Pos| c.contains(p) && shift_cells(c, d).contains(p);
        let q = choose|q: Pos| c.contains(q) && shifted(q, d) == p;
        assert(fits_i32(pos_sum_int(q, d)));
    }
}

/// A quarter turn about a fixed anchor, done four times, gives back the cells
/// it started from.
pub proof fn lemma_rotate_four_times(cells: Set<Pos>, a: Pos)
    requires
        can_rotate(cells, a),
        can_rotate(rotate_cells(cells, a), a),
        can_rotate(rotate_cells(rotate_cells(cells, a), a), a),
        can_rotate(rotate_cells(rotate_cells(rotate_cells(cells, a), a), a), a),
    ensures
        rotate_cells(rotate_cells(rotate_cells(rotate_cells(cells, a), a), a), a) == cells,
{
    let r1 = rotate_cells(cells, a);
    let r2 = rotate_cells(r1, a);
    let r3 = rotate_cells(r2, a);
    let r4 = rotate_cells(r3, a);
    assert forall|p: Pos| cells.contains(p) implies r4.contains(p) by {
        let p1 = rotate_cell(p, a);
        assert(r1.contains(p1));
        let p2 = rotate_cell(p1, a);
        assert(r2.contains(p2));
        let p3 = rotate_cell(p2, a);
        assert(r3.contains(p3));
        assert(rotate_cell(p3, a) == p);
    }
    assert forall|p: Pos| r4.contains(p) implies cells.contains(p) by {
        let p3 = choose|q: Pos| r3.contains(q) && rotate_cell(q, a) == p;
        let p2 = choose|q: Pos| r2.contains(q) && rotate_cell(q, a) == p3;
        let p1 = choose|q: Pos| r1.contains(q) && rotate_cell(q, a) == p2;
        let p0 = choose|q: Pos| cells.contains(q) && rotate_cell(q, a) == p1;
        assert(p == p0);
    }
    assert(r4 =~= cells);
}

} // verus!
