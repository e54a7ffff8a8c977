use vstd::prelude::*;
use vstd::relations::injective_on;
use vstd::set_lib::{lemma_map_size, lemma_set_disjoint_lens};
use crate::pos::{Pos, fits_i32, pos_sum_int, shifted};

verus! {

/// The seven piece variants (I, O, T, J, L, S, Z in the usual naming).
#[derive(Debug, Hash, PartialEq, Eq, Structural, Clone, Copy)]
pub enum ShapeKind {
    I,
    O,
    T,
    J,
    L,
    S,
    Z,
}

/// The variant that stands at `i` in the order I, O, T, J, L, S, Z.
pub open spec fn kind_at(i: int) -> ShapeKind {
    if i == 0 {
        ShapeKind::I
    } else if i == 1 {
        ShapeKind::O
    } else if i == 2 {
        ShapeKind::T
    } else if i == 3 {
        ShapeKind::J
    } else if i == 4 {
        ShapeKind::L
    } else if i == 5 {
        ShapeKind::S
    } else {
        ShapeKind::Z
    }
}

/// The cells of a freshly built piece of the given variant, relative to the origin.
pub open spec fn canonical_cells(k: ShapeKind) -> Set<Pos> {
    match k {
        ShapeKind::I => set![Pos(0, 0), Pos(1, 0), Pos(2, 0), Pos(3, 0)],
        ShapeKind::O => set![Pos(0, 0), Pos(1, 0), Pos(0, 1), Pos(1, 1)],
        ShapeKind::T => set![Pos(0, 0), Pos(1, 0), Pos(2, 0), Pos(1, 1)],
        ShapeKind::J => set![Pos(0, 0), Pos(0, 1), Pos(0, 2), Pos(-1i32, 2)],
        ShapeKind::L => set![Pos(0, 0), Pos(0, 1), Pos(0, 2), Pos(1, 2)],
        ShapeKind::S => set![Pos(0, 0), Pos(1, 0), Pos(0, 1), Pos(-1i32, 1)],
        ShapeKind::Z => set![Pos(0, 0), Pos(-1i32, 0), Pos(0, 1), Pos(1, 1)],
    }
}

/// The rotation pivot of a freshly built piece of the given variant.
pub open spec fn canonical_anchor(k: ShapeKind) -> Pos {
    match k {
        ShapeKind::I => Pos(1, 0),
        ShapeKind::O => Pos(0, 0),
        ShapeKind::T => Pos(1, 0),
        ShapeKind::J => Pos(0, 1),
        ShapeKind::L => Pos(0, 1),
        ShapeKind::S => Pos(0, 0),
        ShapeKind::Z => Pos(0, 0),
    }
}

/// The cell that `p` is carried to by a quarter turn about the anchor `a`:
/// `(x, y)` goes to `(-y + a.y + 1, x - a.x + a.y)`, over the integers.
pub open spec fn rotate_int(p: Pos, a: Pos) -> (int, int) {
    (-p.1 + a.1 + 1, p.0 - a.0 + a.1)
}

/// The cell that `p` is carried to by a quarter turn about `a`.
pub open spec fn rotate_cell(p: Pos, a: Pos) -> Pos {
    Pos(rotate_int(p, a).0 as i32, rotate_int(p, a).1 as i32)
}

/// Whether every cell of `cells` turned about `a` is still a cell that `Pos` can hold.
pub open spec fn can_rotate(cells: Set<Pos>, a: Pos) -> bool {
    forall|p: Pos| #[trigger] cells.contains(p) ==> fits_i32(rotate_int(p, a))
}

/// The cells of `cells` turned a quarter about `a`.
pub open spec fn rotate_cells(cells: Set<Pos>, a: Pos) -> Set<Pos> {
    cells.map(|p: Pos| rotate_cell(p, a))
}

/// Whether every cell of `cells` moved by `d` is still a cell that `Pos` can hold.
pub open spec fn can_shift(cells: Set<Pos>, d: Pos) -> bool {
    forall|p: Pos| #[trigger] cells.contains(p) ==> fits_i32(pos_sum_int(p, d))
}

/// The cells of `cells` moved by `d`.
pub open spec fn shift_cells(cells: Set<Pos>, d: Pos) -> Set<Pos> {
    cells.map(|p: Pos| shifted(p, d))
}

/// Where a cell that survives the clearing of row `y` ends up: rows above
/// (smaller `y`) move down by one, rows below stay.
pub open spec fn lower_cell(p: Pos, y: i32) -> Pos {
    if p.1 < y {
        Pos(p.0, (p.1 + 1) as i32)
    } else {
        p
    }
}

/// The cells of `cells` that lie on row `y`.
pub open spec fn cells_on_row(cells: Set<Pos>, y: i32) -> Set<Pos> {
    cells.filter(|p: Pos| p.1 == y)
}

/// The cells of `cells` after row `y` is cleared and the rows above it drop by one.
pub open spec fn clear_row(cells: Set<Pos>, y: i32) -> Set<Pos> {
    cells.filter(|p: Pos| p.1 != y).map(|p: Pos| lower_cell(p, y))
}

/// Whether two sets of cells share at least one cell.
pub open spec fn overlap(a: Set<Pos>, b: Set<Pos>) -> bool {
    exists|p: Pos| a.contains(p) && b.contains(p)
}

/// A sequence built cell by cell from another through `f` holds, as a set,
/// the image of the other's cells.
proof fn lemma_mapped_cells(src: Seq<Pos>, dst: Seq<Pos>, f: spec_fn(Pos) -> Pos)
    requires
        dst.len() == src.len(),
        forall|j: int| 0 <= j < src.len() ==> #[trigger] dst[j] == f(src[j]),
    ensures
        dst.to_set() == src.to_set().map(f),
{
    assert forall|p: Pos| dst.to_set().contains(p) <==> src.to_set().map(f).contains(p) by {
        if dst.contains(p) {
            let j = choose|j: int| 0 <= j < dst.len() && dst[j] == p;
            assert(src.to_set().contains(src[j]));
        }
        if src.to_set().map(f).contains(p) {
            let q = choose|q: Pos| src.to_set().contains(q) && f(q) == p;
            let j = choose|j: int| 0 <= j < src.len() && src[j] == q;
            assert(dst[j] == p);
        }
    }
    assert(dst.to_set() =~= src.to_set().map(f));
}

/// Clearing a row removes exactly the cells that lay on it: the count of cells
/// left plus the count on the row is the count before.
pub proof fn lemma_clear_row_len(cells: Set<Pos>, y: i32)
    requires
        cells.finite(),
    ensures
        clear_row(cells, y).len() + cells_on_row(cells, y).len() == cells.len(),
{
    let kept = cells.filter(|p: Pos| p.1 != y);
    let gone = cells_on_row(cells, y);
    assert(injective_on(|p: Pos| lower_cell(p, y), kept));
    lemma_map_size(kept, clear_row(cells, y), |p: Pos| lower_cell(p, y));
    assert(kept + gone =~= cells);
    assert(kept.disjoint(gone));
    lemma_set_disjoint_lens(kept, gone);
}

impl ShapeKind {
    /// The variant at index `i` of the order I, O, T, J, L, S, Z.
    pub fn from_index(i: u8) -> (r: ShapeKind)
        requires
            i < 7,
        ensures
            r == kind_at(i as int),
    {
        match i {
            0 => ShapeKind::I,
            1 => ShapeKind::O,
            2 => ShapeKind::T,
            3 => ShapeKind::J,
            4 => ShapeKind::L,
            5 => ShapeKind::S,
            _ => ShapeKind::Z,
        }
    }
}

/// A piece: a set of occupied cells in absolute grid coordinates, a pivot
/// for rotation, and its variant. The cells are held without repetition.
#[derive(Debug)]
pub struct Shape {
    typ: ShapeKind,
    positions: Vec<Pos>,
    anchor: Pos,
}

/// Relies on rand's `thread_rng` and `Rng::gen_range`, which returns a value
/// drawn uniformly from the half-open range `0..n` and panics only when that
/// range is empty.
#[verifier::external_body]
fn random_below(n: u8) -> (r: u8)
    requires
        n > 0,
    ensures
        r < n,
{
    rand::Rng::gen_range(&mut rand::thread_rng(), 0..n)
}

/// Four distinct cells listed in a sequence form the set of those four cells.
proof fn lemma_four_cells(s: Seq<Pos>, a: Pos, b: Pos, c: Pos, d: Pos)
    requires
        s == seq![a, b, c, d],
        a != b && a != c && a != d && b != c && b != d && c != d,
    ensures
        s.no_duplicates(),
        s.to_set() == set![a, b, c, d],
        s.to_set().len() == 4,
{
    assert(s[0] == a && s[1] == b && s[2] == c && s[3] == d);
    assert(s.to_set() =~= set![a, b, c, d]) by {
        assert forall|p: Pos| s.contains(p) <==> set![a, b, c, d].contains(p) by {
            if p == a {
                assert(s[0] == p);
            } else if p == b {
                assert(s[1] == p);
            } else if p == c {
                assert(s[2] == p);
            } else if p == d {
                assert(s[3] == p);
            }
        }
    }
    s.unique_seq_to_set();
}

impl Shape {
    #[verifier::type_invariant]
    spec fn inv(self) -> bool {
        self.positions@.no_duplicates()
    }

    /// The occupied cells.
    pub closed spec fn cells(&self) -> Set<Pos> {
        self.positions@.to_set()
    }

    /// The rotation pivot.
    pub closed spec fn pivot(&self) -> Pos {
        self.anchor
    }

    /// The variant tag.
    pub closed spec fn kind(&self) -> ShapeKind {
        self.typ
    }

    /// A piece of the given variant at its origin-relative place.
    pub fn new(kind: ShapeKind) -> (r: Shape)
        ensures
            r.kind() == kind,
            r.cells() == canonical_cells(kind),
            r.cells().len() == 4,
            r.pivot() == canonical_anchor(kind),
    {
        let (positions, anchor) = match kind {
            ShapeKind::I => (vec![Pos(0, 0), Pos(1, 0), Pos(2, 0), Pos(3, 0)], Pos(1, 0)),
            ShapeKind::O => (vec![Pos(0, 0), Pos(1, 0), Pos(0, 1), Pos(1, 1)], Pos(0, 0)),
            ShapeKind::T => (vec![Pos(0, 0), Pos(1, 0), Pos(2, 0), Pos(1, 1)], Pos(1, 0)),
            ShapeKind::J => (vec![Pos(0, 0), Pos(0, 1), Pos(0, 2), Pos(-1i32, 2)], Pos(0, 1)),
            ShapeKind::L => (vec![Pos(0, 0), Pos(0, 1), Pos(0, 2), Pos(1, 2)], Pos(0, 1)),
            ShapeKind::S => (vec![Pos(0, 0), Pos(1, 0), Pos(0, 1), Pos(-1i32, 1)], Pos(0, 0)),
            ShapeKind::Z => (vec![Pos(0, 0), Pos(-1i32, 0), Pos(0, 1), Pos(1, 1)], Pos(0, 0)),
        };
        proof {
            let s = positions@;
            lemma_four_cells(s, s[0], s[1], s[2], s[3]);
        }
        Shape { typ: kind, positions, anchor }
    }

    /// The variant tag.
    pub fn typ(&self) -> (r: ShapeKind)
        ensures
            r == self.kind(),
    {
        self.typ
    }

    /// The occupied cells, each once, in no particular order.
    pub fn iter_positions(&self) -> (r: Vec<Pos>)
        ensures
            r@.no_duplicates(),
            r@.to_set() == self.cells(),
    {
        proof {
            use_type_invariant(self);
        }
        let mut out: Vec<Pos> = Vec::new();
        let mut i: usize = 0;
        while i < self.positions.len()
            invariant
                i <= self.positions@.len(),
                out@ == self.positions@.subrange(0, i as int),
            decreases self.positions@.len() - i,
        {
            out.push(self.positions[i]);
            i = i + 1;
            proof {
                assert(out@ =~= self.positions@.subrange(0, i as int));
            }
        }
        proof {
            assert(out@ =~= self.positions@);
        }
        out
    }

    /// Whether `pos` is one of the occupied cells.
    pub fn has_position(&self, pos: Pos) -> (r: bool)
        ensures
            r == self.cells().contains(pos),
    {
        let mut i: usize = 0;
        while i < self.positions.len()
            invariant
                i <= self.positions@.len(),
                forall|j: int| 0 <= j < i ==> self.positions@[j] != pos,
            decreases self.positions@.len() - i,
        {
            if self.positions[i] == pos {
                proof {
                    assert(self.positions@.contains(pos));
                }
                return true;
            }
            i = i + 1;
        }
        false
    }

    /// Whether this piece and `other` share at least one cell.
    pub fn collides_with(&self, other: &Shape) -> (r: bool)
        ensures
            r == overlap(self.cells(), other.cells()),
    {
        let mut i: usize = 0;
        while i < self.positions.len()
            invariant
                i <= self.positions@.len(),
                forall|j: int| 0 <= j < i ==> !other.cells().contains(#[trigger] self.positions@[j]),
            decreases self.positions@.len() - i,
        {
            if other.has_position(self.positions[i]) {
                proof {
                    assert(self.cells().contains(self.positions@[i as int]));
                }
                return true;
            }
            i = i + 1;
        }
        proof {
            assert forall|p: Pos| self.cells().contains(p) implies !other.cells().contains(p) by {
                let j = choose|j: int| 0 <= j < self.positions@.len() && self.positions@[j] == p;
            }
        }
        false
    }

    /// A piece of the I variant at its origin-relative place.
    pub fn new_i() -> (r: Shape)
        ensures
            r.kind() == ShapeKind::I,
            r.cells() == canonical_cells(ShapeKind::I),
            r.cells().len() == 4,
            r.pivot() == canonical_anchor(ShapeKind::I),
    {
        Shape::new(ShapeKind::I)
    }

    /// A piece of the O variant at its origin-relative place.
    pub fn new_o() -> (r: Shape)
        ensures
            r.kind() == ShapeKind::O,
            r.cells() == canonical_cells(ShapeKind::O),
            r.cells().len() == 4,
            r.pivot() == canonical_anchor(ShapeKind::O),
    {
        Shape::new(ShapeKind::O)
    }

    /// A piece of the T variant at its origin-relative place.
    pub fn new_t() -> (r: Shape)
        ensures
            r.kind() == ShapeKind::T,
            r.cells() == canonical_cells(ShapeKind::T),
            r.cells().len() == 4,
            r.pivot() == canonical_anchor(ShapeKind::T),
    {
        Shape::new(ShapeKind::T)
    }

    /// A piece of the J variant at its origin-relative place.
    pub fn new_j() -> (r: Shape)
        ensures
            r.kind() == ShapeKind::J,
            r.cells() == canonical_cells(ShapeKind::J),
            r.cells().len() == 4,
            r.pivot() == canonical_anchor(ShapeKind::J),
    {
        Shape::new(ShapeKind::J)
    }

    /// A piece of the L variant at its origin-relative place.
    pub fn new_l() -> (r: Shape)
        ensures
            r.kind() == ShapeKind::L,
            r.cells() == canonical_cells(ShapeKind::L),
            r.cells().len() == 4,
            r.pivot() == canonical_anchor(ShapeKind::L),
    {
        Shape::new(ShapeKind::L)
    }

    /// A piece of the S variant at its origin-relative place.
    pub fn new_s() -> (r: Shape)
        ensures
            r.kind() == ShapeKind::S,
            r.cells() == canonical_cells(ShapeKind::S),
            r.cells().len() == 4,
            r.pivot() == canonical_anchor(ShapeKind::S),
    {
        Shape::new(ShapeKind::S)
    }

    /// A piece of the Z variant at its origin-relative place.
    pub fn new_z() -> (r: Shape)
        ensures
            r.kind() == ShapeKind::Z,
            r.cells() == canonical_cells(ShapeKind::Z),
            r.cells().len() == 4,
            r.pivot() == canonical_anchor(ShapeKind::Z),
    {
        Shape::new(ShapeKind::Z)
    }

    /// A piece of a variant drawn uniformly at random among the seven.
    pub fn new_random() -> (r: Shape)
        ensures
            r.cells() == canonical_cells(r.kind()),
            r.cells().len() == 4,
            r.pivot() == canonical_anchor(r.kind()),
    {
        let i = random_below(7);
        Shape::new(ShapeKind::from_index(i))
    }

    /// This piece moved by the displacement `offset`; the anchor moves with it.
    pub fn translated(&self, offset: Pos) -> (r: Shape)
        requires
            can_shift(self.cells(), offset),
            fits_i32(pos_sum_int(self.pivot(), offset)),
        ensures
            r.kind() == self.kind(),
            r.cells() == shift_cells(self.cells(), offset),
            r.pivot() == shifted(self.pivot(), offset),
    {
        proof {
            use_type_invariant(self);
        }
        let ghost src = self.positions@;
        let mut positions: Vec<Pos> = Vec::new();
        let mut i: usize = 0;
        while i < self.positions.len()
            invariant
                src == self.positions@,
                src.no_duplicates(),
                can_shift(src.to_set(), offset),
                i <= src.len(),
                positions@.len() == i,
                forall|j: int| 0 <= j < i ==> #[trigger] positions@[j] == shifted(src[j], offset),
                positions@.no_duplicates(),
            decreases src.len() - i,
        {
            let p = self.positions[i];
            proof {
                assert(src.to_set().contains(src[i as int]));
                assert forall|j: int| 0 <= j < i implies positions@[j] != shifted(p, offset) by {
                    assert(src.to_set().contains(src[j]));
                    assert(src[j] != src[i as int]);
                }
            }
            positions.push(p + offset);
            i = i + 1;
        }
        proof {
            lemma_mapped_cells(src, positions@, |p: Pos| shifted(p, offset));
        }
        Shape { typ: self.typ, positions, anchor: self.anchor + offset }
    }

    /// This piece turned a quarter about its anchor; the anchor stays.
    pub fn rotated(&self) -> (r: Shape)
        requires
            can_rotate(self.cells(), self.pivot()),
        ensures
            r.kind() == self.kind(),
            r.cells() == rotate_cells(self.cells(), self.pivot()),
            r.pivot() == self.pivot(),
    {
        proof {
            use_type_invariant(self);
        }
        let ghost src = self.positions@;
        let a = self.anchor;
        let mut positions: Vec<Pos> = Vec::new();
        let mut i: usize = 0;
        while i < self.positions.len()
            invariant
                src == self.positions@,
                a == self.anchor,
                src.no_duplicates(),
                can_rotate(src.to_set(), a),
                i <= src.len(),
                positions@.len() == i,
                forall|j: int| 0 <= j < i ==> #[trigger] positions@[j] == rotate_cell(src[j], a),
                positions@.no_duplicates(),
            decreases src.len() - i,
        {
            let p = self.positions[i];
            proof {
                assert(src.to_set().contains(src[i as int]));
                assert forall|j: int| 0 <= j < i implies positions@[j] != rotate_cell(p, a) by {
                    assert(src.to_set().contains(src[j]));
                    assert(src[j] != src[i as int]);
                }
            }
            let x = a.1 as i64 + 1 - p.1 as i64;
            let y = p.0 as i64 - a.0 as i64 + a.1 as i64;
            positions.push(Pos(x as i32, y as i32));
            i = i + 1;
        }
        proof {
            lemma_mapped_cells(src, positions@, |p: Pos| rotate_cell(p, a));
        }
        Shape { typ: self.typ, positions, anchor: a }
    }

    /// Clears row `y`: the cells on it go, the cells above it (smaller `y`)
    /// drop by one row, the others stay. The anchor is left where it was.
    pub fn remove_line(&mut self, y: i32)
        ensures
            final(self).kind() == old(self).kind(),
            final(self).pivot() == old(self).pivot(),
            final(self).cells() == clear_row(old(self).cells(), y),
            final(self).cells().len() == old(self).cells().len() - cells_on_row(
                old(self).cells(),
                y,
            ).len(),
    {
        proof {
            use_type_invariant(&*self);
        }
        let ghost src = self.positions@;
        let mut positions: Vec<Pos> = Vec::new();
        let mut i: usize = 0;
        while i < self.positions.len()
            invariant
                src == self.positions@,
                src.no_duplicates(),
                i <= src.len(),
                forall|p: Pos| #[trigger]
                    positions@.contains(p) ==> exists|k: int|
                        0 <= k < i && src[k].1 != y && p == #[trigger] lower_cell(src[k], y),
                forall|k: int|
                    0 <= k < i && src[k].1 != y ==> positions@.contains(
                        #[trigger] lower_cell(src[k], y),
                    ),
                positions@.no_duplicates(),
            decreases src.len() - i,
        {
            let p = self.positions[i];
            if p.1 != y {
                let q = if p.1 >= y {
                    p
                } else {
                    Pos(p.0, p.1 + 1)
                };
                proof {
                    assert(q == lower_cell(src[i as int], y));
                    if positions@.contains(q) {
                        let k = choose|k: int|
                            0 <= k < i && src[k].1 != y && q == #[trigger] lower_cell(src[k], y);
                        assert(src[k] == src[i as int]);
                    }
                }
                let ghost before = positions@;
                positions.push(q);
                proof {
                    assert forall|p: Pos| #[trigger]
                        positions@.contains(p) implies exists|k: int|
                            0 <= k < i + 1 && src[k].1 != y && p == #[trigger] lower_cell(
                                src[k],
                                y,
                            ) by {
                        if p != q {
                            let j = choose|j: int| 0 <= j < positions@.len() && positions@[j] == p;
                            assert(before[j] == p);
                            assert(before.contains(p));
                        }
                    }
                    assert forall|k: int|
                        0 <= k < i + 1 && src[k].1 != y implies positions@.contains(
                            #[trigger] lower_cell(src[k], y),
                        ) by {
                        if k < i {
                            let j = choose|j: int|
                                0 <= j < before.len() && before[j] == lower_cell(src[k], y);
                            assert(positions@[j] == before[j]);
                        } else {
                            assert(positions@[before.len() as int] == q);
                        }
                    }
                }
            }
            i = i + 1;
        }
        proof {
            let old_cells = src.to_set();
            assert forall|p: Pos| positions@.to_set().contains(p) <==> clear_row(
                old_cells,
                y,
            ).contains(p) by {
                if positions@.contains(p) {
                    let k = choose|k: int|
                        0 <= k < src.len() && src[k].1 != y && p == #[trigger] lower_cell(src[k], y);
                    assert(old_cells.contains(src[k]));
                    assert(old_cells.filter(|c: Pos| c.1 != y).contains(src[k]));
                }
                if clear_row(old_cells, y).contains(p) {
                    let c = choose|c: Pos|
                        old_cells.filter(|c: Pos| c.1 != y).contains(c) && lower_cell(c, y) == p;
                    let k = choose|k: int| 0 <= k < src.len() && src[k] == c;
                    assert(positions@.contains(lower_cell(src[k], y)));
                }
            }
            assert(positions@.to_set() =~= clear_row(old_cells, y));
            lemma_clear_row_len(old_cells, y);
        }
        *self = Shape { typ: self.typ, positions, anchor: self.anchor };
    }
}

impl Clone for Shape {
    fn clone(&self) -> (r: Shape)
        ensures
            r.kind() == self.kind(),
            r.cells() == self.cells(),
            r.pivot() == self.pivot(),
    {
        proof {
            use_type_invariant(self);
        }
        let mut positions: Vec<Pos> = Vec::new();
        let mut i: usize = 0;
        while i < self.positions.len()
            invariant
                i <= self.positions@.len(),
                positions@ == self.positions@.subrange(0, i as int),
                self.positions@.no_duplicates(),
            decreases self.positions@.len() - i,
        {
            positions.push(self.positions[i]);
            i = i + 1;
            proof {
                assert(positions@ =~= self.positions@.subrange(0, i as int));
            }
        }
        proof {
            assert(positions@ =~= self.positions@);
        }
        Shape { typ: self.typ, positions, anchor: self.anchor }
    }
}

} // verus!
