use vstd::prelude::*;

verus! {

/// A cell of the grid: `x` grows rightward, `y` grows downward.
#[derive(Debug, Hash, PartialEq, Eq, Structural, Clone, Copy)]
pub struct Pos(pub i32, pub i32);

/// The sum of two positions, coordinate by coordinate, over the integers.
pub open spec fn pos_sum_int(p: Pos, q: Pos) -> (int, int) {
    (p.0 + q.0, p.1 + q.1)
}

/// Whether a pair of integers is a cell that `Pos` can hold.
pub open spec fn fits_i32(c: (int, int)) -> bool {
    i32::MIN <= c.0 <= i32::MAX && i32::MIN <= c.1 <= i32::MAX
}

/// The position that `p` is moved to by the displacement `d`.
pub open spec fn shifted(p: Pos, d: Pos) -> Pos {
    Pos((p.0 + d.0) as i32, (p.1 + d.1) as i32)
}

impl std::ops::Add for Pos {
    type Output = Pos;

    fn add(self, rhs: Pos) -> (r: Pos) {
        Pos(self.0 + rhs.0, self.1 + rhs.1)
    }
}

impl vstd::std_specs::ops::AddSpecImpl for Pos {
    open spec fn obeys_add_spec() -> bool {
        true
    }

    open spec fn add_req(self, rhs: Pos) -> bool {
        fits_i32(pos_sum_int(self, rhs))
    }

    open spec fn add_spec(self, rhs: Pos) -> Pos {
        shifted(self, rhs)
    }
}

} // verus!
