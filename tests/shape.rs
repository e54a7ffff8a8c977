use std::collections::HashSet;

use tetromino::pos::Pos;
use tetromino::shape::{Shape, ShapeKind};

fn sorted_cells(s: &Shape) -> Vec<(i32, i32)> {
    let mut v: Vec<(i32, i32)> = s.iter_positions().into_iter().map(|p| (p.0, p.1)).collect();
    v.sort();
    v
}

fn sorted(cells: &[(i32, i32)]) -> Vec<(i32, i32)> {
    let mut v = cells.to_vec();
    v.sort();
    v
}

#[test]
fn pos_addition_is_componentwise() {
    assert_eq!(Pos(1, -2) + Pos(3, 4), Pos(4, 2));
}

#[test]
fn constructors_give_canonical_cells() {
    let cases: Vec<(Shape, ShapeKind, Vec<(i32, i32)>)> = vec![
        (Shape::new_i(), ShapeKind::I, vec![(0, 0), (1, 0), (2, 0), (3, 0)]),
        (Shape::new_o(), ShapeKind::O, vec![(0, 0), (1, 0), (0, 1), (1, 1)]),
        (Shape::new_t(), ShapeKind::T, vec![(0, 0), (1, 0), (2, 0), (1, 1)]),
        (Shape::new_j(), ShapeKind::J, vec![(0, 0), (0, 1), (0, 2), (-1, 2)]),
        (Shape::new_l(), ShapeKind::L, vec![(0, 0), (0, 1), (0, 2), (1, 2)]),
        (Shape::new_s(), ShapeKind::S, vec![(0, 0), (1, 0), (0, 1), (-1, 1)]),
        (Shape::new_z(), ShapeKind::Z, vec![(0, 0), (-1, 0), (0, 1), (1, 1)]),
    ];
    for (shape, kind, cells) in cases {
        assert_eq!(shape.typ(), kind);
        assert_eq!(shape.iter_positions().len(), 4);
        assert_eq!(sorted_cells(&shape), sorted(&cells));
        assert_eq!(sorted_cells(&Shape::new(kind)), sorted(&cells));
    }
}

#[test]
fn new_matches_named_constructors() {
    for i in 0..7u8 {
        let kind = ShapeKind::from_index(i);
        let a = Shape::new(kind);
        let b = match kind {
            ShapeKind::I => Shape::new_i(),
            ShapeKind::O => Shape::new_o(),
            ShapeKind::T => Shape::new_t(),
            ShapeKind::J => Shape::new_j(),
            ShapeKind::L => Shape::new_l(),
            ShapeKind::S => Shape::new_s(),
            ShapeKind::Z => Shape::new_z(),
        };
        assert_eq!(sorted_cells(&a), sorted_cells(&b));
        assert_eq!(a.typ(), b.typ());
    }
    assert_eq!(ShapeKind::from_index(0), ShapeKind::I);
    assert_eq!(ShapeKind::from_index(6), ShapeKind::Z);
}

#[test]
fn translation_moves_every_cell() {
    let s = Shape::new_t().translated(Pos(5, 7));
    assert_eq!(sorted_cells(&s), sorted(&[(5, 7), (6, 7), (7, 7), (6, 8)]));
    assert_eq!(s.typ(), ShapeKind::T);
}

#[test]
fn translation_composes() {
    let s = Shape::new_j();
    let d1 = Pos(3, -4);
    let d2 = Pos(-7, 11);
    let twice = s.translated(d1).translated(d2);
    let once = s.translated(d1 + d2);
    assert_eq!(sorted_cells(&twice), sorted_cells(&once));
    assert_eq!(sorted_cells(&twice.rotated()), sorted_cells(&once.rotated()));
}

#[test]
fn translation_moves_the_anchor() {
    // The I piece turns about (1, 0); moved by (4, 4) it turns about (5, 4),
    // and (x, y) goes to (-y + 4 + 1, x - 5 + 4).
    let moved = Shape::new_i().translated(Pos(4, 4)).rotated();
    assert_eq!(sorted_cells(&moved), sorted(&[(1, 3), (1, 4), (1, 5), (1, 6)]));
}

#[test]
fn collision_is_symmetric() {
    let a = Shape::new_t();
    let b = Shape::new_o().translated(Pos(1, 1));
    let c = Shape::new_l().translated(Pos(5, 0));
    assert!(a.collides_with(&b));
    assert!(b.collides_with(&a));
    assert!(!a.collides_with(&c));
    assert!(!c.collides_with(&a));
}

#[test]
fn collision_with_itself_and_far_copy() {
    let a = Shape::new_s();
    assert!(a.collides_with(&a));
    assert!(a.collides_with(&a.clone()));
    assert!(!a.collides_with(&a.translated(Pos(10, 0))));
    let i = Shape::new_i();
    assert!(!i.collides_with(&i.translated(Pos(10, 0))));
    assert!(i.collides_with(&i.translated(Pos(3, 0))));
}

#[test]
fn rotation_uses_constructor_anchor() {
    // T turns about (1, 0): (x, y) goes to (-y + 1, x - 1).
    let r = Shape::new_t().rotated();
    assert_eq!(sorted_cells(&r), sorted(&[(1, -1), (1, 0), (1, 1), (0, 0)]));
    // J turns about (0, 1): (x, y) goes to (-y + 2, x + 1).
    let r = Shape::new_j().rotated();
    assert_eq!(sorted_cells(&r), sorted(&[(2, 1), (1, 1), (0, 1), (0, 0)]));
}

#[test]
fn rotation_of_i_exact() {
    let r = Shape::new_i().rotated();
    assert_eq!(sorted_cells(&r), sorted(&[(1, -1), (1, 0), (1, 1), (1, 2)]));
    let r2 = r.rotated();
    assert_eq!(sorted_cells(&r2), sorted(&[(-1, 0), (0, 0), (1, 0), (2, 0)]));
    assert_eq!(r2.typ(), ShapeKind::I);
}

#[test]
fn rotation_four_times_is_identity() {
    let i = Shape::new_i();
    let r = i.rotated().rotated().rotated().rotated();
    assert_eq!(sorted_cells(&r), sorted_cells(&i));
    for k in 0..7u8 {
        let s = Shape::new(ShapeKind::from_index(k)).translated(Pos(4, 9));
        let r = s.rotated().rotated().rotated().rotated();
        assert_eq!(sorted_cells(&r), sorted_cells(&s));
    }
}

#[test]
fn square_rotates_onto_shifted_square() {
    let r = Shape::new_o().rotated();
    assert_eq!(sorted_cells(&r), sorted(&[(1, 0), (0, 0), (1, 1), (0, 1)]));
}

#[test]
fn remove_line_on_t_piece() {
    let mut t = Shape::new_t();
    t.remove_line(1);
    assert_eq!(sorted_cells(&t), sorted(&[(0, 1), (1, 1), (2, 1)]));
    assert!(!t.has_position(Pos(1, 0)));
    assert!(t.has_position(Pos(1, 1)));
}

#[test]
fn remove_line_keeps_rows_below() {
    let mut j = Shape::new_j();
    j.remove_line(1);
    assert_eq!(sorted_cells(&j), sorted(&[(0, 1), (0, 2), (-1, 2)]));
}

#[test]
fn remove_line_with_empty_row() {
    let mut o = Shape::new_o();
    o.remove_line(5);
    assert_eq!(sorted_cells(&o), sorted(&[(0, 1), (1, 1), (0, 2), (1, 2)]));
    let mut l = Shape::new_l();
    l.remove_line(-3);
    assert_eq!(sorted_cells(&l), sorted_cells(&Shape::new_l()));
}

#[test]
fn remove_line_whole_piece() {
    let mut i = Shape::new_i();
    i.remove_line(0);
    assert!(i.iter_positions().is_empty());
    assert!(!i.collides_with(&i));
    assert_eq!(i.typ(), ShapeKind::I);
}

#[test]
fn rotation_after_line_clear_uses_old_anchor() {
    let mut t = Shape::new_t();
    t.remove_line(1);
    let r = t.rotated();
    assert_eq!(sorted_cells(&r), sorted(&[(0, -1), (0, 0), (0, 1)]));
}

#[test]
fn has_position_matches_cells() {
    let z = Shape::new_z().translated(Pos(2, 2));
    assert!(z.has_position(Pos(1, 2)));
    assert!(z.has_position(Pos(3, 3)));
    assert!(!z.has_position(Pos(1, 3)));
}

#[test]
fn iter_positions_has_no_repeats() {
    let s = Shape::new_l().translated(Pos(-3, 8));
    let v = s.iter_positions();
    let set: HashSet<Pos> = v.iter().copied().collect();
    assert_eq!(set.len(), v.len());
}

#[test]
fn new_random_is_uniform() {
    let mut counts = [0usize; 7];
    for _ in 0..10_000 {
        let s = Shape::new_random();
        let idx = match s.typ() {
            ShapeKind::I => 0,
            ShapeKind::O => 1,
            ShapeKind::T => 2,
            ShapeKind::J => 3,
            ShapeKind::L => 4,
            ShapeKind::S => 5,
            ShapeKind::Z => 6,
        };
        assert_eq!(sorted_cells(&s), sorted_cells(&Shape::new(s.typ())));
        counts[idx] += 1;
    }
    for c in counts {
        assert!(c > 1200 && c < 1660, "count {} out of band", c);
    }
}
