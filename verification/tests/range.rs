use saw::range::{FieldId, FieldsAtom, LinesAtom, OpenRange};

#[test]
fn an_open_range_includes_its_bounds() {
    let range = OpenRange::new(Some(3), Some(5));
    let inside: Vec<i32> = (0..8).filter(|n| range.contains(*n)).collect();
    assert_eq!(inside, vec![3, 4, 5]);
    let single = OpenRange::new(Some(4), Some(4));
    assert!(single.contains(4));
    assert!(!single.contains(3));
    assert!(!single.contains(5));
}

#[test]
fn an_absent_bound_leaves_the_side_open() {
    let from = OpenRange::new(Some(3u8), None);
    assert!(!from.contains(2));
    assert!(from.contains(3));
    assert!(from.contains(255));
    let to = OpenRange::new(None, Some(3u8));
    assert!(to.contains(0));
    assert!(to.contains(3));
    assert!(!to.contains(4));
    let all = OpenRange::<u8>::new(None, None);
    assert!(all.contains(0));
    assert!(all.contains(255));
}

#[test]
fn a_range_with_crossed_bounds_is_empty() {
    let range = OpenRange::new(Some(5), Some(3));
    assert!((0..9).all(|n| !range.contains(n)));
}

#[test]
fn map_keeps_the_shape_of_the_range() {
    let range = OpenRange::new(Some(3), None);
    assert_eq!(range.map(|n| n * 2), OpenRange::new(Some(6), None));
    let range = OpenRange::new(None, Some("ab"));
    assert_eq!(range.map(|s| s.len()), OpenRange::new(None, Some(2)));
    let range = OpenRange::<u8>::new(None, None);
    assert_eq!(range.map(|n| *n), OpenRange::new(None, None));
}

#[test]
fn a_position_from_the_last_counts_backwards() {
    assert_eq!(FieldId::Int(3).to_usize(7), 3);
    assert_eq!(FieldId::Int(9).to_usize(7), 9);
    assert_eq!(FieldId::Int(0).to_usize(7), 0);
    assert_eq!(FieldId::FromLast(1).to_usize(7), 7);
    assert_eq!(FieldId::FromLast(2).to_usize(7), 6);
    assert_eq!(FieldId::FromLast(7).to_usize(7), 1);
    assert_eq!(FieldId::FromLast(8).to_usize(7), 0);
    assert_eq!(FieldId::FromLast(9).to_usize(7), 0);
    assert_eq!(FieldId::FromLast(0).to_usize(7), 8);
    assert_eq!(FieldId::FromLast(1).to_usize(0), 0);
    assert_eq!(FieldId::FromLast(0).to_usize(0), 1);
}

#[test]
fn a_fields_atom_selects_positions() {
    let single = FieldsAtom::Single(FieldId::FromLast(1));
    assert!(single.contains(7, 7));
    assert!(!single.contains(6, 7));
    assert!(single.contains(3, 3));
    let range = FieldsAtom::Range(OpenRange::new(
        Some(FieldId::Int(3)),
        Some(FieldId::FromLast(2)),
    ));
    let kept: Vec<usize> = (0..=8).filter(|n| range.contains(*n, 7)).collect();
    assert_eq!(kept, vec![3, 4, 5, 6]);
    let kept: Vec<usize> = (0..=4).filter(|n| range.contains(*n, 3)).collect();
    assert_eq!(kept, Vec::<usize>::new());
}

#[test]
fn a_lines_atom_selects_numbers() {
    assert!(LinesAtom::Single(4).contains(4));
    assert!(!LinesAtom::Single(4).contains(5));
    let range = LinesAtom::Range(OpenRange::new(Some(2), Some(3)));
    let kept: Vec<usize> = (0..6).filter(|n| range.contains(*n)).collect();
    assert_eq!(kept, vec![2, 3]);
    let open = LinesAtom::Range(OpenRange::new(None, None));
    assert!(open.contains(0));
    assert!(open.contains(usize::MAX));
}
