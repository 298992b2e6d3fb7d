use saw::grammar::{field_id, fields_atom, fields_list, lines_atom, lines_list, number};
use saw::range::{FieldId, FieldsAtom, LinesAtom, OpenRange};

fn chars(s: &str) -> Vec<char> {
    s.chars().collect()
}

fn lines(s: &str) -> Option<String> {
    lines_list(&chars(s)).map(|atoms| format!("{:?}", atoms))
}

fn show<T: std::fmt::Debug>(value: T) -> String {
    format!("{:?}", value)
}

#[test]
fn number_reads_the_longest_run_of_digits() {
    assert_eq!(number(&chars("123"), 0), Some((123, 3)));
    assert_eq!(number(&chars("123-4"), 0), Some((123, 3)));
    assert_eq!(number(&chars("123-4"), 4), Some((4, 5)));
    assert_eq!(number(&chars("123-4"), 1), Some((23, 3)));
    assert_eq!(number(&chars("007"), 0), Some((7, 3)));
    assert_eq!(number(&chars("0"), 0), Some((0, 1)));
}

#[test]
fn number_needs_a_digit() {
    assert_eq!(number(&chars(""), 0), None);
    assert_eq!(number(&chars("a1"), 0), None);
    assert_eq!(number(&chars("-1"), 0), None);
    assert_eq!(number(&chars("+1"), 0), None);
    assert_eq!(number(&chars("1"), 1), None);
    assert_eq!(number(&chars("1"), 5), None);
    assert_eq!(number(&chars("\u{0661}"), 0), None);
}

#[test]
fn number_stops_at_what_a_usize_holds() {
    let max = usize::MAX.to_string();
    assert_eq!(number(&chars(&max), 0), Some((usize::MAX, max.len())));
    let padded = format!("000{}", max);
    assert_eq!(
        number(&chars(&padded), 0),
        Some((usize::MAX, padded.len()))
    );
    let mut beyond = (usize::MAX / 10).to_string();
    beyond.push_str("9");
    if usize::MAX % 10 < 9 {
        assert_eq!(number(&chars(&beyond), 0), None);
    }
    assert_eq!(number(&chars(&format!("{}0", max)), 0), None);
    assert_eq!(number(&chars("99999999999999999999999999"), 0), None);
}

#[test]
fn field_id_counts_from_either_end() {
    assert_eq!(field_id(&chars("12"), 0), Some((FieldId::Int(12), 2)));
    assert_eq!(field_id(&chars("(-3)"), 0), Some((FieldId::FromLast(3), 4)));
    assert_eq!(field_id(&chars("1-(-3)x"), 2), Some((FieldId::FromLast(3), 6)));
    assert_eq!(field_id(&chars("(-0)"), 0), Some((FieldId::FromLast(0), 4)));
    for bad in ["", "(", "(-", "(-)", "(-1", "(1)", "-1", "( -1)", "(-a)"] {
        assert_eq!(field_id(&chars(bad), 0), None, "{:?}", bad);
    }
    assert_eq!(field_id(&chars("(-99999999999999999999999)"), 0), None);
    assert_eq!(field_id(&chars("(-1)"), 4), None);
    assert_eq!(field_id(&chars("(-1)"), 9), None);
}

#[test]
fn lines_atom_is_a_range_or_a_number() {
    let atom = |s: &str| lines_atom(&chars(s), 0).map(|(a, end)| (show(a), end));
    assert_eq!(atom("5"), Some((show(LinesAtom::Single(5)), 1)));
    assert_eq!(
        atom("2-4"),
        Some((show(LinesAtom::Range(OpenRange::new(Some(2), Some(4)))), 3))
    );
    assert_eq!(
        atom("2-"),
        Some((show(LinesAtom::Range(OpenRange::new(Some(2), None))), 2))
    );
    assert_eq!(
        atom("-4"),
        Some((show(LinesAtom::Range(OpenRange::new(None, Some(4)))), 2))
    );
    assert_eq!(
        atom("-"),
        Some((show(LinesAtom::Range(OpenRange::<usize>::new(None, None))), 1))
    );
    assert_eq!(
        atom("2-4-6"),
        Some((show(LinesAtom::Range(OpenRange::new(Some(2), Some(4)))), 3))
    );
    assert_eq!(atom(""), None);
    assert_eq!(atom(","), None);
    assert_eq!(atom("a"), None);
    assert!(lines_atom(&chars("1-2"), 3).is_none());
    assert!(lines_atom(&chars("1-2"), 4).is_none());
}

#[test]
fn a_bound_too_large_is_no_bound() {
    // The digits stay unread behind the range, so no list ends there.
    let atom = |s: &str| lines_atom(&chars(s), 0).map(|(a, end)| (show(a), end));
    assert_eq!(
        atom("3-99999999999999999999999"),
        Some((show(LinesAtom::Range(OpenRange::new(Some(3), None))), 2))
    );
    assert_eq!(atom("99999999999999999999999-3"), None);
    assert_eq!(lines("3-99999999999999999999999"), None);
}

#[test]
fn fields_atom_is_a_range_or_a_position() {
    let atom = |s: &str| fields_atom(&chars(s), 0).map(|(a, end)| (a, end));
    assert_eq!(atom("1"), Some((FieldsAtom::Single(FieldId::Int(1)), 1)));
    assert_eq!(
        atom("(-1)"),
        Some((FieldsAtom::Single(FieldId::FromLast(1)), 4))
    );
    assert_eq!(
        atom("3-(-2)"),
        Some((
            FieldsAtom::Range(OpenRange::new(
                Some(FieldId::Int(3)),
                Some(FieldId::FromLast(2))
            )),
            6
        ))
    );
    assert_eq!(
        atom("(-3)-(-2)"),
        Some((
            FieldsAtom::Range(OpenRange::new(
                Some(FieldId::FromLast(3)),
                Some(FieldId::FromLast(2))
            )),
            9
        ))
    );
    assert_eq!(
        atom("(-3)-"),
        Some((
            FieldsAtom::Range(OpenRange::new(Some(FieldId::FromLast(3)), None)),
            5
        ))
    );
    assert_eq!(
        atom("-2"),
        Some((
            FieldsAtom::Range(OpenRange::new(None, Some(FieldId::Int(2)))),
            2
        ))
    );
    assert_eq!(atom("-"), Some((FieldsAtom::Range(OpenRange::new(None, None)), 1)));
    assert_eq!(atom("(-"), None);
    assert_eq!(atom(""), None);
}

#[test]
fn lists_take_the_whole_argument() {
    assert_eq!(lines(""), Some(show(Vec::<LinesAtom>::new())));
    assert_eq!(lines("1"), Some(show(vec![LinesAtom::Single(1)])));
    assert_eq!(
        lines("1,3-4,7-,-"),
        Some(show(vec![
            LinesAtom::Single(1),
            LinesAtom::Range(OpenRange::new(Some(3), Some(4))),
            LinesAtom::Range(OpenRange::new(Some(7), None)),
            LinesAtom::Range(OpenRange::new(None, None)),
        ]))
    );
    for bad in [",", "1,", ",1", "1,,2", "1-2-3", "1;2", " 1", "1 ", "a", "(-1)"] {
        assert_eq!(lines(bad), None, "{:?}", bad);
    }
    assert_eq!(fields_list(&chars("")), Some(Vec::new()));
    assert_eq!(
        fields_list(&chars("3-(-2),1")),
        Some(vec![
            FieldsAtom::Range(OpenRange::new(
                Some(FieldId::Int(3)),
                Some(FieldId::FromLast(2))
            )),
            FieldsAtom::Single(FieldId::Int(1)),
        ])
    );
    for bad in [",", "1,", "(-1),", "1-2-3", "(1)", "(-1", "1 "] {
        assert_eq!(fields_list(&chars(bad)), None, "{:?}", bad);
    }
}
