//! The grammar of selections: the argument of the commands that select lines
//! or fields. A selection is a list of atoms with commas between them; an atom
//! is a single position or a range of positions.
//!
//! Each piece of the grammar is given twice: as a function of the text and a
//! position in it, which says what is written there, and as a reader that is
//! proved to find just that.

use crate::range::{FieldId, FieldsAtom, LinesAtom, OpenRange};
use crate::text::{decimal, decimal_value, is_digit, law_decimal_round_trip};
use vstd::prelude::*;

verus! {

/// The first position at or after `pos` that holds no digit.
pub open spec fn digits_end(s: Seq<char>, pos: int) -> int
    decreases s.len() - pos,
{
    if 0 <= pos < s.len() && is_digit(s[pos]) {
        digits_end(s, pos + 1)
    } else {
        pos
    }
}

/// The number written at `pos`, and the position behind it. The number is the
/// longest run of digits there; there is none where no digit stands, or where
/// the run denotes more than a `usize` holds.
pub open spec fn number_at(s: Seq<char>, pos: int) -> Option<(usize, int)> {
    let end = digits_end(s, pos);
    let value = decimal_value(s.subrange(pos, end));
    if pos < end && value <= usize::MAX {
        Some((value as usize, end))
    } else {
        None
    }
}

/// The field position written at `pos`, and the position behind it: a number,
/// or a number between `(-` and `)` for a position counted from the last field.
pub open spec fn field_id_at(s: Seq<char>, pos: int) -> Option<(FieldId, int)> {
    match number_at(s, pos) {
        Some((n, end)) => Some((FieldId::Int(n), end)),
        None => if 0 <= pos && pos + 1 < s.len() && s[pos] == '(' && s[pos + 1] == '-' {
            match number_at(s, pos + 2) {
                Some((n, end)) => if end < s.len() && s[end] == ')' {
                    Some((FieldId::FromLast(n), end + 1))
                } else {
                    None
                },
                None => None,
            }
        } else {
            None
        },
    }
}

/// The line atom written at `pos`, and the position behind it: a range, which
/// is a `-` with a number, or nothing, on either side of it; or else a number alone.
pub open spec fn lines_atom_at(s: Seq<char>, pos: int) -> Option<(LinesAtom, int)> {
    let (lower_bound, dash) = match number_at(s, pos) {
        Some((n, end)) => (Some(n), end),
        None => (None, pos),
    };
    if 0 <= dash < s.len() && s[dash] == '-' {
        match number_at(s, dash + 1) {
            Some((n, end)) => Some(
                (LinesAtom::Range(OpenRange { lower_bound, upper_bound: Some(n) }), end),
            ),
            None => Some(
                (LinesAtom::Range(OpenRange { lower_bound, upper_bound: None }), dash + 1),
            ),
        }
    } else {
        match number_at(s, pos) {
            Some((n, end)) => Some((LinesAtom::Single(n), end)),
            None => None,
        }
    }
}

/// The field atom written at `pos`, and the position behind it: a range, which
/// is a `-` with a field position, or nothing, on either side of it; or else a
/// field position alone.
pub open spec fn fields_atom_at(s: Seq<char>, pos: int) -> Option<(FieldsAtom, int)> {
    let (lower_bound, dash) = match field_id_at(s, pos) {
        Some((id, end)) => (Some(id), end),
        None => (None, pos),
    };
    if 0 <= dash < s.len() && s[dash] == '-' {
        match field_id_at(s, dash + 1) {
            Some((id, end)) => Some(
                (FieldsAtom::Range(OpenRange { lower_bound, upper_bound: Some(id) }), end),
            ),
            None => Some(
                (FieldsAtom::Range(OpenRange { lower_bound, upper_bound: None }), dash + 1),
            ),
        }
    } else {
        match field_id_at(s, pos) {
            Some((id, end)) => Some((FieldsAtom::Single(id), end)),
            None => None,
        }
    }
}

/// A run of digits ends within the text, and holds digits only.
pub proof fn lemma_digits_end(s: Seq<char>, pos: int)
    requires
        0 <= pos <= s.len(),
    ensures
        pos <= digits_end(s, pos) <= s.len(),
        forall|i: int| pos <= i < digits_end(s, pos) ==> is_digit(#[trigger] s[i]),
        digits_end(s, pos) < s.len() ==> !is_digit(s[digits_end(s, pos)]),
    decreases s.len() - pos,
{
    if pos < s.len() && is_digit(s[pos]) {
        lemma_digits_end(s, pos + 1);
    }
}

/// A longer run of digits denotes no smaller number.
proof fn lemma_value_grows(s: Seq<char>, pos: int, mid: int, end: int)
    requires
        0 <= pos <= mid <= end <= s.len(),
        forall|i: int| pos <= i < end ==> is_digit(#[trigger] s[i]),
    ensures
        decimal_value(s.subrange(pos, mid)) <= decimal_value(s.subrange(pos, end)),
    decreases end - mid,
{
    if mid < end {
        lemma_value_grows(s, pos, mid, end - 1);
        assert(s.subrange(pos, end).drop_last() =~= s.subrange(pos, end - 1));
    }
}

/// Reads the number written at `pos`.
pub fn number(s: &Vec<char>, pos: usize) -> (r: Option<(usize, usize)>)
    ensures
        match r {
            Some((n, end)) => number_at(s@, pos as int) == Some((n, end as int)) && pos < end
                <= s.len(),
            None => number_at(s@, pos as int) is None,
        },
{
    if pos > s.len() {
        return None;
    }
    let mut end: usize = pos;
    let mut value: usize = 0;
    assert(s@.subrange(pos as int, pos as int) =~= Seq::<char>::empty());
    while end < s.len() && '0' <= s[end] && s[end] <= '9'
        invariant
            pos <= end <= s.len(),
            value == decimal_value(s@.subrange(pos as int, end as int)),
            digits_end(s@, pos as int) == digits_end(s@, end as int),
            forall|i: int| pos <= i < end ==> is_digit(#[trigger] s@[i]),
        decreases s.len() - end,
    {
        let digit = (s[end] as u32 - '0' as u32) as usize;
        proof {
            let longer = s@.subrange(pos as int, end + 1);
            assert(longer.drop_last() =~= s@.subrange(pos as int, end as int));
            assert(decimal_value(longer) == value * 10 + digit);
            lemma_digits_end(s@, end + 1);
            lemma_value_grows(s@, pos as int, end + 1, digits_end(s@, pos as int));
        }
        match value.checked_mul(10) {
            None => {
                return None;
            },
            Some(tens) => match tens.checked_add(digit) {
                None => {
                    return None;
                },
                Some(sum) => {
                    value = sum;
                },
            },
        }
        end += 1;
    }
    if end == pos {
        None
    } else {
        Some((value, end))
    }
}

/// Reads the field position written at `pos`.
pub fn field_id(s: &Vec<char>, pos: usize) -> (r: Option<(FieldId, usize)>)
    ensures
        match r {
            Some((id, end)) => field_id_at(s@, pos as int) == Some((id, end as int)) && pos < end
                <= s.len(),
            None => field_id_at(s@, pos as int) is None,
        },
{
    match number(s, pos) {
        Some((n, end)) => Some((FieldId::Int(n), end)),
        None => {
            if pos < s.len() && s.len() - pos >= 2 && s[pos] == '(' && s[pos + 1] == '-' {
                match number(s, pos + 2) {
                    Some((n, end)) => {
                        if end < s.len() && s[end] == ')' {
                            Some((FieldId::FromLast(n), end + 1))
                        } else {
                            None
                        }
                    },
                    None => None,
                }
            } else {
                None
            }
        },
    }
}

/// Reads the field atom written at `pos`.
pub fn fields_atom(s: &Vec<char>, pos: usize) -> (r: Option<(FieldsAtom, usize)>)
    ensures
        match r {
            Some((atom, end)) => fields_atom_at(s@, pos as int) == Some((atom, end as int)) && pos
                < end <= s.len(),
            None => fields_atom_at(s@, pos as int) is None,
        },
{
    let first = field_id(s, pos);
    let (lower_bound, dash) = match first {
        Some((id, end)) => (Some(id), end),
        None => (None, pos),
    };
    if dash < s.len() && s[dash] == '-' {
        match field_id(s, dash + 1) {
            Some((id, end)) => {
                Some((FieldsAtom::Range(OpenRange::new(lower_bound, Some(id))), end))
            },
            None => Some((FieldsAtom::Range(OpenRange::new(lower_bound, None)), dash + 1)),
        }
    } else {
        match first {
            Some((id, end)) => Some((FieldsAtom::Single(id), end)),
            None => None,
        }
    }
}

/// Reads the line atom written at `pos`.
pub fn lines_atom(s: &Vec<char>, pos: usize) -> (r: Option<(LinesAtom, usize)>)
    ensures
        match r {
            Some((atom, end)) => lines_atom_at(s@, pos as int) == Some((atom, end as int)) && pos
                < end <= s.len(),
            None => lines_atom_at(s@, pos as int) is None,
        },
{
    let first = number(s, pos);
    let (lower_bound, dash) = match first {
        Some((n, end)) => (Some(n), end),
        None => (None, pos),
    };
    if dash < s.len() && s[dash] == '-' {
        match number(s, dash + 1) {
            Some((n, end)) => Some((LinesAtom::Range(OpenRange::new(lower_bound, Some(n))), end)),
            None => Some((LinesAtom::Range(OpenRange::new(lower_bound, None)), dash + 1)),
        }
    } else {
        match first {
            Some((n, end)) => Some((LinesAtom::Single(n), end)),
            None => None,
        }
    }
}

/// A line atom is not empty, and ends within the text.
pub proof fn lemma_lines_atom_at(s: Seq<char>, pos: int)
    requires
        0 <= pos <= s.len(),
    ensures
        lines_atom_at(s, pos) matches Some((_, end)) ==> pos < end <= s.len(),
{
    lemma_digits_end(s, pos);
    let dash = match number_at(s, pos) {
        Some((_, end)) => end,
        None => pos,
    };
    if dash < s.len() {
        lemma_digits_end(s, dash + 1);
    }
}

/// The line atoms that follow at `pos`, each behind a comma, and the position
/// behind the last of them. A comma that no atom follows is not passed.
pub open spec fn more_lines_at(s: Seq<char>, pos: int) -> (Seq<LinesAtom>, int)
    decreases s.len() - pos,
    via more_lines_at_decreases
{
    if 0 <= pos < s.len() && s[pos] == ',' {
        match lines_atom_at(s, pos + 1) {
            Some((atom, end)) => {
                let (more, last) = more_lines_at(s, end);
                (seq![atom] + more, last)
            },
            None => (Seq::empty(), pos),
        }
    } else {
        (Seq::empty(), pos)
    }
}

#[via_fn]
proof fn more_lines_at_decreases(s: Seq<char>, pos: int) {
    if 0 <= pos < s.len() {
        lemma_lines_atom_at(s, pos + 1);
    }
}

/// The selection of lines that `s` is, from its first character to its last:
/// line atoms with a comma between each two, or nothing at all.
pub open spec fn lines_of(s: Seq<char>) -> Option<Seq<LinesAtom>> {
    let (atoms, end) = match lines_atom_at(s, 0) {
        Some((atom, end)) => {
            let (more, last) = more_lines_at(s, end);
            (seq![atom] + more, last)
        },
        None => (Seq::empty(), 0),
    };
    if end == s.len() {
        Some(atoms)
    } else {
        None
    }
}

/// Reads the whole of `s` as a selection of lines.
pub fn lines_list(s: &Vec<char>) -> (r: Option<Vec<LinesAtom>>)
    ensures
        match r {
            Some(atoms) => lines_of(s@) == Some(atoms@),
            None => lines_of(s@) is None,
        },
{
    let mut atoms: Vec<LinesAtom> = Vec::new();
    let mut pos: usize = 0;
    let mut done = false;
    match lines_atom(s, 0) {
        Some((atom, end)) => {
            atoms.push(atom);
            pos = end;
            assert(seq![atom] + more_lines_at(s@, end as int).0 =~= atoms@ + more_lines_at(
                s@,
                end as int,
            ).0);
        },
        None => {
            done = true;
            assert(Seq::<LinesAtom>::empty() =~= atoms@ + Seq::<LinesAtom>::empty());
        },
    }
    let ghost whole = match lines_atom_at(s@, 0) {
        Some((atom, end)) => {
            let (more, last) = more_lines_at(s@, end);
            (seq![atom] + more, last)
        },
        None => (Seq::empty(), 0),
    };
    while !done
        invariant
            pos <= s.len(),
            !done ==> whole == (atoms@ + more_lines_at(s@, pos as int).0, more_lines_at(
                s@,
                pos as int,
            ).1),
            done ==> whole == (atoms@, pos as int),
        decreases s.len() - pos + if done { 0int } else { 1int },
    {
        if pos < s.len() && s[pos] == ',' {
            match lines_atom(s, pos + 1) {
                Some((atom, end)) => {
                    assert(atoms@ + (seq![atom] + more_lines_at(s@, end as int).0) =~= atoms@.push(
                        atom,
                    ) + more_lines_at(s@, end as int).0);
                    atoms.push(atom);
                    pos = end;
                },
                None => {
                    assert(atoms@ + Seq::<LinesAtom>::empty() =~= atoms@);
                    done = true;
                },
            }
        } else {
            assert(atoms@ + Seq::<LinesAtom>::empty() =~= atoms@);
            done = true;
        }
    }
    if pos == s.len() {
        Some(atoms)
    } else {
        None
    }
}

/// A field atom is not empty, and ends within the text.
pub proof fn lemma_fields_atom_at(s: Seq<char>, pos: int)
    requires
        0 <= pos <= s.len(),
    ensures
        fields_atom_at(s, pos) matches Some((_, end)) ==> pos < end <= s.len(),
{
    lemma_digits_end(s, pos);
    if pos + 2 <= s.len() {
        lemma_digits_end(s, pos + 2);
    }
    let dash = match field_id_at(s, pos) {
        Some((_, end)) => end,
        None => pos,
    };
    if dash < s.len() {
        lemma_digits_end(s, dash + 1);
        if dash + 3 <= s.len() {
            lemma_digits_end(s, dash + 3);
        }
    }
}

/// The field atoms that follow at `pos`, each behind a comma, and the position
/// behind the last of them. A comma that no atom follows is not passed.
pub open spec fn more_fields_at(s: Seq<char>, pos: int) -> (Seq<FieldsAtom>, int)
    decreases s.len() - pos,
    via more_fields_at_decreases
{
    if 0 <= pos < s.len() && s[pos] == ',' {
        match fields_atom_at(s, pos + 1) {
            Some((atom, end)) => {
                let (more, last) = more_fields_at(s, end);
                (seq![atom] + more, last)
            },
            None => (Seq::empty(), pos),
        }
    } else {
        (Seq::empty(), pos)
    }
}

#[via_fn]
proof fn more_fields_at_decreases(s: Seq<char>, pos: int) {
    if 0 <= pos < s.len() {
        lemma_fields_atom_at(s, pos + 1);
    }
}

/// The selection of fields that `s` is, from its first character to its last:
/// field atoms with a comma between each two, or nothing at all.
pub open spec fn fields_of(s: Seq<char>) -> Option<Seq<FieldsAtom>> {
    let (atoms, end) = match fields_atom_at(s, 0) {
        Some((atom, end)) => {
            let (more, last) = more_fields_at(s, end);
            (seq![atom] + more, last)
        },
        None => (Seq::empty(), 0),
    };
    if end == s.len() {
        Some(atoms)
    } else {
        None
    }
}

/// Reads the whole of `s` as a selection of fields.
pub fn fields_list(s: &Vec<char>) -> (r: Option<Vec<FieldsAtom>>)
    ensures
        match r {
            Some(atoms) => fields_of(s@) == Some(atoms@),
            None => fields_of(s@) is None,
        },
{
    let mut atoms: Vec<FieldsAtom> = Vec::new();
    let mut pos: usize = 0;
    let mut done = false;
    match fields_atom(s, 0) {
        Some((atom, end)) => {
            atoms.push(atom);
            pos = end;
            assert(seq![atom] + more_fields_at(s@, end as int).0 =~= atoms@ + more_fields_at(
                s@,
                end as int,
            ).0);
        },
        None => {
            done = true;
            assert(Seq::<FieldsAtom>::empty() =~= atoms@ + Seq::<FieldsAtom>::empty());
        },
    }
    let ghost whole = match fields_atom_at(s@, 0) {
        Some((atom, end)) => {
            let (more, last) = more_fields_at(s@, end);
            (seq![atom] + more, last)
        },
        None => (Seq::empty(), 0),
    };
    while !done
        invariant
            pos <= s.len(),
            !done ==> whole == (atoms@ + more_fields_at(s@, pos as int).0, more_fields_at(
                s@,
                pos as int,
            ).1),
            done ==> whole == (atoms@, pos as int),
        decreases s.len() - pos + if done { 0int } else { 1int },
    {
        if pos < s.len() && s[pos] == ',' {
            match fields_atom(s, pos + 1) {
                Some((atom, end)) => {
                    assert(atoms@ + (seq![atom] + more_fields_at(s@, end as int).0) =~= atoms@.push(
                        atom,
                    ) + more_fields_at(s@, end as int).0);
                    atoms.push(atom);
                    pos = end;
                },
                None => {
                    assert(atoms@ + Seq::<FieldsAtom>::empty() =~= atoms@);
                    done = true;
                },
            }
        } else {
            assert(atoms@ + Seq::<FieldsAtom>::empty() =~= atoms@);
            done = true;
        }
    }
    if pos == s.len() {
        Some(atoms)
    } else {
        None
    }
}

/// Whether `text` stands in `s` at `pos`.
pub open spec fn stands_at(s: Seq<char>, pos: int, text: Seq<char>) -> bool {
    0 <= pos && pos + text.len() <= s.len() && s.subrange(pos, pos + text.len()) == text
}

/// Where a text stands, its parts stand one after the other.
proof fn lemma_stands_at_parts(s: Seq<char>, pos: int, first: Seq<char>, second: Seq<char>)
    requires
        stands_at(s, pos, first + second),
    ensures
        stands_at(s, pos, first),
        stands_at(s, pos + first.len(), second),
{
    let whole = first + second;
    let found = s.subrange(pos, pos + whole.len());
    assert forall|i: int| 0 <= i < first.len() implies #[trigger] s.subrange(
        pos,
        pos + first.len(),
    )[i] == first[i] by {
        assert(found[i] == whole[i]);
    }
    assert(s.subrange(pos, pos + first.len()) =~= first);
    assert forall|i: int| 0 <= i < second.len() implies #[trigger] s.subrange(
        pos + first.len(),
        pos + first.len() + second.len(),
    )[i] == second[i] by {
        assert(found[first.len() + i] == whole[first.len() + i]);
    }
    assert(s.subrange(pos + first.len(), pos + first.len() + second.len()) =~= second);
}

/// Where a character stands, it is there.
proof fn lemma_stands_at_char(s: Seq<char>, pos: int, c: char)
    requires
        stands_at(s, pos, seq![c]),
    ensures
        0 <= pos < s.len(),
        s[pos] == c,
{
    assert(s.subrange(pos, pos + 1)[0] == seq![c][0]);
}

/// A run of digits ends where the first character that is no digit stands.
proof fn lemma_digits_run(s: Seq<char>, pos: int, end: int)
    requires
        0 <= pos <= end <= s.len(),
        forall|i: int| pos <= i < end ==> is_digit(#[trigger] s[i]),
        end < s.len() ==> !is_digit(s[end]),
    ensures
        digits_end(s, pos) == end,
    decreases end - pos,
{
    if pos < end {
        lemma_digits_run(s, pos + 1, end);
    }
}

/// Where the numeral of `n` stands and no digit follows it, `n` is read.
proof fn lemma_number_at_numeral(s: Seq<char>, pos: int, n: usize)
    requires
        stands_at(s, pos, decimal(n as nat)),
        pos + decimal(n as nat).len() < s.len() ==> !is_digit(s[pos + decimal(n as nat).len()]),
    ensures
        number_at(s, pos) == Some((n, pos + decimal(n as nat).len())),
{
    let text = decimal(n as nat);
    let end = pos + text.len();
    law_decimal_round_trip(n as nat);
    assert forall|i: int| pos <= i < end implies is_digit(#[trigger] s[i]) by {
        assert(s.subrange(pos, end)[i - pos] == text[i - pos]);
    }
    lemma_digits_run(s, pos, end);
}

/// Where no digit stands, no number is read.
proof fn lemma_no_number(s: Seq<char>, pos: int)
    requires
        !(0 <= pos < s.len() && is_digit(s[pos])),
    ensures
        number_at(s, pos) is None,
{
}

/// How a bound on line numbers is written: the numeral, or nothing where
/// there is no bound.
pub open spec fn line_bound_text(bound: Option<usize>) -> Seq<char> {
    match bound {
        Some(n) => decimal(n as nat),
        None => Seq::empty(),
    }
}

/// How a line atom is written.
pub open spec fn lines_atom_text(atom: LinesAtom) -> Seq<char> {
    match atom {
        LinesAtom::Single(n) => decimal(n as nat),
        LinesAtom::Range(range) => line_bound_text(range.lower_bound) + seq!['-']
            + line_bound_text(range.upper_bound),
    }
}

/// How a field position is written.
pub open spec fn field_id_text(id: FieldId) -> Seq<char> {
    match id {
        FieldId::Int(n) => decimal(n as nat),
        FieldId::FromLast(n) => seq!['(', '-'] + decimal(n as nat) + seq![')'],
    }
}

/// How a bound on field positions is written: the position, or nothing where
/// there is no bound.
pub open spec fn field_bound_text(bound: Option<FieldId>) -> Seq<char> {
    match bound {
        Some(id) => field_id_text(id),
        None => Seq::empty(),
    }
}

/// How a field atom is written.
pub open spec fn fields_atom_text(atom: FieldsAtom) -> Seq<char> {
    match atom {
        FieldsAtom::Single(id) => field_id_text(id),
        FieldsAtom::Range(range) => field_bound_text(range.lower_bound) + seq!['-']
            + field_bound_text(range.upper_bound),
    }
}

/// Where a line atom is written and the text ends or a comma follows, the atom is read.
proof fn lemma_lines_atom_at_text(s: Seq<char>, pos: int, atom: LinesAtom)
    requires
        stands_at(s, pos, lines_atom_text(atom)),
        pos + lines_atom_text(atom).len() < s.len() ==> s[pos + lines_atom_text(atom).len()]
            == ',',
    ensures
        lines_atom_at(s, pos) == Some((atom, pos + lines_atom_text(atom).len())),
{
    match atom {
        LinesAtom::Single(n) => {
            lemma_number_at_numeral(s, pos, n);
        },
        LinesAtom::Range(range) => {
            let lower = line_bound_text(range.lower_bound);
            let upper = line_bound_text(range.upper_bound);
            let dash = pos + lower.len();
            lemma_stands_at_parts(s, pos, lower + seq!['-'], upper);
            lemma_stands_at_parts(s, pos, lower, seq!['-']);
            lemma_stands_at_char(s, dash, '-');
            match range.lower_bound {
                Some(n) => lemma_number_at_numeral(s, pos, n),
                None => lemma_no_number(s, pos),
            }
            match range.upper_bound {
                Some(n) => lemma_number_at_numeral(s, dash + 1, n),
                None => lemma_no_number(s, dash + 1),
            }
        },
    }
}

/// Where a field position is written and no digit follows it, the position is read.
proof fn lemma_field_id_at_text(s: Seq<char>, pos: int, id: FieldId)
    requires
        stands_at(s, pos, field_id_text(id)),
        pos + field_id_text(id).len() < s.len() ==> !is_digit(s[pos + field_id_text(id).len()]),
    ensures
        field_id_at(s, pos) == Some((id, pos + field_id_text(id).len())),
{
    match id {
        FieldId::Int(n) => {
            lemma_number_at_numeral(s, pos, n);
        },
        FieldId::FromLast(n) => {
            let numeral = decimal(n as nat);
            lemma_stands_at_parts(s, pos, seq!['(', '-'] + numeral, seq![')']);
            lemma_stands_at_parts(s, pos, seq!['(', '-'], numeral);
            assert(seq!['('] + seq!['-'] =~= seq!['(', '-']);
            lemma_stands_at_parts(s, pos, seq!['('], seq!['-']);
            lemma_stands_at_char(s, pos, '(');
            lemma_stands_at_char(s, pos + 1, '-');
            lemma_stands_at_char(s, pos + 2 + numeral.len(), ')');
            lemma_no_number(s, pos);
            lemma_number_at_numeral(s, pos + 2, n);
        },
    }
}

/// Where neither a digit nor an opening bracket stands, no field position is read.
proof fn lemma_no_field_id(s: Seq<char>, pos: int)
    requires
        !(0 <= pos < s.len() && (is_digit(s[pos]) || s[pos] == '(')),
    ensures
        field_id_at(s, pos) is None,
{
}

/// Where a field atom is written and the text ends or a comma follows, the atom is read.
proof fn lemma_fields_atom_at_text(s: Seq<char>, pos: int, atom: FieldsAtom)
    requires
        stands_at(s, pos, fields_atom_text(atom)),
        pos + fields_atom_text(atom).len() < s.len() ==> s[pos + fields_atom_text(atom).len()]
            == ',',
    ensures
        fields_atom_at(s, pos) == Some((atom, pos + fields_atom_text(atom).len())),
{
    match atom {
        FieldsAtom::Single(id) => {
            lemma_field_id_at_text(s, pos, id);
        },
        FieldsAtom::Range(range) => {
            let lower = field_bound_text(range.lower_bound);
            let upper = field_bound_text(range.upper_bound);
            let dash = pos + lower.len();
            lemma_stands_at_parts(s, pos, lower + seq!['-'], upper);
            lemma_stands_at_parts(s, pos, lower, seq!['-']);
            lemma_stands_at_char(s, dash, '-');
            match range.lower_bound {
                Some(id) => lemma_field_id_at_text(s, pos, id),
                None => lemma_no_field_id(s, pos),
            }
            match range.upper_bound {
                Some(id) => lemma_field_id_at_text(s, dash + 1, id),
                None => lemma_no_field_id(s, dash + 1),
            }
        },
    }
}

/// How the atoms behind the first one of a selection of lines are written: each
/// behind a comma.
pub open spec fn more_lines_text(atoms: Seq<LinesAtom>) -> Seq<char>
    decreases atoms.len(),
{
    if atoms.len() == 0 {
        Seq::empty()
    } else {
        seq![','] + lines_atom_text(atoms[0]) + more_lines_text(atoms.drop_first())
    }
}

/// How a selection of lines is written: its atoms with a comma between each
/// two, and nothing for the selection without atoms.
pub open spec fn lines_text(atoms: Seq<LinesAtom>) -> Seq<char> {
    if atoms.len() == 0 {
        Seq::empty()
    } else {
        lines_atom_text(atoms[0]) + more_lines_text(atoms.drop_first())
    }
}

/// Where atoms are written to the end of the text, each behind a comma, they are read.
proof fn lemma_more_lines_at_text(s: Seq<char>, pos: int, atoms: Seq<LinesAtom>)
    requires
        stands_at(s, pos, more_lines_text(atoms)),
        pos + more_lines_text(atoms).len() == s.len(),
    ensures
        more_lines_at(s, pos) == (atoms, s.len() as int),
    decreases atoms.len(),
{
    if atoms.len() == 0 {
        assert(atoms =~= Seq::<LinesAtom>::empty());
    } else {
        let first = lines_atom_text(atoms[0]);
        let rest = more_lines_text(atoms.drop_first());
        let end = pos + 1 + first.len();
        lemma_stands_at_parts(s, pos, seq![','] + first, rest);
        lemma_stands_at_parts(s, pos, seq![','], first);
        lemma_stands_at_char(s, pos, ',');
        lemma_follows_lines_atom(s, end, atoms.drop_first());
        lemma_lines_atom_at_text(s, pos + 1, atoms[0]);
        lemma_more_lines_at_text(s, end, atoms.drop_first());
        assert(seq![atoms[0]] + atoms.drop_first() =~= atoms);
    }
}

/// Behind an atom the text ends, or the comma of the next atom stands.
proof fn lemma_follows_lines_atom(s: Seq<char>, pos: int, atoms: Seq<LinesAtom>)
    requires
        stands_at(s, pos, more_lines_text(atoms)),
        pos + more_lines_text(atoms).len() == s.len(),
    ensures
        pos < s.len() ==> s[pos] == ',',
{
    if atoms.len() > 0 {
        let first = lines_atom_text(atoms[0]);
        let rest = more_lines_text(atoms.drop_first());
        lemma_stands_at_parts(s, pos, seq![','] + first, rest);
        lemma_stands_at_parts(s, pos, seq![','], first);
        lemma_stands_at_char(s, pos, ',');
    }
}

/// Every selection of lines can be written, and is read back from what was
/// written.
pub proof fn law_lines_of_text(atoms: Seq<LinesAtom>)
    ensures
        lines_of(lines_text(atoms)) == Some(atoms),
{
    let s = lines_text(atoms);
    if atoms.len() == 0 {
        assert(atoms =~= Seq::<LinesAtom>::empty());
    } else {
        let first = lines_atom_text(atoms[0]);
        let rest = more_lines_text(atoms.drop_first());
        assert(s.subrange(0, s.len() as int) =~= s);
        lemma_stands_at_parts(s, 0, first, rest);
        lemma_follows_lines_atom(s, first.len() as int, atoms.drop_first());
        lemma_lines_atom_at_text(s, 0, atoms[0]);
        lemma_more_lines_at_text(s, first.len() as int, atoms.drop_first());
        assert(seq![atoms[0]] + atoms.drop_first() =~= atoms);
    }
}

/// How the atoms behind the first one of a selection of fields are written: each
/// behind a comma.
pub open spec fn more_fields_text(atoms: Seq<FieldsAtom>) -> Seq<char>
    decreases atoms.len(),
{
    if atoms.len() == 0 {
        Seq::empty()
    } else {
        seq![','] + fields_atom_text(atoms[0]) + more_fields_text(atoms.drop_first())
    }
}

/// How a selection of fields is written: its atoms with a comma between each
/// two, and nothing for the selection without atoms.
pub open spec fn fields_text(atoms: Seq<FieldsAtom>) -> Seq<char> {
    if atoms.len() == 0 {
        Seq::empty()
    } else {
        fields_atom_text(atoms[0]) + more_fields_text(atoms.drop_first())
    }
}

/// Where atoms are written to the end of the text, each behind a comma, they are read.
proof fn lemma_more_fields_at_text(s: Seq<char>, pos: int, atoms: Seq<FieldsAtom>)
    requires
        stands_at(s, pos, more_fields_text(atoms)),
        pos + more_fields_text(atoms).len() == s.len(),
    ensures
        more_fields_at(s, pos) == (atoms, s.len() as int),
    decreases atoms.len(),
{
    if atoms.len() == 0 {
        assert(atoms =~= Seq::<FieldsAtom>::empty());
    } else {
        let first = fields_atom_text(atoms[0]);
        let rest = more_fields_text(atoms.drop_first());
        let end = pos + 1 + first.len();
        lemma_stands_at_parts(s, pos, seq![','] + first, rest);
        lemma_stands_at_parts(s, pos, seq![','], first);
        lemma_stands_at_char(s, pos, ',');
        lemma_follows_fields_atom(s, end, atoms.drop_first());
        lemma_fields_atom_at_text(s, pos + 1, atoms[0]);
        lemma_more_fields_at_text(s, end, atoms.drop_first());
        assert(seq![atoms[0]] + atoms.drop_first() =~= atoms);
    }
}

/// Behind an atom the text ends, or the comma of the next atom stands.
proof fn lemma_follows_fields_atom(s: Seq<char>, pos: int, atoms: Seq<FieldsAtom>)
    requires
        stands_at(s, pos, more_fields_text(atoms)),
        pos + more_fields_text(atoms).len() == s.len(),
    ensures
        pos < s.len() ==> s[pos] == ',',
{
    if atoms.len() > 0 {
        let first = fields_atom_text(atoms[0]);
        let rest = more_fields_text(atoms.drop_first());
        lemma_stands_at_parts(s, pos, seq![','] + first, rest);
        lemma_stands_at_parts(s, pos, seq![','], first);
        lemma_stands_at_char(s, pos, ',');
    }
}

/// Every selection of fields can be written, and is read back from what was
/// written.
pub proof fn law_fields_of_text(atoms: Seq<FieldsAtom>)
    ensures
        fields_of(fields_text(atoms)) == Some(atoms),
{
    let s = fields_text(atoms);
    if atoms.len() == 0 {
        assert(atoms =~= Seq::<FieldsAtom>::empty());
    } else {
        let first = fields_atom_text(atoms[0]);
        let rest = more_fields_text(atoms.drop_first());
        assert(s.subrange(0, s.len() as int) =~= s);
        lemma_stands_at_parts(s, 0, first, rest);
        lemma_follows_fields_atom(s, first.len() as int, atoms.drop_first());
        lemma_fields_atom_at_text(s, 0, atoms[0]);
        lemma_more_fields_at_text(s, first.len() as int, atoms.drop_first());
        assert(seq![atoms[0]] + atoms.drop_first() =~= atoms);
    }
}

} // verus!
