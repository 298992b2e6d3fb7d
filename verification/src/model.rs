//! What the units of a pipeline do, and what a pipeline does with a line, said
//! over sequences of characters; and the laws that follow.

use crate::pattern::{regex_is_match, regex_replace, regex_replace_all};
use crate::range::{FieldsAtom, LinesAtom};
use crate::text::{decimal, fields, join};
use regex::Regex;
use vstd::prelude::*;

verus! {

/// What a unit hands back for one line.
pub enum Outcome {
    /// The line goes on to the next unit.
    Resume(Seq<char>),
    /// The line goes on, and every later unit starts afresh before it sees it.
    ResetAndResume(Seq<char>),
    /// No later unit takes the line: it is emitted as it is, or dropped.
    Return(Option<Seq<char>>),
}

impl Outcome {
    /// The line that leaves the pipeline, if one does.
    pub open spec fn as_opt(self) -> Option<Seq<char>> {
        match self {
            Outcome::Resume(s) => Some(s),
            Outcome::ResetAndResume(s) => Some(s),
            Outcome::Return(opt) => opt,
        }
    }

    /// Whether the outcome asks the later units to start afresh.
    pub open spec fn restarts(self) -> bool {
        self is ResetAndResume
    }
}

/// Whether position `n` of a line of `last` fields is selected by one of `atoms`.
pub open spec fn any_field(atoms: Seq<FieldsAtom>, n: nat, last: nat) -> bool {
    exists|i: int| 0 <= i < atoms.len() && (#[trigger] atoms[i]).spec_contains(n, last)
}

/// Whether line number `l` is selected by one of `atoms`.
pub open spec fn any_line(atoms: Seq<LinesAtom>, l: nat) -> bool {
    exists|i: int| 0 <= i < atoms.len() && (#[trigger] atoms[i]).spec_contains(l)
}

/// Of the first `k` of `words`, those whose position is selected by one of
/// `atoms`, in their order. Positions count from 1, and positions from the end
/// are taken in the whole of `words`.
pub open spec fn selected(words: Seq<Seq<char>>, atoms: Seq<FieldsAtom>, k: nat) -> Seq<Seq<char>>
    decreases k,
{
    if k == 0 {
        Seq::empty()
    } else if any_field(atoms, k, words.len()) {
        selected(words, atoms, (k - 1) as nat).push(words[k - 1])
    } else {
        selected(words, atoms, (k - 1) as nat)
    }
}

/// Whether a range unit is inside a block after `line`. Between two blocks, a
/// line that matches `start` opens one. Inside a block, a line that matches
/// `end` is its last.
pub open spec fn block_after(start: Regex, end: Regex, inside: bool, line: Seq<char>) -> bool {
    if inside {
        !regex_is_match(end, line)
    } else {
        regex_is_match(start, line)
    }
}

/// A pipeline unit: what it was made with, and what it remembers from one
/// line to the next.
#[allow(inconsistent_fields)]
pub enum Unit {
    /// Numbers the lines; `count` lines were numbered since the last start.
    Enumeration { count: nat },
    /// Keeps the lines that match.
    Filter { regex: Regex },
    /// Keeps the lines whose number is selected; `count` lines were seen since
    /// the last start.
    Lines { atoms: Seq<LinesAtom>, count: nat },
    /// Keeps the blocks from a line that matches `start` to the next one that
    /// matches `end`.
    FilterRange { start: Regex, end: Regex, inside: bool },
    /// Keeps the selected fields of each line.
    Fields { atoms: Seq<FieldsAtom> },
    /// Replaces every match.
    Gsub { regex: Regex, replacement: Seq<char> },
    /// Lets the later units work on the lines that match only.
    Match { regex: Regex },
    /// Lets the later units work on the blocks only.
    MatchRange { start: Regex, end: Regex, inside: bool },
    /// Replaces the first match.
    Sub { regex: Regex, replacement: Seq<char> },
}

impl Unit {
    /// Whether the unit can take one more line: a counter that stands at the
    /// largest number of its type cannot.
    pub open spec fn ready(self) -> bool {
        match self {
            Unit::Enumeration { count } => count < u32::MAX,
            Unit::Lines { count, .. } => count < usize::MAX,
            _ => true,
        }
    }

    /// The unit as it was when it was made: counters at 0, outside any block.
    pub open spec fn reset(self) -> Unit {
        match self {
            Unit::Enumeration { .. } => Unit::Enumeration { count: 0 },
            Unit::Lines { atoms, .. } => Unit::Lines { atoms, count: 0 },
            Unit::FilterRange { start, end, .. } => Unit::FilterRange { start, end, inside: false },
            Unit::MatchRange { start, end, .. } => Unit::MatchRange { start, end, inside: false },
            _ => self,
        }
    }

    /// The unit after it has seen `line`.
    pub open spec fn after(self, line: Seq<char>) -> Unit {
        match self {
            Unit::Enumeration { count } => Unit::Enumeration { count: count + 1 },
            Unit::Lines { atoms, count } => Unit::Lines { atoms, count: count + 1 },
            Unit::FilterRange { start, end, inside } => Unit::FilterRange {
                start,
                end,
                inside: block_after(start, end, inside, line),
            },
            Unit::MatchRange { start, end, inside } => Unit::MatchRange {
                start,
                end,
                inside: block_after(start, end, inside, line),
            },
            _ => self,
        }
    }

    /// What the unit hands back for `line`.
    pub open spec fn output(self, line: Seq<char>) -> Outcome {
        match self {
            Unit::Enumeration { count } => Outcome::Resume(decimal(count + 1) + seq![' '] + line),
            Unit::Filter { regex } => if regex_is_match(regex, line) {
                Outcome::Resume(line)
            } else {
                Outcome::Return(None)
            },
            Unit::Lines { atoms, count } => if any_line(atoms, count + 1) {
                Outcome::Resume(line)
            } else {
                Outcome::Return(None)
            },
            Unit::FilterRange { start, end, inside } => if inside {
                Outcome::Resume(line)
            } else if regex_is_match(start, line) {
                Outcome::ResetAndResume(line)
            } else {
                Outcome::Return(None)
            },
            Unit::Fields { atoms } => Outcome::Resume(
                join(selected(fields(line), atoms, fields(line).len())),
            ),
            Unit::Gsub { regex, replacement } => Outcome::Resume(
                regex_replace_all(regex, line, replacement),
            ),
            Unit::Match { regex } => if regex_is_match(regex, line) {
                Outcome::Resume(line)
            } else {
                Outcome::Return(Some(line))
            },
            Unit::MatchRange { start, end, inside } => if inside {
                Outcome::Resume(line)
            } else if regex_is_match(start, line) {
                Outcome::ResetAndResume(line)
            } else {
                Outcome::Return(Some(line))
            },
            Unit::Sub { regex, replacement } => Outcome::Resume(
                regex_replace(regex, line, replacement),
            ),
        }
    }

    /// The unit after it has seen each of `lines`, from the first to the last.
    pub open spec fn after_all(self, lines: Seq<Seq<char>>) -> Unit
        decreases lines.len(),
    {
        if lines.len() == 0 {
            self
        } else {
            self.after_all(lines.drop_last()).after(lines.last())
        }
    }
}

/// Whether every unit can take one more line.
pub open spec fn all_ready(units: Seq<Unit>) -> bool {
    forall|i: int| 0 <= i < units.len() ==> (#[trigger] units[i]).ready()
}

/// Where a line stands on its way through a pipeline.
pub struct Passage {
    /// The units, as the line has left them so far.
    pub units: Seq<Unit>,
    /// Whether a unit on the way has asked that the later ones start afresh.
    pub reset: bool,
    /// What the last unit on the way handed back.
    pub out: Outcome,
}

impl Passage {
    /// A line before the first unit: it goes on, and nothing is pending.
    pub open spec fn start(units: Seq<Unit>, line: Seq<char>) -> Passage {
        Passage { units, reset: false, out: Outcome::Resume(line) }
    }

    /// Unit `i` as it takes its turn: started afresh, if a unit on the way has
    /// asked for it, the one just before it or an earlier one.
    pub open spec fn entering(self, i: int) -> Unit {
        if self.reset || self.out.restarts() {
            self.units[i].reset()
        } else {
            self.units[i]
        }
    }

    /// The passage after unit `i` has had its turn. The unit takes the line
    /// that the unit before it handed on; where an earlier unit has returned,
    /// it takes none, and what that unit returned stands.
    pub open spec fn turn(self, i: int) -> Passage {
        let unit = self.entering(i);
        match self.out {
            Outcome::Resume(line) | Outcome::ResetAndResume(line) => Passage {
                units: self.units.update(i, unit.after(line)),
                reset: self.reset || self.out.restarts(),
                out: unit.output(line),
            },
            Outcome::Return(_) => Passage { units: self.units.update(i, unit), ..self },
        }
    }
}

/// The passage of `line` after the first `k` of `units` have had their turn,
/// one after the other.
pub open spec fn passage(units: Seq<Unit>, line: Seq<char>, k: nat) -> Passage
    decreases k,
{
    if k == 0 {
        Passage::start(units, line)
    } else {
        passage(units, line, (k - 1) as nat).turn(k - 1)
    }
}

/// The passage of `line` through all of `units`.
pub open spec fn through(units: Seq<Unit>, line: Seq<char>) -> Passage {
    passage(units, line, units.len())
}

/// To start afresh twice is to start afresh once, and a unit that has started
/// afresh can take a line.
pub proof fn law_reset_once(unit: Unit)
    ensures
        unit.reset().reset() == unit.reset(),
        unit.reset().ready(),
{
}

/// A filter and a match with the same pattern tell the same lines apart, and
/// neither remembers anything. The line that matches goes on unchanged from
/// both. The line that does not is dropped by the filter, and emitted as it is
/// by the match.
pub proof fn law_filter_and_match(regex: Regex, line: Seq<char>)
    ensures
        (Unit::Filter { regex }).after(line) == (Unit::Filter { regex }),
        (Unit::Match { regex }).after(line) == (Unit::Match { regex }),
        (Unit::Match { regex }).output(line) == Outcome::Resume(line) || (Unit::Match {
            regex,
        }).output(line) == Outcome::Return(Some(line)),
        (Unit::Filter { regex }).output(line) == if (Unit::Match { regex }).output(line)
            is Resume {
            Outcome::Resume(line)
        } else {
            Outcome::Return(None)
        },
{
}

/// An enumeration that has started afresh, whatever it had counted before,
/// and has then seen some lines, has counted them, and writes the next number
/// before the line that follows.
pub proof fn law_enumeration_numbers_lines(count: nat, lines: Seq<Seq<char>>, next: Seq<char>)
    ensures
        (Unit::Enumeration { count }).reset().after_all(lines) == (Unit::Enumeration {
            count: lines.len(),
        }),
        (Unit::Enumeration { count }).reset().after_all(lines).output(next) == Outcome::Resume(
            decimal(lines.len() + 1) + seq![' '] + next,
        ),
    decreases lines.len(),
{
    if lines.len() > 0 {
        law_enumeration_numbers_lines(count, lines.drop_last(), lines.last());
    }
}

/// A selection of lines that has started afresh, whatever it had counted
/// before, and has then seen some lines, has counted them, and keeps the line
/// that follows exactly if its number is selected.
pub proof fn law_lines_counts_lines(
    atoms: Seq<LinesAtom>,
    count: nat,
    lines: Seq<Seq<char>>,
    next: Seq<char>,
)
    ensures
        (Unit::Lines { atoms, count }).reset().after_all(lines) == (Unit::Lines {
            atoms,
            count: lines.len(),
        }),
        (Unit::Lines { atoms, count }).reset().after_all(lines).output(next) == if any_line(
            atoms,
            lines.len() + 1,
        ) {
            Outcome::Resume(next)
        } else {
            Outcome::Return(None)
        },
    decreases lines.len(),
{
    if lines.len() > 0 {
        law_lines_counts_lines(atoms, count, lines.drop_last(), lines.last());
    }
}

/// A passage keeps the number of units, and leaves each unit alone until its turn.
pub proof fn law_later_units_wait(units: Seq<Unit>, line: Seq<char>, k: nat)
    requires
        k <= units.len(),
    ensures
        passage(units, line, k).units.len() == units.len(),
        forall|i: int| k <= i < units.len() ==> passage(units, line, k).units[i] == units[i],
    decreases k,
{
    if k > 0 {
        law_later_units_wait(units, line, (k - 1) as nat);
    }
}

/// A unit changes at its own turn and at no other: what it is after its turn,
/// it is at the end of the passage.
pub proof fn law_earlier_units_rest(units: Seq<Unit>, line: Seq<char>, i: int, k: nat)
    requires
        0 <= i < k <= units.len(),
    ensures
        passage(units, line, k).units[i] == passage(units, line, (i + 1) as nat).units[i],
    decreases k,
{
    if k > i + 1 {
        law_earlier_units_rest(units, line, i, (k - 1) as nat);
        law_later_units_wait(units, line, (k - 1) as nat);
    }
}

/// Once a unit has returned, what it returned stands to the end: no later unit
/// takes the line. A later unit stays as it was, or starts afresh where that
/// was pending.
pub proof fn law_return_is_final(units: Seq<Unit>, line: Seq<char>, k: nat, j: nat)
    requires
        k <= j <= units.len(),
        passage(units, line, k).out is Return,
    ensures
        passage(units, line, j).out == passage(units, line, k).out,
        passage(units, line, j).reset == passage(units, line, k).reset,
        forall|i: int|
            k <= i < j ==> passage(units, line, j).units[i] == if passage(units, line, k).reset {
                (#[trigger] units[i]).reset()
            } else {
                units[i]
            },
    decreases j,
{
    if j > k {
        law_return_is_final(units, line, k, (j - 1) as nat);
        law_later_units_wait(units, line, (j - 1) as nat);
    }
}

/// Once a unit has asked for it, every later unit starts afresh at its turn,
/// whether it then takes the line or not.
pub proof fn law_restart_reaches_later_units(units: Seq<Unit>, line: Seq<char>, k: nat, i: nat)
    requires
        k <= i < units.len(),
        passage(units, line, k).out.restarts(),
    ensures
        passage(units, line, i).entering(i as int) == units[i as int].reset(),
    decreases i,
{
    law_later_units_wait(units, line, i);
    if i > k {
        lemma_restart_stays_pending(units, line, k, i);
    }
}

proof fn lemma_restart_stays_pending(units: Seq<Unit>, line: Seq<char>, k: nat, j: nat)
    requires
        k < j <= units.len(),
        passage(units, line, k).out.restarts(),
    ensures
        passage(units, line, j).reset,
    decreases j,
{
    if j > k + 1 {
        lemma_restart_stays_pending(units, line, k, (j - 1) as nat);
    }
}

/// Whether `unit` is a range unit between two blocks whose `start` matches `line`.
pub open spec fn opens_block(unit: Unit, line: Seq<char>) -> bool {
    match unit {
        Unit::FilterRange { start, inside, .. } => !inside && regex_is_match(start, line),
        Unit::MatchRange { start, inside, .. } => !inside && regex_is_match(start, line),
        _ => false,
    }
}

/// The unit that opens a block asks the later units to start afresh, and is
/// not among them: it is inside its block when the passage ends.
pub proof fn law_block_opener_stays_inside(units: Seq<Unit>, line: Seq<char>, i: nat)
    requires
        i < units.len(),
        passage(units, line, i).out.as_opt() is Some,
        !(passage(units, line, i).out is Return),
        opens_block(
            passage(units, line, i).entering(i as int),
            passage(units, line, i).out.as_opt()->0,
        ),
    ensures
        passage(units, line, i + 1).out == Outcome::ResetAndResume(
            passage(units, line, i).out.as_opt()->0,
        ),
        through(units, line).units[i as int] == passage(units, line, i).entering(i as int).after(
            passage(units, line, i).out.as_opt()->0,
        ),
        match through(units, line).units[i as int] {
            Unit::FilterRange { inside, .. } => inside,
            Unit::MatchRange { inside, .. } => inside,
            _ => false,
        },
{
    law_later_units_wait(units, line, i);
    law_earlier_units_rest(units, line, i as int, units.len());
}

/// Two pipelines that differ in their first unit only, and whose first units
/// hand back the same for a line, hand the line through in the same way: the
/// same comes out, and the later units are left the same.
pub proof fn law_first_unit_by_its_outcome(
    first: Unit,
    other: Unit,
    rest: Seq<Unit>,
    line: Seq<char>,
    k: nat,
)
    requires
        1 <= k <= rest.len() + 1,
        first.output(line) == other.output(line),
    ensures
        passage(seq![first] + rest, line, k).out == passage(seq![other] + rest, line, k).out,
        passage(seq![first] + rest, line, k).reset == passage(seq![other] + rest, line, k).reset,
        passage(seq![first] + rest, line, k).units.skip(1) == passage(
            seq![other] + rest,
            line,
            k,
        ).units.skip(1),
    decreases k,
{
    let a = seq![first] + rest;
    let b = seq![other] + rest;
    law_later_units_wait(a, line, (k - 1) as nat);
    law_later_units_wait(b, line, (k - 1) as nat);
    law_later_units_wait(a, line, k);
    law_later_units_wait(b, line, k);
    if k == 1 {
        assert(a.skip(1) =~= rest);
        assert(b.skip(1) =~= rest);
        assert(passage(a, line, 1).units.skip(1) =~= rest);
        assert(passage(b, line, 1).units.skip(1) =~= rest);
    } else {
        law_first_unit_by_its_outcome(first, other, rest, line, (k - 1) as nat);
        let pa = passage(a, line, (k - 1) as nat);
        let pb = passage(b, line, (k - 1) as nat);
        assert(pa.units[k - 1] == pa.units.skip(1)[k - 2]);
        assert(pb.units[k - 1] == pb.units.skip(1)[k - 2]);
        assert(pa.turn(k - 1).units.skip(1) =~= pb.turn(k - 1).units.skip(1)) by {
            assert forall|j: int| 0 <= j < rest.len() implies #[trigger] pa.turn(k - 1).units.skip(
                1,
            )[j] == pb.turn(k - 1).units.skip(1)[j] by {
                assert(pa.units[j + 1] == pa.units.skip(1)[j]);
                assert(pb.units[j + 1] == pb.units.skip(1)[j]);
            }
        }
    }
}

/// In a pipeline, a filter is a match that drops what it does not let
/// through. Where the pattern matches the line, the two pipelines do the
/// same. Where it does not, no later unit takes the line or changes; the
/// filter's pipeline emits nothing, and the match's emits the line as it came.
pub proof fn law_filter_is_match_that_drops(regex: Regex, rest: Seq<Unit>, line: Seq<char>)
    ensures
        ({
            let filtered = through(seq![Unit::Filter { regex }] + rest, line);
            let matched = through(seq![Unit::Match { regex }] + rest, line);
            if regex_is_match(regex, line) {
                &&& filtered.out == matched.out
                &&& filtered.units.skip(1) == matched.units.skip(1)
            } else {
                &&& filtered.out.as_opt() == None::<Seq<char>>
                &&& matched.out.as_opt() == Some(line)
                &&& filtered.units.skip(1) == rest
                &&& matched.units.skip(1) == rest
            }
        }),
{
    let filter = Unit::Filter { regex };
    let matching = Unit::Match { regex };
    let a = seq![filter] + rest;
    let b = seq![matching] + rest;
    let n = a.len();
    if regex_is_match(regex, line) {
        law_first_unit_by_its_outcome(filter, matching, rest, line, n);
    } else {
        assert(passage(a, line, 0) == Passage::start(a, line));
        assert(passage(b, line, 0) == Passage::start(b, line));
        assert(passage(a, line, 1).out == Outcome::Return(None::<Seq<char>>));
        assert(passage(b, line, 1).out == Outcome::Return(Some(line)));
        law_return_is_final(a, line, 1, n);
        law_return_is_final(b, line, 1, n);
        law_later_units_wait(a, line, n);
        law_later_units_wait(b, line, n);
        assert(through(a, line).units.skip(1) =~= rest) by {
            assert forall|j: int| 0 <= j < rest.len() implies #[trigger] through(
                a,
                line,
            ).units.skip(1)[j] == rest[j] by {
                assert(a[j + 1] == rest[j]);
            }
        }
        assert(through(b, line).units.skip(1) =~= rest) by {
            assert forall|j: int| 0 <= j < rest.len() implies #[trigger] through(
                b,
                line,
            ).units.skip(1)[j] == rest[j] by {
                assert(b[j + 1] == rest[j]);
            }
        }
    }
}

} // verus!
