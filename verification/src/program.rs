//! The units of a pipeline, and the engine that sends a line through them.

use crate::model::{all_ready, any_field, any_line, passage, selected, through, Outcome, Unit};
use crate::pattern::{replace_every, replace_first};
use crate::range::{FieldsAtom, LinesAtom};
use crate::text::{decimal, decimal_string, fields, join, split_fields, views};
use regex::Regex;
use vstd::prelude::*;
use vstd::string::StringExecFns;

verus! {

/// What a unit hands back to the engine for one line.
#[derive(Debug, PartialEq)]
pub enum Output {
    /// The line goes on to the next unit.
    Resume(String),
    /// The line goes on, and every later unit starts afresh before it sees it.
    ResetAndResume(String),
    /// No later unit takes the line: it is emitted as it is, or dropped.
    Return(Option<String>),
}

impl View for Output {
    type V = Outcome;

    open spec fn view(&self) -> Outcome {
        match self {
            Output::Resume(s) => Outcome::Resume(s@),
            Output::ResetAndResume(s) => Outcome::ResetAndResume(s@),
            Output::Return(opt) => Outcome::Return(opt.deep_view()),
        }
    }
}

impl Output {
    /// The line that leaves the pipeline, if one does.
    pub fn as_opt(self) -> (r: Option<String>)
        ensures
            r.deep_view() == self@.as_opt(),
    {
        match self {
            Output::Resume(s) => Some(s),
            Output::ResetAndResume(s) => Some(s),
            Output::Return(opt) => opt,
        }
    }
}

/// What every unit of a pipeline can do: take a line, and start afresh.
pub trait ProgramAtom: View<V = Unit> + Sized {
    /// Takes one line.
    fn run(&mut self, arg: String) -> (out: Output)
        requires
            old(self)@.ready(),
        ensures
            out@ == old(self)@.output(arg@),
            final(self)@ == old(self)@.after(arg@),
    ;

    /// Forgets what the unit remembers of the lines it has seen.
    fn reset(&mut self)
        ensures
            final(self)@ == old(self)@.reset(),
    ;

    /// Whether the unit can take one more line.
    fn ready(&self) -> (r: bool)
        ensures
            r == self@.ready(),
    ;
}

/// Passes the lines that match on, and emits the others as they are.
#[derive(Debug)]
pub struct Match {
    regex: Regex,
}

impl View for Match {
    type V = Unit;

    closed spec fn view(&self) -> Unit {
        Unit::Match { regex: self.regex }
    }
}

impl Match {
    /// A unit that lets the lines matching `regex` go on.
    pub fn new(regex: Regex) -> (r: Match)
        ensures
            r@ == (Unit::Match { regex }),
    {
        Match { regex }
    }

    /// What becomes of a line, told whether the pattern matches it: a line
    /// that matches goes on, and any other is emitted as it is.
    pub fn pass(matched: bool, arg: String) -> (out: Output)
        ensures
            out@ == if matched {
                Outcome::Resume(arg@)
            } else {
                Outcome::Return(Some(arg@))
            },
    {
        if matched {
            Output::Resume(arg)
        } else {
            Output::Return(Some(arg))
        }
    }
}

impl ProgramAtom for Match {
    fn run(&mut self, arg: String) -> (out: Output) {
        let matched = self.regex.is_match(arg.as_str());
        Match::pass(matched, arg)
    }

    fn reset(&mut self) {
    }

    fn ready(&self) -> (r: bool) {
        true
    }
}

/// Keeps the fields of each line whose position is selected.
#[derive(Debug, PartialEq)]
pub struct Fields(Vec<FieldsAtom>);

impl View for Fields {
    type V = Unit;

    open spec fn view(&self) -> Unit {
        Unit::Fields { atoms: self.atoms() }
    }
}

impl Fields {
    /// The selection that the unit was made with.
    pub closed spec fn atoms(&self) -> Seq<FieldsAtom> {
        self.0@
    }

    /// Whether position `n` of a line of `last` fields is selected.
    pub fn contains(&self, n: usize, last: usize) -> (r: bool)
        requires
            last < usize::MAX,
        ensures
            r == any_field(self.atoms(), n as nat, last as nat),
    {
        let mut i: usize = 0;
        while i < self.0.len()
            invariant
                i <= self.0.len(),
                last < usize::MAX,
                forall|j: int| 0 <= j < i ==> !(#[trigger] self.0@[j]).spec_contains(
                    n as nat,
                    last as nat,
                ),
            decreases self.0.len() - i,
        {
            if self.0[i].contains(n, last) {
                return true;
            }
            i += 1;
        }
        false
    }

    /// A unit that keeps the fields that `source` selects.
    pub fn new(source: Vec<FieldsAtom>) -> (r: Fields)
        ensures
            r.atoms() == source@,
    {
        Fields(source)
    }
}

impl ProgramAtom for Fields {
    fn run(&mut self, arg: String) -> (out: Output) {
        let words = split_fields(arg.as_str());
        let len = words.len();
        let mut kept = String::new();
        let mut first = true;
        let mut i: usize = 0;
        while i < len
            invariant
                i <= len == words.len(),
                len < usize::MAX,
                views(words@) == fields(arg@),
                kept@ == join(selected(fields(arg@), self.atoms(), i as nat)),
                first == (selected(fields(arg@), self.atoms(), i as nat).len() == 0),
            decreases len - i,
        {
            let ghost before = selected(fields(arg@), self.atoms(), i as nat);
            if self.contains(i + 1, len) {
                if !first {
                    kept.push(' ');
                }
                kept.append(words[i].as_str());
                first = false;
                proof {
                    let now = before.push(words[i as int]@);
                    assert(fields(arg@)[i as int] == words[i as int]@);
                    assert(now.drop_last() =~= before);
                }
            }
            i += 1;
        }
        Output::Resume(kept)
    }

    fn reset(&mut self) {
    }

    fn ready(&self) -> (r: bool) {
        true
    }
}

/// Keeps the lines whose number is selected, counting from 1.
#[derive(Debug)]
pub struct Lines {
    lines: Vec<LinesAtom>,
    current_line: usize,
}

impl View for Lines {
    type V = Unit;

    closed spec fn view(&self) -> Unit {
        Unit::Lines { atoms: self.lines@, count: self.current_line as nat }
    }
}

impl Lines {
    /// A unit that keeps the lines that `lines` selects; it has seen none yet.
    pub fn new(lines: Vec<LinesAtom>) -> (r: Self)
        ensures
            r@ == (Unit::Lines { atoms: lines@, count: 0 }),
    {
        Lines { lines, current_line: 0 }
    }

    /// Whether one of the atoms selects the line that was counted last.
    fn selects_current(&self) -> (r: bool)
        ensures
            r == any_line(self.lines@, self.current_line as nat),
    {
        let mut i: usize = 0;
        while i < self.lines.len()
            invariant
                i <= self.lines.len(),
                forall|j: int| 0 <= j < i ==> !(#[trigger] self.lines@[j]).spec_contains(
                    self.current_line as nat,
                ),
            decreases self.lines.len() - i,
        {
            if self.lines[i].contains(self.current_line) {
                return true;
            }
            i += 1;
        }
        false
    }
}

impl ProgramAtom for Lines {
    fn reset(&mut self) {
        self.current_line = 0
    }

    fn ready(&self) -> (r: bool) {
        self.current_line < usize::MAX
    }

    fn run(&mut self, arg: String) -> (out: Output) {
        self.current_line += 1;
        if self.selects_current() {
            Output::Resume(arg)
        } else {
            Output::Return(None)
        }
    }
}

/// Keeps the lines that match, and drops the others.
#[derive(Debug)]
pub struct Filter {
    regex: Regex,
}

impl View for Filter {
    type V = Unit;

    closed spec fn view(&self) -> Unit {
        Unit::Filter { regex: self.regex }
    }
}

impl Filter {
    /// A unit that keeps the lines matching `regex`.
    pub fn new(regex: Regex) -> (r: Filter)
        ensures
            r@ == (Unit::Filter { regex }),
    {
        Filter { regex }
    }

    /// What becomes of a line, told whether the pattern matches it: a line
    /// that matches goes on, and any other is dropped.
    pub fn keep(matched: bool, arg: String) -> (out: Output)
        ensures
            out@ == if matched {
                Outcome::Resume(arg@)
            } else {
                Outcome::Return(None)
            },
    {
        if matched {
            Output::Resume(arg)
        } else {
            Output::Return(None)
        }
    }
}

impl ProgramAtom for Filter {
    fn run(&mut self, arg: String) -> (out: Output) {
        let matched = self.regex.is_match(arg.as_str());
        Filter::keep(matched, arg)
    }

    fn reset(&mut self) {
    }

    fn ready(&self) -> (r: bool) {
        true
    }
}

/// Where a range unit stands: in a block, or between two.
#[derive(Debug)]
enum BlockState {
    Inside,
    Outside,
}

/// Keeps the blocks of lines from one that matches `start` to the next that
/// matches `end`, both included, and drops the lines between the blocks.
#[derive(Debug)]
pub struct FilterRange {
    start: Regex,
    end: Regex,
    state: BlockState,
}

impl View for FilterRange {
    type V = Unit;

    closed spec fn view(&self) -> Unit {
        Unit::FilterRange { start: self.start, end: self.end, inside: self.state is Inside }
    }
}

impl FilterRange {
    /// A unit that keeps the blocks from `start` to `end`; it is outside any block.
    pub fn new(start: Regex, end: Regex) -> (r: FilterRange)
        ensures
            r@ == (Unit::FilterRange { start, end, inside: false }),
    {
        FilterRange { start, end, state: BlockState::Outside }
    }

    /// Takes a line, told whether it matches the pattern that the unit is
    /// looking out for: `start` between two blocks, `end` within one. Between
    /// blocks, a line that matches opens a block and asks the later units to
    /// start afresh, and any other is dropped. Within a block every line goes
    /// on, and one that matches is the block's last.
    pub fn advance(&mut self, matched: bool, arg: String) -> (out: Output)
        ensures
            old(self)@ matches Unit::FilterRange { start, end, inside } && {
                &&& final(self)@ == (Unit::FilterRange { start, end, inside: inside != matched })
                &&& out@ == if inside {
                    Outcome::Resume(arg@)
                } else if matched {
                    Outcome::ResetAndResume(arg@)
                } else {
                    Outcome::Return(None)
                }
            },
    {
        match self.state {
            BlockState::Outside => {
                if matched {
                    self.state = BlockState::Inside;
                    Output::ResetAndResume(arg)
                } else {
                    Output::Return(None)
                }
            },
            BlockState::Inside => {
                if matched {
                    self.state = BlockState::Outside;
                }
                Output::Resume(arg)
            },
        }
    }
}

impl ProgramAtom for FilterRange {
    fn run(&mut self, arg: String) -> (out: Output) {
        let matched = match self.state {
            BlockState::Outside => self.start.is_match(arg.as_str()),
            BlockState::Inside => self.end.is_match(arg.as_str()),
        };
        self.advance(matched, arg)
    }

    fn reset(&mut self) {
        self.state = BlockState::Outside;
    }

    fn ready(&self) -> (r: bool) {
        true
    }
}

/// Lets the rest of the pipeline work on the blocks of lines from one that
/// matches `start` to the next that matches `end`, both included, and emits
/// the lines between the blocks as they are.
#[derive(Debug)]
pub struct MatchRange {
    start: Regex,
    end: Regex,
    state: BlockState,
}

impl View for MatchRange {
    type V = Unit;

    closed spec fn view(&self) -> Unit {
        Unit::MatchRange { start: self.start, end: self.end, inside: self.state is Inside }
    }
}

impl MatchRange {
    /// A unit that hands the blocks from `start` to `end` on; it is outside any block.
    pub fn new(start: Regex, end: Regex) -> (r: MatchRange)
        ensures
            r@ == (Unit::MatchRange { start, end, inside: false }),
    {
        MatchRange { start, end, state: BlockState::Outside }
    }

    /// Takes a line, told whether it matches the pattern that the unit is
    /// looking out for: `start` between two blocks, `end` within one. Between
    /// blocks, a line that matches opens a block and asks the later units to
    /// start afresh, and any other is emitted as it is. Within a block every
    /// line goes on, and one that matches is the block's last.
    pub fn advance(&mut self, matched: bool, arg: String) -> (out: Output)
        ensures
            old(self)@ matches Unit::MatchRange { start, end, inside } && {
                &&& final(self)@ == (Unit::MatchRange { start, end, inside: inside != matched })
                &&& out@ == if inside {
                    Outcome::Resume(arg@)
                } else if matched {
                    Outcome::ResetAndResume(arg@)
                } else {
                    Outcome::Return(Some(arg@))
                }
            },
    {
        match self.state {
            BlockState::Outside => {
                if matched {
                    self.state = BlockState::Inside;
                    Output::ResetAndResume(arg)
                } else {
                    Output::Return(Some(arg))
                }
            },
            BlockState::Inside => {
                if matched {
                    self.state = BlockState::Outside;
                }
                Output::Resume(arg)
            },
        }
    }
}

impl ProgramAtom for MatchRange {
    fn run(&mut self, arg: String) -> (out: Output) {
        let matched = match self.state {
            BlockState::Outside => self.start.is_match(arg.as_str()),
            BlockState::Inside => self.end.is_match(arg.as_str()),
        };
        self.advance(matched, arg)
    }

    fn reset(&mut self) {
        self.state = BlockState::Outside;
    }

    fn ready(&self) -> (r: bool) {
        true
    }
}

/// Writes its number and a space before each line, counting from 1.
#[derive(Debug)]
pub struct Enumeration {
    current_line: u32,
}

impl View for Enumeration {
    type V = Unit;

    closed spec fn view(&self) -> Unit {
        Unit::Enumeration { count: self.current_line as nat }
    }
}

impl Enumeration {
    /// A unit that numbers lines; it has numbered none yet.
    pub fn new() -> (r: Enumeration)
        ensures
            r@ == (Unit::Enumeration { count: 0 }),
    {
        Enumeration { current_line: 0 }
    }
}

impl ProgramAtom for Enumeration {
    fn run(&mut self, arg: String) -> (out: Output) {
        self.current_line += 1;
        let mut numbered = decimal_string(self.current_line);
        numbered.push(' ');
        numbered.append(arg.as_str());
        assert(numbered@ =~= decimal(self.current_line as nat) + seq![' '] + arg@);
        Output::Resume(numbered)
    }

    fn reset(&mut self) {
        self.current_line = 0;
    }

    fn ready(&self) -> (r: bool) {
        self.current_line < u32::MAX
    }
}

/// Replaces the first match in each line.
#[derive(Debug)]
pub struct Sub {
    regex: Regex,
    replacement: String,
}

impl View for Sub {
    type V = Unit;

    closed spec fn view(&self) -> Unit {
        Unit::Sub { regex: self.regex, replacement: self.replacement@ }
    }
}

impl Sub {
    /// A unit that replaces the first match of `regex` by what `replacement` expands to.
    pub fn new(regex: Regex, replacement: String) -> (r: Sub)
        ensures
            r@ == (Unit::Sub { regex, replacement: replacement@ }),
    {
        Sub { regex, replacement }
    }
}

impl ProgramAtom for Sub {
    fn run(&mut self, arg: String) -> (out: Output) {
        let res = replace_first(&self.regex, arg.as_str(), self.replacement.as_str());
        Output::Resume(res)
    }

    fn reset(&mut self) {
    }

    fn ready(&self) -> (r: bool) {
        true
    }
}

/// Replaces every match in each line.
#[derive(Debug)]
pub struct Gsub {
    regex: Regex,
    replacement: String,
}

impl View for Gsub {
    type V = Unit;

    closed spec fn view(&self) -> Unit {
        Unit::Gsub { regex: self.regex, replacement: self.replacement@ }
    }
}

impl Gsub {
    /// A unit that replaces every match of `regex` by what `replacement` expands to.
    pub fn new(regex: Regex, replacement: String) -> (r: Gsub)
        ensures
            r@ == (Unit::Gsub { regex, replacement: replacement@ }),
    {
        Gsub { regex, replacement }
    }
}

impl ProgramAtom for Gsub {
    fn run(&mut self, arg: String) -> (out: Output) {
        let res = replace_every(&self.regex, arg.as_str(), self.replacement.as_str());
        Output::Resume(res)
    }

    fn reset(&mut self) {
    }

    fn ready(&self) -> (r: bool) {
        true
    }
}

/// A unit of any kind.
#[derive(Debug)]
pub enum Atom {
    Enumeration(Enumeration),
    Filter(Filter),
    Lines(Lines),
    FilterRange(FilterRange),
    Fields(Fields),
    Gsub(Gsub),
    Match(Match),
    MatchRange(MatchRange),
    Sub(Sub),
}

impl View for Atom {
    type V = Unit;

    open spec fn view(&self) -> Unit {
        match self {
            Atom::Enumeration(unit) => unit@,
            Atom::Filter(unit) => unit@,
            Atom::Lines(unit) => unit@,
            Atom::FilterRange(unit) => unit@,
            Atom::Fields(unit) => unit@,
            Atom::Gsub(unit) => unit@,
            Atom::Match(unit) => unit@,
            Atom::MatchRange(unit) => unit@,
            Atom::Sub(unit) => unit@,
        }
    }
}

impl ProgramAtom for Atom {
    fn run(&mut self, arg: String) -> (out: Output) {
        match self {
            Atom::Enumeration(unit) => unit.run(arg),
            Atom::Filter(unit) => unit.run(arg),
            Atom::Lines(unit) => unit.run(arg),
            Atom::FilterRange(unit) => unit.run(arg),
            Atom::Fields(unit) => unit.run(arg),
            Atom::Gsub(unit) => unit.run(arg),
            Atom::Match(unit) => unit.run(arg),
            Atom::MatchRange(unit) => unit.run(arg),
            Atom::Sub(unit) => unit.run(arg),
        }
    }

    fn reset(&mut self) {
        match self {
            Atom::Enumeration(unit) => unit.reset(),
            Atom::Filter(unit) => unit.reset(),
            Atom::Lines(unit) => unit.reset(),
            Atom::FilterRange(unit) => unit.reset(),
            Atom::Fields(unit) => unit.reset(),
            Atom::Gsub(unit) => unit.reset(),
            Atom::Match(unit) => unit.reset(),
            Atom::MatchRange(unit) => unit.reset(),
            Atom::Sub(unit) => unit.reset(),
        }
    }

    fn ready(&self) -> (r: bool) {
        match self {
            Atom::Enumeration(unit) => unit.ready(),
            Atom::Filter(unit) => unit.ready(),
            Atom::Lines(unit) => unit.ready(),
            Atom::FilterRange(unit) => unit.ready(),
            Atom::Fields(unit) => unit.ready(),
            Atom::Gsub(unit) => unit.ready(),
            Atom::Match(unit) => unit.ready(),
            Atom::MatchRange(unit) => unit.ready(),
            Atom::Sub(unit) => unit.ready(),
        }
    }
}

impl From<Enumeration> for Atom {
    fn from(unit: Enumeration) -> (atom: Atom) {
        Atom::Enumeration(unit)
    }
}

impl vstd::std_specs::convert::FromSpecImpl<Enumeration> for Atom {
    open spec fn obeys_from_spec() -> bool {
        true
    }

    open spec fn from_spec(unit: Enumeration) -> Atom {
        Atom::Enumeration(unit)
    }
}

impl From<Filter> for Atom {
    fn from(unit: Filter) -> (atom: Atom) {
        Atom::Filter(unit)
    }
}

impl vstd::std_specs::convert::FromSpecImpl<Filter> for Atom {
    open spec fn obeys_from_spec() -> bool {
        true
    }

    open spec fn from_spec(unit: Filter) -> Atom {
        Atom::Filter(unit)
    }
}

impl From<Lines> for Atom {
    fn from(unit: Lines) -> (atom: Atom) {
        Atom::Lines(unit)
    }
}

impl vstd::std_specs::convert::FromSpecImpl<Lines> for Atom {
    open spec fn obeys_from_spec() -> bool {
        true
    }

    open spec fn from_spec(unit: Lines) -> Atom {
        Atom::Lines(unit)
    }
}

impl From<FilterRange> for Atom {
    fn from(unit: FilterRange) -> (atom: Atom) {
        Atom::FilterRange(unit)
    }
}

impl vstd::std_specs::convert::FromSpecImpl<FilterRange> for Atom {
    open spec fn obeys_from_spec() -> bool {
        true
    }

    open spec fn from_spec(unit: FilterRange) -> Atom {
        Atom::FilterRange(unit)
    }
}

impl From<Fields> for Atom {
    fn from(unit: Fields) -> (atom: Atom) {
        Atom::Fields(unit)
    }
}

impl vstd::std_specs::convert::FromSpecImpl<Fields> for Atom {
    open spec fn obeys_from_spec() -> bool {
        true
    }

    open spec fn from_spec(unit: Fields) -> Atom {
        Atom::Fields(unit)
    }
}

impl From<Gsub> for Atom {
    fn from(unit: Gsub) -> (atom: Atom) {
        Atom::Gsub(unit)
    }
}

impl vstd::std_specs::convert::FromSpecImpl<Gsub> for Atom {
    open spec fn obeys_from_spec() -> bool {
        true
    }

    open spec fn from_spec(unit: Gsub) -> Atom {
        Atom::Gsub(unit)
    }
}

impl From<Match> for Atom {
    fn from(unit: Match) -> (atom: Atom) {
        Atom::Match(unit)
    }
}

impl vstd::std_specs::convert::FromSpecImpl<Match> for Atom {
    open spec fn obeys_from_spec() -> bool {
        true
    }

    open spec fn from_spec(unit: Match) -> Atom {
        Atom::Match(unit)
    }
}

impl From<MatchRange> for Atom {
    fn from(unit: MatchRange) -> (atom: Atom) {
        Atom::MatchRange(unit)
    }
}

impl vstd::std_specs::convert::FromSpecImpl<MatchRange> for Atom {
    open spec fn obeys_from_spec() -> bool {
        true
    }

    open spec fn from_spec(unit: MatchRange) -> Atom {
        Atom::MatchRange(unit)
    }
}

impl From<Sub> for Atom {
    fn from(unit: Sub) -> (atom: Atom) {
        Atom::Sub(unit)
    }
}

impl vstd::std_specs::convert::FromSpecImpl<Sub> for Atom {
    open spec fn obeys_from_spec() -> bool {
        true
    }

    open spec fn from_spec(unit: Sub) -> Atom {
        Atom::Sub(unit)
    }
}

/// The models of a sequence of units.
pub open spec fn units_of(atoms: Seq<Atom>) -> Seq<Unit> {
    atoms.map_values(|atom: Atom| atom@)
}

/// An ordered pipeline of units.
#[derive(Debug)]
pub struct Program(Vec<Atom>);

impl View for Program {
    type V = Seq<Unit>;

    closed spec fn view(&self) -> Seq<Unit> {
        units_of(self.0@)
    }
}

impl Program {
    /// The pipeline of the units of `inner`, in their order.
    pub fn new(inner: Vec<Atom>) -> (r: Program)
        ensures
            r@ == units_of(inner@),
    {
        Program(inner)
    }

    /// Whether every unit can take one more line, as [`Program::run`] asks.
    pub fn is_ready(&self) -> (r: bool)
        ensures
            r == all_ready(self@),
    {
        let mut i: usize = 0;
        while i < self.0.len()
            invariant
                i <= self.0.len(),
                forall|j: int| 0 <= j < i ==> (#[trigger] self@[j]).ready(),
            decreases self.0.len() - i,
        {
            if !self.0[i].ready() {
                assert(!self@[i as int].ready());
                return false;
            }
            i += 1;
        }
        true
    }

    /// Sends one line through the pipeline, unit by unit. Returns the line that
    /// comes out, or `None` if a unit dropped it. No counter of a unit may
    /// stand at the largest number of its type: see [`Program::is_ready`].
    pub fn run(&mut self, arg: String) -> (r: Option<String>)
        requires
            all_ready(old(self)@),
        ensures
            r.deep_view() == through(old(self)@, arg@).out.as_opt(),
            final(self)@ == through(old(self)@, arg@).units,
    {
        let mut reset = false;
        let mut out = Output::Resume(arg);
        let mut i: usize = 0;
        while i < self.0.len()
            invariant
                i <= self.0.len() == old(self)@.len(),
                all_ready(old(self)@),
                forall|j: int| i <= j < self.0.len() ==> (#[trigger] self@[j]) == old(self)@[j],
                passage(old(self)@, arg@, i as nat).units == self@,
                passage(old(self)@, arg@, i as nat).reset == reset,
                passage(old(self)@, arg@, i as nat).out == out@,
            decreases self.0.len() - i,
        {
            let ghost before = self@;
            assert(before[i as int] == old(self)@[i as int] && before[i as int].ready());
            if reset {
                self.0[i].reset();
            }
            out = match out {
                Output::Resume(s) => self.0[i].run(s),
                Output::ResetAndResume(s) => {
                    reset = true;
                    self.0[i].reset();
                    self.0[i].run(s)
                },
                Output::Return(opt) => Output::Return(opt),
            };
            assert(self@ =~= before.update(i as int, self@[i as int]));
            i += 1;
        }
        out.as_opt()
    }
}

} // verus!
