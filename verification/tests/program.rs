use regex::Regex;
use saw::program::{
    Atom, Enumeration, Fields, Filter, FilterRange, Gsub, Lines, Match, MatchRange, Output,
    Program, ProgramAtom, Sub,
};
use saw::range::{FieldId, FieldsAtom, LinesAtom, OpenRange};

const LINE1: &str = "";
const LINE2: &str = "[Header 1]";
const LINE3: &str = "key1 = header1_value1";
const LINE4: &str = "key2 = header1_value2";
const LINE5: &str = "";
const LINE6: &str = "[Header 2]";
const LINE7: &str = "key1 = header2_value1";
const LINE8: &str = "key2 = header2_value2";

#[test]
fn test_make_enumerate() {
    let mut pr = Enumeration::new();

    assert_eq!(pr.run(LINE1.to_owned()), Output::Resume(String::from("1 ") + LINE1));
    assert_eq!(pr.run(LINE2.to_owned()), Output::Resume(String::from("2 ") + LINE2));
    assert_eq!(pr.run(LINE3.to_owned()), Output::Resume(String::from("3 ") + LINE3));
    assert_eq!(pr.run(LINE4.to_owned()), Output::Resume(String::from("4 ") + LINE4));

    pr.reset();

    assert_eq!(pr.run(LINE5.to_owned()), Output::Resume(String::from("1 ") + LINE5));
    assert_eq!(pr.run(LINE6.to_owned()), Output::Resume(String::from("2 ") + LINE6));
    assert_eq!(pr.run(LINE7.to_owned()), Output::Resume(String::from("3 ") + LINE7));
    assert_eq!(pr.run(LINE8.to_owned()), Output::Resume(String::from("4 ") + LINE8));
}

#[test]
fn test_make_filter_from() {
    let mut pr = FilterRange::new(
        Regex::new(r"^\[Header 1").unwrap(),
        Regex::new(r"^\[").unwrap(),
    );

    assert_eq!(pr.run(LINE1.to_owned()), Output::Return(None));
    // The line that opens a block also asks the later units to start afresh.
    assert_eq!(
        pr.run(LINE2.to_owned()),
        Output::ResetAndResume(LINE2.to_owned())
    );
    assert_eq!(pr.run(LINE3.to_owned()), Output::Resume(LINE3.to_owned()));
    assert_eq!(pr.run(LINE4.to_owned()), Output::Resume(LINE4.to_owned()));
    assert_eq!(pr.run(LINE5.to_owned()), Output::Resume(LINE5.to_owned()));
    assert_eq!(pr.run(LINE6.to_owned()), Output::Resume(LINE6.to_owned()));
    assert_eq!(pr.run(LINE7.to_owned()), Output::Return(None));
    assert_eq!(pr.run(LINE8.to_owned()), Output::Return(None));
}

#[test]
fn test_make_match_from() {
    let mut pr = MatchRange::new(
        Regex::new(r"^\[Header 1").unwrap(),
        Regex::new(r"^\[").unwrap(),
    );

    assert_eq!(pr.run(LINE1.to_owned()), Output::Return(Some(LINE1.to_owned())));
    // The line that opens a block also asks the later units to start afresh.
    assert_eq!(
        pr.run(LINE2.to_owned()),
        Output::ResetAndResume(LINE2.to_owned())
    );
    assert_eq!(pr.run(LINE3.to_owned()), Output::Resume(LINE3.to_owned()));
    assert_eq!(pr.run(LINE4.to_owned()), Output::Resume(LINE4.to_owned()));
    assert_eq!(pr.run(LINE5.to_owned()), Output::Resume(LINE5.to_owned()));
    assert_eq!(pr.run(LINE6.to_owned()), Output::Resume(LINE6.to_owned()));
    assert_eq!(pr.run(LINE7.to_owned()), Output::Return(Some(LINE7.to_owned())));
    assert_eq!(pr.run(LINE8.to_owned()), Output::Return(Some(LINE8.to_owned())));
}

#[test]
fn test_make_gsub() {
    let re = Regex::new(r"(?P<y>\d{4})-(?P<m>\d{2})-(?P<d>\d{2})").unwrap();
    let s = "2012-03-14 and 2014-07-05".to_owned();
    let mut pr = Gsub::new(re, "$m/$d/$y".to_owned());
    assert_eq!(pr.run(s), Output::Resume("03/14/2012 and 07/05/2014".to_owned()));
}

#[test]
fn test_make_sub() {
    let re = Regex::new("[^01]+").unwrap();
    let mut pr = Sub::new(re, "".to_owned());
    assert_eq!(pr.run("1078910a".to_owned()), Output::Resume("1010a".to_owned()));

    let re = Regex::new("^abc").unwrap();
    let mut pr = Sub::new(re, "".to_owned());
    assert_eq!(pr.run("def".to_owned()), Output::Resume("def".to_owned()));
}

#[test]
fn test_make_match() {
    let mut pr = Match::new(Regex::new("^x: .*").unwrap());

    let string1 = "x: test1".to_owned();
    let string2 = "yx: test2".to_owned();
    assert_eq!(pr.run(string1.clone()), Output::Resume(string1));
    assert_eq!(pr.run(string2.clone()), Output::Return(Some(string2)));
}

#[test]
fn test_make_filter() {
    let mut pr = Filter::new(Regex::new("^x: .*").unwrap());

    let string1 = "x: test1".to_owned();
    let string2 = "yx: test2".to_owned();

    assert_eq!(pr.run(string1.clone()), Output::Resume(string1));
    assert_eq!(pr.run(string2.clone()), Output::Return(None));
}

#[test]
fn test_fields() {
    let mut pr = Fields::new(vec![
        FieldsAtom::Range(OpenRange::new(
            Some(FieldId::Int(3)),
            Some(FieldId::FromLast(2)),
        )),
        FieldsAtom::Single(FieldId::Int(1)),
    ]);

    let string1 = "1 2 3 4 5 6 7".to_owned();
    let string2 = "1 3 4 5 6".to_owned();
    assert_eq!(pr.run(string1), Output::Resume(string2));
}

fn header_block() -> (Regex, Regex) {
    (
        Regex::new(r"^\[Header 1").unwrap(),
        Regex::new(r"^\[").unwrap(),
    )
}

fn ini_lines() -> Vec<&'static str> {
    vec![LINE1, LINE2, LINE3, LINE4, LINE5, LINE6, LINE7, LINE8]
}

fn run_all(program: &mut Program, lines: &[&str]) -> Vec<Option<String>> {
    let mut out = Vec::new();
    for line in lines {
        out.push(program.run((*line).to_owned()));
    }
    out
}

fn some(s: &str) -> Option<String> {
    Some(s.to_owned())
}

#[test]
fn filter_range_keeps_the_block() {
    let (start, end) = header_block();
    let mut program = Program::new(vec![Atom::FilterRange(FilterRange::new(start, end))]);
    assert_eq!(
        run_all(&mut program, &ini_lines()),
        vec![
            None,
            some(LINE2),
            some(LINE3),
            some(LINE4),
            some(LINE5),
            some(LINE6),
            None,
            None
        ]
    );
}

#[test]
fn match_range_emits_every_line() {
    let (start, end) = header_block();
    let mut program = Program::new(vec![Atom::MatchRange(MatchRange::new(start, end))]);
    let lines = ini_lines();
    let expected: Vec<Option<String>> = lines.iter().map(|l| some(l)).collect();
    assert_eq!(run_all(&mut program, &lines), expected);
}

#[test]
fn match_range_lets_later_units_work_inside_the_block_only() {
    let (start, end) = header_block();
    let mut program = Program::new(vec![
        Atom::MatchRange(MatchRange::new(start, end)),
        Atom::Enumeration(Enumeration::new()),
    ]);
    assert_eq!(
        run_all(&mut program, &ini_lines()),
        vec![
            some(""),
            some("1 [Header 1]"),
            some("2 key1 = header1_value1"),
            some("3 key2 = header1_value2"),
            some("4 "),
            some("5 [Header 2]"),
            some("key1 = header2_value1"),
            some("key2 = header2_value2"),
        ]
    );
}

#[test]
fn a_new_block_restarts_the_units_behind_it() {
    let mut program = Program::new(vec![
        Atom::Enumeration(Enumeration::new()),
        Atom::FilterRange(FilterRange::new(
            Regex::new("begin$").unwrap(),
            Regex::new("end$").unwrap(),
        )),
        Atom::Enumeration(Enumeration::new()),
    ]);
    let lines = ["x", "begin", "a", "end", "y", "begin", "b"];
    assert_eq!(
        run_all(&mut program, &lines),
        vec![
            None,
            some("1 2 begin"),
            some("2 3 a"),
            some("3 4 end"),
            None,
            some("1 6 begin"),
            some("2 7 b"),
        ]
    );
}

#[test]
fn the_unit_that_opens_a_block_stays_inside_it() {
    let mut pr = FilterRange::new(Regex::new("^begin").unwrap(), Regex::new("^end").unwrap());
    assert_eq!(
        pr.run("begin".to_owned()),
        Output::ResetAndResume("begin".to_owned())
    );
    assert_eq!(pr.run("a".to_owned()), Output::Resume("a".to_owned()));
    pr.reset();
    assert_eq!(pr.run("a".to_owned()), Output::Return(None));
}

#[test]
fn a_pending_restart_reaches_units_that_take_no_line() {
    // The first range opens a block on "begin"; the lines unit drops the line,
    // and the enumeration behind it is restarted all the same.
    let mut program = Program::new(vec![
        Atom::MatchRange(MatchRange::new(
            Regex::new("^begin").unwrap(),
            Regex::new("^end").unwrap(),
        )),
        Atom::Lines(Lines::new(vec![LinesAtom::Range(OpenRange::new(Some(2), None))])),
        Atom::Enumeration(Enumeration::new()),
    ]);
    let lines = ["begin", "a", "b", "end", "begin", "c"];
    assert_eq!(
        run_all(&mut program, &lines),
        vec![None, some("1 a"), some("2 b"), some("3 end"), None, some("1 c")]
    );
}

#[test]
fn nested_ranges_start_afresh_with_the_outer_block() {
    let mut program = Program::new(vec![
        Atom::FilterRange(FilterRange::new(
            Regex::new("^<").unwrap(),
            Regex::new("^>").unwrap(),
        )),
        Atom::FilterRange(FilterRange::new(
            Regex::new("^a").unwrap(),
            Regex::new("^z").unwrap(),
        )),
    ]);
    // The inner block is open when the outer one ends; the next outer block
    // finds the inner unit outside again.
    let lines = ["<", "a", "m", ">", "<", "m", "a", "z", "m"];
    assert_eq!(
        run_all(&mut program, &lines),
        vec![
            None,
            some("a"),
            some("m"),
            some(">"),
            None,
            None,
            some("a"),
            some("z"),
            None
        ]
    );
}

#[test]
fn an_empty_program_hands_every_line_back() {
    let mut program = Program::new(Vec::new());
    assert_eq!(program.run("a line".to_owned()), some("a line"));
    assert_eq!(program.run(String::new()), some(""));
}

#[test]
fn filter_drops_what_match_emits() {
    let lines = ["x: 1", "y: 2", "", "xx: 3", "x: "];
    let mut filter = Filter::new(Regex::new("^x: ").unwrap());
    let mut matching = Match::new(Regex::new("^x: ").unwrap());
    for line in lines {
        let kept = filter.run(line.to_owned());
        let passed = matching.run(line.to_owned());
        match passed {
            Output::Resume(s) => {
                assert_eq!(s, line);
                assert_eq!(kept, Output::Resume(line.to_owned()));
            }
            Output::Return(emitted) => {
                assert_eq!(emitted, some(line));
                assert_eq!(kept, Output::Return(None));
            }
            Output::ResetAndResume(_) => panic!("a match never asks for a restart"),
        }
    }
}

#[test]
fn decisions_follow_the_match_alone() {
    assert_eq!(
        Filter::keep(true, "a".to_owned()),
        Output::Resume("a".to_owned())
    );
    assert_eq!(Filter::keep(false, "a".to_owned()), Output::Return(None));
    assert_eq!(
        Match::pass(true, "a".to_owned()),
        Output::Resume("a".to_owned())
    );
    assert_eq!(Match::pass(false, "a".to_owned()), Output::Return(some("a")));

    let any = || Regex::new("").unwrap();
    let mut fr = FilterRange::new(any(), any());
    assert_eq!(fr.advance(false, "a".to_owned()), Output::Return(None));
    assert_eq!(
        fr.advance(true, "b".to_owned()),
        Output::ResetAndResume("b".to_owned())
    );
    assert_eq!(
        fr.advance(false, "c".to_owned()),
        Output::Resume("c".to_owned())
    );
    assert_eq!(
        fr.advance(true, "d".to_owned()),
        Output::Resume("d".to_owned())
    );
    assert_eq!(fr.advance(false, "e".to_owned()), Output::Return(None));

    let mut mr = MatchRange::new(any(), any());
    assert_eq!(mr.advance(false, "a".to_owned()), Output::Return(some("a")));
    assert_eq!(
        mr.advance(true, "b".to_owned()),
        Output::ResetAndResume("b".to_owned())
    );
    assert_eq!(
        mr.advance(true, "c".to_owned()),
        Output::Resume("c".to_owned())
    );
    assert_eq!(mr.advance(false, "d".to_owned()), Output::Return(some("d")));
}

#[test]
fn enumeration_counts_past_nine() {
    let mut pr = Enumeration::new();
    let mut last = Output::Return(None);
    for _ in 0..1234 {
        last = pr.run("l".to_owned());
    }
    assert_eq!(last, Output::Resume("1234 l".to_owned()));
}

#[test]
fn lines_keeps_the_selected_numbers() {
    let mut pr = Lines::new(vec![
        LinesAtom::Single(1),
        LinesAtom::Range(OpenRange::new(Some(3), Some(4))),
        LinesAtom::Range(OpenRange::new(Some(7), None)),
    ]);
    let mut kept = Vec::new();
    for n in 1..=8 {
        if pr.run(n.to_string()) == Output::Resume(n.to_string()) {
            kept.push(n);
        }
    }
    assert_eq!(kept, vec![1, 3, 4, 7, 8]);
    pr.reset();
    assert_eq!(pr.run("a".to_owned()), Output::Resume("a".to_owned()));
    assert_eq!(pr.run("b".to_owned()), Output::Return(None));
}

#[test]
fn lines_without_atoms_drop_every_line() {
    let mut pr = Lines::new(Vec::new());
    assert_eq!(pr.run("a".to_owned()), Output::Return(None));
}

#[test]
fn lines_with_an_upper_bound_only() {
    let mut pr = Lines::new(vec![LinesAtom::Range(OpenRange::new(None, Some(2)))]);
    assert_eq!(pr.run("a".to_owned()), Output::Resume("a".to_owned()));
    assert_eq!(pr.run("b".to_owned()), Output::Resume("b".to_owned()));
    assert_eq!(pr.run("c".to_owned()), Output::Return(None));
}

#[test]
fn fields_collapse_repeated_spaces() {
    let mut pr = Fields::new(vec![FieldsAtom::Range(OpenRange::new(None, None))]);
    assert_eq!(
        pr.run("  a   b c  ".to_owned()),
        Output::Resume("a b c".to_owned())
    );
    assert_eq!(pr.run("".to_owned()), Output::Resume("".to_owned()));
    assert_eq!(pr.run("   ".to_owned()), Output::Resume("".to_owned()));
    assert_eq!(
        pr.run("tab\tstays one".to_owned()),
        Output::Resume("tab\tstays one".to_owned())
    );
}

#[test]
fn fields_never_drop_the_line() {
    let mut pr = Fields::new(vec![FieldsAtom::Single(FieldId::Int(9))]);
    assert_eq!(pr.run("a b c".to_owned()), Output::Resume("".to_owned()));
    let mut none = Fields::new(Vec::new());
    assert_eq!(none.run("a b c".to_owned()), Output::Resume("".to_owned()));
}

#[test]
fn fields_count_from_the_last() {
    let mut last = Fields::new(vec![FieldsAtom::Single(FieldId::FromLast(1))]);
    assert_eq!(last.run("a b c".to_owned()), Output::Resume("c".to_owned()));
    assert_eq!(last.run("a".to_owned()), Output::Resume("a".to_owned()));
    let mut tail = Fields::new(vec![FieldsAtom::Range(OpenRange::new(
        Some(FieldId::FromLast(2)),
        None,
    ))]);
    assert_eq!(
        tail.run("a b c d".to_owned()),
        Output::Resume("c d".to_owned())
    );
    // With one field only, the second from the last is position 0: all are kept.
    assert_eq!(tail.run("a".to_owned()), Output::Resume("a".to_owned()));
    let mut beyond = Fields::new(vec![FieldsAtom::Single(FieldId::FromLast(4))]);
    assert_eq!(beyond.run("a b c".to_owned()), Output::Resume("".to_owned()));
}

#[test]
fn fields_keep_the_order_of_the_line() {
    let mut pr = Fields::new(vec![
        FieldsAtom::Single(FieldId::Int(3)),
        FieldsAtom::Single(FieldId::Int(1)),
        FieldsAtom::Single(FieldId::Int(3)),
    ]);
    assert_eq!(pr.run("a b c".to_owned()), Output::Resume("a c".to_owned()));
}

#[test]
fn fields_contains_any_atom() {
    let pr = Fields::new(vec![
        FieldsAtom::Range(OpenRange::new(
            Some(FieldId::Int(3)),
            Some(FieldId::FromLast(2)),
        )),
        FieldsAtom::Single(FieldId::Int(1)),
    ]);
    let kept: Vec<usize> = (0..=8).filter(|n| pr.contains(*n, 7)).collect();
    assert_eq!(kept, vec![1, 3, 4, 5, 6]);
}

#[test]
fn sub_replaces_the_first_match_only() {
    let mut first = Sub::new(Regex::new("a").unwrap(), "b".to_owned());
    assert_eq!(
        first.run("banana".to_owned()),
        Output::Resume("bbnana".to_owned())
    );
    let mut all = Gsub::new(Regex::new("a").unwrap(), "b".to_owned());
    assert_eq!(
        all.run("banana".to_owned()),
        Output::Resume("bbnbnb".to_owned())
    );
    assert_eq!(all.run("xyz".to_owned()), Output::Resume("xyz".to_owned()));
}

#[test]
fn as_opt_gives_the_line_that_leaves() {
    assert_eq!(Output::Resume("a".to_owned()).as_opt(), some("a"));
    assert_eq!(Output::ResetAndResume("a".to_owned()).as_opt(), some("a"));
    assert_eq!(Output::Return(some("a")).as_opt(), some("a"));
    assert_eq!(Output::Return(None).as_opt(), None);
}

#[test]
fn atoms_run_as_their_units_do() {
    let mut atom = Atom::Enumeration(Enumeration::new());
    assert_eq!(atom.run("a".to_owned()), Output::Resume("1 a".to_owned()));
    assert_eq!(atom.run("b".to_owned()), Output::Resume("2 b".to_owned()));
    atom.reset();
    assert_eq!(atom.run("c".to_owned()), Output::Resume("1 c".to_owned()));
    let mut atom = Atom::Filter(Filter::new(Regex::new("^a").unwrap()));
    assert_eq!(atom.run("b".to_owned()), Output::Return(None));
    atom.reset();
    assert_eq!(atom.run("a".to_owned()), Output::Resume("a".to_owned()));
}

#[test]
fn atoms_are_made_from_units() {
    let mut program = Program::new(vec![
        Atom::from(Match::new(Regex::new("^a").unwrap())),
        Atom::from(Sub::new(Regex::new("a").unwrap(), "b".to_owned())),
        Filter::new(Regex::new("b$").unwrap()).into(),
        Gsub::new(Regex::new("b").unwrap(), "c".to_owned()).into(),
        Fields::new(vec![FieldsAtom::Single(FieldId::Int(1))]).into(),
        Lines::new(vec![LinesAtom::Range(OpenRange::new(None, None))]).into(),
        FilterRange::new(Regex::new("").unwrap(), Regex::new("$^").unwrap()).into(),
        MatchRange::new(Regex::new("").unwrap(), Regex::new("$^").unwrap()).into(),
        Enumeration::new().into(),
    ]);
    assert_eq!(program.run("ab".to_owned()), some("1 cc"));
    assert_eq!(program.run("xb".to_owned()), some("xb"));
    assert_eq!(program.run("ax".to_owned()), None);
    assert_eq!(program.run("a  y".to_owned()), None);
    assert_eq!(program.run("a".to_owned()), some("2 c"));
}

#[test]
fn a_program_tells_whether_it_can_take_a_line() {
    let mut program = Program::new(vec![
        Atom::Enumeration(Enumeration::new()),
        Atom::Lines(Lines::new(Vec::new())),
    ]);
    assert!(program.is_ready());
    program.run("a".to_owned());
    assert!(program.is_ready());
    assert!(Program::new(Vec::new()).is_ready());
    assert!(Enumeration::new().ready());
}
