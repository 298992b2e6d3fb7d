//! The compiler: from a list of command tokens to a pipeline, or to the reason
//! why the list describes none.

use crate::grammar::{fields_list, fields_of, lines_list, lines_of};
use crate::pattern::{regex_new, regex_syntax_message, syntax_message};
use crate::model::{all_ready, Unit};
use crate::program::{
    units_of, Atom, Enumeration, Fields, Filter, FilterRange, Gsub, Lines, Match, MatchRange,
    Program, Sub,
};
use crate::text::{to_chars, views};
use regex::Regex;
use vstd::prelude::*;
use vstd::string::StringExecFns;

verus! {

/// The model of a [`ParseError`].
pub enum Fault {
    /// A failure that has something to tell: its cause, and what was going on
    /// when it came about, from the innermost context outwards.
    Message { cause: Seq<char>, context: Seq<Seq<char>> },
    /// A piece of the grammar did not fit, and nothing more is known.
    Internal,
}

impl Fault {
    /// The failure that tells `message` and nothing else.
    pub open spec fn msg(message: Seq<char>) -> Fault {
        Fault::Message { cause: message, context: Seq::empty() }
    }

    /// The failure with `message` as its new outermost context. A failure that
    /// had nothing to tell gets `message` as its cause.
    pub open spec fn context(self, message: Seq<char>) -> Fault {
        match self {
            Fault::Message { cause, context } => Fault::Message {
                cause,
                context: context.push(message),
            },
            Fault::Internal => Fault::msg(message),
        }
    }

    /// All that the failure tells, from the cause outwards.
    pub open spec fn messages(self) -> Seq<Seq<char>> {
        match self {
            Fault::Message { cause, context } => seq![cause] + context,
            Fault::Internal => seq!["Internal error"@],
        }
    }
}

/// Why a list of tokens is no program.
#[derive(Debug)]
pub enum ParseError {
    /// A failure with a message for the user, and the contexts it passed
    /// through on its way out, innermost first.
    Message { cause: String, context: Vec<String> },
    /// A piece of the grammar did not fit.
    Internal,
}

impl View for ParseError {
    type V = Fault;

    open spec fn view(&self) -> Fault {
        match self {
            ParseError::Message { cause, context } => Fault::Message {
                cause: cause@,
                context: views(context@),
            },
            ParseError::Internal => Fault::Internal,
        }
    }
}

impl ParseError {
    pub fn new() -> (r: Self)
        ensures
            r@ == Fault::Internal,
    {
        ParseError::Internal
    }

    pub fn msg(message: String) -> (r: Self)
        ensures
            r@ == Fault::msg(message@),
    {
        let context: Vec<String> = Vec::new();
        assert(views(context@) =~= Seq::<Seq<char>>::empty());
        ParseError::Message { cause: message, context }
    }

    /// All that the error tells, from the cause outwards. An internal error
    /// tells one thing only: that it is one.
    pub fn into_messages(self) -> (r: Vec<String>)
        ensures
            views(r@) == self@.messages(),
            r.len() > 0,
    {
        match self {
            ParseError::Message { cause, context } => {
                let mut r: Vec<String> = Vec::new();
                r.push(cause);
                let mut context = context;
                let ghost first = r@;
                let ghost rest = context@;
                r.append(&mut context);
                assert(views(r@) =~= seq![cause@] + views(rest));
                r
            },
            ParseError::Internal => {
                let mut r: Vec<String> = Vec::new();
                r.push(String::from_str("Internal error"));
                assert(views(r@) =~= seq!["Internal error"@]);
                r
            },
        }
    }
}

/// What can be told in which context it failed.
pub trait Context: Sized {
    /// Whether `after` is `before` with `message` as the outermost context of
    /// its failure.
    spec fn in_context(before: Self, message: Seq<char>, after: Self) -> bool;

    /// Adds `message` as the outermost context of a failure.
    fn context(self, message: String) -> (r: Self)
        ensures
            Self::in_context(self, message@, r),
    ;
}

impl Context for ParseError {
    open spec fn in_context(before: Self, message: Seq<char>, after: Self) -> bool {
        after@ == before@.context(message)
    }

    fn context(self, message: String) -> (r: Self) {
        match self {
            ParseError::Message { cause, context } => {
                let mut context = context;
                assert(views(context@.push(message)) =~= views(context@).push(message@));
                context.push(message);
                ParseError::Message { cause, context }
            },
            ParseError::Internal => ParseError::msg(message),
        }
    }
}

/// A result with `message` as the outermost context of its failure, if it is one.
pub open spec fn with_context<T>(result: Result<T, Fault>, message: Seq<char>) -> Result<T, Fault> {
    match result {
        Ok(value) => Ok(value),
        Err(fault) => Err(fault.context(message)),
    }
}

impl<T> Context for Result<T, ParseError> {
    /// A success stays as it is, and a failure gets the context.
    open spec fn in_context(before: Self, message: Seq<char>, after: Self) -> bool {
        match (before, after) {
            (Ok(before), Ok(after)) => before == after,
            (Err(before), Err(after)) => after@ == before@.context(message),
            _ => false,
        }
    }

    fn context(self, message: String) -> (r: Self) {
        match self {
            Ok(value) => Ok(value),
            Err(error) => Err(error.context(message)),
        }
    }
}

/// The commands of the language.
#[derive(Debug, Clone, Copy, PartialEq, Eq)]
pub enum Command {
    Enumerate,
    Fields,
    Filter,
    Lines,
    FilterRange,
    Gsub,
    Match,
    MatchRange,
    Sub,
}

/// The command that `token` names, if it names one.
pub open spec fn command_named(token: Seq<char>) -> Option<Command> {
    if token == "enumerate"@ || token == "enum"@ || token == "e"@ || token == "#"@ {
        Some(Command::Enumerate)
    } else if token == "fields"@ || token == "F"@ {
        Some(Command::Fields)
    } else if token == "filter"@ || token == "f"@ {
        Some(Command::Filter)
    } else if token == "lines"@ || token == "line"@ || token == "l"@ {
        Some(Command::Lines)
    } else if token == "filter-range"@ || token == "fr"@ {
        Some(Command::FilterRange)
    } else if token == "gsub"@ || token == "gs"@ {
        Some(Command::Gsub)
    } else if token == "match"@ || token == "m"@ {
        Some(Command::Match)
    } else if token == "match-range"@ || token == "mr"@ {
        Some(Command::MatchRange)
    } else if token == "sub"@ || token == "s"@ {
        Some(Command::Sub)
    } else {
        None
    }
}

/// Tells which command a token names.
pub fn keyword(token: &str) -> (r: Option<Command>)
    ensures
        r == command_named(token@),
{
    if token.eq("enumerate") || token.eq("enum") || token.eq("e") || token.eq("#") {
        Some(Command::Enumerate)
    } else if token.eq("fields") || token.eq("F") {
        Some(Command::Fields)
    } else if token.eq("filter") || token.eq("f") {
        Some(Command::Filter)
    } else if token.eq("lines") || token.eq("line") || token.eq("l") {
        Some(Command::Lines)
    } else if token.eq("filter-range") || token.eq("fr") {
        Some(Command::FilterRange)
    } else if token.eq("gsub") || token.eq("gs") {
        Some(Command::Gsub)
    } else if token.eq("match") || token.eq("m") {
        Some(Command::Match)
    } else if token.eq("match-range") || token.eq("mr") {
        Some(Command::MatchRange)
    } else if token.eq("sub") || token.eq("s") {
        Some(Command::Sub)
    } else {
        None
    }
}

/// The characters of each token.
pub open spec fn texts(tokens: Seq<&str>) -> Seq<Seq<char>> {
    tokens.map_values(|token: &str| token@)
}

/// The token at `pos`; where the list has ended, an argument is missing.
pub open spec fn token_at(tokens: Seq<Seq<char>>, pos: int) -> Result<Seq<char>, Fault> {
    if 0 <= pos < tokens.len() {
        Ok(tokens[pos])
    } else {
        Err(Fault::msg("Missing argument"@))
    }
}

/// What is told of a pattern that does not compile: the syntax error, where
/// the pattern has one, and else that the pattern is invalid.
pub open spec fn invalid_pattern_fault(token: Seq<char>, syntax: Option<Seq<char>>) -> Fault {
    match syntax {
        Some(message) => Fault::msg(message),
        None => Fault::msg("Invalid regular expression: "@ + token),
    }
}

/// The regular expression that `token` is.
pub open spec fn pattern_of(token: Seq<char>) -> Result<Regex, Fault> {
    match regex_new(token) {
        Ok(re) => Ok(re),
        Err(err) => Err(invalid_pattern_fault(token, regex_syntax_message(err))),
    }
}

/// The context that an argument's failure gets.
pub open spec fn invalid_argument(token: Seq<char>) -> Seq<char> {
    "Invalid argument: "@ + token
}

/// The context that a failure among a command's arguments gets.
pub open spec fn failed_arguments(keyword: Seq<char>) -> Seq<char> {
    "Failed parsing arguments of '"@ + keyword + "'"@
}

/// What is told of a token that names no command.
pub open spec fn unrecognized(token: Seq<char>) -> Fault {
    Fault::msg("Not a recognized keyword: "@ + token)
}

/// The pattern argument at `pos`.
pub open spec fn pattern_at(tokens: Seq<Seq<char>>, pos: int) -> Result<Regex, Fault> {
    match token_at(tokens, pos) {
        Ok(token) => with_context(pattern_of(token), invalid_argument(token)),
        Err(fault) => Err(fault),
    }
}

/// The unit that `command` makes of the arguments at `pos`, and the position
/// behind them.
pub open spec fn arguments_at(command: Command, tokens: Seq<Seq<char>>, pos: int) -> Result<
    (Unit, int),
    Fault,
> {
    match command {
        Command::Enumerate => Ok((Unit::Enumeration { count: 0 }, pos)),
        Command::Filter => match pattern_at(tokens, pos) {
            Ok(regex) => Ok((Unit::Filter { regex }, pos + 1)),
            Err(fault) => Err(fault),
        },
        Command::Match => match pattern_at(tokens, pos) {
            Ok(regex) => Ok((Unit::Match { regex }, pos + 1)),
            Err(fault) => Err(fault),
        },
        Command::Sub => match pattern_at(tokens, pos) {
            Ok(regex) => match token_at(tokens, pos + 1) {
                Ok(replacement) => Ok((Unit::Sub { regex, replacement }, pos + 2)),
                Err(fault) => Err(fault),
            },
            Err(fault) => Err(fault),
        },
        Command::Gsub => match pattern_at(tokens, pos) {
            Ok(regex) => match token_at(tokens, pos + 1) {
                Ok(replacement) => Ok((Unit::Gsub { regex, replacement }, pos + 2)),
                Err(fault) => Err(fault),
            },
            Err(fault) => Err(fault),
        },
        Command::MatchRange => match pattern_at(tokens, pos) {
            Ok(start) => match pattern_at(tokens, pos + 1) {
                Ok(end) => Ok((Unit::MatchRange { start, end, inside: false }, pos + 2)),
                Err(fault) => Err(fault),
            },
            Err(fault) => Err(fault),
        },
        Command::FilterRange => match pattern_at(tokens, pos) {
            Ok(start) => match pattern_at(tokens, pos + 1) {
                Ok(end) => Ok((Unit::FilterRange { start, end, inside: false }, pos + 2)),
                Err(fault) => Err(fault),
            },
            Err(fault) => Err(fault),
        },
        Command::Lines => match token_at(tokens, pos) {
            Ok(token) => match lines_of(token) {
                Some(atoms) => Ok((Unit::Lines { atoms, count: 0 }, pos + 1)),
                None => Err(Fault::Internal.context(invalid_argument(token))),
            },
            Err(fault) => Err(fault),
        },
        Command::Fields => match token_at(tokens, pos) {
            Ok(token) => match fields_of(token) {
                Some(atoms) => Ok((Unit::Fields { atoms }, pos + 1)),
                None => Err(Fault::Internal.context(invalid_argument(token))),
            },
            Err(fault) => Err(fault),
        },
    }
}

/// The command at `pos`: its unit and the position behind its arguments, or
/// `None` where the list has ended. A token that names no command is a
/// failure, and so is every failure among the arguments of one that does.
pub open spec fn command_at(tokens: Seq<Seq<char>>, pos: int) -> Result<
    Option<(Unit, int)>,
    Fault,
> {
    if 0 <= pos < tokens.len() {
        match command_named(tokens[pos]) {
            Some(command) => match arguments_at(command, tokens, pos + 1) {
                Ok(found) => Ok(Some(found)),
                Err(fault) => Err(fault.context(failed_arguments(tokens[pos]))),
            },
            None => Err(unrecognized(tokens[pos])),
        }
    } else {
        Ok(None)
    }
}

/// The arguments of a command end behind where they begin, within the list.
pub proof fn lemma_arguments_at(command: Command, tokens: Seq<Seq<char>>, pos: int)
    requires
        0 <= pos <= tokens.len(),
    ensures
        arguments_at(command, tokens, pos) matches Ok((_, end)) ==> pos <= end <= tokens.len(),
{
}

/// The units of the commands from `pos` to the end of the list, or the first
/// failure among them.
pub open spec fn commands_from(tokens: Seq<Seq<char>>, pos: int) -> Result<Seq<Unit>, Fault>
    decreases tokens.len() - pos,
    via commands_from_decreases
{
    match command_at(tokens, pos) {
        Ok(Some((unit, next))) => match commands_from(tokens, next) {
            Ok(units) => Ok(seq![unit] + units),
            Err(fault) => Err(fault),
        },
        Ok(None) => Ok(Seq::empty()),
        Err(fault) => Err(fault),
    }
}

#[via_fn]
proof fn commands_from_decreases(tokens: Seq<Seq<char>>, pos: int) {
    if 0 <= pos < tokens.len() {
        if let Some(command) = command_named(tokens[pos]) {
            lemma_arguments_at(command, tokens, pos + 1);
        }
    }
}

/// The pipeline that a list of tokens describes, or why it describes none.
pub open spec fn compile(tokens: Seq<Seq<char>>) -> Result<Seq<Unit>, Fault> {
    commands_from(tokens, 0)
}

/// A pipeline that has just been compiled can take a line: its units are as
/// they were made, and no counter has counted yet.
pub proof fn law_compiled_units_are_ready(tokens: Seq<Seq<char>>, pos: int)
    requires
        0 <= pos,
    ensures
        commands_from(tokens, pos) matches Ok(units) ==> all_ready(units) && forall|i: int|
            0 <= i < units.len() ==> (#[trigger] units[i]).reset() == units[i],
    decreases tokens.len() - pos,
{
    if pos < tokens.len() {
        if let Some(command) = command_named(tokens[pos]) {
            lemma_arguments_at(command, tokens, pos + 1);
        }
        match command_at(tokens, pos) {
            Ok(Some((unit, next))) => {
                law_compiled_units_are_ready(tokens, next);
                if let Ok(rest) = commands_from(tokens, next) {
                    let units = seq![unit] + rest;
                    assert forall|i: int| 0 <= i < units.len() implies (#[trigger] units[i]).ready()
                        && units[i].reset() == units[i] by {
                        if i > 0 {
                            assert(units[i] == rest[i - 1]);
                        }
                    }
                }
            },
            _ => {},
        }
    }
}

/// Whether a command starts at `pos`, when the commands are read one after
/// the other from `from` on.
pub open spec fn command_starts(tokens: Seq<Seq<char>>, from: int, pos: int) -> bool
    decreases tokens.len() - from,
    via command_starts_decreases
{
    from == pos || match command_at(tokens, from) {
        Ok(Some((_, next))) => command_starts(tokens, next, pos),
        _ => false,
    }
}

#[via_fn]
proof fn command_starts_decreases(tokens: Seq<Seq<char>>, from: int, pos: int) {
    if 0 <= from < tokens.len() {
        if let Some(command) = command_named(tokens[from]) {
            lemma_arguments_at(command, tokens, from + 1);
        }
    }
}

/// A failure is final: where a command fails, or a later one does, the list
/// from any earlier command on fails in the same way. No command is skipped,
/// and none behind the failure is looked at.
pub proof fn law_failure_is_final(tokens: Seq<Seq<char>>, from: int, pos: int)
    requires
        command_starts(tokens, from, pos),
        commands_from(tokens, pos) is Err,
    ensures
        commands_from(tokens, from) == commands_from(tokens, pos),
    decreases tokens.len() - from,
{
    if from != pos {
        if 0 <= from < tokens.len() {
            if let Some(command) = command_named(tokens[from]) {
                lemma_arguments_at(command, tokens, from + 1);
            }
        }
        match command_at(tokens, from) {
            Ok(Some((_, next))) => {
                law_failure_is_final(tokens, next, pos);
            },
            _ => {},
        }
    }
}

/// A token that stands where a command starts and names none makes the whole
/// list fail, and the failure names the token.
pub proof fn law_unrecognized_keyword(tokens: Seq<Seq<char>>, pos: int)
    requires
        0 <= pos < tokens.len(),
        command_starts(tokens, 0, pos),
        command_named(tokens[pos]) is None,
    ensures
        compile(tokens) == Err::<Seq<Unit>, Fault>(unrecognized(tokens[pos])),
{
    law_failure_is_final(tokens, 0, pos);
}

/// Whether the first argument of `command` is a pattern.
pub open spec fn takes_pattern(command: Command) -> bool {
    command is Filter || command is Match || command is Sub || command is Gsub
        || command is MatchRange || command is FilterRange
}

/// A command whose first argument is to be a pattern, and is none, makes the
/// whole list fail. The failure tells why the pattern is none, which argument
/// it was, and of which command; the tokens behind it play no part.
pub proof fn law_malformed_pattern(tokens: Seq<Seq<char>>, pos: int)
    requires
        0 <= pos,
        pos + 1 < tokens.len(),
        command_starts(tokens, 0, pos),
        command_named(tokens[pos]) matches Some(command) && takes_pattern(command),
    ensures
        pattern_of(tokens[pos + 1]) matches Err(fault) ==> compile(tokens) == Err::<
            Seq<Unit>,
            Fault,
        >(
            fault.context(invalid_argument(tokens[pos + 1])).context(
                failed_arguments(tokens[pos]),
            ),
        ),
{
    if pattern_of(tokens[pos + 1]) is Err {
        law_failure_is_final(tokens, 0, pos);
    }
}

/// A range command whose second pattern is none makes the whole list fail in
/// the same way, naming the second argument.
pub proof fn law_malformed_second_pattern(tokens: Seq<Seq<char>>, pos: int)
    requires
        0 <= pos,
        pos + 2 < tokens.len(),
        command_starts(tokens, 0, pos),
        command_named(tokens[pos]) matches Some(command) && (command is MatchRange
            || command is FilterRange),
        pattern_of(tokens[pos + 1]) is Ok,
    ensures
        pattern_of(tokens[pos + 2]) matches Err(fault) ==> compile(tokens) == Err::<
            Seq<Unit>,
            Fault,
        >(
            fault.context(invalid_argument(tokens[pos + 2])).context(
                failed_arguments(tokens[pos]),
            ),
        ),
{
    if pattern_of(tokens[pos + 2]) is Err {
        law_failure_is_final(tokens, 0, pos);
    }
}

/// `prefix` followed by `text`.
fn prefixed(prefix: &str, text: &str) -> (r: String)
    ensures
        r@ == prefix@ + text@,
{
    let mut r = String::from_str(prefix);
    r.append(text);
    r
}

/// Takes the token at `pos`.
pub fn next<'a>(input: &[&'a str], pos: usize) -> (r: Result<&'a str, ParseError>)
    ensures
        match r {
            Ok(token) => token_at(texts(input@), pos as int) == Ok::<Seq<char>, Fault>(token@)
                && pos < input.len() && token == input@[pos as int],
            Err(error) => token_at(texts(input@), pos as int) == Err::<Seq<char>, Fault>(error@),
        },
{
    if pos < input.len() {
        Ok(input[pos])
    } else {
        Err(ParseError::msg(String::from_str("Missing argument")))
    }
}

/// The error for a pattern that did not compile, given the message of its
/// syntax error if it has one.
pub fn invalid_pattern(input: &str, syntax: Option<String>) -> (r: ParseError)
    ensures
        r@ == invalid_pattern_fault(input@, syntax.deep_view()),
{
    match syntax {
        Some(message) => ParseError::msg(message),
        None => ParseError::msg(prefixed("Invalid regular expression: ", input)),
    }
}

/// Compiles a token that is to be a regular expression.
pub fn pattern(input: &str) -> (r: Result<Regex, ParseError>)
    ensures
        match r {
            Ok(re) => pattern_of(input@) == Ok::<Regex, Fault>(re),
            Err(error) => pattern_of(input@) == Err::<Regex, Fault>(error@),
        },
{
    match Regex::new(input) {
        Ok(re) => Ok(re),
        Err(err) => Err(invalid_pattern(input, syntax_message(err))),
    }
}

/// Tells of a failed result which argument it was that failed.
pub fn arg<T>(token: &str, result: Result<T, ParseError>) -> (r: Result<T, ParseError>)
    ensures
        match (result, r) {
            (Ok(before), Ok(after)) => before == after,
            (Err(before), Err(after)) => after@ == before@.context(invalid_argument(token@)),
            _ => false,
        },
{
    result.context(prefixed("Invalid argument: ", token))
}

/// Reads the pattern argument at `pos`.
fn pattern_arg(input: &[&str], pos: usize) -> (r: Result<Regex, ParseError>)
    ensures
        match r {
            Ok(re) => pattern_at(texts(input@), pos as int) == Ok::<Regex, Fault>(re) && pos
                < input.len(),
            Err(error) => pattern_at(texts(input@), pos as int) == Err::<Regex, Fault>(error@),
        },
{
    let token = next(input, pos)?;
    arg(token, pattern(token))
}

/// Reads the arguments of `command` at `pos` and makes its unit.
pub fn arguments(command: Command, input: &[&str], pos: usize) -> (r: Result<
    (Atom, usize),
    ParseError,
>)
    ensures
        match r {
            Ok((atom, end)) => arguments_at(command, texts(input@), pos as int) == Ok::<
                (Unit, int),
                Fault,
            >((atom@, end as int)) && (pos == end || pos < end <= input.len()),
            Err(error) => arguments_at(command, texts(input@), pos as int) == Err::<
                (Unit, int),
                Fault,
            >(error@),
        },
{
    match command {
        Command::Enumerate => Ok((Atom::from(Enumeration::new()), pos)),
        Command::Filter => {
            let regex = pattern_arg(input, pos)?;
            Ok((Atom::from(Filter::new(regex)), pos + 1))
        },
        Command::Match => {
            let regex = pattern_arg(input, pos)?;
            Ok((Atom::from(Match::new(regex)), pos + 1))
        },
        Command::Sub => {
            let regex = pattern_arg(input, pos)?;
            let replacement = next(input, pos + 1)?;
            Ok((Atom::from(Sub::new(regex, replacement.to_owned())), pos + 2))
        },
        Command::Gsub => {
            let regex = pattern_arg(input, pos)?;
            let replacement = next(input, pos + 1)?;
            Ok((Atom::from(Gsub::new(regex, replacement.to_owned())), pos + 2))
        },
        Command::MatchRange => {
            let start = pattern_arg(input, pos)?;
            let end = pattern_arg(input, pos + 1)?;
            Ok((Atom::from(MatchRange::new(start, end)), pos + 2))
        },
        Command::FilterRange => {
            let start = pattern_arg(input, pos)?;
            let end = pattern_arg(input, pos + 1)?;
            Ok((Atom::from(FilterRange::new(start, end)), pos + 2))
        },
        Command::Lines => {
            let token = next(input, pos)?;
            let atoms = arg(
                token,
                match lines_list(&to_chars(token)) {
                    Some(atoms) => Ok(atoms),
                    None => Err(ParseError::new()),
                },
            )?;
            Ok((Atom::from(Lines::new(atoms)), pos + 1))
        },
        Command::Fields => {
            let token = next(input, pos)?;
            let atoms = arg(
                token,
                match fields_list(&to_chars(token)) {
                    Some(atoms) => Ok(atoms),
                    None => Err(ParseError::new()),
                },
            )?;
            Ok((Atom::from(Fields::new(atoms)), pos + 1))
        },
    }
}

/// Reads the command at `pos`: its keyword, and then its arguments. Once the
/// keyword is known, a failure among the arguments is final, and is told
/// together with the keyword.
pub fn command(input: &[&str], pos: usize) -> (r: Result<Option<(Atom, usize)>, ParseError>)
    ensures
        match r {
            Ok(Some((atom, end))) => command_at(texts(input@), pos as int) == Ok::<
                Option<(Unit, int)>,
                Fault,
            >(Some((atom@, end as int))) && pos < end <= input.len(),
            Ok(None) => command_at(texts(input@), pos as int) == Ok::<Option<(Unit, int)>, Fault>(
                None,
            ),
            Err(error) => command_at(texts(input@), pos as int) == Err::<
                Option<(Unit, int)>,
                Fault,
            >(error@),
        },
{
    if pos >= input.len() {
        return Ok(None);
    }
    let token = input[pos];
    match keyword(token) {
        Some(found) => {
            let mut message = prefixed("Failed parsing arguments of '", token);
            message.append("'");
            let made = arguments(found, input, pos + 1).context(message)?;
            Ok(Some(made))
        },
        None => Err(ParseError::msg(prefixed("Not a recognized keyword: ", token))),
    }
}

/// Compiles a list of tokens into the pipeline that it describes. The
/// commands are read one after the other to the end of the list; the first
/// failure ends the reading, and no pipeline is made.
pub fn parse_args(input: &[&str]) -> (r: Result<Program, ParseError>)
    ensures
        match r {
            Ok(program) => compile(texts(input@)) == Ok::<Seq<Unit>, Fault>(program@),
            Err(error) => compile(texts(input@)) == Err::<Seq<Unit>, Fault>(error@),
        },
        r matches Ok(program) ==> all_ready(program@),
{
    let mut atoms: Vec<Atom> = Vec::new();
    let mut pos: usize = 0;
    let ghost tokens = texts(input@);
    loop
        invariant
            pos <= input.len(),
            tokens == texts(input@),
            compile(tokens) == match commands_from(tokens, pos as int) {
                Ok(units) => Ok::<Seq<Unit>, Fault>(units_of(atoms@) + units),
                Err(fault) => Err(fault),
            },
        decreases input.len() - pos,
    {
        match command(input, pos) {
            Ok(Some((atom, end))) => {
                proof {
                    let rest = commands_from(tokens, end as int);
                    if let Ok(units) = rest {
                        assert(units_of(atoms@.push(atom)) + units =~= units_of(atoms@)
                            + (seq![atom@] + units));
                    }
                }
                atoms.push(atom);
                pos = end;
            },
            Ok(None) => {
                assert(units_of(atoms@) + Seq::<Unit>::empty() =~= units_of(atoms@));
                proof {
                    law_compiled_units_are_ready(tokens, 0);
                }
                return Ok(Program::new(atoms));
            },
            Err(error) => {
                return Err(error);
            },
        }
    }
}

} // verus!
