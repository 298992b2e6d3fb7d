//! Characters and strings: decimal numerals, and the fields of a line.

use vstd::prelude::*;
use vstd::string::StrSliceExecFns;

verus! {

/// `String::push` adds one character at the end of the string.
pub assume_specification[ String::push ](s: &mut String, ch: char)
    ensures
        final(s)@ == old(s)@.push(ch),
;

/// `==` on two string slices holds exactly when they hold the same characters.
pub assume_specification[ <str as PartialEq<str>>::eq ](a: &str, b: &str) -> (r: bool)
    ensures
        r == (a@ == b@),
;

/// Whether `c` is one of the ten decimal digits.
pub open spec fn is_digit(c: char) -> bool {
    '0' <= c <= '9'
}

/// The number that the digit `c` stands for.
pub open spec fn digit_value(c: char) -> nat {
    (c as nat - '0' as nat) as nat
}

/// The digit that stands for `d`, for `d` below ten.
pub open spec fn digit_char(d: nat) -> char {
    (d + '0' as nat) as char
}

/// The decimal numeral of `n`, without leading zeros.
pub open spec fn decimal(n: nat) -> Seq<char>
    decreases n,
{
    if n < 10 {
        seq![digit_char(n)]
    } else {
        decimal(n / 10).push(digit_char(n % 10))
    }
}

/// The number that a sequence of decimal digits denotes; the empty sequence denotes 0.
pub open spec fn decimal_value(digits: Seq<char>) -> nat
    decreases digits.len(),
{
    if digits.len() == 0 {
        0
    } else {
        decimal_value(digits.drop_last()) * 10 + digit_value(digits.last())
    }
}

/// Whether every character of `s` is a decimal digit.
pub open spec fn all_digits(s: Seq<char>) -> bool {
    forall|i: int| 0 <= i < s.len() ==> is_digit(#[trigger] s[i])
}

/// A numeral is made of digits, and reading it back gives the number it was written for.
pub proof fn law_decimal_round_trip(n: nat)
    ensures
        decimal(n).len() > 0,
        all_digits(decimal(n)),
        decimal_value(decimal(n)) == n,
    decreases n,
{
    if n < 10 {
        assert(decimal(n).drop_last() =~= Seq::<char>::empty());
        assert(decimal_value(decimal(n).drop_last()) == 0);
    } else {
        law_decimal_round_trip(n / 10);
        assert(decimal(n).drop_last() =~= decimal(n / 10));
    }
}

/// The decimal digit for a number below ten.
pub fn digit_of(d: u8) -> (c: char)
    requires
        d < 10,
    ensures
        c == digit_char(d as nat),
{
    ('0' as u8 + d) as char
}

/// Writes `n` in decimal.
pub fn decimal_string(n: u32) -> (s: String)
    ensures
        s@ == decimal(n as nat),
    decreases n,
{
    if n < 10 {
        let mut s = String::new();
        s.push(digit_of(n as u8));
        s
    } else {
        let mut s = decimal_string(n / 10);
        s.push(digit_of((n % 10) as u8));
        s
    }
}

/// The characters of a string, one by one.
pub fn to_chars(s: &str) -> (v: Vec<char>)
    ensures
        v@ == s@,
{
    let mut v: Vec<char> = Vec::new();
    for c in it: s.chars()
        invariant
            it.seq() == s@,
            v@ == s@.take(it.index()),
    {
        v.push(c);
    }
    v
}

/// How many characters stand before the first space of `s`.
pub open spec fn word_len(s: Seq<char>) -> nat
    decreases s.len(),
{
    if s.len() == 0 || s[0] == ' ' {
        0
    } else {
        1 + word_len(s.drop_first())
    }
}

/// The first space of `s`, if it has one, is at `word_len(s)`, and no space stands before it.
pub proof fn lemma_word_len(s: Seq<char>)
    ensures
        word_len(s) <= s.len(),
        word_len(s) < s.len() ==> s[word_len(s) as int] == ' ',
        forall|i: int| 0 <= i < word_len(s) ==> #[trigger] s[i] != ' ',
    decreases s.len(),
{
    if s.len() != 0 && s[0] != ' ' {
        let t = s.drop_first();
        lemma_word_len(t);
        assert forall|i: int| 0 <= i < word_len(s) implies #[trigger] s[i] != ' ' by {
            if i > 0 {
                assert(s[i] == t[i - 1]);
            }
        }
    }
}

/// The fields of a line: its longest runs of characters other than the space,
/// from left to right. Spaces separate fields and belong to none, so no field
/// is empty, however many spaces stand together.
pub open spec fn fields(s: Seq<char>) -> Seq<Seq<char>>
    decreases s.len(),
    via fields_decreases
{
    if s.len() == 0 {
        Seq::empty()
    } else if s[0] == ' ' {
        fields(s.drop_first())
    } else {
        seq![s.take(word_len(s) as int)] + fields(s.skip(word_len(s) as int))
    }
}

#[via_fn]
proof fn fields_decreases(s: Seq<char>) {
    lemma_word_len(s);
}

/// Whether `s` holds no space.
pub open spec fn space_free(s: Seq<char>) -> bool {
    forall|i: int| 0 <= i < s.len() ==> #[trigger] s[i] != ' '
}

/// A run without spaces that ends the line, or that a space follows, is a field.
pub proof fn lemma_fields_after_word(word: Seq<char>, rest: Seq<char>)
    requires
        space_free(word),
        rest.len() == 0 || rest[0] == ' ',
    ensures
        fields(word + rest) == if word.len() == 0 {
            fields(rest)
        } else {
            seq![word] + fields(rest)
        },
{
    let s = word + rest;
    if word.len() == 0 {
        assert(s =~= rest);
    } else {
        lemma_word_len_of_concat(word, rest);
        assert(s[0] == word[0]);
        assert(s.take(word.len() as int) =~= word);
        assert(s.skip(word.len() as int) =~= rest);
    }
}

proof fn lemma_word_len_of_concat(word: Seq<char>, rest: Seq<char>)
    requires
        space_free(word),
        rest.len() == 0 || rest[0] == ' ',
    ensures
        word_len(word + rest) == word.len(),
    decreases word.len(),
{
    let s = word + rest;
    if word.len() == 0 {
        assert(s =~= rest);
    } else {
        assert(s[0] == word[0]);
        assert(s.drop_first() =~= word.drop_first() + rest);
        lemma_word_len_of_concat(word.drop_first(), rest);
    }
}

/// Whether each of `words` could be a field: none is empty, and none holds a space.
pub open spec fn all_words(words: Seq<Seq<char>>) -> bool {
    forall|i: int| 0 <= i < words.len() ==> (#[trigger] words[i]).len() > 0 && space_free(words[i])
}

/// No field is empty, and none holds a space.
pub proof fn law_fields_are_words(s: Seq<char>)
    ensures
        all_words(fields(s)),
    decreases s.len(),
{
    if s.len() == 0 {
    } else if s[0] == ' ' {
        law_fields_are_words(s.drop_first());
    } else {
        lemma_word_len(s);
        let n = word_len(s) as int;
        law_fields_are_words(s.skip(n));
        let rest = fields(s.skip(n));
        assert forall|i: int| 0 <= i < fields(s).len() implies (#[trigger] fields(s)[i]).len() > 0
            && space_free(fields(s)[i]) by {
            if i > 0 {
                assert(fields(s)[i] == rest[i - 1]);
            }
        }
    }
}

/// A space between two texts parts their fields: the fields of the whole are
/// those of the first text and then those of the second.
pub proof fn law_fields_around_space(before: Seq<char>, after: Seq<char>)
    ensures
        fields(before + seq![' '] + after) == fields(before) + fields(after),
    decreases before.len(),
{
    let s = before + seq![' '] + after;
    if before.len() == 0 {
        assert(s.drop_first() =~= after);
        assert(fields(before) + fields(after) =~= fields(after));
    } else if before[0] == ' ' {
        assert(s.drop_first() =~= before.drop_first() + seq![' '] + after);
        law_fields_around_space(before.drop_first(), after);
    } else {
        lemma_word_len(before);
        let n = word_len(before) as int;
        let word = before.take(n);
        let tail = before.skip(n);
        assert(s =~= word + (tail + seq![' '] + after));
        assert((tail + seq![' '] + after)[0] == ' ');
        lemma_word_len_of_concat(word, tail + seq![' '] + after);
        assert(s[0] == before[0]);
        assert(s.take(n) =~= word);
        assert(s.skip(n) =~= tail + seq![' '] + after);
        law_fields_around_space(tail, after);
        assert(seq![word] + (fields(tail) + fields(after)) =~= (seq![word] + fields(tail))
            + fields(after));
    }
}

/// To split what was joined gives the words back, where each of them could be
/// a field.
pub proof fn law_fields_of_join(words: Seq<Seq<char>>)
    requires
        all_words(words),
    ensures
        fields(join(words)) == words,
    decreases words.len(),
{
    if words.len() == 0 {
    } else {
        let last = words.last();
        lemma_fields_after_word(last, Seq::empty());
        assert(last + Seq::<char>::empty() =~= last);
        if words.len() == 1 {
            assert(words =~= seq![last]);
        } else {
            law_fields_of_join(words.drop_last());
            law_fields_around_space(join(words.drop_last()), last);
            assert(words.drop_last() + seq![last] =~= words);
        }
    }
}

/// The words with one space between each two neighbours.
pub open spec fn join(words: Seq<Seq<char>>) -> Seq<char>
    decreases words.len(),
{
    if words.len() == 0 {
        Seq::empty()
    } else if words.len() == 1 {
        words[0]
    } else {
        join(words.drop_last()) + seq![' '] + words.last()
    }
}

/// The characters of each string of `v`.
pub open spec fn views(v: Seq<String>) -> Seq<Seq<char>> {
    v.map_values(|s: String| s@)
}

/// Splits a line into its fields. There are fewer of them than `usize` can count.
pub fn split_fields(line: &str) -> (words: Vec<String>)
    ensures
        views(words@) == fields(line@),
        2 * words.len() <= line@.len() + 1,
        words.len() < usize::MAX,
{
    // The count bounds the number of fields: two fields have a space between them.
    let _chars = line.unicode_len();
    let mut words: Vec<String> = Vec::new();
    let mut word = String::new();
    assert(word@ + line@.skip(0) =~= line@);
    assert(views(words@) + fields(line@) =~= fields(line@));
    for c in it: line.chars()
        invariant
            it.seq() == line@,
            space_free(word@),
            fields(line@) == views(words@) + fields(word@ + line@.skip(it.index())),
            2 * words.len() + word@.len() <= it.index(),
    {
        let ghost rest = line@.skip(it.index());
        let ghost after = line@.skip(it.index() + 1);
        assert(rest.drop_first() =~= after);
        if c == ' ' {
            proof {
                lemma_fields_after_word(word@, rest);
            }
            if !word.as_str().is_empty() {
                assert(views(words@.push(word)) =~= views(words@) + seq![word@]);
                words.push(word);
                word = String::new();
            }
            assert(word@ + after =~= after);
        } else {
            assert(word@.push(c) + after =~= word@ + rest);
            word.push(c);
        }
    }
    proof {
        let rest = line@.skip(line@.len() as int);
        lemma_fields_after_word(word@, rest);
    }
    if !word.as_str().is_empty() {
        assert(views(words@.push(word)) =~= views(words@) + seq![word@]);
        words.push(word);
    }
    words
}

} // verus!
