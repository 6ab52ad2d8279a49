//! The line reader: one line of input becomes a command name and its
//! arguments. Words are the maximal runs of characters that are no
//! separators; each is folded to lower case, so that commands and arguments
//! are read without regard to case.

use vstd::prelude::*;
use crate::text::{
    ascii_lower, ascii_lowered, chars_of, fold_word, folded, is_ascii_char, is_ascii_text,
    is_separator, lemma_string_views_push, separates, string_views,
};

verus! {

/// The number of characters before the first separator of `s`.
pub open spec fn word_len(s: Seq<char>) -> nat
    decreases s.len(),
{
    if s.len() == 0 || is_separator(s[0]) {
        0
    } else {
        1 + word_len(s.skip(1))
    }
}

/// The words of `s`: its maximal runs of characters that are no separators,
/// from left to right.
pub open spec fn split_words(s: Seq<char>) -> Seq<Seq<char>>
    decreases s.len(),
{
    if s.len() == 0 {
        Seq::empty()
    } else if is_separator(s[0]) {
        split_words(s.skip(1))
    } else {
        proof {
            lemma_word_len_bounds(s);
        }
        seq![s.take(word_len(s) as int)] + split_words(s.skip(word_len(s) as int))
    }
}

/// The tokens of a line: its words, each in lower case.
pub open spec fn tokens_of(line: Seq<char>) -> Seq<Seq<char>> {
    lowered(split_words(line))
}

/// Each of `words` in lower case.
pub open spec fn lowered(words: Seq<Seq<char>>) -> Seq<Seq<char>> {
    words.map_values(|word: Seq<char>| folded(word))
}

/// Lower-casing one more word gives one more token.
pub proof fn lemma_lowered_push(words: Seq<Seq<char>>, word: Seq<char>)
    ensures
        lowered(words.push(word)) == lowered(words).push(folded(word)),
{
    assert(lowered(words.push(word)) =~= lowered(words).push(folded(word)));
}

/// A word is no longer than the text it starts, and not empty where the text
/// starts with a character that is no separator.
pub proof fn lemma_word_len_bounds(s: Seq<char>)
    ensures
        word_len(s) <= s.len(),
        s.len() > 0 && !is_separator(s[0]) ==> word_len(s) >= 1,
    decreases s.len(),
{
    if s.len() > 0 && !is_separator(s[0]) {
        lemma_word_len_bounds(s.skip(1));
    }
}

/// The first word of `s` has length `n` when its first `n` characters are no
/// separators and a separator, or the end of `s`, follows them.
pub proof fn lemma_word_len(s: Seq<char>, n: int)
    requires
        0 <= n <= s.len(),
        forall|k: int| 0 <= k < n ==> !is_separator(s[k]),
        n == s.len() || is_separator(s[n]),
    ensures
        word_len(s) == n,
    decreases s.len(),
{
    if n > 0 {
        let rest = s.skip(1);
        assert forall|k: int| 0 <= k < n - 1 implies !is_separator(rest[k]) by {
            assert(rest[k] == s[k + 1]);
        }
        lemma_word_len(rest, n - 1);
    }
}

/// The first word of `s` holds no separator, and a separator or the end of
/// `s` follows it.
pub proof fn lemma_word_len_is_first(s: Seq<char>)
    ensures
        word_len(s) <= s.len(),
        forall|k: int| 0 <= k < word_len(s) ==> !is_separator(s[k]),
        word_len(s) < s.len() ==> is_separator(s[word_len(s) as int]),
    decreases s.len(),
{
    if s.len() > 0 && !is_separator(s[0]) {
        let rest = s.skip(1);
        lemma_word_len_is_first(rest);
        assert forall|k: int| 0 <= k < word_len(s) implies !is_separator(s[k]) by {
            if k > 0 {
                assert(rest[k - 1] == s[k]);
            }
        }
        if word_len(s) < s.len() {
            assert(rest[word_len(rest) as int] == s[word_len(s) as int]);
        }
    }
}

/// Whether `w` is a word: at least one character, and none that is a
/// separator.
pub open spec fn is_word(w: Seq<char>) -> bool {
    w.len() > 0 && forall|k: int| 0 <= k < w.len() ==> !is_separator(#[trigger] w[k])
}

/// Every word of a line has at least one character, and none that is a
/// separator.
pub proof fn law_words_hold_no_separator(s: Seq<char>)
    ensures
        forall|i: int| 0 <= i < split_words(s).len() ==> is_word(#[trigger] split_words(s)[i]),
    decreases s.len(),
{
    if s.len() == 0 {
        assert(split_words(s).len() == 0);
    } else if is_separator(s[0]) {
        law_words_hold_no_separator(s.skip(1));
        assert(split_words(s) == split_words(s.skip(1)));
    } else {
        lemma_word_len_bounds(s);
        lemma_word_len_is_first(s);
        let n = word_len(s) as int;
        law_words_hold_no_separator(s.skip(n));
        let rest = split_words(s.skip(n));
        let words = split_words(s);
        assert(words =~= seq![s.take(n)] + rest);
        assert(is_word(s.take(n)));
        assert(words[0] == s.take(n));
        assert forall|i: int| 0 <= i < words.len() implies is_word(#[trigger] words[i]) by {
            if i > 0 {
                assert(words[i] == rest[i - 1]);
            }
        }
    }
}

/// Whether `s` holds separators only.
pub open spec fn is_blank(s: Seq<char>) -> bool {
    forall|k: int| 0 <= k < s.len() ==> is_separator(s[k])
}

/// A line has no word exactly where it holds separators only.
pub proof fn law_blank_lines_have_no_words(s: Seq<char>)
    ensures
        split_words(s).len() == 0 <==> is_blank(s),
    decreases s.len(),
{
    if s.len() == 0 {
    } else if is_separator(s[0]) {
        let rest = s.skip(1);
        law_blank_lines_have_no_words(rest);
        if split_words(s).len() == 0 {
            assert forall|k: int| 0 <= k < s.len() implies is_separator(s[k]) by {
                if k > 0 {
                    assert(rest[k - 1] == s[k]);
                }
            }
        }
        if is_blank(s) {
            assert forall|k: int| 0 <= k < rest.len() implies is_separator(rest[k]) by {
                assert(rest[k] == s[k + 1]);
            }
        }
    } else {
        lemma_word_len_bounds(s);
    }
}

/// The words of two texts written one behind the other are the words of the
/// first and then those of the second, where a separator stands between
/// them: at the end of the first or at the start of the second.
pub proof fn law_words_of_concat(x: Seq<char>, y: Seq<char>)
    requires
        x.len() == 0 || y.len() == 0 || is_separator(x.last()) || is_separator(y[0]),
    ensures
        split_words(x + y) == split_words(x) + split_words(y),
    decreases x.len(),
{
    if x.len() == 0 {
        assert(x + y =~= y);
        assert(split_words(x) + split_words(y) =~= split_words(y));
    } else if is_separator(x[0]) {
        let rest = x.skip(1);
        assert((x + y).skip(1) =~= rest + y);
        if rest.len() > 0 {
            assert(rest.last() == x.last());
        }
        law_words_of_concat(rest, y);
        assert(split_words(x + y) == split_words((x + y).skip(1)));
    } else {
        lemma_word_len_bounds(x);
        lemma_word_len_is_first(x);
        let n = word_len(x) as int;
        assert forall|k: int| 0 <= k < n implies !is_separator((x + y)[k]) by {
            assert((x + y)[k] == x[k]);
        }
        if n < x.len() {
            assert((x + y)[n] == x[n]);
        } else if y.len() > 0 {
            assert(!is_separator(x[n - 1]));
            assert((x + y)[n] == y[0]);
        }
        lemma_word_len(x + y, n);
        let rest = x.skip(n);
        assert((x + y).skip(n) =~= rest + y);
        assert((x + y).take(n) =~= x.take(n));
        if rest.len() > 0 {
            assert(rest.last() == x.last());
        }
        law_words_of_concat(rest, y);
        assert(split_words(x + y) =~= split_words(x) + split_words(y));
    }
}

/// A word alone on a line is the one word of that line.
pub proof fn lemma_word_alone(w: Seq<char>)
    requires
        is_word(w),
    ensures
        split_words(w) == seq![w],
{
    lemma_word_len(w, w.len() as int);
    assert(w.take(w.len() as int) =~= w);
    assert(w.skip(w.len() as int) =~= Seq::<char>::empty());
    assert(split_words(w.skip(w.len() as int)) =~= Seq::<Seq<char>>::empty());
    assert(split_words(w) =~= seq![w]);
}

/// A line that holds one word, and separators behind it, spells the command
/// of that name without arguments.
pub proof fn lemma_line_of_one_word(name: Seq<char>, end: Seq<char>)
    requires
        is_word(name),
        is_blank(end),
    ensures
        command_of(tokens_of(name + end)) == Some(
            ParsedCommandView { name: folded(name), raw_args: Seq::empty() },
        ),
{
    lemma_word_alone(name);
    law_blank_lines_have_no_words(end);
    law_words_of_concat(name, end);
    assert(split_words(name + end) =~= seq![name]);
    assert(tokens_of(name + end) =~= seq![folded(name)]);
    assert(tokens_of(name + end).skip(1) =~= Seq::<Seq<char>>::empty());
}

/// A line that holds two words with a space between them, and separators
/// behind them, spells the command of the first word's name with the second
/// word as its one argument.
pub proof fn lemma_line_of_two_words(name: Seq<char>, arg: Seq<char>, end: Seq<char>)
    requires
        is_word(name),
        is_word(arg),
        is_blank(end),
    ensures
        command_of(tokens_of(name + seq![' '] + arg + end)) == Some(
            ParsedCommandView { name: folded(name), raw_args: seq![folded(arg)] },
        ),
{
    let space = seq![' '];
    lemma_word_alone(name);
    lemma_word_alone(arg);
    law_blank_lines_have_no_words(end);
    law_blank_lines_have_no_words(space);
    law_words_of_concat(name, space);
    law_words_of_concat(name + space, arg);
    law_words_of_concat(name + space + arg, end);
    assert(split_words(name + space + arg + end) =~= seq![name, arg]);
    assert(tokens_of(name + space + arg + end) =~= seq![folded(name), folded(arg)]);
    assert(tokens_of(name + space + arg + end).skip(1) =~= seq![folded(arg)]);
}

/// Folding an ASCII character to lower case neither makes nor unmakes a
/// separator.
pub proof fn lemma_ascii_lower_keeps_separators(c: char)
    ensures
        is_separator(ascii_lower(c)) == is_separator(c),
{
}

/// The lower case of an ASCII character is an ASCII character, and its own
/// lower case.
pub proof fn lemma_ascii_lower_twice(c: char)
    ensures
        is_ascii_char(c) ==> is_ascii_char(ascii_lower(c)),
        ascii_lower(ascii_lower(c)) == ascii_lower(c),
{
}

/// The words of a line in ASCII lower case are the words of the line, each
/// in ASCII lower case.
pub proof fn lemma_words_of_ascii_lowered(s: Seq<char>)
    ensures
        split_words(ascii_lowered(s)) == split_words(s).map_values(
            |word: Seq<char>| ascii_lowered(word),
        ),
    decreases s.len(),
{
    let low = ascii_lowered(s);
    let each = |word: Seq<char>| ascii_lowered(word);
    if s.len() == 0 {
        assert(split_words(low) =~= split_words(s).map_values(each));
    } else if is_separator(s[0]) {
        lemma_ascii_lower_keeps_separators(s[0]);
        assert(low.skip(1) =~= ascii_lowered(s.skip(1)));
        lemma_words_of_ascii_lowered(s.skip(1));
        assert(split_words(low) == split_words(low.skip(1)));
    } else {
        lemma_ascii_lower_keeps_separators(s[0]);
        lemma_word_len_bounds(s);
        lemma_word_len_is_first(s);
        let n = word_len(s) as int;
        assert forall|k: int| 0 <= k < n implies !is_separator(low[k]) by {
            lemma_ascii_lower_keeps_separators(s[k]);
        }
        if n < s.len() {
            lemma_ascii_lower_keeps_separators(s[n]);
        }
        lemma_word_len(low, n);
        assert(low.take(n) =~= ascii_lowered(s.take(n)));
        assert(low.skip(n) =~= ascii_lowered(s.skip(n)));
        lemma_words_of_ascii_lowered(s.skip(n));
        assert(split_words(low) =~= split_words(s).map_values(each));
    }
}

/// The words of an ASCII line are ASCII.
pub proof fn lemma_words_of_ascii_text(s: Seq<char>)
    requires
        is_ascii_text(s),
    ensures
        forall|i: int|
            0 <= i < split_words(s).len() ==> is_ascii_text(#[trigger] split_words(s)[i]),
    decreases s.len(),
{
    if s.len() == 0 {
        assert(split_words(s).len() == 0);
    } else if is_separator(s[0]) {
        let rest = s.skip(1);
        assert forall|k: int| 0 <= k < rest.len() implies is_ascii_char(#[trigger] rest[k]) by {
            assert(rest[k] == s[k + 1]);
        }
        lemma_words_of_ascii_text(rest);
        assert(split_words(s) == split_words(rest));
    } else {
        lemma_word_len_bounds(s);
        let n = word_len(s) as int;
        let rest = s.skip(n);
        assert forall|k: int| 0 <= k < rest.len() implies is_ascii_char(#[trigger] rest[k]) by {
            assert(rest[k] == s[k + n]);
        }
        lemma_words_of_ascii_text(rest);
        let words = split_words(s);
        let first = s.take(n);
        assert(words =~= seq![first] + split_words(rest));
        assert forall|k: int| 0 <= k < first.len() implies is_ascii_char(#[trigger] first[k]) by {
            assert(first[k] == s[k]);
        }
        assert(words[0] == first);
        assert forall|i: int| 0 <= i < words.len() implies is_ascii_text(#[trigger] words[i]) by {
            if i > 0 {
                assert(words[i] == split_words(rest)[i - 1]);
            }
        }
    }
}

/// Case is ignored: an ASCII line and the same line in lower case have the
/// same tokens.
pub proof fn law_case_is_ignored(line: Seq<char>)
    requires
        is_ascii_text(line),
    ensures
        tokens_of(ascii_lowered(line)) == tokens_of(line),
{
    lemma_words_of_ascii_lowered(line);
    lemma_words_of_ascii_text(line);
    let words = split_words(line);
    let low_words = split_words(ascii_lowered(line));
    assert(low_words.len() == words.len());
    assert forall|i: int| 0 <= i < words.len() implies folded(#[trigger] low_words[i]) == folded(
        words[i],
    ) by {
        let w = words[i];
        assert(is_ascii_text(w));
        assert(low_words[i] == ascii_lowered(w));
        let low = ascii_lowered(w);
        assert forall|k: int| 0 <= k < low.len() implies is_ascii_char(#[trigger] low[k])
            && ascii_lower(low[k]) == low[k] by {
            assert(is_ascii_char(w[k]));
            assert(low[k] == ascii_lower(w[k]));
            lemma_ascii_lower_twice(w[k]);
        }
        assert(ascii_lowered(low) =~= low);
    }
    assert(tokens_of(ascii_lowered(line)) =~= tokens_of(line));
}

/// A command line, read: the command's name and the arguments behind it.
#[derive(Debug, PartialEq, Eq)]
pub struct ParsedCommand {
    pub name: String,
    pub raw_args: Vec<String>,
}

/// A parsed command, as contracts see it.
pub struct ParsedCommandView {
    pub name: Seq<char>,
    pub raw_args: Seq<Seq<char>>,
}

impl View for ParsedCommand {
    type V = ParsedCommandView;

    open spec fn view(&self) -> ParsedCommandView {
        ParsedCommandView { name: self.name@, raw_args: string_views(self.raw_args@) }
    }
}

/// The command that `tokens` spell: the first is its name, the others its
/// arguments. No tokens spell no command.
pub open spec fn command_of(tokens: Seq<Seq<char>>) -> Option<ParsedCommandView> {
    if tokens.len() == 0 {
        None
    } else {
        Some(ParsedCommandView { name: tokens[0], raw_args: tokens.skip(1) })
    }
}

/// The tokens of `line`.
pub fn tokenize(line: &str) -> (tokens: Vec<String>)
    ensures
        string_views(tokens@) == tokens_of(line@),
{
    let chars = chars_of(line);
    let n = chars.len();
    let mut tokens: Vec<String> = Vec::new();
    let ghost mut words: Seq<Seq<char>> = Seq::empty();
    let mut start: usize = 0;
    let mut i: usize = 0;
    assert(chars@.skip(0) =~= chars@);
    assert(string_views(tokens@) =~= lowered(words));
    while i < n
        invariant
            start <= i <= n == chars.len(),
            forall|k: int| start <= k < i ==> !is_separator(chars@[k]),
            split_words(chars@) == words + split_words(chars@.skip(start as int)),
            string_views(tokens@) == lowered(words),
        decreases n - i,
    {
        if separates(chars[i]) {
            if start < i {
                let token = fold_word(&chars, start, i);
                proof {
                    let word = chars@.subrange(start as int, i as int);
                    lemma_word_ends(chars@, start as int, i as int);
                    lemma_string_views_push(tokens@, token);
                    lemma_lowered_push(words, word);
                    words = words.push(word);
                }
                tokens.push(token);
            }
            proof {
                let rest = chars@.skip(i as int);
                assert(rest[0] == chars@[i as int]);
                assert(rest.skip(1) =~= chars@.skip(i + 1));
            }
            start = i + 1;
        }
        i += 1;
    }
    if start < n {
        let token = fold_word(&chars, start, n);
        proof {
            let word = chars@.subrange(start as int, n as int);
            lemma_word_ends(chars@, start as int, n as int);
            assert(chars@.skip(n as int).len() == 0);
            lemma_string_views_push(tokens@, token);
            lemma_lowered_push(words, word);
            words = words.push(word);
        }
        tokens.push(token);
    } else {
        assert(chars@.skip(start as int).len() == 0);
    }
    assert(split_words(chars@) =~= words);
    tokens
}

/// Where `s[start..end]` holds no separator and a separator, or the end of
/// `s`, follows it, the words of `s[start..]` are `s[start..end]` and the
/// words of `s[end..]`.
pub proof fn lemma_word_ends(s: Seq<char>, start: int, end: int)
    requires
        0 <= start < end <= s.len(),
        forall|k: int| start <= k < end ==> !is_separator(s[k]),
        end == s.len() || is_separator(s[end]),
    ensures
        split_words(s.skip(start)) == seq![s.subrange(start, end)] + split_words(s.skip(end)),
{
    let t = s.skip(start);
    lemma_word_len(t, end - start);
    assert(t.take(end - start) =~= s.subrange(start, end));
    assert(t.skip(end - start) =~= s.skip(end));
}

impl ParsedCommand {
    /// Reads one line. `None` when the line holds no word.
    pub fn parse(line: &str) -> (parsed: Option<ParsedCommand>)
        ensures
            match parsed {
                Some(command) => command_of(tokens_of(line@)) == Some(command@),
                None => command_of(tokens_of(line@)) is None,
            },
    {
        let mut tokens = tokenize(line);
        if tokens.len() == 0 {
            return None;
        }
        let ghost all = tokens@;
        let name = tokens.remove(0);
        let command = ParsedCommand { name, raw_args: tokens };
        assert(command@.raw_args =~= string_views(all).skip(1));
        Some(command)
    }
}

} // verus!
