//! Characters and strings: the separator class of the command line, and the
//! few string operations the shell needs beyond what `vstd` specifies.

use vstd::prelude::*;

verus! {

/// Whether `c` separates words on a command line: the code points that carry
/// the Unicode property `White_Space`.
pub open spec fn is_separator(c: char) -> bool {
    let n = c as u32;
    ||| 0x09 <= n <= 0x0D
    ||| n == 0x20
    ||| n == 0x85
    ||| n == 0xA0
    ||| n == 0x1680
    ||| 0x2000 <= n <= 0x200A
    ||| n == 0x2028
    ||| n == 0x2029
    ||| n == 0x202F
    ||| n == 0x205F
    ||| n == 0x3000
}

/// Decides [`is_separator`].
pub fn separates(c: char) -> (b: bool)
    ensures
        b == is_separator(c),
{
    let n: u32 = c as u32;
    (0x09 <= n && n <= 0x0D) || n == 0x20 || n == 0x85 || n == 0xA0 || n == 0x1680 || (0x2000 <= n
        && n <= 0x200A) || n == 0x2028 || n == 0x2029 || n == 0x202F || n == 0x205F || n == 0x3000
}

/// `String::push` appends one character to the end of the string.
pub assume_specification[ String::push ](s: &mut String, ch: char)
    ensures
        final(s)@ == old(s)@.push(ch),
;

/// What `str::to_lowercase` makes of `text`.
pub uninterp spec fn lowercase_of(text: Seq<char>) -> Seq<char>;

/// `str::to_lowercase`: the lowercase equivalent of `word` as Unicode defines
/// it. The contract only names the result: the same characters always give
/// the same string.
#[verifier::external_body]
pub(crate) fn to_lowercase(word: &str) -> (lowered: String)
    ensures
        lowered@ == lowercase_of(word@),
{
    word.to_lowercase()
}

/// Whether `c` is an ASCII character.
pub open spec fn is_ascii_char(c: char) -> bool {
    (c as u32) < 0x80
}

/// Whether `s` holds ASCII characters only.
pub open spec fn is_ascii_text(s: Seq<char>) -> bool {
    forall|i: int| 0 <= i < s.len() ==> is_ascii_char(#[trigger] s[i])
}

/// The lower case of an ASCII character: `A` to `Z` become `a` to `z`, all
/// others stay.
pub open spec fn ascii_lower(c: char) -> char {
    if 'A' as u32 <= c as u32 <= 'Z' as u32 {
        (c as u8 + 32) as u8 as char
    } else {
        c
    }
}

/// Each character of `s` in ASCII lower case.
pub open spec fn ascii_lowered(s: Seq<char>) -> Seq<char> {
    s.map_values(|c: char| ascii_lower(c))
}

/// `word` in lower case. A word of ASCII characters is folded character by
/// character; for any other word the lower case is what Unicode defines.
pub open spec fn folded(word: Seq<char>) -> Seq<char> {
    if is_ascii_text(word) {
        ascii_lowered(word)
    } else {
        lowercase_of(word)
    }
}

/// Whether `s` holds ASCII characters only, and no capital letter.
pub open spec fn is_plain(s: Seq<char>) -> bool {
    forall|i: int|
        0 <= i < s.len() ==> is_ascii_char(#[trigger] s[i]) && !('A' as u32 <= s[i] as u32 <= 'Z' as u32)
}

/// Folding leaves a plain word as it is.
pub proof fn lemma_plain_folds_to_itself(word: Seq<char>)
    requires
        is_plain(word),
    ensures
        folded(word) == word,
{
    assert(ascii_lowered(word) =~= word);
}

/// Computes [`ascii_lower`].
pub fn lower_ascii(c: char) -> (lower: char)
    ensures
        lower == ascii_lower(c),
{
    let n: u32 = c as u32;
    if 'A' as u32 <= n && n <= 'Z' as u32 {
        (c as u8 + 32) as char
    } else {
        c
    }
}

/// Whether `chars[from..to]` holds ASCII characters only.
fn ascii_between(chars: &Vec<char>, from: usize, to: usize) -> (ascii: bool)
    requires
        from <= to <= chars.len(),
    ensures
        ascii == is_ascii_text(chars@.subrange(from as int, to as int)),
{
    let mut i: usize = from;
    while i < to
        invariant
            from <= i <= to <= chars.len(),
            is_ascii_text(chars@.subrange(from as int, i as int)),
        decreases to - i,
    {
        if chars[i] as u32 >= 0x80 {
            assert(chars@.subrange(from as int, to as int)[i - from] == chars@[i as int]);
            return false;
        }
        assert forall|k: int| 0 <= k < i + 1 - from implies is_ascii_char(
            #[trigger] chars@.subrange(from as int, i + 1)[k],
        ) by {
            if k < i - from {
                assert(chars@.subrange(from as int, i as int)[k] == chars@[from + k]);
            }
        }
        i += 1;
    }
    true
}

/// The word `chars[from..to]` in lower case.
pub(crate) fn fold_word(chars: &Vec<char>, from: usize, to: usize) -> (token: String)
    requires
        from <= to <= chars.len(),
    ensures
        token@ == folded(chars@.subrange(from as int, to as int)),
{
    if !ascii_between(chars, from, to) {
        let word = string_of(chars, from, to);
        return to_lowercase(word.as_str());
    }
    let ghost word = chars@.subrange(from as int, to as int);
    let mut token = String::new();
    let mut i: usize = from;
    while i < to
        invariant
            from <= i <= to <= chars.len(),
            word == chars@.subrange(from as int, to as int),
            token@ == ascii_lowered(word.take(i - from)),
        decreases to - i,
    {
        token.push(lower_ascii(chars[i]));
        proof {
            assert(word[i - from] == chars@[i as int]);
            assert(ascii_lowered(word.take(i + 1 - from)) =~= ascii_lowered(
                word.take(i - from),
            ).push(ascii_lower(chars@[i as int])));
        }
        i += 1;
    }
    assert(word.take(to - from) =~= word);
    token
}

/// The views of `strings`, in order.
pub open spec fn string_views(strings: Seq<String>) -> Seq<Seq<char>> {
    strings.map_values(|s: String| s@)
}

/// The views of `strings` with one more string are the views of `strings`
/// with one more view.
pub proof fn lemma_string_views_push(strings: Seq<String>, last: String)
    ensures
        string_views(strings.push(last)) == string_views(strings).push(last@),
{
    assert(string_views(strings.push(last)) =~= string_views(strings).push(last@));
}

/// `parts` in one text, with `separator` between each two of them.
pub open spec fn joined(parts: Seq<Seq<char>>, separator: Seq<char>) -> Seq<char>
    decreases parts.len(),
{
    if parts.len() == 0 {
        Seq::empty()
    } else if parts.len() == 1 {
        parts[0]
    } else {
        joined(parts.drop_last(), separator) + separator + parts.last()
    }
}

/// Computes [`joined`].
pub fn join(parts: &Vec<String>, separator: &str) -> (text: String)
    ensures
        text@ == joined(string_views(parts@), separator@),
{
    let mut text = String::new();
    let mut i: usize = 0;
    while i < parts.len()
        invariant
            i <= parts.len(),
            text@ == joined(string_views(parts@).take(i as int), separator@),
        decreases parts.len() - i,
    {
        if i > 0 {
            text.append(separator);
        }
        text.append(parts[i].as_str());
        proof {
            let before = string_views(parts@).take(i as int);
            let now = string_views(parts@).take(i + 1);
            assert(now.drop_last() =~= before);
            assert(now.last() == parts@[i as int]@);
            if i == 0 {
                assert(text@ =~= now[0]);
            }
        }
        i += 1;
    }
    assert(string_views(parts@).take(parts.len() as int) =~= string_views(parts@));
    text
}

/// The characters of `line`, in order.
pub fn chars_of(line: &str) -> (chars: Vec<char>)
    ensures
        chars@ == line@,
{
    let mut chars: Vec<char> = Vec::new();
    let it = line.chars();
    for c in iter: it
        invariant
            chars@ == iter.seq().take(iter.index()),
            iter.seq() == line@,
    {
        chars.push(c);
    }
    chars
}

/// The string made of `chars[from..to]`.
pub(crate) fn string_of(chars: &Vec<char>, from: usize, to: usize) -> (s: String)
    requires
        from <= to <= chars.len(),
    ensures
        s@ == chars@.subrange(from as int, to as int),
{
    let mut s = String::new();
    let mut i: usize = from;
    while i < to
        invariant
            from <= i <= to <= chars.len(),
            s@ == chars@.subrange(from as int, i as int),
        decreases to - i,
    {
        s.push(chars[i]);
        i += 1;
    }
    s
}

/// Appends `chars[from..to]` to `s`.
pub(crate) fn push_range(s: &mut String, chars: &Vec<char>, from: usize, to: usize)
    requires
        from <= to <= chars.len(),
    ensures
        final(s)@ == old(s)@ + chars@.subrange(from as int, to as int),
{
    let mut i: usize = from;
    while i < to
        invariant
            from <= i <= to <= chars.len(),
            s@ == old(s)@ + chars@.subrange(from as int, i as int),
        decreases to - i,
    {
        s.push(chars[i]);
        i += 1;
        assert(chars@.subrange(from as int, i as int) =~= chars@.subrange(from as int, i - 1).push(
            chars@[i - 1],
        ));
    }
}

} // verus!
