//! Extraction of a command name from the text of a message.
//!
//! A message is a command when it starts with the configured prefix. Its
//! name is the first whitespace-delimited token of the text with one leading
//! character removed. Text is handled as a sequence of `char`s throughout, so
//! names outside ASCII come out whole.

use vstd::prelude::*;
use vstd::string::*;

verus! {

/// Whether `c` has the Unicode property `White_Space`.
pub open spec fn is_whitespace(c: char) -> bool {
    let u = c as u32;
    ||| 0x09 <= u <= 0x0D
    ||| u == 0x20
    ||| u == 0x85
    ||| u == 0xA0
    ||| u == 0x1680
    ||| 0x2000 <= u <= 0x200A
    ||| u == 0x2028
    ||| u == 0x2029
    ||| u == 0x202F
    ||| u == 0x205F
    ||| u == 0x3000
}

/// The first position at or after `i` that holds no whitespace, or the
/// length of `s` when only whitespace follows.
pub open spec fn skip_whitespace(s: Seq<char>, i: int) -> int
    decreases s.len() - i,
{
    if 0 <= i < s.len() && is_whitespace(s[i]) {
        skip_whitespace(s, i + 1)
    } else {
        i
    }
}

/// The first position at or after `i` that holds whitespace, or the length
/// of `s` when none follows.
pub open spec fn skip_word(s: Seq<char>, i: int) -> int
    decreases s.len() - i,
{
    if 0 <= i < s.len() && !is_whitespace(s[i]) {
        skip_word(s, i + 1)
    } else {
        i
    }
}

/// Where the first token of `s` starts: after its leading whitespace.
pub open spec fn token_start(s: Seq<char>) -> int {
    skip_whitespace(s, 0)
}

/// Where the first token of `s` ends.
pub open spec fn token_end(s: Seq<char>) -> int {
    skip_word(s, token_start(s))
}

/// The first whitespace-delimited token of `s`; empty when `s` holds
/// nothing but whitespace.
pub open spec fn first_token(s: Seq<char>) -> Seq<char> {
    s.subrange(token_start(s), token_end(s))
}

/// The command name that `text` carries under `prefix`, if any.
pub open spec fn command_name(prefix: Seq<char>, text: Seq<char>) -> Option<Seq<char>> {
    if prefix.is_prefix_of(text) && first_token(text).len() > 1 {
        Some(first_token(text).skip(1))
    } else {
        None
    }
}

/// `skip_whitespace` stays inside the text and never moves backwards.
pub proof fn lemma_skip_whitespace_bounds(s: Seq<char>, i: int)
    requires
        0 <= i <= s.len(),
    ensures
        i <= skip_whitespace(s, i) <= s.len(),
        forall|j: int| i <= j < skip_whitespace(s, i) ==> is_whitespace(#[trigger] s[j]),
        skip_whitespace(s, i) < s.len() ==> !is_whitespace(s[skip_whitespace(s, i)]),
    decreases s.len() - i,
{
    if i < s.len() && is_whitespace(s[i]) {
        lemma_skip_whitespace_bounds(s, i + 1);
    }
}

/// `skip_word` stays inside the text and never moves backwards.
pub proof fn lemma_skip_word_bounds(s: Seq<char>, i: int)
    requires
        0 <= i <= s.len(),
    ensures
        i <= skip_word(s, i) <= s.len(),
        forall|j: int| i <= j < skip_word(s, i) ==> !is_whitespace(#[trigger] s[j]),
        skip_word(s, i) < s.len() ==> is_whitespace(s[skip_word(s, i)]),
    decreases s.len() - i,
{
    if i < s.len() && !is_whitespace(s[i]) {
        lemma_skip_word_bounds(s, i + 1);
    }
}

/// Where `skip_word` lands: a run of non-whitespace from `i` up to `e`
/// that ends the text or meets whitespace is skipped whole.
pub proof fn lemma_skip_word_to(s: Seq<char>, i: int, e: int)
    requires
        0 <= i <= e <= s.len(),
        forall|j: int| i <= j < e ==> !is_whitespace(#[trigger] s[j]),
        e == s.len() || is_whitespace(s[e]),
    ensures
        skip_word(s, i) == e,
    decreases e - i,
{
    if i < e {
        lemma_skip_word_to(s, i + 1, e);
    }
}

/// The first token lies inside the text, holds no whitespace, is preceded
/// by whitespace only, and is not followed by a further non-whitespace
/// character.
pub proof fn lemma_first_token_shape(s: Seq<char>)
    ensures
        0 <= token_start(s) <= token_end(s) <= s.len(),
        first_token(s).len() == token_end(s) - token_start(s),
        forall|j: int| 0 <= j < token_start(s) ==> is_whitespace(#[trigger] s[j]),
        forall|j: int| 0 <= j < first_token(s).len() ==> !is_whitespace(#[trigger] first_token(s)[j]),
        token_end(s) < s.len() ==> is_whitespace(s[token_end(s)]),
        first_token(s).len() == 0 ==> token_start(s) == s.len(),
{
    lemma_skip_whitespace_bounds(s, 0);
    lemma_skip_word_bounds(s, token_start(s));
    assert forall|j: int| 0 <= j < first_token(s).len() implies !is_whitespace(
        #[trigger] first_token(s)[j],
    ) by {
        assert(first_token(s)[j] == s[token_start(s) + j]);
    }
}

/// A text that begins with the prefix and whose first token has more than
/// one character yields that token without its first character: the name
/// and the removed character together make up the token again.
pub proof fn lemma_extract_strips_one_char(prefix: Seq<char>, text: Seq<char>)
    requires
        prefix.len() > 0,
        prefix.is_prefix_of(text),
        first_token(text).len() > 1,
    ensures
        command_name(prefix, text) is Some,
        seq![first_token(text)[0]] + command_name(prefix, text).unwrap() == first_token(text),
        command_name(prefix, text).unwrap().len() == first_token(text).len() - 1,
{
    let token = first_token(text);
    assert(seq![token[0]] + token.skip(1) =~= token);
}

/// A prefix without whitespace, then a word, then the end of the text or
/// whitespace: the name is prefix and word together without the first
/// character of the prefix. Under a prefix of one character the name is the
/// word itself.
pub proof fn lemma_extract_after_prefix(prefix: Seq<char>, word: Seq<char>, rest: Seq<char>)
    requires
        prefix.len() > 0,
        word.len() > 0,
        forall|j: int| 0 <= j < prefix.len() ==> !is_whitespace(#[trigger] prefix[j]),
        forall|j: int| 0 <= j < word.len() ==> !is_whitespace(#[trigger] word[j]),
        rest.len() == 0 || is_whitespace(rest[0]),
    ensures
        command_name(prefix, prefix + word + rest) == Some((prefix + word).skip(1)),
        prefix.len() == 1 ==> command_name(prefix, prefix + word + rest) == Some(word),
{
    let text = prefix + word + rest;
    let e = prefix.len() + word.len();
    assert(prefix =~= text.subrange(0, prefix.len() as int));
    assert(!is_whitespace(text[0])) by {
        assert(text[0] == prefix[0]);
    }
    assert(token_start(text) == 0);
    assert forall|j: int| 0 <= j < e implies !is_whitespace(#[trigger] text[j]) by {
        if j < prefix.len() {
            assert(text[j] == prefix[j]);
        } else {
            assert(text[j] == word[j - prefix.len()]);
        }
    }
    if e < text.len() {
        assert(text[e as int] == rest[0]);
    }
    lemma_skip_word_to(text, 0, e as int);
    assert(first_token(text) =~= prefix + word);
    if prefix.len() == 1 {
        assert((prefix + word).skip(1) =~= word);
    }
}

/// A text that does not begin with the prefix carries no command.
pub proof fn lemma_extract_without_prefix(prefix: Seq<char>, text: Seq<char>)
    requires
        !prefix.is_prefix_of(text),
    ensures
        command_name(prefix, text) is None,
{
}

/// A message that is the prefix and nothing more carries no command,
/// unless the prefix itself opens with a token of several characters. A
/// prefix of one character never names a command by itself.
pub proof fn lemma_extract_bare_prefix(prefix: Seq<char>)
    ensures
        command_name(prefix, prefix) is None <==> first_token(prefix).len() <= 1,
        prefix.len() <= 1 ==> command_name(prefix, prefix) is None,
{
    assert(prefix =~= prefix.subrange(0, prefix.len() as int));
    lemma_first_token_shape(prefix);
}

/// A command name is never empty and never holds whitespace.
pub proof fn lemma_extract_name_shape(prefix: Seq<char>, text: Seq<char>)
    requires
        command_name(prefix, text) is Some,
    ensures
        command_name(prefix, text).unwrap().len() > 0,
        forall|j: int|
            0 <= j < command_name(prefix, text).unwrap().len() ==> !is_whitespace(
                #[trigger] command_name(prefix, text).unwrap()[j],
            ),
{
    lemma_first_token_shape(text);
    let token = first_token(text);
    let name = command_name(prefix, text).unwrap();
    assert forall|j: int| 0 <= j < name.len() implies !is_whitespace(#[trigger] name[j]) by {
        assert(name[j] == token[j + 1]);
    }
}

/// Tells whether `c` is whitespace in the sense of Unicode.
pub fn char_is_whitespace(c: char) -> (b: bool)
    ensures
        b == is_whitespace(c),
{
    let u: u32 = c as u32;
    (0x09 <= u && u <= 0x0D) || u == 0x20 || u == 0x85 || u == 0xA0 || u == 0x1680 || (0x2000 <= u
        && u <= 0x200A) || u == 0x2028 || u == 0x2029 || u == 0x202F || u == 0x205F || u == 0x3000
}

/// Tells whether `text` begins with `prefix`, character by character.
pub fn starts_with(text: &str, prefix: &str) -> (b: bool)
    ensures
        b == prefix@.is_prefix_of(text@),
{
    let n: usize = prefix.unicode_len();
    let m: usize = text.unicode_len();
    if n > m {
        return false;
    }
    let mut i: usize = 0;
    while i < n
        invariant
            i <= n <= m,
            n == prefix@.len(),
            m == text@.len(),
            forall|j: int| 0 <= j < i ==> prefix@[j] == text@[j],
        decreases n - i,
    {
        if prefix.get_char(i) != text.get_char(i) {
            assert(text@.subrange(0, n as int)[i as int] == text@[i as int]);
            return false;
        }
        i += 1;
    }
    assert(prefix@ =~= text@.subrange(0, n as int));
    true
}

/// The command name in `text`, for a bot that answers to `prefix`.
///
/// Text that does not begin with `prefix` carries no command. Otherwise the
/// name is the first token of the text without its first character, and a
/// token of one character names nothing.
///
/// The text is read character by character up to the end of its first
/// token, and each read walks the text from its start: the work grows with
/// the square of that position, whatever follows the token.
pub fn extract(prefix: &str, text: &str) -> (name: Option<String>)
    ensures
        match name {
            Some(n) => command_name(prefix@, text@) == Some(n@),
            None => command_name(prefix@, text@) is None,
        },
        !prefix@.is_prefix_of(text@) ==> name is None,
{
    if !starts_with(text, prefix) {
        return None;
    }
    let len: usize = text.unicode_len();
    let mut start: usize = 0;
    while start < len && char_is_whitespace(text.get_char(start))
        invariant
            start <= len,
            len == text@.len(),
            skip_whitespace(text@, 0) == skip_whitespace(text@, start as int),
        decreases len - start,
    {
        start += 1;
    }
    let mut end: usize = start;
    while end < len && !char_is_whitespace(text.get_char(end))
        invariant
            start <= end <= len,
            len == text@.len(),
            skip_word(text@, start as int) == skip_word(text@, end as int),
        decreases len - end,
    {
        end += 1;
    }
    assert(token_start(text@) == start);
    assert(token_end(text@) == end);
    if end - start > 1 {
        let name = text.substring_char(start + 1, end).to_owned();
        assert(name@ =~= first_token(text@).skip(1));
        Some(name)
    } else {
        None
    }
}

} // verus!
