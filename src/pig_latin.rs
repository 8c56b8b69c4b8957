//! Translation of words and sentences into Pig Latin.

use vstd::prelude::*;
use crate::text::{
    char_lower_of, char_upper_of, chars_of, is_upper, lower_chars, lower_of, lowercase,
    split_words, string_of, upper_case, upper_chars, words_of,
};

verus! {

/// A vowel in either case, as `to_ascii_lowercase` followed by a test
/// against `a e i o u` decides.
pub open spec fn is_vowel(c: char) -> bool {
    c == 'a' || c == 'e' || c == 'i' || c == 'o' || c == 'u' || c == 'A' || c == 'E' || c == 'I'
        || c == 'O' || c == 'U'
}

/// A word that can be translated: it has a first character, and a second one
/// when the first is an upper-case consonant.
pub open spec fn translatable(w: Seq<char>) -> bool {
    &&& w.len() >= 1
    &&& (!is_vowel(w[0]) && upper_case(w[0])) ==> w.len() >= 2
}

/// The Pig Latin form of a word. A word that starts with a vowel gets `hay`
/// appended. Otherwise the first letter moves to the end, followed by `ay`;
/// when it was upper case, it moves in lower case and the new first letter
/// is put in upper case.
pub open spec fn pig_latin_of(w: Seq<char>) -> Seq<char> {
    let first = w[0];
    if is_vowel(first) {
        w + seq!['h', 'a', 'y']
    } else if upper_case(first) {
        char_upper_of(w[1]) + w.subrange(2, w.len() as int) + char_lower_of(first) + seq!['a', 'y']
    } else {
        w.subrange(1, w.len() as int).push(first) + seq!['a', 'y']
    }
}

/// Every character is a lower-case ASCII letter.
pub open spec fn all_letters(s: Seq<char>) -> bool {
    forall|i: int| 0 <= i < s.len() ==> 'a' <= #[trigger] s[i] <= 'z'
}

/// A word of a sentence after translation: a word of more than one
/// character, made of ASCII letters alone, is translated; any other word
/// (one letter, a word with punctuation or digits) is kept as it is.
pub open spec fn word_in_sentence(w: Seq<char>) -> Seq<char> {
    if w.len() > 1 && all_letters(lower_of(w)) {
        pig_latin_of(w)
    } else {
        w
    }
}

/// The words joined by single spaces.
pub open spec fn joined(ws: Seq<Seq<char>>) -> Seq<char>
    decreases ws.len(),
{
    if ws.len() == 0 {
        Seq::empty()
    } else if ws.len() == 1 {
        ws[0]
    } else {
        joined(ws.drop_last()).push(' ') + ws.last()
    }
}

/// A sentence in Pig Latin: its words, each translated as
/// `word_in_sentence` says, joined by single spaces.
pub open spec fn sentence_of(s: Seq<char>) -> Seq<char> {
    joined(words_of(s).map_values(|w: Seq<char>| word_in_sentence(w)))
}

fn starts_with_vowel(c: char) -> (r: bool)
    ensures
        r == is_vowel(c),
{
    c == 'a' || c == 'e' || c == 'i' || c == 'o' || c == 'u' || c == 'A' || c == 'E' || c == 'I'
        || c == 'O' || c == 'U'
}

/// Converts a word to Pig Latin.
pub fn to_pig_latin_word(word: &str) -> (r: String)
    requires
        translatable(word@),
    ensures
        r@ == pig_latin_of(word@),
{
    let chars = chars_of(word);
    let first = chars[0];
    let mut out: Vec<char> = Vec::new();
    if starts_with_vowel(first) {
        out = chars_of(word);
        out.push('h');
        out.push('a');
        out.push('y');
    } else if is_upper(first) {
        out = upper_chars(chars[1]);
        let mut i: usize = 2;
        while i < chars.len()
            invariant
                chars@ == word@,
                2 <= i <= chars.len(),
                out@ == char_upper_of(word@[1]) + word@.subrange(2, i as int),
            decreases chars.len() - i,
        {
            proof {
                assert(word@.subrange(2, i + 1) =~= word@.subrange(2, i as int).push(word@[i as int]));
            }
            out.push(chars[i]);
            i = i + 1;
        }
        let mut tail = lower_chars(first);
        out.append(&mut tail);
        out.push('a');
        out.push('y');
    } else {
        let mut i: usize = 1;
        while i < chars.len()
            invariant
                chars@ == word@,
                1 <= i <= chars.len(),
                out@ == word@.subrange(1, i as int),
            decreases chars.len() - i,
        {
            proof {
                assert(word@.subrange(1, i + 1) =~= word@.subrange(1, i as int).push(word@[i as int]));
            }
            out.push(chars[i]);
            i = i + 1;
        }
        out.push(first);
        out.push('a');
        out.push('y');
    }
    assert(out@ =~= pig_latin_of(word@));
    string_of(&out)
}

/// Whether every character of `s` is a lower-case ASCII letter.
fn letters_only(s: &str) -> (r: bool)
    ensures
        r == all_letters(s@),
{
    let cs = chars_of(s);
    let mut i: usize = 0;
    while i < cs.len()
        invariant
            cs@ == s@,
            i <= cs.len(),
            forall|k: int| 0 <= k < i ==> 'a' <= #[trigger] s@[k] <= 'z',
        decreases cs.len() - i,
    {
        if !('a' <= cs[i] && cs[i] <= 'z') {
            return false;
        }
        i = i + 1;
    }
    true
}

/// Translates one word of a sentence, or keeps it as it is when it is not
/// a word of letters alone.
fn parse_word(word: &str) -> (r: String)
    ensures
        r@ == word_in_sentence(word@),
{
    let n = chars_of(word).len();
    if n > 1 && letters_only(&lowercase(word)) {
        to_pig_latin_word(word)
    } else {
        string_of(&chars_of(word))
    }
}

/// Converts a sentence to Pig Latin, word by word. Words with punctuation
/// adjoining them are left as they are.
pub fn to_pig_latin_sentence(sentence: &str) -> (r: String)
    ensures
        r@ == sentence_of(sentence@),
{
    let words = split_words(sentence);
    let ghost done = words_of(sentence@).map_values(|w: Seq<char>| word_in_sentence(w));
    let mut out: Vec<char> = Vec::new();
    let mut i: usize = 0;
    while i < words.len()
        invariant
            words@.len() == words_of(sentence@).len(),
            forall|k: int| 0 <= k < words@.len() ==> (#[trigger] words@[k])@ == words_of(sentence@)[k],
            done == words_of(sentence@).map_values(|w: Seq<char>| word_in_sentence(w)),
            i <= words.len(),
            out@ == joined(done.subrange(0, i as int)),
        decreases words.len() - i,
    {
        let translated = parse_word(words[i]);
        let mut piece = chars_of(translated.as_str());
        proof {
            let before = done.subrange(0, i as int);
            let after = done.subrange(0, i + 1);
            assert(after.drop_last() =~= before);
            assert(after.last() == word_in_sentence(words@[i as int]@));
        }
        if i > 0 {
            out.push(' ');
        }
        out.append(&mut piece);
        i = i + 1;
    }
    assert(done.subrange(0, words.len() as int) =~= done);
    string_of(&out)
}

} // verus!
