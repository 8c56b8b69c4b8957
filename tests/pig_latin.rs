use text_tools::pig_latin::{to_pig_latin_sentence, to_pig_latin_word};

#[test]
fn pig_latin_word() {
    let first_letter_consonant = "pizza";
    let first_letter_vowel = "apple";

    assert_eq!(to_pig_latin_word(first_letter_consonant), "izzapay");
    assert_eq!(to_pig_latin_word(first_letter_vowel), "applehay");
}

#[test]
fn pig_latin_capitalised_word() {
    let first_letter_consonant = "Pizza";
    let first_letter_vowel = "Apple";

    assert_eq!(to_pig_latin_word(first_letter_consonant), "Izzapay");
    assert_eq!(to_pig_latin_word(first_letter_vowel), "Applehay");
}

#[test]
fn pig_latin_sentence() {
    let sentence = "The key is in the pantry";
    assert_eq!(
        to_pig_latin_sentence(sentence),
        "Hetay eykay ishay inhay hetay antrypay"
    );
}

#[test]
fn pig_latin_sentence_with_punctuation() {
    let sentence = "First, you open the door.";
    assert_eq!(
        to_pig_latin_sentence(sentence),
        "First, ouyay openhay hetay door."
    );
}

#[test]
fn pig_latin_word_example() {
    assert_eq!(to_pig_latin_word("pantry"), "antrypay");
    assert_eq!(to_pig_latin_word("Über"), "Berüay");
}

#[test]
fn pig_latin_sentence_edges() {
    assert_eq!(to_pig_latin_sentence(""), "");
    assert_eq!(to_pig_latin_sentence("   "), "");
    assert_eq!(to_pig_latin_sentence("a I go"), "a I ogay");
    assert_eq!(to_pig_latin_sentence("  HELLO\tworld\n"), "ELLOhay orldway");
    assert_eq!(to_pig_latin_sentence("route 66"), "outeray 66");
}
