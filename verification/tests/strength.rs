use zerotrace::error::Error;
use zerotrace::similar::too_similar;
use zerotrace::strength::{
    assess, is_repeated_unit, require_acceptable, word_count, Strength, MIN_LENGTH,
};

#[test]
fn short_passwords_are_refused_however_complex() {
    for p in ["P@ssw0rd!", "x", "", "Tr0ub4dor&3"] {
        assert!(!assess(p).is_acceptable(), "{p} was accepted");
        assert!(require_acceptable(p).is_err());
    }
}

#[test]
fn a_long_passphrase_is_strong() {
    match assess("correct-horse-battery-staple") {
        Strength::Strong { words } => assert_eq!(words, 4),
        other => panic!("expected strong, got {other:?}"),
    }
    assert!(require_acceptable("correct-horse-battery-staple").is_ok());
}

#[test]
fn spaces_and_underscores_count_as_separators() {
    assert!(matches!(assess("correct horse battery staple"), Strength::Strong { .. }));
    assert!(matches!(assess("correct_horse_battery_staple"), Strength::Strong { .. }));
}

#[test]
fn repetitive_passwords_are_refused_however_long() {
    for p in [
        "aaaaaaaaaaaaaaaaaaaa",
        "111111111111111",
        "passwordpasswordpassword",
        "abababababababab",
        "correct-horse-aaaaaaaaaa",
    ] {
        assert!(!assess(p).is_acceptable(), "{p} was accepted");
        assert!(require_acceptable(p).is_err());
    }
}

#[test]
fn an_ordinary_long_password_is_still_acceptable() {
    for p in [
        "Tr0ub4dor-and-three-more",
        "bookkeeper-committee-fluffy",
        "a-long-enough-passphrase",
    ] {
        assert!(assess(p).is_acceptable(), "{p} was refused");
    }
}

#[test]
fn the_boundary_is_where_it_says_it_is() {
    let alphabet = "abcdefghijklmnopqrstuvwxyz";
    let just_short: String = alphabet.chars().take(MIN_LENGTH - 1).collect();
    let just_long: String = alphabet.chars().take(MIN_LENGTH).collect();
    assert!(!assess(&just_short).is_acceptable());
    assert!(assess(&just_long).is_acceptable());
}

#[test]
fn advice_names_the_shortfall() {
    let a = assess("short").advice();
    assert!(a.contains("15"), "{a}");
    assert!(a.contains("dashes"), "{a}");
}

#[test]
fn every_verdict_has_its_own_reason() {
    assert_eq!(assess("short"), Strength::TooShort { have: 5, need: 15 });
    assert_eq!(
        assess("ababcabababcabc"),
        Strength::TooRepetitive { reason: "it is built from too few different characters" }
    );
    assert_eq!(
        assess("passwordpassword"),
        Strength::TooRepetitive { reason: "it is one short piece repeated" }
    );
    assert_eq!(
        assess("correct-horsaaaaa"),
        Strength::TooRepetitive { reason: "it contains a long run of one repeated character" }
    );
    // Four of one character in a row are tolerated.
    assert_eq!(assess("correct-horsaaaa"), Strength::Acceptable);
    assert_eq!(assess("abcdefghijklmno"), Strength::Acceptable);
    assert_eq!(assess("ab-cd.ef_gh ij-k"), Strength::Strong { words: 5 });
}

#[test]
fn advice_is_a_whole_sentence() {
    assert_eq!(
        Strength::TooShort { have: 3, need: 15 }.advice(),
        "Too short: 3 characters, and 15 are needed. Four or five unrelated words joined by \
         dashes is the easiest way to get there, for example correct-horse-battery-staple."
    );
    assert_eq!(
        Strength::TooRepetitive { reason: "it is one short piece repeated" }.advice(),
        "Long enough, but it is one short piece repeated. Length only helps when the characters \
         are not all the same few. Four or five unrelated words joined by dashes is the easiest \
         way to a password that is genuinely hard to guess, for example \
         correct-horse-battery-staple."
    );
    assert_eq!(
        Strength::Acceptable.advice(),
        "Long enough. A phrase of several unrelated words joined by dashes would be easier to \
         remember and harder to guess."
    );
    assert_eq!(
        Strength::Strong { words: 12 }.advice(),
        "A phrase of 12 words. Easy to remember, and long enough that guessing it is not worth \
         attempting."
    );
}

#[test]
fn a_refused_password_is_answered_with_the_advice() {
    let e = require_acceptable("short").unwrap_err();
    assert_eq!(e, Error::Other(assess("short").advice()));
}

#[test]
fn words_are_counted_by_their_stored_length() {
    let count = |s: &str| word_count(&s.chars().collect());
    assert_eq!(count(""), 0);
    assert_eq!(count("a-b-c"), 0);
    assert_eq!(count("ab--cd"), 2);
    // One character of two bytes is a word.
    assert_eq!(count("é-ab"), 2);
}

#[test]
fn a_repeated_piece_is_found() {
    let repeats = |s: &str| is_repeated_unit(&s.chars().collect());
    assert!(!repeats(""));
    assert!(!repeats("a"));
    assert!(repeats("aa"));
    assert!(repeats("abcabcabc"));
    assert!(!repeats("abcabcab"));
}

#[test]
fn passwords_that_a_slip_would_confuse_are_alike() {
    // One and two characters changed.
    assert!(too_similar("abcdef", "abcdeg"));
    assert!(too_similar("abcdef", "xbcdeg"));
    assert!(!too_similar("abcdef", "xbydeg"));
    // One character dropped, at either end and in the middle.
    assert!(too_similar("abcdef", "bcdef"));
    assert!(too_similar("abcdef", "abcde"));
    assert!(too_similar("abcdef", "abdef"));
    assert!(too_similar("abdef", "abcdef"));
    // Two dropped, one dropped and one changed, two neighbours swapped.
    assert!(too_similar("abcdefg", "abcde"));
    assert!(too_similar("cdefg", "abcdefg"));
    assert!(too_similar("abcdef", "abdeg"));
    assert!(too_similar("abcdef", "abdcef"));
    // Three characters apart, by changing and by dropping.
    assert!(!too_similar("abcdefg", "abcd"));
    assert!(!too_similar("abcdef", "xdef"));
    // A shared opening of eight characters.
    assert!(too_similar("abcdefgh-one", "abcdefgh-another"));
    assert!(!too_similar("abcdefg-one", "abcdefg=another"));
    // Nothing is like an empty password.
    assert!(!too_similar("", ""));
    assert!(!too_similar("", "a"));
    assert!(too_similar("a", "a"));
}

#[test]
fn likeness_goes_both_ways() {
    for (a, b) in [("abcdef", "abdef"), ("abcdefg", "acde"), ("abcdef", "abde"), ("abcdefgh1", "abcdefgh22222"), ("abc", "xyz"), ("", "a")] {
        assert_eq!(too_similar(a, b), too_similar(b, a));
    }
}
