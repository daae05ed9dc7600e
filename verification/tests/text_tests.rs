use chainletter::letters::{
    get_word_at_index, initial_letter, interpolate_flavor, personalize, random_initial,
    replace_word_with_underscores, Effect, Flavor, Pronouns,
};
use chainletter::text::{
    chars_of, decimal_string, join_with_spaces, push_decimal, push_signed_decimal, replace_all,
    split_whitespace, underscore_run,
};
use rand::SeedableRng;
use rand_chacha::ChaCha8Rng;

#[test]
fn pronoun_forms() {
    assert_eq!(Pronouns::HeHimHis.subject(), "he");
    assert_eq!(Pronouns::HeHimHis.object(), "him");
    assert_eq!(Pronouns::HeHimHis.possessive(), "his");
    assert_eq!(Pronouns::SheHerHers.subject(), "she");
    assert_eq!(Pronouns::SheHerHers.object(), "her");
    assert_eq!(Pronouns::SheHerHers.possessive(), "her");
    assert_eq!(Pronouns::TheyThemTheir.subject(), "they");
    assert_eq!(Pronouns::TheyThemTheir.object(), "them");
    assert_eq!(Pronouns::TheyThemTheir.possessive(), "their");
}

#[test]
fn effect_display() {
    assert_eq!(Effect::Score(5).display_string(), "5 score");
    assert_eq!(Effect::Money(-3).display_string(), "-3 money");
    assert_eq!(Effect::Income(0).display_string(), "0 income");
    assert_eq!(Effect::Noop.display_string(), "");
    assert_eq!(Effect::Score(i32::MIN).display_string(), "-2147483648 score");
    assert_eq!(Effect::Money(i32::MAX).display_string(), "2147483647 money");
}

#[test]
fn decimal_rendering_matches_to_string() {
    for n in [0u64, 7, 10, 99, 100, 1234, 4_000_000_007, u64::MAX] {
        assert_eq!(decimal_string(n), n.to_string());
    }
    let mut s = String::from("x=");
    push_decimal(&mut s, 42);
    assert_eq!(s, "x=42");
    let mut s = String::new();
    push_signed_decimal(&mut s, -17);
    assert_eq!(s, "-17");
}

#[test]
fn chars_in_order() {
    assert_eq!(chars_of("añb"), vec!['a', 'ñ', 'b']);
    assert!(chars_of("").is_empty());
}

#[test]
fn split_matches_std() {
    let samples = [
        "",
        "   ",
        "one",
        "  leading and trailing  ",
        "tabs\tand\nnewlines\r\nhere",
        "ideographic\u{3000}space and\u{85}next line\u{a0}nbsp",
        "émigré naïve café",
    ];
    for s in samples {
        let expected: Vec<String> = s.split_whitespace().map(|w| w.to_string()).collect();
        assert_eq!(split_whitespace(s), expected, "splitting {:?}", s);
    }
}

#[test]
fn join_puts_single_spaces() {
    let ws = vec!["a".to_string(), "bc".to_string(), "d".to_string()];
    assert_eq!(join_with_spaces(&ws), "a bc d");
    assert_eq!(join_with_spaces(&Vec::new()), "");
}

#[test]
fn replace_matches_std() {
    let cases = [
        ("aaa", "aa", "b"),
        ("hello {name}, {name}!", "{name}", "Ann"),
        ("nothing here", "{x}", "y"),
        ("{x}{x}{x}", "{x}", ""),
        ("ab", "abc", "z"),
        ("ééé", "é", "e"),
    ];
    for (s, p, t) in cases {
        assert_eq!(replace_all(s, p, t), s.replace(p, t), "replacing {:?} in {:?}", p, s);
    }
}

#[test]
fn underscores() {
    assert_eq!(underscore_run(0), "");
    assert_eq!(underscore_run(3), "___");
}

#[test]
fn word_at_index() {
    let text = "  hello big\tworld  ";
    assert_eq!(get_word_at_index(text, 0), Some("hello".to_string()));
    assert_eq!(get_word_at_index(text, 1), Some("big".to_string()));
    assert_eq!(get_word_at_index(text, 2), Some("world".to_string()));
    assert_eq!(get_word_at_index(text, 3), None);
    assert_eq!(get_word_at_index("", 0), None);
}

#[test]
fn blanking_a_word() {
    assert_eq!(
        replace_word_with_underscores("the quick  brown fox".to_string(), 1),
        "the _____ brown fox"
    );
    // Out of range: only the spacing is normalised.
    assert_eq!(replace_word_with_underscores(" a  b ".to_string(), 5), "a b");
    // One underscore per byte of the UTF-8 encoding.
    assert_eq!(replace_word_with_underscores("la née".to_string(), 1), "la ____");
}

#[test]
fn blanking_keeps_the_other_words() {
    let text = "a  message\twith five words";
    let blanked = replace_word_with_underscores(text.to_string(), 2);
    for j in 0..5 {
        if j == 2 {
            assert_eq!(get_word_at_index(&blanked, j), Some("____".to_string()));
        } else {
            assert_eq!(get_word_at_index(&blanked, j), get_word_at_index(text, j));
        }
    }
    assert_eq!(get_word_at_index(&blanked, 5), None);
    let wide = "né über fox";
    let blanked = replace_word_with_underscores(wide.to_string(), 1);
    assert_eq!(get_word_at_index(&blanked, 1), Some("_____".to_string()));
    assert_eq!(get_word_at_index(&blanked, 0), Some("né".to_string()));
    assert_eq!(get_word_at_index(&blanked, 2), Some("fox".to_string()));
}

#[test]
fn personalizing_messages() {
    let m = "{pronoun_subject} gave {pronoun_possessive} word to {pronoun_object}";
    assert_eq!(personalize(m, Pronouns::SheHerHers), "she gave her word to her");
    assert_eq!(personalize(m, Pronouns::HeHimHis), "he gave his word to him");
    assert_eq!(personalize(m, Pronouns::TheyThemTheir), "they gave their word to them");
    assert_eq!(personalize("plain", Pronouns::HeHimHis), "plain");
}

#[test]
fn interpolating_a_flavor() {
    let flavor = Flavor {
        title: "Title".to_string(),
        body: "Send this to {recipients} people within {time_limit} days.".to_string(),
        signoff: "{recipients}/{time_limit}".to_string(),
        footer: "footer".to_string(),
    };
    let f = interpolate_flavor(&flavor, 3, 10);
    assert_eq!(f.body, "Send this to 3 people within 10 days.");
    assert_eq!(f.signoff, "3/10");
    let plain = Flavor { body: "no placeholders".to_string(), ..flavor.clone() };
    assert_eq!(interpolate_flavor(&plain, 1, 2).body, "no placeholders");
}

#[test]
fn initials() {
    assert_eq!(initial_letter(0), 'A');
    assert_eq!(initial_letter(25), 'Z');
    let mut rng = ChaCha8Rng::seed_from_u64(11);
    for _ in 0..200 {
        let c = random_initial(&mut rng);
        assert!(c.is_ascii_uppercase(), "{c}");
    }
}

#[test]
fn split_join_split_is_stable() {
    for s in ["  a  b\tc ", "", "one", "x\u{2003}y"] {
        let words = split_whitespace(s);
        let joined = join_with_spaces(&words);
        assert_eq!(split_whitespace(&joined), words);
    }
}
