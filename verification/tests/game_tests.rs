use chainletter::input::{
    control_for_key, control_for_mouse, control_for_window_key, leaves_info_screen,
    to_ascii_lowercase, Control, Key, MouseKind, Prompt, TypingSounds,
};
use chainletter::letters::{
    cube_hue, Effect, Flavor, Letter, LetterBag, Name, Pronouns, Testimonial, TestimonialStub, WordBag,
};
use chainletter::sound::{select_sound, sound_asset, SoundAsset, SoundEffect};
use chainletter::spawning::{may_spawn, WordCube};
use chainletter::word_checks::{
    color_for_character, submit_word, GuessAction, PaletteColor, Statistics,
};
use rand::SeedableRng;
use rand_chacha::ChaCha8Rng;

fn stub(message: &str, effect: Effect, target: usize) -> TestimonialStub {
    TestimonialStub { message: message.to_string(), effect, targets: vec![target] }
}

fn flavor(body: &str) -> Flavor {
    Flavor {
        title: "A letter".to_string(),
        body: body.to_string(),
        signoff: "Forward it to {recipients}.".to_string(),
        footer: "".to_string(),
    }
}

fn name(first: &str, pronouns: Pronouns) -> Name {
    Name { first_name: first.to_string(), pronouns }
}

fn testimonial(target: &str, effect: Effect) -> Testimonial {
    Testimonial {
        first_name: "Ann".to_string(),
        last_initial: 'B',
        pronouns: Pronouns::SheHerHers,
        message: "Ann B. ____.".to_string(),
        target_word: target.to_string(),
        effect,
        collected: false,
    }
}

fn cube(word: &str, ch: char) -> WordCube {
    WordCube::new(word, 200, ch)
}

#[test]
fn testimonial_from_stub() {
    let s = stub("I love {pronoun_object} dearly", Effect::Score(3), 1);
    let n = name("Ann", Pronouns::SheHerHers);
    let t = Testimonial::from_stub(&s, &n, 'B');
    assert_eq!(t.message, "Ann B. I ____ her dearly.");
    assert_eq!(t.target_word, "love");
    assert_eq!(t.first_name, "Ann");
    assert_eq!(t.last_initial, 'B');
    assert_eq!(t.pronouns, Pronouns::SheHerHers);
    assert_eq!(t.effect, Effect::Score(3));
    assert!(!t.collected);
}

#[test]
fn playable_stubs() {
    assert!(stub("{pronoun_subject} said yes", Effect::Noop, 2).is_playable());
    assert!(!stub("{pronoun_subject} said yes", Effect::Noop, 3).is_playable());
    let no_target = TestimonialStub {
        message: "words".to_string(),
        effect: Effect::Noop,
        targets: vec![],
    };
    assert!(!no_target.is_playable());
}

#[test]
fn letter_bag_needs_every_list() {
    let mut rng = ChaCha8Rng::seed_from_u64(1);
    assert!(LetterBag::try_new(vec![], vec![0], vec![1], vec![0], &mut rng).is_none());
    assert!(LetterBag::try_new(vec![0], vec![0], vec![], vec![0], &mut rng).is_none());
    assert!(LetterBag::try_new(vec![0], vec![0], vec![1], vec![0], &mut rng).is_some());
}

fn assets() -> (Vec<TestimonialStub>, Vec<Flavor>, Vec<Name>) {
    let stubs = vec![
        stub("{pronoun_subject} found a lucky coin", Effect::Money(5), 4),
        stub("my garden bloomed for {pronoun_object}", Effect::Score(2), 1),
        stub("{pronoun_possessive} roof fell in", Effect::Income(-1), 1),
    ];
    let flavors = vec![
        flavor("Send this to {recipients} friends in {time_limit} days."),
        flavor("Within {time_limit} hours, {recipients} copies!"),
    ];
    let names = vec![
        name("Ann", Pronouns::SheHerHers),
        name("Bo", Pronouns::HeHimHis),
        name("Cy", Pronouns::TheyThemTheir),
    ];
    (stubs, flavors, names)
}

#[test]
fn pulling_a_letter() {
    let (stubs, flavors, names) = assets();
    let mut rng = ChaCha8Rng::seed_from_u64(5);
    let mut bag =
        LetterBag::try_new(vec![0, 1], vec![0, 1], vec![2], vec![0, 1, 2], &mut rng).unwrap();
    for _ in 0..20 {
        let letter: Letter = bag.pull_letter(&stubs, &flavors, &names, &mut rng, 3, 1, 5..9);
        assert_eq!(letter.recipients, 3);
        assert!((5..9).contains(&letter.time_limit));
        assert!(flavors.iter().any(|f| f.body == letter.flavor.body));
        let expected_body = letter
            .flavor
            .body
            .replace("{recipients}", "3")
            .replace("{time_limit}", &letter.time_limit.to_string());
        assert_eq!(letter.interpolated_flavor.body, expected_body);
        assert_eq!(letter.blessings.len(), 3);
        assert_eq!(letter.curses.len(), 1);
        for b in &letter.blessings {
            assert!(b.target_word == "coin" || b.target_word == "garden", "{}", b.target_word);
            assert!(!b.collected);
            assert!(b.last_initial.is_ascii_uppercase());
            assert!(b.message.contains(" ____"));
        }
        let c = &letter.curses[0];
        assert_eq!(c.target_word, "roof");
        assert_eq!(c.effect, Effect::Income(-1));
    }
}

#[test]
fn word_bag_contents() {
    let mut rng = ChaCha8Rng::seed_from_u64(9);
    let blessings = vec![testimonial("coin", Effect::Money(5))];
    let curses = vec![testimonial("roof", Effect::Income(-1))];
    let bag = WordBag::new(&blessings, &curses, &["pebble", "cloud"], &mut rng);
    let cubes = bag.full_collection();
    let words: Vec<&str> = cubes.iter().map(|c| c.word.as_str()).collect();
    assert_eq!(words, vec!["coin", "roof", "pebble", "cloud"]);
    let chars: Vec<char> = cubes.iter().map(|c| c.despawn_character).collect();
    assert_eq!(chars, vec!['+', 'x', '~', '~']);
    for c in &cubes {
        assert!((165..345).contains(&c.hue), "{}", c.hue);
    }
}

#[test]
fn drawing_cubes_to_spawn() {
    let mut rng = ChaCha8Rng::seed_from_u64(3);
    let mut bag = WordBag::new(&[], &[], &["a", "b", "c"], &mut rng);
    let everything = bag.full_collection();
    // Nothing can spawn while every word is on screen.
    for _ in 0..10 {
        assert!(bag.draw_for_spawn(&everything, &mut rng).is_none());
    }
    // With nothing on screen, every draw spawns a cube of the bag.
    let mut seen = Vec::new();
    for _ in 0..3 {
        let c = bag.draw_for_spawn(&[], &mut rng).unwrap();
        assert!(["a", "b", "c"].contains(&c.word.as_str()));
        seen.push(c.word);
    }
    seen.sort();
    assert_eq!(seen, vec!["a", "b", "c"]);
    assert_eq!(bag.full_collection().len(), 3);
    // A word already on screen is never drawn.
    let on_screen = vec![cube("a", '~')];
    for _ in 0..10 {
        if let Some(c) = bag.draw_for_spawn(&on_screen, &mut rng) {
            assert_ne!(c.word, "a");
        }
    }
}

#[test]
fn removing_words() {
    let mut rng = ChaCha8Rng::seed_from_u64(4);
    let mut bag = WordBag::new(&[], &[], &["x", "y", "x"], &mut rng);
    bag.remove_word("x", &mut rng);
    let words: Vec<String> = bag.full_collection().into_iter().map(|c| c.word).collect();
    assert_eq!(words, vec!["y", "x"]);
    bag.remove_word("zzz", &mut rng);
    assert_eq!(bag.full_collection().len(), 2);
    bag.remove_word("y", &mut rng);
    bag.remove_word("x", &mut rng);
    assert!(bag.full_collection().is_empty());
}

fn sample_letter() -> Letter {
    Letter {
        flavor: flavor("b"),
        interpolated_flavor: chainletter::letters::interpolate_flavor(&flavor("b"), 2, 3),
        recipients: 2,
        time_limit: 3,
        blessings: vec![testimonial("coin", Effect::Money(5)), testimonial("sun", Effect::Score(1))],
        curses: vec![testimonial("roof", Effect::Income(-1))],
    }
}

#[test]
fn submitting_a_blessing() {
    let mut rng = ChaCha8Rng::seed_from_u64(8);
    let mut letter = sample_letter();
    let mut bag = WordBag::new(&letter.blessings, &letter.curses, &["pebble"], &mut rng);
    let mut prompt = Prompt { text: "coin".to_string() };
    let on_screen = vec![cube("pebble", '~'), cube("coin", '+')];
    let actions = submit_word(&mut letter, &mut bag, &mut prompt, &on_screen, &mut rng);
    assert_eq!(
        actions,
        vec![
            GuessAction::PlaySound(SoundEffect::GuessBless),
            GuessAction::Activate(Effect::Money(5)),
            GuessAction::ClearCube(1),
            GuessAction::PlaySound(SoundEffect::GuessBless),
            GuessAction::Activate(Effect::Money(5)),
        ]
    );
    assert!(letter.blessings[0].collected);
    assert!(!letter.blessings[1].collected);
    assert!(!letter.curses[0].collected);
    assert_eq!(prompt.text, "");
    let words: Vec<String> = bag.full_collection().into_iter().map(|c| c.word).collect();
    assert_eq!(words, vec!["sun", "roof", "pebble"]);
}

#[test]
fn submitting_a_decoy_and_clearing() {
    let mut rng = ChaCha8Rng::seed_from_u64(2);
    let mut letter = sample_letter();
    letter.blessings[0].collected = true;
    let mut bag = WordBag::new(&letter.blessings, &letter.curses, &["pebble"], &mut rng);
    let mut prompt = Prompt { text: "pebble".to_string() };
    let on_screen = vec![cube("pebble", '~')];
    let actions = submit_word(&mut letter, &mut bag, &mut prompt, &on_screen, &mut rng);
    assert_eq!(
        actions,
        vec![GuessAction::ClearCube(0), GuessAction::PlaySound(SoundEffect::GuessDecoy)]
    );
    let mut prompt = Prompt { text: "sun".to_string() };
    let on_screen = vec![cube("sun", '+')];
    let actions = submit_word(&mut letter, &mut bag, &mut prompt, &on_screen, &mut rng);
    assert_eq!(
        actions,
        vec![
            GuessAction::ClearCube(0),
            GuessAction::PlaySound(SoundEffect::GuessBless),
            GuessAction::Activate(Effect::Score(1)),
            GuessAction::LetterCleared,
        ]
    );
}

#[test]
fn submitting_with_nothing_on_screen() {
    let mut rng = ChaCha8Rng::seed_from_u64(6);
    let mut letter = sample_letter();
    let mut bag = WordBag::new(&letter.blessings, &letter.curses, &[], &mut rng);
    let mut prompt = Prompt { text: "roof".to_string() };
    let actions = submit_word(&mut letter, &mut bag, &mut prompt, &[], &mut rng);
    assert!(actions.is_empty());
    assert!(!letter.curses[0].collected);
    assert_eq!(prompt.text, "");
    assert_eq!(bag.full_collection().len(), 3);
}

#[test]
fn submitting_a_curse() {
    let mut rng = ChaCha8Rng::seed_from_u64(6);
    let mut letter = sample_letter();
    let mut bag = WordBag::new(&letter.blessings, &letter.curses, &[], &mut rng);
    let mut prompt = Prompt { text: "roof".to_string() };
    let on_screen = vec![cube("roof", 'x')];
    let actions = submit_word(&mut letter, &mut bag, &mut prompt, &on_screen, &mut rng);
    assert_eq!(
        actions,
        vec![
            GuessAction::ClearCube(0),
            GuessAction::PlaySound(SoundEffect::GuessCurse),
            GuessAction::Activate(Effect::Income(-1)),
        ]
    );
    assert!(letter.curses[0].collected);
}

#[test]
fn statistics_add_effects() {
    let mut stats = Statistics { score: 1, money: 10, income: 0 };
    stats.apply_effect(Effect::Score(4));
    stats.apply_effect(Effect::Money(-3));
    stats.apply_effect(Effect::Income(2));
    stats.apply_effect(Effect::Noop);
    assert_eq!(stats, Statistics { score: 5, money: 7, income: 2 });
    let mut a = Statistics { score: 0, money: 0, income: 0 };
    let mut b = a;
    a.apply_effect(Effect::Score(2));
    a.apply_effect(Effect::Money(3));
    b.apply_effect(Effect::Money(3));
    b.apply_effect(Effect::Score(2));
    assert_eq!(a, b);
}

#[test]
fn confetti_colors() {
    assert_eq!(color_for_character(&'+'), PaletteColor::Green);
    assert_eq!(color_for_character(&'x'), PaletteColor::Red);
    assert_eq!(color_for_character(&'~'), PaletteColor::Yellow);
    assert_eq!(color_for_character(&'?'), PaletteColor::Purple);
}

#[test]
fn typing_into_the_prompt() {
    let mut p = Prompt::new();
    assert!(p.handle_key(Key::Char('H'), true));
    assert!(p.handle_key(Key::Char('i'), true));
    assert!(!p.handle_key(Key::Char('1'), true));
    assert!(!p.handle_key(Key::Char('!'), true));
    assert!(!p.handle_key(Key::Char('z'), false));
    assert!(p.handle_key(Key::Char('É'), true));
    assert_eq!(p.text, "hiÉ");
    assert!(p.handle_key(Key::Backspace, true));
    assert_eq!(p.text, "hi");
    assert!(!p.handle_key(Key::Enter, true));
    assert!(p.handle_key(Key::Backspace, true));
    assert!(p.handle_key(Key::Backspace, true));
    assert!(p.handle_key(Key::Backspace, true));
    assert_eq!(p.text, "");
    assert_eq!(to_ascii_lowercase('Q'), 'q');
    assert_eq!(to_ascii_lowercase('q'), 'q');
    assert_eq!(to_ascii_lowercase('Ä'), 'Ä');
}

#[test]
fn type_then_erase_restores() {
    let mut p = Prompt { text: "ab".to_string() };
    p.handle_key(Key::Char('C'), true);
    p.handle_key(Key::Backspace, true);
    assert_eq!(p.text, "ab");
}

#[test]
fn controls() {
    assert_eq!(control_for_key(Key::Char('='), true, false), Some(Control::ToggleDebug));
    assert_eq!(control_for_key(Key::Tab, true, false), Some(Control::ToggleSound));
    assert_eq!(control_for_key(Key::Up, true, false), Some(Control::ScrollUp));
    assert_eq!(control_for_key(Key::Down, true, true), Some(Control::ScrollDown));
    assert_eq!(control_for_key(Key::Enter, true, true), Some(Control::SubmitWord));
    assert_eq!(control_for_key(Key::Enter, true, false), None);
    assert_eq!(control_for_key(Key::Tab, false, true), None);
    assert_eq!(control_for_key(Key::Char('a'), true, true), None);
    assert_eq!(control_for_mouse(MouseKind::ScrollUp), Some(Control::ScrollUp));
    assert_eq!(control_for_mouse(MouseKind::ScrollDown), Some(Control::ScrollDown));
    assert_eq!(control_for_mouse(MouseKind::Other), None);
    assert!(leaves_info_screen(Key::Char(' ')));
    assert!(!leaves_info_screen(Key::Enter));
}

#[test]
fn sounds() {
    let mut rng = ChaCha8Rng::seed_from_u64(1);
    assert_eq!(select_sound(SoundEffect::Window, false, 0, &mut rng), None);
    assert_eq!(select_sound(SoundEffect::Window, true, 0, &mut rng), Some(SoundAsset::Window));
    assert_eq!(
        select_sound(SoundEffect::GuessDecoy, true, 2, &mut rng),
        Some(SoundAsset::GuessDecoy)
    );
    for _ in 0..50 {
        match select_sound(SoundEffect::TextCharacter, true, 3, &mut rng) {
            Some(SoundAsset::TextCharacter(k)) => assert!(k < 3),
            other => panic!("unexpected {:?}", other),
        }
    }
    assert_eq!(sound_asset(SoundEffect::TextCharacter, 2), SoundAsset::TextCharacter(2));
    assert_eq!(sound_asset(SoundEffect::LetterFail, 9), SoundAsset::LetterFail);
}

#[test]
fn spawning_checks_words_on_screen() {
    let c = WordCube::new("moon", 170, '+');
    assert_eq!(c.word, "moon");
    assert_eq!(c.hue, 170);
    assert_eq!(c.despawn_character, '+');
    assert!(may_spawn(&c, &[]));
    assert!(may_spawn(&c, &[cube("sun", '+')]));
    assert!(!may_spawn(&c, &[cube("sun", '+'), cube("moon", 'x')]));
}

#[test]
fn cube_hues() {
    assert_eq!(cube_hue(0), 165);
    assert_eq!(cube_hue(179), 344);
    assert_eq!(cube_hue(180), 165);
    assert_eq!(cube_hue(u32::MAX), 165 + u32::MAX % 180);
}

#[test]
fn resubmitting_collects_nothing_more() {
    let mut rng = ChaCha8Rng::seed_from_u64(12);
    let mut letter = sample_letter();
    let mut bag = WordBag::new(&letter.blessings, &letter.curses, &[], &mut rng);
    let on_screen = vec![cube("sun", '+')];
    let mut prompt = Prompt { text: "coin".to_string() };
    submit_word(&mut letter, &mut bag, &mut prompt, &on_screen, &mut rng);
    let after_first: Vec<bool> = letter.blessings.iter().map(|b| b.collected).collect();
    let mut prompt = Prompt { text: "coin".to_string() };
    submit_word(&mut letter, &mut bag, &mut prompt, &on_screen, &mut rng);
    let after_second: Vec<bool> = letter.blessings.iter().map(|b| b.collected).collect();
    assert_eq!(after_first, vec![true, false]);
    assert_eq!(after_first, after_second);
}

#[test]
fn cleared_letter_stays_cleared() {
    let mut rng = ChaCha8Rng::seed_from_u64(13);
    let mut letter = sample_letter();
    for b in letter.blessings.iter_mut() {
        b.collected = true;
    }
    let mut bag = WordBag::new(&letter.blessings, &letter.curses, &[], &mut rng);
    let mut prompt = Prompt { text: "nothing".to_string() };
    let actions = submit_word(&mut letter, &mut bag, &mut prompt, &[cube("x", '~')], &mut rng);
    assert_eq!(actions, vec![GuessAction::LetterCleared]);
    assert!(letter.blessings.iter().all(|b| b.collected));
}

#[test]
fn a_letter_comes_from_the_bags_picks() {
    let (stubs, flavors, names) = assets();
    let mut rng = ChaCha8Rng::seed_from_u64(11);
    let mut bag = LetterBag::try_new(vec![1], vec![0], vec![2], vec![1], &mut rng).unwrap();
    let letter = bag.pull_letter(&stubs, &flavors, &names, &mut rng, 2, 1, 7..8);
    assert_eq!(letter.flavor.body, flavors[1].body);
    assert_eq!(letter.time_limit, 7);
    assert_eq!(letter.interpolated_flavor.body, "Within 7 hours, 2 copies!");
    assert_eq!(letter.interpolated_flavor.signoff, "Forward it to 2.");
    for b in &letter.blessings {
        assert_eq!(b.first_name, "Bo");
        assert_eq!(b.pronouns, Pronouns::HeHimHis);
        assert_eq!(b.target_word, "coin");
        assert_eq!(b.effect, Effect::Money(5));
    }
    assert_eq!(letter.curses[0].first_name, "Bo");
    assert_eq!(letter.curses[0].target_word, "roof");
}

#[test]
fn flavours_come_once_per_draft() {
    let (stubs, flavors, names) = assets();
    for seed in 0..10 {
        let mut rng = ChaCha8Rng::seed_from_u64(seed);
        let mut bag =
            LetterBag::try_new(vec![0, 1], vec![0, 1], vec![2], vec![0, 1, 2], &mut rng).unwrap();
        let first = bag.pull_letter(&stubs, &flavors, &names, &mut rng, 1, 1, 5..9);
        let second = bag.pull_letter(&stubs, &flavors, &names, &mut rng, 1, 1, 5..9);
        assert_ne!(first.flavor.body, second.flavor.body);
    }
}

#[test]
fn telling_needs_playable_stubs_in_the_bags() {
    let (mut stubs, _, names) = assets();
    stubs.push(stub("too short", Effect::Noop, 3));
    let mut rng = ChaCha8Rng::seed_from_u64(2);
    let good = LetterBag::try_new(vec![0], vec![0, 1], vec![2], vec![0, 1, 2], &mut rng).unwrap();
    assert!(good.can_tell_all(&stubs, &names));
    let bad = LetterBag::try_new(vec![0], vec![0], vec![3], vec![0], &mut rng).unwrap();
    assert!(!bad.can_tell_all(&stubs, &names));
}

#[test]
fn cubes_come_once_per_draft() {
    let mut rng = ChaCha8Rng::seed_from_u64(6);
    let mut bag = WordBag::new(&[], &[], &["a", "b", "c", "d"], &mut rng);
    for _ in 0..3 {
        let mut seen: Vec<String> = (0..4)
            .map(|_| bag.draw_for_spawn(&[], &mut rng).unwrap().word)
            .collect();
        seen.sort();
        assert_eq!(seen, vec!["a", "b", "c", "d"]);
    }
}

#[test]
fn spawning_keeps_words_apart() {
    let mut rng = ChaCha8Rng::seed_from_u64(8);
    let mut bag = WordBag::new(&[], &[], &["a", "b", "a", "c"], &mut rng);
    let mut on_screen: Vec<WordCube> = Vec::new();
    for _ in 0..40 {
        if let Some(c) = bag.draw_for_spawn(&on_screen, &mut rng) {
            on_screen.push(c);
        }
    }
    let mut words: Vec<&str> = on_screen.iter().map(|c| c.word.as_str()).collect();
    words.sort();
    assert_eq!(words, vec!["a", "b", "c"]);
}

#[test]
fn window_typing() {
    let mut p = Prompt::new();
    let s = p.handle_window_key("Hé1 x!", false, true);
    assert_eq!(s, TypingSounds { letters: 3, backspace: false });
    assert_eq!(p.text, "héx");
    let s = p.handle_window_key("", true, true);
    assert_eq!(s, TypingSounds { letters: 0, backspace: true });
    assert_eq!(p.text, "hé");
    let s = p.handle_window_key("Z", true, false);
    assert_eq!(s, TypingSounds { letters: 0, backspace: false });
    assert_eq!(p.text, "hé");
    let s = p.handle_window_key("Q", true, true);
    assert_eq!(s, TypingSounds { letters: 1, backspace: true });
    assert_eq!(p.text, "hé");
}

#[test]
fn only_small_letters_reach_the_prompt() {
    let mut p = Prompt::new();
    for b in 0u8..128 {
        p.handle_key(Key::Char(b as char), true);
    }
    assert_eq!(p.text, "abcdefghijklmnopqrstuvwxyzabcdefghijklmnopqrstuvwxyz");
    let mut w = Prompt::new();
    let all: String = (0u8..128).map(|b| b as char).collect();
    w.handle_window_key(&all, false, true);
    assert_eq!(w.text, p.text);
}

#[test]
fn window_controls() {
    assert_eq!(control_for_window_key(Key::Char('='), true, true), None);
    assert_eq!(control_for_window_key(Key::Tab, true, false), Some(Control::ToggleSound));
    assert_eq!(control_for_window_key(Key::Up, true, false), Some(Control::ScrollUp));
    assert_eq!(control_for_window_key(Key::Down, true, false), Some(Control::ScrollDown));
    assert_eq!(control_for_window_key(Key::Enter, true, true), Some(Control::SubmitWord));
    assert_eq!(control_for_window_key(Key::Enter, true, false), None);
}

#[test]
fn no_cube_twice_in_a_row() {
    let mut rng = ChaCha8Rng::seed_from_u64(12);
    let mut bag = WordBag::new(&[], &[], &["a", "b", "c"], &mut rng);
    let mut last = bag.draw_for_spawn(&[], &mut rng).unwrap().word;
    for _ in 0..60 {
        let next = bag.draw_for_spawn(&[], &mut rng).unwrap().word;
        assert_ne!(next, last);
        last = next;
    }
}

#[test]
fn a_rejected_cube_does_not_come_next() {
    for seed in 0..20 {
        let mut rng = ChaCha8Rng::seed_from_u64(seed);
        let mut bag = WordBag::new(&[], &[], &["a", "b"], &mut rng);
        let on_screen = vec![cube("a", '~')];
        for _ in 0..10 {
            if bag.draw_for_spawn(&on_screen, &mut rng).is_none() {
                let next = bag.draw_for_spawn(&[], &mut rng).unwrap();
                assert_eq!(next.word, "b");
            }
        }
    }
}
