//! What a submitted word does: which cubes burst, which testimonials are
//! collected, which sounds play and effects apply, and when a letter is
//! cleared.

use crate::input::Prompt;
use crate::letters::{without_first_word, Effect, Letter, Testimonial, WordBag};
use crate::sound::SoundEffect;
use crate::shuffle::is_full_draft;
use crate::spawning::WordCube;
use rand_chacha::ChaCha8Rng;
use vstd::prelude::*;

verus! {

/// The colours of the palette that confetti is drawn in.
#[derive(Clone, Copy, Debug, PartialEq, Eq, Structural)]
pub enum PaletteColor {
    Green,
    Red,
    Yellow,
    Purple,
}

/// The confetti colour of a cube's burst character: green for a blessing
/// (`'+'`), red for a curse (`'x'`), yellow for a decoy (`'~'`), purple
/// otherwise.
pub open spec fn character_color(c: char) -> PaletteColor {
    if c == '+' {
        PaletteColor::Green
    } else if c == 'x' {
        PaletteColor::Red
    } else if c == '~' {
        PaletteColor::Yellow
    } else {
        PaletteColor::Purple
    }
}

/// The confetti colour of a burst character.
pub fn color_for_character(character: &char) -> (r: PaletteColor)
    ensures
        r == character_color(*character),
{
    match *character {
        '+' => PaletteColor::Green,
        'x' => PaletteColor::Red,
        '~' => PaletteColor::Yellow,
        _ => PaletteColor::Purple,
    }
}

/// The player's running totals.
#[derive(Clone, Copy, Debug, PartialEq, Eq, Structural)]
pub struct Statistics {
    pub score: i32,
    pub money: i32,
    pub income: i32,
}

impl Statistics {
    /// The effect can be added without leaving the range of an `i32`.
    pub open spec fn can_apply(self, effect: Effect) -> bool {
        match effect {
            Effect::Score(n) => i32::MIN <= self.score + n <= i32::MAX,
            Effect::Money(n) => i32::MIN <= self.money + n <= i32::MAX,
            Effect::Income(n) => i32::MIN <= self.income + n <= i32::MAX,
            Effect::Noop => true,
        }
    }

    /// The totals with the effect added to the one it names.
    pub open spec fn applied(self, effect: Effect) -> Statistics {
        match effect {
            Effect::Score(n) => Statistics { score: (self.score + n) as i32, ..self },
            Effect::Money(n) => Statistics { money: (self.money + n) as i32, ..self },
            Effect::Income(n) => Statistics { income: (self.income + n) as i32, ..self },
            Effect::Noop => self,
        }
    }

    /// Adds an effect to the totals.
    pub fn apply_effect(&mut self, effect: Effect)
        requires
            old(self).can_apply(effect),
        ensures
            *final(self) == old(self).applied(effect),
    {
        match effect {
            Effect::Score(n) => self.score = self.score + n,
            Effect::Money(n) => self.money = self.money + n,
            Effect::Income(n) => self.income = self.income + n,
            Effect::Noop => {},
        }
    }
}

/// Effects commute: the totals do not depend on the order in which two
/// effects arrive (when neither order overflows).
pub proof fn lemma_effects_commute(s: Statistics, a: Effect, b: Effect)
    requires
        s.can_apply(a),
        s.applied(a).can_apply(b),
        s.can_apply(b),
        s.applied(b).can_apply(a),
    ensures
        s.applied(a).applied(b) == s.applied(b).applied(a),
{
}

/// An effect adds its amount, whatever its sign, to the total it names and
/// leaves the other two as they were; `Noop` changes nothing.
pub proof fn lemma_effect_adds_its_amount(s: Statistics, e: Effect)
    requires
        s.can_apply(e),
    ensures
        s.applied(e).score == s.score + match e {
            Effect::Score(n) => n as int,
            _ => 0int,
        },
        s.applied(e).money == s.money + match e {
            Effect::Money(n) => n as int,
            _ => 0int,
        },
        s.applied(e).income == s.income + match e {
            Effect::Income(n) => n as int,
            _ => 0int,
        },
{
}

/// What the game does after a word is submitted.
#[derive(Clone, Copy, Debug, PartialEq, Eq, Structural)]
pub enum GuessAction {
    /// The cube at this position among those on screen bursts into confetti.
    ClearCube(usize),
    PlaySound(SoundEffect),
    Activate(Effect),
    LetterCleared,
}

/// For each testimonial whose word was typed, in order: its sound, then its
/// effect.
pub open spec fn testimonial_actions(
    ts: Seq<Testimonial>,
    word: Seq<char>,
    sound: SoundEffect,
) -> Seq<GuessAction>
    decreases ts.len(),
{
    if ts.len() == 0 {
        Seq::empty()
    } else {
        testimonial_actions(ts.drop_last(), word, sound) + if ts.last().target_word@ == word {
            seq![GuessAction::PlaySound(sound), GuessAction::Activate(ts.last().effect)]
        } else {
            Seq::empty()
        }
    }
}

/// The testimonials of `ts` that hide `word`, in order.
pub open spec fn hiding(ts: Seq<Testimonial>, word: Seq<char>) -> Seq<Testimonial>
    decreases ts.len(),
{
    if ts.len() == 0 {
        Seq::empty()
    } else if ts.last().target_word@ == word {
        hiding(ts.drop_last(), word).push(ts.last())
    } else {
        hiding(ts.drop_last(), word)
    }
}

/// Every testimonial hiding the submitted word sounds and takes effect,
/// once each and in order, and nothing else does: two actions per hiding
/// testimonial, its sound and then its own effect.
pub proof fn lemma_every_hiding_testimonial_acts(
    ts: Seq<Testimonial>,
    word: Seq<char>,
    sound: SoundEffect,
)
    ensures
        testimonial_actions(ts, word, sound).len() == 2 * hiding(ts, word).len(),
        forall|k: int|
            0 <= k < hiding(ts, word).len() ==> testimonial_actions(ts, word, sound)[2 * k]
                == GuessAction::PlaySound(sound) && testimonial_actions(ts, word, sound)[2 * k + 1]
                == GuessAction::Activate((#[trigger] hiding(ts, word)[k]).effect),
    decreases ts.len(),
{
    if ts.len() > 0 {
        let rest = ts.drop_last();
        lemma_every_hiding_testimonial_acts(rest, word, sound);
        let h = hiding(ts, word);
        let hr = hiding(rest, word);
        let a = testimonial_actions(ts, word, sound);
        let ar = testimonial_actions(rest, word, sound);
        assert forall|k: int| 0 <= k < h.len() implies a[2 * k] == GuessAction::PlaySound(sound)
            && a[2 * k + 1] == GuessAction::Activate((#[trigger] h[k]).effect) by {
            if k < hr.len() {
                assert(h[k] == hr[k]);
                assert(a[2 * k] == ar[2 * k]);
                assert(a[2 * k + 1] == ar[2 * k + 1]);
            } else {
                assert(h[k] == ts.last());
            }
        }
    }
}

/// Some testimonial hides the word exactly when the hiding ones are not
/// none.
proof fn lemma_any_target_iff_hiding(ts: Seq<Testimonial>, word: Seq<char>)
    ensures
        any_target(ts, word) <==> hiding(ts, word).len() > 0,
    decreases ts.len(),
{
    if ts.len() > 0 {
        let rest = ts.drop_last();
        lemma_any_target_iff_hiding(rest, word);
        if any_target(rest, word) {
            let i = choose|i: int| 0 <= i < rest.len() && (#[trigger] rest[i]).target_word@ == word;
            assert(ts[i] == rest[i]);
        }
        if any_target(ts, word) && ts.last().target_word@ != word {
            let i = choose|i: int| 0 <= i < ts.len() && (#[trigger] ts[i]).target_word@ == word;
            assert(rest[i] == ts[i]);
        }
        if ts.last().target_word@ == word {
            assert(ts[ts.len() - 1].target_word@ == word);
        }
    }
}

/// What one cube on screen brings when `word` is submitted: the cube bursts
/// first if it carries the word; then every blessing hiding the word plays
/// the blessing sound and applies its own effect, in order; then every curse
/// hiding it does the same with the curse sound; and a burst cube that no
/// testimonial hides ends with the decoy sound. Nothing else.
pub proof fn lemma_cube_actions_shape(
    cube: WordCube,
    index: int,
    blessings: Seq<Testimonial>,
    curses: Seq<Testimonial>,
    word: Seq<char>,
)
    ensures
        cube_actions(cube, index, blessings, curses, word).len() == (if cube.word@ == word {
            1int
        } else {
            0int
        }) + 2 * hiding(blessings, word).len() + 2 * hiding(curses, word).len() + (if cube.word@
            == word && hiding(blessings, word).len() == 0 && hiding(curses, word).len() == 0 {
            1int
        } else {
            0int
        }),
        cube.word@ == word ==> cube_actions(cube, index, blessings, curses, word)[0]
            == GuessAction::ClearCube(index as usize),
        forall|k: int|
            0 <= k < hiding(blessings, word).len() ==> cube_actions(
                cube,
                index,
                blessings,
                curses,
                word,
            )[(if cube.word@ == word {
                1int
            } else {
                0int
            }) + 2 * k] == GuessAction::PlaySound(SoundEffect::GuessBless) && cube_actions(
                cube,
                index,
                blessings,
                curses,
                word,
            )[(if cube.word@ == word {
                1int
            } else {
                0int
            }) + 2 * k + 1] == GuessAction::Activate((#[trigger] hiding(blessings, word)[k]).effect),
        forall|k: int|
            0 <= k < hiding(curses, word).len() ==> cube_actions(
                cube,
                index,
                blessings,
                curses,
                word,
            )[(if cube.word@ == word {
                1int
            } else {
                0int
            }) + 2 * hiding(blessings, word).len() + 2 * k] == GuessAction::PlaySound(
                SoundEffect::GuessCurse,
            ) && cube_actions(cube, index, blessings, curses, word)[(if cube.word@ == word {
                1int
            } else {
                0int
            }) + 2 * hiding(blessings, word).len() + 2 * k + 1] == GuessAction::Activate(
                (#[trigger] hiding(curses, word)[k]).effect,
            ),
        cube.word@ == word && hiding(blessings, word).len() == 0 && hiding(curses, word).len() == 0
            ==> cube_actions(cube, index, blessings, curses, word).last() == GuessAction::PlaySound(
            SoundEffect::GuessDecoy,
        ),
{
    lemma_every_hiding_testimonial_acts(blessings, word, SoundEffect::GuessBless);
    lemma_every_hiding_testimonial_acts(curses, word, SoundEffect::GuessCurse);
    lemma_any_target_iff_hiding(blessings, word);
    lemma_any_target_iff_hiding(curses, word);
    let a = cube_actions(cube, index, blessings, curses, word);
    let o: int = if cube.word@ == word {
        1
    } else {
        0
    };
    let c: Seq<GuessAction> = if cube.word@ == word {
        seq![GuessAction::ClearCube(index as usize)]
    } else {
        Seq::empty()
    };
    let tb = testimonial_actions(blessings, word, SoundEffect::GuessBless);
    let tc = testimonial_actions(curses, word, SoundEffect::GuessCurse);
    let hb = hiding(blessings, word);
    let hc = hiding(curses, word);
    assert forall|k: int| 0 <= k < hb.len() implies a[o + 2 * k] == GuessAction::PlaySound(
        SoundEffect::GuessBless,
    ) && a[o + 2 * k + 1] == GuessAction::Activate((#[trigger] hb[k]).effect) by {
        assert(a[o + 2 * k] == tb[2 * k]);
        assert(a[o + 2 * k + 1] == tb[2 * k + 1]);
    }
    assert forall|k: int| 0 <= k < hc.len() implies a[o + 2 * hb.len() + 2 * k]
        == GuessAction::PlaySound(SoundEffect::GuessCurse) && a[o + 2 * hb.len() + 2 * k + 1]
        == GuessAction::Activate((#[trigger] hc[k]).effect) by {
        assert(a[o + 2 * hb.len() + 2 * k] == tc[2 * k]);
        assert(a[o + 2 * hb.len() + 2 * k + 1] == tc[2 * k + 1]);
    }
}

/// Some testimonial hides `word`.
pub open spec fn any_target(ts: Seq<Testimonial>, word: Seq<char>) -> bool {
    exists|i: int| 0 <= i < ts.len() && (#[trigger] ts[i]).target_word@ == word
}

/// What one cube on screen contributes when `word` is submitted: it bursts
/// if it carries the word; every blessing and then every curse hiding the
/// word plays its sound and applies its effect; and a burst cube that no
/// testimonial hides is a decoy, with the decoy sound.
pub open spec fn cube_actions(
    cube: WordCube,
    index: int,
    blessings: Seq<Testimonial>,
    curses: Seq<Testimonial>,
    word: Seq<char>,
) -> Seq<GuessAction> {
    let hit = cube.word@ == word;
    (if hit {
        seq![GuessAction::ClearCube(index as usize)]
    } else {
        Seq::empty()
    }) + testimonial_actions(blessings, word, SoundEffect::GuessBless) + testimonial_actions(
        curses,
        word,
        SoundEffect::GuessCurse,
    ) + if hit && !any_target(blessings, word) && !any_target(curses, word) {
        seq![GuessAction::PlaySound(SoundEffect::GuessDecoy)]
    } else {
        Seq::empty()
    }
}

/// The contributions of all cubes on screen, in order.
pub open spec fn guess_actions(
    on_screen: Seq<WordCube>,
    blessings: Seq<Testimonial>,
    curses: Seq<Testimonial>,
    word: Seq<char>,
) -> Seq<GuessAction>
    decreases on_screen.len(),
{
    if on_screen.len() == 0 {
        Seq::empty()
    } else {
        guess_actions(on_screen.drop_last(), blessings, curses, word) + cube_actions(
            on_screen.last(),
            on_screen.len() - 1,
            blessings,
            curses,
            word,
        )
    }
}

/// `t` with its collected flag set to `collected`.
pub open spec fn with_collected(t: Testimonial, collected: bool) -> Testimonial {
    Testimonial { collected, ..t }
}

/// The testimonials after `word` was submitted: those hiding the word are
/// collected if any cube was on screen; nothing else changes.
pub open spec fn marked(ts: Seq<Testimonial>, word: Seq<char>, any_cube: bool) -> Seq<Testimonial> {
    Seq::new(
        ts.len(),
        |i: int| with_collected(ts[i], ts[i].collected || (any_cube && ts[i].target_word@ == word)),
    )
}

/// Every blessing has been collected.
pub open spec fn all_collected(ts: Seq<Testimonial>) -> bool {
    forall|i: int| 0 <= i < ts.len() ==> (#[trigger] ts[i]).collected
}

/// The cube bag after `n` cubes each took out the first cube carrying `word`.
pub open spec fn without_word_times(c: Seq<WordCube>, word: Seq<char>, n: nat) -> Seq<WordCube>
    decreases n,
{
    if n == 0 {
        c
    } else {
        without_first_word(without_word_times(c, word, (n - 1) as nat), word)
    }
}

proof fn lemma_actions_same_targets(
    a: Seq<Testimonial>,
    b: Seq<Testimonial>,
    word: Seq<char>,
    sound: SoundEffect,
)
    requires
        a.len() == b.len(),
        forall|i: int|
            0 <= i < a.len() ==> (#[trigger] a[i]).target_word == b[i].target_word && a[i].effect
                == b[i].effect,
    ensures
        testimonial_actions(a, word, sound) == testimonial_actions(b, word, sound),
    decreases a.len(),
{
    if a.len() > 0 {
        lemma_actions_same_targets(a.drop_last(), b.drop_last(), word, sound);
        assert(a[a.len() - 1].target_word == b[b.len() - 1].target_word);
    }
}

/// Marks the testimonials hiding `word` as collected and records their
/// sounds and effects; tells whether any hides the word.
fn collect_matching(
    ts: &mut Vec<Testimonial>,
    word: &String,
    sound: SoundEffect,
    actions: &mut Vec<GuessAction>,
) -> (hit: bool)
    ensures
        final(ts)@ == marked(old(ts)@, word@, true),
        final(actions)@ == old(actions)@ + testimonial_actions(old(ts)@, word@, sound),
        hit == any_target(old(ts)@, word@),
{
    let ghost start = ts@;
    let ghost acts = actions@;
    let mut hit = false;
    let mut j: usize = 0;
    while j < ts.len()
        invariant
            j <= ts@.len(),
            ts@.len() == start.len(),
            forall|i: int| 0 <= i < j ==> #[trigger] ts@[i] == marked(start, word@, true)[i],
            forall|i: int| j <= i < ts@.len() ==> #[trigger] ts@[i] == start[i],
            actions@ == acts + testimonial_actions(start.take(j as int), word@, sound),
            hit == any_target(start.take(j as int), word@),
        decreases ts@.len() - j,
    {
        assert(start.take(j + 1).drop_last() =~= start.take(j as int));
        assert(start.take(j + 1).last() == start[j as int]);
        if ts[j].target_word == *word {
            let t = &ts[j];
            let updated = Testimonial {
                first_name: t.first_name.clone(),
                last_initial: t.last_initial,
                pronouns: t.pronouns,
                message: t.message.clone(),
                target_word: t.target_word.clone(),
                effect: t.effect,
                collected: true,
            };
            let effect = t.effect;
            ts.set(j, updated);
            actions.push(GuessAction::PlaySound(sound));
            actions.push(GuessAction::Activate(effect));
            hit = true;
            assert(any_target(start.take(j + 1), word@)) by {
                assert(start.take(j + 1)[j as int].target_word@ == word@);
            }
        } else {
            assert(any_target(start.take(j + 1), word@) == any_target(start.take(j as int), word@))
                by {
                if any_target(start.take(j + 1), word@) {
                    let i = choose|i: int|
                        0 <= i < j + 1 && (#[trigger] start.take(j + 1)[i]).target_word@ == word@;
                    assert(start.take(j as int)[i] == start.take(j + 1)[i]);
                }
            }
        }
        assert(actions@ =~= acts + testimonial_actions(start.take(j + 1), word@, sound));
        j += 1;
    }
    assert(ts@ =~= marked(start, word@, true));
    assert(start.take(j as int) =~= start);
    hit
}

/// Whether every testimonial is collected.
fn every_collected(ts: &Vec<Testimonial>) -> (b: bool)
    ensures
        b == all_collected(ts@),
{
    let mut j: usize = 0;
    while j < ts.len()
        invariant
            j <= ts@.len(),
            forall|i: int| 0 <= i < j ==> (#[trigger] ts@[i]).collected,
        decreases ts@.len() - j,
    {
        if !ts[j].collected {
            return false;
        }
        j += 1;
    }
    true
}

/// Submits the prompt's word against the cubes on screen.
///
/// For every cube on screen, in order: the first cube carrying the word is
/// taken out of the bag and the bag reset, a fresh shuffle that forgets the
/// last drawn cube (with nothing on screen the bag is left exactly as it
/// was); then the cube's own actions
/// follow (see `cube_actions`). Blessings and curses hiding the word are
/// collected if any cube is on screen. The prompt is emptied, and the letter
/// is cleared once every blessing has been collected.
pub fn submit_word(
    letter: &mut Letter,
    word_bag: &mut WordBag,
    prompt: &mut Prompt,
    on_screen: &[WordCube],
    rng: &mut ChaCha8Rng,
) -> (actions: Vec<GuessAction>)
    requires
        old(word_bag).well_formed(),
    ensures
        final(word_bag).well_formed(),
        on_screen@.len() == 0 ==> *final(word_bag) == *old(word_bag),
        on_screen@.len() > 0 ==> is_full_draft(
            final(word_bag).draft(),
            final(word_bag).collection().len(),
        ) && final(word_bag).last_drawn() is None,
        final(word_bag).collection() == without_word_times(
            old(word_bag).collection(),
            old(prompt).text@,
            on_screen@.len(),
        ),
        final(letter).flavor == old(letter).flavor,
        final(letter).interpolated_flavor == old(letter).interpolated_flavor,
        final(letter).recipients == old(letter).recipients,
        final(letter).time_limit == old(letter).time_limit,
        final(letter).blessings@ == marked(
            old(letter).blessings@,
            old(prompt).text@,
            on_screen@.len() > 0,
        ),
        final(letter).curses@ == marked(
            old(letter).curses@,
            old(prompt).text@,
            on_screen@.len() > 0,
        ),
        final(prompt).text@ == Seq::<char>::empty(),
        actions@ == guess_actions(
            on_screen@,
            old(letter).blessings@,
            old(letter).curses@,
            old(prompt).text@,
        ) + if all_collected(final(letter).blessings@) {
            seq![GuessAction::LetterCleared]
        } else {
            Seq::empty()
        },
{
    let word = prompt.text.clone();
    let ghost blessings = letter.blessings@;
    let ghost curses = letter.curses@;
    let ghost coll = word_bag.collection();
    let mut actions: Vec<GuessAction> = Vec::new();
    let mut i: usize = 0;
    while i < on_screen.len()
        invariant
            i <= on_screen@.len(),
            word@ == old(prompt).text@,
            word_bag.well_formed(),
            i == 0 ==> *word_bag == *old(word_bag),
            i > 0 ==> is_full_draft(word_bag.draft(), word_bag.collection().len())
                && word_bag.last_drawn() is None,
            word_bag.collection() == without_word_times(coll, word@, i as nat),
            letter.flavor == old(letter).flavor,
            letter.interpolated_flavor == old(letter).interpolated_flavor,
            letter.recipients == old(letter).recipients,
            letter.time_limit == old(letter).time_limit,
            blessings == old(letter).blessings@,
            curses == old(letter).curses@,
            letter.blessings@ == marked(blessings, word@, i > 0),
            letter.curses@ == marked(curses, word@, i > 0),
            actions@ == guess_actions(on_screen@.take(i as int), blessings, curses, word@),
        decreases on_screen@.len() - i,
    {
        let ghost acts = actions@;
        let cube = &on_screen[i];
        word_bag.remove_word(word.as_str(), rng);
        let hit = cube.word == word;
        if hit {
            actions.push(GuessAction::ClearCube(i));
        }
        let ghost cur_b = letter.blessings@;
        let ghost cur_c = letter.curses@;
        let blessed = collect_matching(
            &mut letter.blessings,
            &word,
            SoundEffect::GuessBless,
            &mut actions,
        );
        let cursed = collect_matching(&mut letter.curses, &word, SoundEffect::GuessCurse, &mut actions);
        if hit && !blessed && !cursed {
            actions.push(GuessAction::PlaySound(SoundEffect::GuessDecoy));
        }
        proof {
            lemma_actions_same_targets(cur_b, blessings, word@, SoundEffect::GuessBless);
            lemma_actions_same_targets(cur_c, curses, word@, SoundEffect::GuessCurse);
            assert(any_target(cur_b, word@) == any_target(blessings, word@)) by {
                if any_target(cur_b, word@) {
                    let j = choose|j: int|
                        0 <= j < cur_b.len() && (#[trigger] cur_b[j]).target_word@ == word@;
                    assert(blessings[j].target_word@ == word@);
                }
                if any_target(blessings, word@) {
                    let j = choose|j: int|
                        0 <= j < blessings.len() && (#[trigger] blessings[j]).target_word@ == word@;
                    assert(cur_b[j].target_word@ == word@);
                }
            }
            assert(any_target(cur_c, word@) == any_target(curses, word@)) by {
                if any_target(cur_c, word@) {
                    let j = choose|j: int|
                        0 <= j < cur_c.len() && (#[trigger] cur_c[j]).target_word@ == word@;
                    assert(curses[j].target_word@ == word@);
                }
                if any_target(curses, word@) {
                    let j = choose|j: int|
                        0 <= j < curses.len() && (#[trigger] curses[j]).target_word@ == word@;
                    assert(cur_c[j].target_word@ == word@);
                }
            }
            assert(on_screen@.take(i + 1).drop_last() =~= on_screen@.take(i as int));
            assert(on_screen@.take(i + 1).last() == on_screen@[i as int]);
            assert(actions@ =~= guess_actions(on_screen@.take(i + 1), blessings, curses, word@));
            assert(letter.blessings@ =~= marked(blessings, word@, true));
            assert(letter.curses@ =~= marked(curses, word@, true));
        }
        i += 1;
    }
    assert(on_screen@.take(on_screen@.len() as int) =~= on_screen@);
    prompt.text = String::new();
    if every_collected(&letter.blessings) {
        actions.push(GuessAction::LetterCleared);
    }
    actions
}

/// A collected testimonial stays collected whatever is submitted next.
pub proof fn lemma_collected_stays(ts: Seq<Testimonial>, word: Seq<char>, any_cube: bool, i: int)
    requires
        0 <= i < ts.len(),
        ts[i].collected,
    ensures
        marked(ts, word, any_cube)[i].collected,
{
}

/// Submitting the same word a second time collects nothing more.
pub proof fn lemma_resubmit_collects_nothing(ts: Seq<Testimonial>, word: Seq<char>, any_cube: bool)
    ensures
        marked(marked(ts, word, any_cube), word, any_cube) == marked(ts, word, any_cube),
{
    assert(marked(marked(ts, word, any_cube), word, any_cube) =~= marked(ts, word, any_cube));
}

/// A letter whose blessings are all collected stays cleared.
pub proof fn lemma_cleared_stays_cleared(ts: Seq<Testimonial>, word: Seq<char>, any_cube: bool)
    requires
        all_collected(ts),
    ensures
        all_collected(marked(ts, word, any_cube)),
{
    assert forall|i: int| 0 <= i < marked(ts, word, any_cube).len() implies (#[trigger] marked(
        ts,
        word,
        any_cube,
    )[i]).collected by {
        assert(ts[i].collected);
    }
}

/// With no cube on screen, a submission collects nothing and only reports
/// whether the letter was already cleared.
pub proof fn lemma_nothing_on_screen(
    blessings: Seq<Testimonial>,
    curses: Seq<Testimonial>,
    word: Seq<char>,
)
    ensures
        marked(blessings, word, false) == blessings,
        marked(curses, word, false) == curses,
        guess_actions(Seq::empty(), blessings, curses, word) == Seq::<GuessAction>::empty(),
{
    assert(marked(blessings, word, false) =~= blessings);
    assert(marked(curses, word, false) =~= curses);
}

/// After a submission with a cube on screen, a blessing is collected exactly
/// when it was before or its word is the one submitted.
pub proof fn lemma_collected_iff(ts: Seq<Testimonial>, word: Seq<char>, i: int)
    requires
        0 <= i < ts.len(),
    ensures
        marked(ts, word, true)[i].collected <==> (ts[i].collected || ts[i].target_word@ == word),
{
}

} // verus!
