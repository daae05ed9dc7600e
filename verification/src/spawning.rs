//! Word cubes: the words that fall through the scene and wait to be typed.

use vstd::prelude::*;

verus! {

/// A falling cube that carries a word.
///
/// Its colour is `hsl(hue, 0.3, 0.4)`: saturation and lightness are the same
/// for every cube, so the hue in degrees is all that varies.
#[derive(Clone, Debug, Default)]
pub struct WordCube {
    pub word: String,
    pub hue: u32,
    pub despawn_character: char,
}

impl WordCube {
    /// A cube with the given word, hue and the character its confetti is
    /// made of when it is cleared.
    pub fn new(word: &str, hue: u32, despawn_character: char) -> (r: Self)
        ensures
            r.word@ == word@,
            r.hue == hue,
            r.despawn_character == despawn_character,
    {
        WordCube { word: word.to_owned(), hue, despawn_character }
    }

    /// A copy of the cube.
    pub fn duplicate(&self) -> (r: Self)
        ensures
            r == *self,
    {
        WordCube { word: self.word.clone(), hue: self.hue, despawn_character: self.despawn_character }
    }
}

/// No cube on screen carries the word `w`.
pub open spec fn word_absent(on_screen: Seq<WordCube>, w: Seq<char>) -> bool {
    forall|j: int| 0 <= j < on_screen.len() ==> (#[trigger] on_screen[j]).word@ != w
}

/// Whether a cube drawn from the bag may be spawned: only when no cube on
/// screen already carries its word.
pub fn may_spawn(candidate: &WordCube, on_screen: &[WordCube]) -> (b: bool)
    ensures
        b == word_absent(on_screen@, candidate.word@),
{
    let mut j: usize = 0;
    while j < on_screen.len()
        invariant
            j <= on_screen.len(),
            forall|i: int| 0 <= i < j ==> (#[trigger] on_screen@[i]).word@ != candidate.word@,
        decreases on_screen.len() - j,
    {
        if on_screen[j].word == candidate.word {
            return false;
        }
        j += 1;
    }
    true
}

/// No two cubes on screen carry the same word.
pub open spec fn words_distinct(on_screen: Seq<WordCube>) -> bool {
    forall|i: int, j: int|
        0 <= i < on_screen.len() && 0 <= j < on_screen.len() && i != j ==> (#[trigger] on_screen[i]).word@
            != (#[trigger] on_screen[j]).word@
}

/// What a spawn attempt returns for the bag's next cube `next`: the cube
/// when its word is not on screen yet, nothing otherwise (the result of
/// `WordBag::draw_for_spawn`).
pub open spec fn spawn_result(on_screen: Seq<WordCube>, next: WordCube) -> Option<WordCube> {
    if word_absent(on_screen, next.word@) {
        Some(next)
    } else {
        None
    }
}

/// The cubes on screen once a spawn attempt has returned `drawn`.
pub open spec fn after_spawn(on_screen: Seq<WordCube>, drawn: Option<WordCube>) -> Seq<WordCube> {
    match drawn {
        Some(c) => on_screen.push(c),
        None => on_screen,
    }
}

/// Spawning keeps the words on screen apart: when no two cubes on screen
/// carry the same word, a spawn attempt adds at most one cube, and still no
/// two carry the same word.
pub proof fn lemma_spawn_keeps_words_distinct(on_screen: Seq<WordCube>, next: WordCube)
    requires
        words_distinct(on_screen),
    ensures
        after_spawn(on_screen, spawn_result(on_screen, next)).len() <= on_screen.len() + 1,
        words_distinct(after_spawn(on_screen, spawn_result(on_screen, next))),
{
    let after = after_spawn(on_screen, spawn_result(on_screen, next));
    assert forall|i: int, j: int|
        0 <= i < after.len() && 0 <= j < after.len() && i != j implies (#[trigger] after[i]).word@
        != (#[trigger] after[j]).word@ by {
        if i < on_screen.len() && j < on_screen.len() {
            assert(after[i] == on_screen[i] && after[j] == on_screen[j]);
        } else if i < on_screen.len() {
            assert(after[i] == on_screen[i]);
        } else {
            assert(after[j] == on_screen[j]);
        }
    }
}

} // verus!
