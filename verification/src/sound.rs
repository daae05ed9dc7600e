//! Sound effects and the choice of the recording that plays for each.

use crate::rng::random_below;
use rand_chacha::ChaCha8Rng;
use vstd::prelude::*;

verus! {

/// A moment of the game that has a sound.
#[derive(Clone, Copy, Debug, PartialEq, Eq, Structural)]
pub enum SoundEffect {
    Window,
    TextGroup,
    TextCharacter,
    TextHeaderBless,
    TextBless,
    TextHeaderCurse,
    TextCurse,
    Start,
    LetterClear,
    LetterFail,
    GuessBless,
    GuessDecoy,
    GuessCurse,
}

/// One of the loaded recordings. Typing a character has several recordings;
/// `TextCharacter(k)` is the `k`-th of them.
#[derive(Clone, Copy, Debug, PartialEq, Eq, Structural)]
pub enum SoundAsset {
    Window,
    TextGroup,
    TextCharacter(usize),
    TextHeaderBless,
    TextBless,
    TextHeaderCurse,
    TextCurse,
    Start,
    LetterClear,
    LetterFail,
    GuessBless,
    GuessDecoy,
    GuessCurse,
}

/// The recording for `effect`; for a typed character, the `pick`-th of its
/// recordings.
pub open spec fn asset_for(effect: SoundEffect, pick: usize) -> SoundAsset {
    match effect {
        SoundEffect::Window => SoundAsset::Window,
        SoundEffect::TextGroup => SoundAsset::TextGroup,
        SoundEffect::TextCharacter => SoundAsset::TextCharacter(pick),
        SoundEffect::TextHeaderBless => SoundAsset::TextHeaderBless,
        SoundEffect::TextBless => SoundAsset::TextBless,
        SoundEffect::TextHeaderCurse => SoundAsset::TextHeaderCurse,
        SoundEffect::TextCurse => SoundAsset::TextCurse,
        SoundEffect::Start => SoundAsset::Start,
        SoundEffect::LetterClear => SoundAsset::LetterClear,
        SoundEffect::LetterFail => SoundAsset::LetterFail,
        SoundEffect::GuessBless => SoundAsset::GuessBless,
        SoundEffect::GuessDecoy => SoundAsset::GuessDecoy,
        SoundEffect::GuessCurse => SoundAsset::GuessCurse,
    }
}

/// The recording for `effect`, given which of the typing recordings was
/// picked.
pub fn sound_asset(effect: SoundEffect, text_character_pick: usize) -> (r: SoundAsset)
    ensures
        r == asset_for(effect, text_character_pick),
{
    match effect {
        SoundEffect::Window => SoundAsset::Window,
        SoundEffect::TextGroup => SoundAsset::TextGroup,
        SoundEffect::TextCharacter => SoundAsset::TextCharacter(text_character_pick),
        SoundEffect::TextHeaderBless => SoundAsset::TextHeaderBless,
        SoundEffect::TextBless => SoundAsset::TextBless,
        SoundEffect::TextHeaderCurse => SoundAsset::TextHeaderCurse,
        SoundEffect::TextCurse => SoundAsset::TextCurse,
        SoundEffect::Start => SoundAsset::Start,
        SoundEffect::LetterClear => SoundAsset::LetterClear,
        SoundEffect::LetterFail => SoundAsset::LetterFail,
        SoundEffect::GuessBless => SoundAsset::GuessBless,
        SoundEffect::GuessDecoy => SoundAsset::GuessDecoy,
        SoundEffect::GuessCurse => SoundAsset::GuessCurse,
    }
}

/// The recording to play for `effect`: nothing while sound is off; for a
/// typed character, one of its `text_character_count` recordings at random;
/// otherwise the effect's own recording.
pub fn select_sound(
    effect: SoundEffect,
    sound_enabled: bool,
    text_character_count: usize,
    rng: &mut ChaCha8Rng,
) -> (r: Option<SoundAsset>)
    requires
        sound_enabled && effect == SoundEffect::TextCharacter ==> text_character_count > 0,
    ensures
        !sound_enabled ==> r is None,
        sound_enabled && effect != SoundEffect::TextCharacter ==> r == Some(asset_for(effect, 0)),
        sound_enabled && effect == SoundEffect::TextCharacter ==> exists|k: usize|
            k < text_character_count && r == Some(#[trigger] asset_for(effect, k)),
{
    if !sound_enabled {
        return None;
    }
    let pick = if effect == SoundEffect::TextCharacter {
        random_below(rng, text_character_count)
    } else {
        0
    };
    let r = sound_asset(effect, pick);
    if effect != SoundEffect::TextCharacter {
        assert(asset_for(effect, pick) == asset_for(effect, 0));
    }
    Some(r)
}

/// Each sound effect plays its own recording: the one of the same name,
/// whatever typing recording was picked; a typed character plays the picked
/// typing recording.
pub proof fn lemma_each_effect_its_recording(pick: usize)
    ensures
        asset_for(SoundEffect::Window, pick) == SoundAsset::Window,
        asset_for(SoundEffect::TextGroup, pick) == SoundAsset::TextGroup,
        asset_for(SoundEffect::TextHeaderBless, pick) == SoundAsset::TextHeaderBless,
        asset_for(SoundEffect::TextBless, pick) == SoundAsset::TextBless,
        asset_for(SoundEffect::TextHeaderCurse, pick) == SoundAsset::TextHeaderCurse,
        asset_for(SoundEffect::TextCurse, pick) == SoundAsset::TextCurse,
        asset_for(SoundEffect::Start, pick) == SoundAsset::Start,
        asset_for(SoundEffect::LetterClear, pick) == SoundAsset::LetterClear,
        asset_for(SoundEffect::LetterFail, pick) == SoundAsset::LetterFail,
        asset_for(SoundEffect::GuessBless, pick) == SoundAsset::GuessBless,
        asset_for(SoundEffect::GuessDecoy, pick) == SoundAsset::GuessDecoy,
        asset_for(SoundEffect::GuessCurse, pick) == SoundAsset::GuessCurse,
        asset_for(SoundEffect::TextCharacter, pick) == SoundAsset::TextCharacter(pick),
{
}

/// No two sound effects share a recording, and no two picks of the typing
/// recordings do: the recording played tells which effect (and which pick)
/// it was.
pub proof fn lemma_recordings_distinct(a: SoundEffect, b: SoundEffect, i: usize, j: usize)
    requires
        asset_for(a, i) == asset_for(b, j),
    ensures
        a == b,
        a == SoundEffect::TextCharacter ==> i == j,
{
}

} // verus!
