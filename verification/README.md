# chainletter

The rules of a small chain-letter word game, written in Verus and proved
against their contracts.

A letter is drawn from shuffle bags of flavour texts, testimonials and names.
Each testimonial hides one of its words behind underscores; the hidden words,
together with decoys, fall through the scene as word cubes. Typing a word and
submitting it bursts the matching cubes, collects the testimonials that hide
it, applies their effects, and clears the letter once every blessing has been
collected.

## Layout

- `src/` — the verified library.
  - `text.rs`: whitespace splitting, joining, substitution, decimal numbers.
  - `letters.rs`: effects, pronouns, testimonials, letters, the letter bag
    and the word-cube bag.
  - `word_checks.rs`: what a submitted word does; player statistics.
  - `input.rs`: key bindings and prompt editing, for the terminal build
    and the window build.
  - `sound.rs`: which recording plays for a sound effect.
  - `spawning.rs`: word cubes and the spawn check.
  - `shuffle.rs`, `rng.rs`: the shuffle bag and the random draws the game
    makes, behind small trusted wrappers.
- `tests/` — tests of the library on concrete values.
- `app/` — the Bevy plugins and systems that run the game around the library:
  asset loading, entities, rendering, audio and floating-point motion.
