//! Keyboard and mouse input: what each key does, and how typing edits the
//! prompt.

use crate::text::{chars_of, push_char};
use vstd::prelude::*;

verus! {

/// A key as the terminal reports it.
#[derive(Clone, Copy, Debug, PartialEq, Eq, Structural)]
pub enum Key {
    Char(char),
    Tab,
    Up,
    Down,
    Enter,
    Backspace,
    Other,
}

/// A mouse event as the terminal reports it.
#[derive(Clone, Copy, Debug, PartialEq, Eq, Structural)]
pub enum MouseKind {
    ScrollUp,
    ScrollDown,
    Other,
}

/// What an input asks the game to do, besides editing the prompt.
#[derive(Clone, Copy, Debug, PartialEq, Eq, Structural)]
pub enum Control {
    ToggleDebug,
    ToggleSound,
    ScrollUp,
    ScrollDown,
    SubmitWord,
}

/// The control bound to a key press: `=` toggles the debug view, Tab the
/// sound, the arrows scroll the letter, and Enter submits the prompt while
/// a round is being played. Releases and other keys do nothing.
pub open spec fn key_control(key: Key, pressed: bool, playing: bool) -> Option<Control> {
    if !pressed {
        None
    } else {
        match key {
            Key::Char(c) => if c == '=' {
                Some(Control::ToggleDebug)
            } else {
                None
            },
            Key::Tab => Some(Control::ToggleSound),
            Key::Up => Some(Control::ScrollUp),
            Key::Down => Some(Control::ScrollDown),
            Key::Enter => if playing {
                Some(Control::SubmitWord)
            } else {
                None
            },
            _ => None,
        }
    }
}

/// The control bound to a key event.
pub fn control_for_key(key: Key, pressed: bool, playing: bool) -> (r: Option<Control>)
    ensures
        r == key_control(key, pressed, playing),
{
    if !pressed {
        return None;
    }
    match key {
        Key::Char(c) => if c == '=' {
            Some(Control::ToggleDebug)
        } else {
            None
        },
        Key::Tab => Some(Control::ToggleSound),
        Key::Up => Some(Control::ScrollUp),
        Key::Down => Some(Control::ScrollDown),
        Key::Enter => if playing {
            Some(Control::SubmitWord)
        } else {
            None
        },
        _ => None,
    }
}

/// The control bound to a key press of the window build: as in the
/// terminal, but with no key for the debug view.
pub open spec fn window_key_control(key: Key, pressed: bool, playing: bool) -> Option<Control> {
    match key {
        Key::Char(_) => None,
        _ => key_control(key, pressed, playing),
    }
}

/// The control bound to a key event of the window build.
pub fn control_for_window_key(key: Key, pressed: bool, playing: bool) -> (r: Option<Control>)
    ensures
        r == window_key_control(key, pressed, playing),
{
    match key {
        Key::Char(_) => None,
        _ => control_for_key(key, pressed, playing),
    }
}

/// What each key does, in both builds: only Enter depends on whether a
/// round is being played (it submits only then); Tab toggles the sound and
/// the arrows scroll at any time; `=` toggles the debug view in the terminal
/// build only; a release or any other key does nothing.
pub proof fn lemma_key_controls(key: Key, pressed: bool, playing: bool)
    ensures
        key != Key::Enter ==> key_control(key, pressed, playing) == key_control(
            key,
            pressed,
            !playing,
        ),
        key != Key::Enter ==> window_key_control(key, pressed, playing) == window_key_control(
            key,
            pressed,
            !playing,
        ),
        !pressed ==> key_control(key, pressed, playing) is None,
        !pressed ==> window_key_control(key, pressed, playing) is None,
        key_control(Key::Tab, true, playing) == Some(Control::ToggleSound),
        key_control(Key::Up, true, playing) == Some(Control::ScrollUp),
        key_control(Key::Down, true, playing) == Some(Control::ScrollDown),
        key_control(Key::Char('='), true, playing) == Some(Control::ToggleDebug),
        key_control(Key::Enter, true, true) == Some(Control::SubmitWord),
        key_control(Key::Enter, true, false) is None,
        key_control(Key::Backspace, true, playing) is None,
        key_control(Key::Other, true, playing) is None,
        key != Key::Char('=') ==> key_control(key, true, playing) != Some(Control::ToggleDebug),
        window_key_control(Key::Tab, true, playing) == Some(Control::ToggleSound),
        window_key_control(Key::Up, true, playing) == Some(Control::ScrollUp),
        window_key_control(Key::Down, true, playing) == Some(Control::ScrollDown),
        window_key_control(Key::Enter, true, true) == Some(Control::SubmitWord),
        window_key_control(Key::Enter, true, false) is None,
        window_key_control(key, pressed, playing) != Some(Control::ToggleDebug),
        key != Key::Enter ==> window_key_control(key, pressed, playing) != Some(
            Control::SubmitWord,
        ),
{
}

/// The control bound to a mouse event: the wheel scrolls the letter.
pub fn control_for_mouse(kind: MouseKind) -> (r: Option<Control>)
    ensures
        r == match kind {
            MouseKind::ScrollUp => Some(Control::ScrollUp),
            MouseKind::ScrollDown => Some(Control::ScrollDown),
            MouseKind::Other => None::<Control>,
        },
{
    match kind {
        MouseKind::ScrollUp => Some(Control::ScrollUp),
        MouseKind::ScrollDown => Some(Control::ScrollDown),
        MouseKind::Other => None,
    }
}

/// Whether a key leaves the info screen for the printing of the letter:
/// only the space bar does.
pub fn leaves_info_screen(key: Key) -> (b: bool)
    ensures
        b == (key == Key::Char(' ')),
{
    match key {
        Key::Char(c) => c == ' ',
        _ => false,
    }
}

/// `c` is an ASCII letter, `A`-`Z` or `a`-`z`.
pub open spec fn is_ascii_letter(c: char) -> bool {
    (65 <= c as u32 <= 90) || (97 <= c as u32 <= 122)
}

/// `c` is an ASCII capital, `A`-`Z`.
pub open spec fn is_ascii_uppercase(c: char) -> bool {
    65 <= c as u32 <= 90
}

/// Whether a character outside ASCII has Unicode's `Alphabetic` property,
/// as `char::is_alphabetic` reports it.
pub uninterp spec fn unicode_alphabetic(c: char) -> bool;

/// Whether `c` is alphabetic (`char::is_alphabetic`): within ASCII exactly
/// the letters `A`-`Z` and `a`-`z`; beyond it, Unicode's `Alphabetic`
/// property.
pub open spec fn is_alphabetic(c: char) -> bool {
    if (c as u32) < 128 {
        is_ascii_letter(c)
    } else {
        unicode_alphabetic(c)
    }
}

/// `char::is_alphabetic`, whether `c` has Unicode's `Alphabetic` property.
/// Within ASCII that property holds of the letters `A`-`Z` and `a`-`z` and
/// of nothing else; beyond ASCII the result is named by
/// `unicode_alphabetic`, and the Unicode tables it consults are not
/// restated here.
#[verifier::external_body]
fn char_is_alphabetic(c: char) -> (b: bool)
    ensures
        (c as u32) < 128 ==> b == is_ascii_letter(c),
        (c as u32) >= 128 ==> b == unicode_alphabetic(c),
{
    c.is_alphabetic()
}

/// `c` with an ASCII capital turned into its small letter; any other
/// character unchanged (`char::to_ascii_lowercase`).
pub open spec fn ascii_lowercase(c: char) -> char {
    if is_ascii_uppercase(c) {
        (c as u32 + 32) as char
    } else {
        c
    }
}

/// `c` with an ASCII capital turned into its small letter.
pub fn to_ascii_lowercase(c: char) -> (r: char)
    ensures
        r == ascii_lowercase(c),
{
    let u = c as u32;
    if 65 <= u && u <= 90 {
        let b: u8 = (u + 32) as u8;
        b as char
    } else {
        c
    }
}

/// Removes the last character of a string, if any (`String::pop`).
#[verifier::external_body]
fn pop_char(s: &mut String) -> (r: Option<char>)
    ensures
        old(s)@.len() == 0 ==> r is None && final(s)@ == old(s)@,
        old(s)@.len() > 0 ==> r == Some(old(s)@.last()) && final(s)@ == old(s)@.drop_last(),
{
    s.pop()
}

/// The word being typed.
pub struct Prompt {
    pub text: String,
}

/// What a key press does to the prompt text: an alphabetic character is
/// appended in ASCII lower case, Backspace removes the last character;
/// anything else, or a release, leaves the text as it is.
pub open spec fn prompt_after(text: Seq<char>, key: Key, pressed: bool) -> Seq<char> {
    if !pressed {
        text
    } else {
        match key {
            Key::Char(c) => if is_alphabetic(c) {
                text.push(ascii_lowercase(c))
            } else {
                text
            },
            Key::Backspace => if text.len() > 0 {
                text.drop_last()
            } else {
                text
            },
            _ => text,
        }
    }
}

/// Whether a key event makes the typing sound: a pressed alphabetic
/// character or a pressed Backspace.
pub open spec fn key_clicks(key: Key, pressed: bool) -> bool {
    pressed && match key {
        Key::Char(c) => is_alphabetic(c),
        Key::Backspace => true,
        _ => false,
    }
}

impl Prompt {
    /// An empty prompt.
    pub fn new() -> (p: Self)
        ensures
            p.text@ == Seq::<char>::empty(),
    {
        Prompt { text: String::new() }
    }

    /// Applies a key event to the prompt and tells whether the typing sound
    /// plays.
    pub fn handle_key(&mut self, key: Key, pressed: bool) -> (click: bool)
        ensures
            final(self).text@ == prompt_after(old(self).text@, key, pressed),
            click == key_clicks(key, pressed),
    {
        if !pressed {
            return false;
        }
        match key {
            Key::Char(c) => {
                if char_is_alphabetic(c) {
                    push_char(&mut self.text, to_ascii_lowercase(c));
                    true
                } else {
                    false
                }
            },
            Key::Backspace => {
                pop_char(&mut self.text);
                true
            },
            _ => false,
        }
    }
}

/// Typing an alphabetic character and then Backspace leaves the prompt as it
/// was.
pub proof fn lemma_type_then_erase(text: Seq<char>, c: char)
    requires
        is_alphabetic(c),
    ensures
        prompt_after(prompt_after(text, Key::Char(c), true), Key::Backspace, true) == text,
{
    assert(text.push(ascii_lowercase(c)).drop_last() =~= text);
}

/// Every character of `text` is alphabetic and none is an ASCII capital:
/// what typing can put into the prompt.
pub open spec fn typeable(text: Seq<char>) -> bool {
    forall|k: int|
        0 <= k < text.len() ==> is_alphabetic(#[trigger] text[k]) && !is_ascii_uppercase(text[k])
}

/// An alphabetic character, turned to ASCII lower case, is still alphabetic
/// and no ASCII capital.
proof fn lemma_lowercase_typeable(c: char)
    requires
        is_alphabetic(c),
    ensures
        is_alphabetic(ascii_lowercase(c)),
        !is_ascii_uppercase(ascii_lowercase(c)),
{
    if is_ascii_uppercase(c) {
        let l = (c as u32 + 32) as char;
        assert(l as u32 == c as u32 + 32);
    }
}

/// Typing keeps the prompt to small letters: when every character of the
/// prompt is alphabetic and none is an ASCII capital, the same holds after
/// any key event. Digits, spaces, punctuation and capitals never reach it.
pub proof fn lemma_prompt_stays_typeable(text: Seq<char>, key: Key, pressed: bool)
    requires
        typeable(text),
    ensures
        typeable(prompt_after(text, key, pressed)),
{
    let after = prompt_after(text, key, pressed);
    if pressed {
        match key {
            Key::Char(c) => {
                if is_alphabetic(c) {
                    lemma_lowercase_typeable(c);
                    assert forall|k: int| 0 <= k < after.len() implies is_alphabetic(
                        #[trigger] after[k],
                    ) && !is_ascii_uppercase(after[k]) by {
                        if k < text.len() {
                            assert(after[k] == text[k]);
                        }
                    }
                }
            },
            Key::Backspace => {
                assert forall|k: int| 0 <= k < after.len() implies is_alphabetic(
                    #[trigger] after[k],
                ) && !is_ascii_uppercase(after[k]) by {
                    assert(after[k] == text[k]);
                }
            },
            _ => {},
        }
    }
}

/// What a chunk of typed text adds to the prompt: each of its alphabetic
/// characters, in ASCII lower case, in order.
pub open spec fn typed_letters(chunk: Seq<char>) -> Seq<char>
    decreases chunk.len(),
{
    if chunk.len() == 0 {
        Seq::empty()
    } else {
        let rest = typed_letters(chunk.drop_last());
        if is_alphabetic(chunk.last()) {
            rest.push(ascii_lowercase(chunk.last()))
        } else {
            rest
        }
    }
}

/// What a key event of the window build does to the prompt text: when the
/// key is pressed, the alphabetic characters of the text it carries are
/// appended in ASCII lower case, and then, if the key is Backspace, the last
/// character is removed. A release leaves the text as it is.
pub open spec fn prompt_after_window(
    text: Seq<char>,
    chunk: Seq<char>,
    backspace: bool,
    pressed: bool,
) -> Seq<char> {
    if !pressed {
        text
    } else {
        let typed = text + typed_letters(chunk);
        if backspace && typed.len() > 0 {
            typed.drop_last()
        } else {
            typed
        }
    }
}

/// The typing sounds a key event of the window build makes: one per letter
/// typed, and one for a pressed Backspace.
#[derive(Clone, Copy, Debug, PartialEq, Eq, Structural)]
pub struct TypingSounds {
    pub letters: usize,
    pub backspace: bool,
}

impl Prompt {
    /// Applies a key event of the window build, which carries the text it
    /// typed (empty when none) and whether it is Backspace, and tells which
    /// typing sounds play.
    pub fn handle_window_key(&mut self, chunk: &str, backspace: bool, pressed: bool) -> (sounds:
        TypingSounds)
        ensures
            final(self).text@ == prompt_after_window(old(self).text@, chunk@, backspace, pressed),
            sounds.letters == (if pressed {
                typed_letters(chunk@).len()
            } else {
                0
            }),
            sounds.backspace == (pressed && backspace),
    {
        if !pressed {
            return TypingSounds { letters: 0, backspace: false };
        }
        let chars = chars_of(chunk);
        let ghost start = self.text@;
        let mut letters: usize = 0;
        let mut k: usize = 0;
        while k < chars.len()
            invariant
                k <= chars@.len(),
                chars@ == chunk@,
                letters <= k,
                self.text@ == start + typed_letters(chars@.take(k as int)),
                letters == typed_letters(chars@.take(k as int)).len(),
            decreases chars@.len() - k,
        {
            let c = chars[k];
            assert(chars@.take(k + 1).drop_last() =~= chars@.take(k as int));
            assert(chars@.take(k + 1).last() == c);
            if char_is_alphabetic(c) {
                push_char(&mut self.text, to_ascii_lowercase(c));
                letters += 1;
                assert(self.text@ =~= start + typed_letters(chars@.take(k + 1)));
            }
            k += 1;
        }
        assert(chars@.take(chars@.len() as int) =~= chars@);
        if backspace {
            pop_char(&mut self.text);
        }
        TypingSounds { letters, backspace }
    }
}

/// The window build keeps the prompt to small letters too: when every
/// character of the prompt is alphabetic and none is an ASCII capital, the
/// same holds after any key event, whatever text it carries.
pub proof fn lemma_window_prompt_stays_typeable(
    text: Seq<char>,
    chunk: Seq<char>,
    backspace: bool,
    pressed: bool,
)
    requires
        typeable(text),
    ensures
        typeable(prompt_after_window(text, chunk, backspace, pressed)),
{
    lemma_typed_letters_typeable(chunk);
    let typed = text + typed_letters(chunk);
    assert(typeable(typed)) by {
        assert forall|k: int| 0 <= k < typed.len() implies is_alphabetic(#[trigger] typed[k])
            && !is_ascii_uppercase(typed[k]) by {
            if k < text.len() {
                assert(typed[k] == text[k]);
            } else {
                assert(typed[k] == typed_letters(chunk)[k - text.len()]);
            }
        }
    }
    let after = prompt_after_window(text, chunk, backspace, pressed);
    assert forall|k: int| 0 <= k < after.len() implies is_alphabetic(#[trigger] after[k])
        && !is_ascii_uppercase(after[k]) by {
        if pressed {
            assert(after[k] == typed[k]);
        }
    }
}

/// What a chunk of typed text adds is made of small letters only.
proof fn lemma_typed_letters_typeable(chunk: Seq<char>)
    ensures
        typeable(typed_letters(chunk)),
        typed_letters(chunk).len() <= chunk.len(),
    decreases chunk.len(),
{
    if chunk.len() > 0 {
        lemma_typed_letters_typeable(chunk.drop_last());
        let rest = typed_letters(chunk.drop_last());
        if is_alphabetic(chunk.last()) {
            lemma_lowercase_typeable(chunk.last());
            let t = typed_letters(chunk);
            assert forall|k: int| 0 <= k < t.len() implies is_alphabetic(#[trigger] t[k])
                && !is_ascii_uppercase(t[k]) by {
                if k < rest.len() {
                    assert(t[k] == rest[k]);
                }
            }
        }
    }
}

} // verus!
