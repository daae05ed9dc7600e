//! Letters: a flavour text with its placeholders filled in, and the
//! testimonials (blessings and curses) whose hidden words the player must
//! type.

use crate::rng::{choose_in_range, next_u32, random_below};
use crate::shuffle::{
    bag_draft, bag_items, bag_items_ref, bag_last_pick, bag_ready, bag_remove_item, bag_reset, bag_shuffle_new_draft,
    bag_try_new, is_full_draft, lemma_successive_picks_concat, next_pick, pick_many, pick_ready,
    pick_trace, picked_from, successive_picks,
};
use crate::spawning::{may_spawn, spawn_result, word_absent, WordCube};
use crate::text::{
    blank_word, decimal, decimal_string, is_word, join_with_spaces, join_words,
    lemma_words_are_words, lemma_words_of_join, push_char, push_signed_decimal, replace_all,
    replaced, signed_decimal, split_whitespace, underscore_run, underscores, utf8_len, views,
    words,
};
use bevy_shuffle_bag::ShuffleBag;
use rand_chacha::ChaCha8Rng;
use std::ops::Range;
use vstd::prelude::*;
use vstd::string::StringExecFns;
use vstd::utf8::encode_utf8;

verus! {

// ---------------------------------------------------------------------------
// Effects and pronouns
// ---------------------------------------------------------------------------

/// What collecting a testimonial's word does to the player's statistics.
#[derive(Clone, Copy, Debug, PartialEq, Eq, Structural)]
pub enum Effect {
    Score(i32),
    Money(i32),
    Income(i32),
    Noop,
}

impl Effect {
    /// How an effect is shown to the player: `"5 score"`, `"-3 money"`,
    /// `"2 income"`, or nothing for `Noop`.
    pub open spec fn display_view(self) -> Seq<char> {
        match self {
            Effect::Score(n) => signed_decimal(n as int) + " score"@,
            Effect::Money(n) => signed_decimal(n as int) + " money"@,
            Effect::Income(n) => signed_decimal(n as int) + " income"@,
            Effect::Noop => Seq::empty(),
        }
    }

    /// The text by which the effect is shown to the player.
    pub fn display_string(&self) -> (r: String)
        ensures
            r@ == self.display_view(),
    {
        let mut r = String::new();
        match self {
            Effect::Score(n) => {
                push_signed_decimal(&mut r, *n);
                r.append(" score");
            },
            Effect::Money(n) => {
                push_signed_decimal(&mut r, *n);
                r.append(" money");
            },
            Effect::Income(n) => {
                push_signed_decimal(&mut r, *n);
                r.append(" income");
            },
            Effect::Noop => {},
        }
        assert(r@ =~= self.display_view());
        r
    }
}

/// The pronouns of a person named in a testimonial.
#[derive(Clone, Copy, Debug, PartialEq, Eq, Structural)]
pub enum Pronouns {
    HeHimHis,
    SheHerHers,
    TheyThemTheir,
}

impl Pronouns {
    pub open spec fn subject_view(self) -> Seq<char> {
        match self {
            Pronouns::HeHimHis => "he"@,
            Pronouns::SheHerHers => "she"@,
            Pronouns::TheyThemTheir => "they"@,
        }
    }

    pub open spec fn object_view(self) -> Seq<char> {
        match self {
            Pronouns::HeHimHis => "him"@,
            Pronouns::SheHerHers => "her"@,
            Pronouns::TheyThemTheir => "them"@,
        }
    }

    pub open spec fn possessive_view(self) -> Seq<char> {
        match self {
            Pronouns::HeHimHis => "his"@,
            Pronouns::SheHerHers => "her"@,
            Pronouns::TheyThemTheir => "their"@,
        }
    }

    /// The subject form: "he", "she" or "they".
    pub fn subject(&self) -> (r: String)
        ensures
            r@ == self.subject_view(),
    {
        match self {
            Pronouns::HeHimHis => String::from_str("he"),
            Pronouns::SheHerHers => String::from_str("she"),
            Pronouns::TheyThemTheir => String::from_str("they"),
        }
    }

    /// The object form: "him", "her" or "them".
    pub fn object(&self) -> (r: String)
        ensures
            r@ == self.object_view(),
    {
        match self {
            Pronouns::HeHimHis => String::from_str("him"),
            Pronouns::SheHerHers => String::from_str("her"),
            Pronouns::TheyThemTheir => String::from_str("them"),
        }
    }

    /// The possessive form: "his", "her" or "their".
    pub fn possessive(&self) -> (r: String)
        ensures
            r@ == self.possessive_view(),
    {
        match self {
            Pronouns::HeHimHis => String::from_str("his"),
            Pronouns::SheHerHers => String::from_str("her"),
            Pronouns::TheyThemTheir => String::from_str("their"),
        }
    }
}

// ---------------------------------------------------------------------------
// Assets
// ---------------------------------------------------------------------------

/// A testimonial as written in the assets: a message with pronoun
/// placeholders, its effect, and the word positions that may be hidden.
#[derive(Clone, Debug)]
pub struct TestimonialStub {
    pub message: String,
    pub effect: Effect,
    pub targets: Vec<usize>,
}

/// The text of a letter, with `{recipients}` and `{time_limit}` placeholders
/// in its body and sign-off.
#[derive(Clone, Debug)]
pub struct Flavor {
    pub title: String,
    pub body: String,
    pub signoff: String,
    pub footer: String,
}

impl Flavor {
    /// A copy of the flavour.
    pub fn duplicate(&self) -> (r: Self)
        ensures
            r == *self,
    {
        Flavor {
            title: self.title.clone(),
            body: self.body.clone(),
            signoff: self.signoff.clone(),
            footer: self.footer.clone(),
        }
    }
}

/// A first name with its pronouns.
#[derive(Clone, Debug)]
pub struct Name {
    pub first_name: String,
    pub pronouns: Pronouns,
}

/// A testimonial as shown in a letter: signed by a named person, with one
/// word blanked out for the player to find.
#[derive(Clone, Debug)]
pub struct Testimonial {
    pub first_name: String,
    pub last_initial: char,
    pub pronouns: Pronouns,
    pub message: String,
    pub target_word: String,
    pub effect: Effect,
    pub collected: bool,
}

/// The body and sign-off of a flavour with its placeholders filled in.
#[derive(Clone, Debug)]
pub struct InterpolatedFlavor {
    pub body: String,
    pub signoff: String,
}

/// A chain letter.
#[derive(Clone, Debug)]
pub struct Letter {
    pub flavor: Flavor,
    pub interpolated_flavor: InterpolatedFlavor,
    pub recipients: usize,
    pub time_limit: usize,
    pub blessings: Vec<Testimonial>,
    pub curses: Vec<Testimonial>,
}

// ---------------------------------------------------------------------------
// Words of a message
// ---------------------------------------------------------------------------

/// The word at `word_index` among the whitespace-separated words of `text`,
/// if there are that many.
pub fn get_word_at_index(text: &str, word_index: usize) -> (r: Option<String>)
    ensures
        r is Some <==> word_index < words(text@).len(),
        r matches Some(w) ==> w@ == words(text@)[word_index as int],
{
    let ws = split_whitespace(text);
    if word_index < ws.len() {
        assert(views(ws@)[word_index as int] == ws@[word_index as int]@);
        Some(ws[word_index].clone())
    } else {
        None
    }
}

/// The words of `text` joined by single spaces, with the word at
/// `word_index` (if any) replaced by one underscore per byte of its UTF-8
/// encoding.
pub fn replace_word_with_underscores(text: String, word_index: usize) -> (r: String)
    ensures
        r@ == join_words(blank_word(words(text@), word_index as int)),
{
    let ws = split_whitespace(text.as_str());
    let ghost target = blank_word(words(text@), word_index as int);
    let mut out: Vec<String> = Vec::new();
    let mut k: usize = 0;
    while k < ws.len()
        invariant
            k <= ws.len(),
            views(ws@) == words(text@),
            target == blank_word(views(ws@), word_index as int),
            views(out@) == target.take(k as int),
        decreases ws.len() - k,
    {
        let ghost before = out@;
        if k == word_index {
            let n = ws[k].as_str().as_bytes().len();
            out.push(underscore_run(n));
        } else {
            out.push(ws[k].clone());
        }
        assert(views(out@) =~= target.take(k + 1)) by {
            assert(views(out@) =~= views(before).push(out@[k as int]@));
        }
        k += 1;
    }
    assert(target.take(ws.len() as int) =~= target);
    join_with_spaces(&out)
}

/// Blanking a word keeps the words of the text apart: splitting the blanked
/// text gives the same words, the blanked one now a run of underscores as
/// long as its UTF-8 encoding.
pub proof fn lemma_blanked_words(text: Seq<char>, index: int)
    ensures
        words(join_words(blank_word(words(text), index))) == blank_word(words(text), index),
{
    let ws = words(text);
    let bw = blank_word(ws, index);
    lemma_words_are_words(text);
    assert forall|k: int| 0 <= k < bw.len() implies #[trigger] is_word(bw[k]) by {
        if k == index {
            let w = ws[k];
            assert(is_word(w));
            assert(w =~= seq![w[0]] + w.drop_first());
            assert(encode_utf8(w).len() >= 1);
            assert(utf8_len(w) >= 1);
        }
    }
    lemma_words_of_join(bw);
}

/// Blanking hides exactly one word: the blanked text has as many words as
/// the text; the word at `index` (if there is one) becomes one underscore
/// per byte of its UTF-8 encoding; every other word stays as it was, even
/// one that is equal to the blanked word.
pub proof fn lemma_blanking_hides_one_word(text: Seq<char>, index: int)
    ensures
        words(join_words(blank_word(words(text), index))).len() == words(text).len(),
        0 <= index < words(text).len() ==> words(join_words(blank_word(words(text), index)))[index]
            == Seq::new(encode_utf8(words(text)[index]).len(), |_i: int| '_'),
        forall|k: int|
            0 <= k < words(text).len() && k != index ==> #[trigger] words(
                join_words(blank_word(words(text), index)),
            )[k] == words(text)[k],
{
    lemma_blanked_words(text, index);
    let ws = words(text);
    let bw = blank_word(ws, index);
    assert forall|k: int| 0 <= k < ws.len() && k != index implies #[trigger] words(
        join_words(bw),
    )[k] == ws[k] by {
        assert(bw[k] == ws[k]);
    }
    if 0 <= index < ws.len() {
        assert(bw[index] =~= Seq::new(encode_utf8(ws[index]).len(), |_i: int| '_'));
    }
}

// ---------------------------------------------------------------------------
// Initials
// ---------------------------------------------------------------------------

/// The `k`-th capital letter of the alphabet, counting from zero.
pub open spec fn alphabet_letter(k: int) -> char {
    (65 + k) as char
}

/// A capital letter `A` to `Z`.
pub open spec fn is_capital(c: char) -> bool {
    65 <= c as u32 <= 90
}

/// The `k`-th letter of "ABCDEFGHIJKLMNOPQRSTUVWXYZ".
pub fn initial_letter(k: usize) -> (c: char)
    requires
        k < 26,
    ensures
        c == alphabet_letter(k as int),
        is_capital(c),
{
    let b: u8 = 65 + k as u8;
    b as char
}

/// A random capital letter, used as the initial of a last name.
pub fn random_initial(rng: &mut ChaCha8Rng) -> (c: char)
    ensures
        is_capital(c),
{
    let k = random_below(rng, 26);
    initial_letter(k)
}

// ---------------------------------------------------------------------------
// Testimonials
// ---------------------------------------------------------------------------

/// A message with its pronoun placeholders filled in.
pub open spec fn personalized(message: Seq<char>, p: Pronouns) -> Seq<char> {
    replaced(
        replaced(
            replaced(message, "{pronoun_subject}"@, p.subject_view()),
            "{pronoun_object}"@,
            p.object_view(),
        ),
        "{pronoun_possessive}"@,
        p.possessive_view(),
    )
}

/// `message` with `{pronoun_subject}`, `{pronoun_object}` and
/// `{pronoun_possessive}` replaced by the forms of `p`.
pub fn personalize(message: &str, p: Pronouns) -> (r: String)
    ensures
        r@ == personalized(message@, p),
{
    proof {
        reveal_strlit("{pronoun_subject}");
        reveal_strlit("{pronoun_object}");
        reveal_strlit("{pronoun_possessive}");
    }
    let subject = p.subject();
    let object = p.object();
    let possessive = p.possessive();
    let a = replace_all(message, "{pronoun_subject}", subject.as_str());
    let b = replace_all(a.as_str(), "{pronoun_object}", object.as_str());
    replace_all(b.as_str(), "{pronoun_possessive}", possessive.as_str())
}

/// The signed message of a testimonial: `"<first name> <initial>. <text>."`.
pub open spec fn signed_message(first_name: Seq<char>, initial: char, text: Seq<char>) -> Seq<
    char,
> {
    first_name + seq![' ', initial, '.', ' '] + text + seq!['.']
}

impl TestimonialStub {
    /// The stub can be told by a person with pronouns `p`: it has a target,
    /// and its message, once personalised, has a word at that position.
    pub open spec fn playable_with(self, p: Pronouns) -> bool {
        &&& self.targets@.len() > 0
        &&& self.targets@[0] < words(personalized(self.message@, p)).len()
    }

    /// The stub can be told whatever the pronouns of the person telling it.
    pub open spec fn playable(self) -> bool {
        &&& self.playable_with(Pronouns::HeHimHis)
        &&& self.playable_with(Pronouns::SheHerHers)
        &&& self.playable_with(Pronouns::TheyThemTheir)
    }

    fn playable_with_exec(&self, p: Pronouns) -> (b: bool)
        ensures
            b == self.playable_with(p),
    {
        if self.targets.len() == 0 {
            return false;
        }
        let message = personalize(self.message.as_str(), p);
        let ws = split_whitespace(message.as_str());
        self.targets[0] < ws.len()
    }

    /// Whether the stub is playable: a letter can be made from it whoever
    /// signs it.
    pub fn is_playable(&self) -> (b: bool)
        ensures
            b == self.playable(),
    {
        self.playable_with_exec(Pronouns::HeHimHis) && self.playable_with_exec(
            Pronouns::SheHerHers,
        ) && self.playable_with_exec(Pronouns::TheyThemTheir)
    }
}

impl Testimonial {
    /// The testimonial is the one told from `stub` by `name`, whose last
    /// name starts with `initial`: the message personalised with the
    /// pronouns, its first target word hidden behind underscores, signed;
    /// not yet collected.
    pub open spec fn made_from(self, stub: TestimonialStub, name: Name, initial: char) -> bool {
        let message = personalized(stub.message@, name.pronouns);
        let target = stub.targets@[0] as int;
        &&& self.first_name@ == name.first_name@
        &&& self.last_initial == initial
        &&& self.pronouns == name.pronouns
        &&& self.effect == stub.effect
        &&& !self.collected
        &&& self.target_word@ == words(message)[target]
        &&& self.message@ == signed_message(
            name.first_name@,
            initial,
            join_words(blank_word(words(message), target)),
        )
    }

    /// The testimonial told from `stub` by `name`, whose last name starts
    /// with `last_initial`.
    pub fn from_stub(stub: &TestimonialStub, name: &Name, last_initial: char) -> (t: Testimonial)
        requires
            stub.playable_with(name.pronouns),
        ensures
            t.made_from(*stub, *name, last_initial),
    {
        let message = personalize(stub.message.as_str(), name.pronouns);
        let target = stub.targets[0];
        let target_word = get_word_at_index(message.as_str(), target).unwrap();
        let blanked = replace_word_with_underscores(message, target);
        let mut signed = name.first_name.clone();
        push_char(&mut signed, ' ');
        push_char(&mut signed, last_initial);
        push_char(&mut signed, '.');
        push_char(&mut signed, ' ');
        signed.append(blanked.as_str());
        push_char(&mut signed, '.');
        let t = Testimonial {
            first_name: name.first_name.clone(),
            last_initial,
            pronouns: name.pronouns,
            message: signed,
            target_word,
            effect: stub.effect,
            collected: false,
        };
        assert(t.message@ =~= signed_message(
            name.first_name@,
            last_initial,
            join_words(blank_word(words(personalized(stub.message@, name.pronouns)), target as int)),
        ));
        t
    }
}

// ---------------------------------------------------------------------------
// Flavour
// ---------------------------------------------------------------------------

/// A flavour text with `{recipients}` and `{time_limit}` filled in with the
/// decimal numbers.
pub open spec fn interpolated(text: Seq<char>, recipients: usize, time_limit: usize) -> Seq<char> {
    replaced(
        replaced(text, "{recipients}"@, decimal(recipients as nat)),
        "{time_limit}"@,
        decimal(time_limit as nat),
    )
}

impl InterpolatedFlavor {
    /// The body and sign-off are those of `flavor`, interpolated.
    pub open spec fn interpolates(
        self,
        flavor: Flavor,
        recipients: usize,
        time_limit: usize,
    ) -> bool {
        &&& self.body@ == interpolated(flavor.body@, recipients, time_limit)
        &&& self.signoff@ == interpolated(flavor.signoff@, recipients, time_limit)
    }
}

fn interpolate(text: &str, recipients: usize, time_limit: usize) -> (r: String)
    ensures
        r@ == interpolated(text@, recipients, time_limit),
{
    proof {
        reveal_strlit("{recipients}");
        reveal_strlit("{time_limit}");
    }
    let r = decimal_string(recipients as u64);
    let t = decimal_string(time_limit as u64);
    let a = replace_all(text, "{recipients}", r.as_str());
    replace_all(a.as_str(), "{time_limit}", t.as_str())
}

/// The body and sign-off of `flavor` for a letter to `recipients` people
/// with `time_limit` to answer.
pub fn interpolate_flavor(flavor: &Flavor, recipients: usize, time_limit: usize) -> (f:
    InterpolatedFlavor)
    ensures
        f.interpolates(*flavor, recipients, time_limit),
{
    InterpolatedFlavor {
        body: interpolate(flavor.body.as_str(), recipients, time_limit),
        signoff: interpolate(flavor.signoff.as_str(), recipients, time_limit),
    }
}

// ---------------------------------------------------------------------------
// The letter bag
// ---------------------------------------------------------------------------

/// Every item of `items` is below `n`.
pub open spec fn all_below(items: Seq<usize>, n: nat) -> bool {
    forall|k: int| 0 <= k < items.len() ==> #[trigger] items[k] < n
}

/// A bag that can be picked from: ready, and not empty.
pub open spec fn bag_usable(bag: ShuffleBag<usize>) -> bool {
    &&& bag_ready(bag)
    &&& bag_items(bag).len() > 0
}

/// `t` is the testimonial told from `stub` by `name`, with a capital
/// initial.
pub open spec fn told_by(t: Testimonial, stub: TestimonialStub, name: Name) -> bool {
    exists|c: char| #![trigger t.made_from(stub, name, c)] is_capital(c) && t.made_from(stub, name, c)
}

/// The testimonials `ts` are told, in order, from the stubs at positions
/// `stub_ids` of `stubs` by the names at positions `name_ids` of `names`.
pub open spec fn told_in_order(
    ts: Seq<Testimonial>,
    stubs: Seq<TestimonialStub>,
    stub_ids: Seq<usize>,
    names: Seq<Name>,
    name_ids: Seq<usize>,
) -> bool {
    &&& ts.len() == stub_ids.len()
    &&& ts.len() == name_ids.len()
    &&& forall|k: int|
        0 <= k < ts.len() ==> told_by(
            #[trigger] ts[k],
            stubs[stub_ids[k] as int],
            names[name_ids[k] as int],
        )
}

/// Every stub at a position of `stub_ids` can be told by every name at a
/// position of `name_ids`.
pub open spec fn all_tellable(
    stub_ids: Seq<usize>,
    name_ids: Seq<usize>,
    stubs: Seq<TestimonialStub>,
    names: Seq<Name>,
) -> bool {
    forall|s: usize, n: usize|
        #![trigger stub_ids.contains(s), name_ids.contains(n)]
        stub_ids.contains(s) && name_ids.contains(n) ==> stubs[s as int].playable_with(
            names[n as int].pronouns,
        )
}

/// Whether every stub at a position of `stub_ids` can be told by every name
/// at a position of `name_ids`.
fn stubs_tellable(
    stub_ids: &Vec<usize>,
    name_ids: &Vec<usize>,
    stubs: &Vec<TestimonialStub>,
    names: &Vec<Name>,
) -> (b: bool)
    requires
        all_below(stub_ids@, stubs@.len()),
        all_below(name_ids@, names@.len()),
    ensures
        b == all_tellable(stub_ids@, name_ids@, stubs@, names@),
{
    let mut i: usize = 0;
    while i < stub_ids.len()
        invariant
            i <= stub_ids@.len(),
            all_below(stub_ids@, stubs@.len()),
            all_below(name_ids@, names@.len()),
            forall|a: int, c: int|
                0 <= a < i && 0 <= c < name_ids@.len() ==> stubs@[stub_ids@[a] as int].playable_with(
                    names@[name_ids@[c] as int].pronouns,
                ),
        decreases stub_ids@.len() - i,
    {
        let mut j: usize = 0;
        while j < name_ids.len()
            invariant
                i < stub_ids@.len(),
                j <= name_ids@.len(),
                all_below(stub_ids@, stubs@.len()),
                all_below(name_ids@, names@.len()),
                forall|c: int|
                    0 <= c < j ==> stubs@[stub_ids@[i as int] as int].playable_with(
                        names@[name_ids@[c] as int].pronouns,
                    ),
            decreases name_ids@.len() - j,
        {
            assert(stub_ids@[i as int] < stubs@.len());
            assert(name_ids@[j as int] < names@.len());
            if !stubs[stub_ids[i]].playable_with_exec(names[name_ids[j]].pronouns) {
                assert(stub_ids@.contains(stub_ids@[i as int]));
                assert(name_ids@.contains(name_ids@[j as int]));
                return false;
            }
            j += 1;
        }
        i += 1;
    }
    assert forall|s: usize, n: usize|
        stub_ids@.contains(s) && name_ids@.contains(n) implies stubs@[s as int].playable_with(
        names@[n as int].pronouns,
    ) by {
        let a = choose|a: int| 0 <= a < stub_ids@.len() && stub_ids@[a] == s;
        let c = choose|c: int| 0 <= c < name_ids@.len() && name_ids@[c] == n;
        assert(stubs@[stub_ids@[a] as int].playable_with(names@[name_ids@[c] as int].pronouns));
    }
    true
}

/// The shuffle bags from which letters are drawn. Each holds positions in a
/// list of assets: flavours, testimonial stubs (blessings and curses share
/// one list), and names.
pub struct LetterBag {
    pub flavors: ShuffleBag<usize>,
    pub blessings: ShuffleBag<usize>,
    pub curses: ShuffleBag<usize>,
    pub names: ShuffleBag<usize>,
}

impl LetterBag {
    /// All four bags can be picked from.
    pub open spec fn well_formed(self) -> bool {
        &&& bag_usable(self.flavors)
        &&& bag_usable(self.blessings)
        &&& bag_usable(self.curses)
        &&& bag_usable(self.names)
    }

    /// Every position in the bags points into asset lists of these lengths.
    pub open spec fn refers_within(self, n_flavors: nat, n_stubs: nat, n_names: nat) -> bool {
        &&& all_below(bag_items(self.flavors), n_flavors)
        &&& all_below(bag_items(self.blessings), n_stubs)
        &&& all_below(bag_items(self.curses), n_stubs)
        &&& all_below(bag_items(self.names), n_names)
    }

    /// The bags hold the same items as those of `other` (only the order in
    /// which they come out differs).
    pub open spec fn same_items(self, other: LetterBag) -> bool {
        &&& bag_items(self.flavors) == bag_items(other.flavors)
        &&& bag_items(self.blessings) == bag_items(other.blessings)
        &&& bag_items(self.curses) == bag_items(other.curses)
        &&& bag_items(self.names) == bag_items(other.names)
    }

    /// The bags of the given positions, each with a freshly shuffled draft;
    /// `None` when one of the lists is empty.
    pub fn try_new(
        flavors: Vec<usize>,
        blessings: Vec<usize>,
        curses: Vec<usize>,
        names: Vec<usize>,
        rng: &mut ChaCha8Rng,
    ) -> (r: Option<LetterBag>)
        ensures
            r is None <==> (flavors@.len() == 0 || blessings@.len() == 0 || curses@.len() == 0
                || names@.len() == 0),
            r matches Some(bag) ==> {
                &&& bag.well_formed()
                &&& bag_items(bag.flavors) == flavors@
                &&& bag_items(bag.blessings) == blessings@
                &&& bag_items(bag.curses) == curses@
                &&& bag_items(bag.names) == names@
                &&& is_full_draft(bag_draft(bag.flavors), flavors@.len())
                &&& is_full_draft(bag_draft(bag.blessings), blessings@.len())
                &&& is_full_draft(bag_draft(bag.curses), curses@.len())
                &&& is_full_draft(bag_draft(bag.names), names@.len())
            },
    {
        let flavors = match bag_try_new(flavors, rng) {
            Some(bag) => bag,
            None => return None,
        };
        let blessings = match bag_try_new(blessings, rng) {
            Some(bag) => bag,
            None => return None,
        };
        let curses = match bag_try_new(curses, rng) {
            Some(bag) => bag,
            None => return None,
        };
        let names = match bag_try_new(names, rng) {
            Some(bag) => bag,
            None => return None,
        };
        Some(LetterBag { flavors, blessings, curses, names })
    }

    /// Every stub in the blessing and curse bags can be told by every name
    /// in the name bag.
    pub open spec fn tellable(self, stubs: Seq<TestimonialStub>, names: Seq<Name>) -> bool {
        &&& all_tellable(bag_items(self.blessings), bag_items(self.names), stubs, names)
        &&& all_tellable(bag_items(self.curses), bag_items(self.names), stubs, names)
    }

    /// Whether every stub in the blessing and curse bags can be told by every
    /// name in the name bag (what `pull_letter` needs of its assets).
    pub fn can_tell_all(&self, testimonials: &Vec<TestimonialStub>, names: &Vec<Name>) -> (b: bool)
        requires
            all_below(bag_items(self.blessings), testimonials@.len()),
            all_below(bag_items(self.curses), testimonials@.len()),
            all_below(bag_items(self.names), names@.len()),
        ensures
            b == self.tellable(testimonials@, names@),
    {
        let blessings = bag_items_ref(&self.blessings);
        let curses = bag_items_ref(&self.curses);
        let name_ids = bag_items_ref(&self.names);
        stubs_tellable(blessings, name_ids, testimonials, names) && stubs_tellable(
            curses,
            name_ids,
            testimonials,
            names,
        )
    }

    /// The picks of a letter: the blessing bag gave the stubs `bp`, the curse
    /// bag the stubs `cp`, and the name bag the names `np` (first one per
    /// blessing, then one per curse), taking the bags from `self` to
    /// `after`; the letter's blessings and curses are told from them in
    /// order.
    pub open spec fn letter_picks(
        self,
        after: LetterBag,
        letter: Letter,
        stubs: Seq<TestimonialStub>,
        names: Seq<Name>,
        bp: Seq<usize>,
        cp: Seq<usize>,
        np: Seq<usize>,
    ) -> bool {
        &&& successive_picks(self.blessings, after.blessings, bp)
        &&& successive_picks(self.curses, after.curses, cp)
        &&& successive_picks(self.names, after.names, np)
        &&& np.len() == bp.len() + cp.len()
        &&& told_in_order(letter.blessings@, stubs, bp, names, np.take(bp.len() as int))
        &&& told_in_order(letter.curses@, stubs, cp, names, np.skip(bp.len() as int))
    }

    /// Tells the testimonial of stub `stub_index` by the name bag's next
    /// pick, with a random initial. Only the name bag moves, by one pick.
    fn create_testimonial(
        &mut self,
        stub_index: usize,
        testimonials: &Vec<TestimonialStub>,
        names: &Vec<Name>,
        rng: &mut ChaCha8Rng,
    ) -> (t: Testimonial)
        requires
            old(self).well_formed(),
            all_below(bag_items(old(self).names), names@.len()),
            stub_index < testimonials@.len(),
            forall|n: usize|
                bag_items(old(self).names).contains(n) ==> testimonials@[stub_index as int].playable_with(
                    #[trigger] names@[n as int].pronouns,
                ),
        ensures
            final(self).well_formed(),
            final(self).flavors == old(self).flavors,
            final(self).blessings == old(self).blessings,
            final(self).curses == old(self).curses,
            picked_from(old(self).names, final(self).names),
            told_by(t, testimonials@[stub_index as int], names@[next_pick(old(self).names) as int]),
    {
        let name_index = pick_ready(&mut self.names, rng);
        let stub = &testimonials[stub_index];
        let name = &names[name_index];
        assert(stub.playable_with(names@[name_index as int].pronouns));
        let last_initial = random_initial(rng);
        let t = Testimonial::from_stub(stub, name, last_initial);
        t
    }

    /// Tells one testimonial per stub position of `stub_ids`, in order, each
    /// by the name bag's next pick. Only the name bag moves.
    fn tell_all(
        &mut self,
        stub_ids: &Vec<usize>,
        testimonials: &Vec<TestimonialStub>,
        names: &Vec<Name>,
        rng: &mut ChaCha8Rng,
    ) -> (r: Vec<Testimonial>)
        requires
            old(self).well_formed(),
            all_below(bag_items(old(self).names), names@.len()),
            all_below(stub_ids@, testimonials@.len()),
            all_tellable(stub_ids@, bag_items(old(self).names), testimonials@, names@),
        ensures
            final(self).well_formed(),
            final(self).flavors == old(self).flavors,
            final(self).blessings == old(self).blessings,
            final(self).curses == old(self).curses,
            bag_items(final(self).names) == bag_items(old(self).names),
            exists|np: Seq<usize>|
                #[trigger] successive_picks(old(self).names, final(self).names, np)
                    && told_in_order(r@, testimonials@, stub_ids@, names@, np),
    {
        let ghost start = *self;
        let ghost mut np: Seq<usize> = Seq::empty();
        let ghost mut states: Seq<ShuffleBag<usize>> = seq![self.names];
        let mut r: Vec<Testimonial> = Vec::new();
        let mut k: usize = 0;
        while k < stub_ids.len()
            invariant
                k <= stub_ids@.len(),
                r@.len() == k,
                np.len() == k,
                self.well_formed(),
                self.flavors == start.flavors,
                self.blessings == start.blessings,
                self.curses == start.curses,
                bag_items(self.names) == bag_items(start.names),
                all_below(bag_items(start.names), names@.len()),
                all_below(stub_ids@, testimonials@.len()),
                all_tellable(stub_ids@, bag_items(start.names), testimonials@, names@),
                pick_trace(start.names, self.names, np, states),
                forall|j: int|
                    0 <= j < k ==> told_by(
                        #[trigger] r@[j],
                        testimonials@[stub_ids@[j] as int],
                        names@[np[j] as int],
                    ),
            decreases stub_ids@.len() - k,
        {
            let ghost before = self.names;
            let ghost old_np = np;
            let ghost old_states = states;
            let h = stub_ids[k];
            assert(h < testimonials@.len());
            assert forall|n: usize|
                bag_items(self.names).contains(n) implies testimonials@[h as int].playable_with(
                #[trigger] names@[n as int].pronouns,
            ) by {
                assert(stub_ids@.contains(h));
            }
            let t = self.create_testimonial(h, testimonials, names, rng);
            r.push(t);
            proof {
                assert(old_states[k as int] == before);
                np = np.push(next_pick(before));
                states = states.push(self.names);
                assert(states[0] == old_states[0]);
                assert forall|j: int| 0 <= j < np.len() implies #[trigger] np[j] == next_pick(
                    states[j],
                ) && picked_from(states[j], states[j + 1]) by {
                    if j == k {
                        assert(states[j] == before);
                        assert(states[j + 1] == self.names);
                    } else {
                        assert(np[j] == old_np[j]);
                        assert(states[j] == old_states[j]);
                        assert(states[j + 1] == old_states[j + 1]);
                    }
                }
                assert(states.len() == np.len() + 1);
                assert(states[np.len() as int] == self.names);
                assert(pick_trace(start.names, self.names, np, states));
                assert forall|j: int| 0 <= j < k + 1 implies told_by(
                    #[trigger] r@[j],
                    testimonials@[stub_ids@[j] as int],
                    names@[np[j] as int],
                ) by {
                    if j < k {
                        assert(np[j] == old_np[j]);
                    }
                }
            }
            k += 1;
        }
        assert(pick_trace(start.names, self.names, np, states));
        assert(successive_picks(start.names, self.names, np));
        r
    }

    /// Draws a letter: the flavour bag's next pick, a time limit from
    /// `time_limits`, `blessing_amount` picks of the blessing bag and
    /// `curse_amount` picks of the curse bag, each told by the name bag's
    /// next pick (blessings first). The letter goes to as many recipients as
    /// it has blessings.
    pub fn pull_letter(
        &mut self,
        testimonials: &Vec<TestimonialStub>,
        flavors: &Vec<Flavor>,
        names: &Vec<Name>,
        rng: &mut ChaCha8Rng,
        blessing_amount: usize,
        curse_amount: usize,
        time_limits: Range<usize>,
    ) -> (letter: Letter)
        requires
            old(self).well_formed(),
            old(self).refers_within(flavors@.len(), testimonials@.len(), names@.len()),
            time_limits.start < time_limits.end,
            old(self).tellable(testimonials@, names@),
        ensures
            final(self).well_formed(),
            final(self).same_items(*old(self)),
            letter.flavor == flavors@[next_pick(old(self).flavors) as int],
            picked_from(old(self).flavors, final(self).flavors),
            letter.interpolated_flavor.interpolates(
                letter.flavor,
                letter.recipients,
                letter.time_limit,
            ),
            letter.recipients == blessing_amount,
            time_limits.start <= letter.time_limit < time_limits.end,
            letter.blessings@.len() == blessing_amount,
            letter.curses@.len() == curse_amount,
            exists|bp: Seq<usize>, cp: Seq<usize>, np: Seq<usize>|
                #[trigger] old(self).letter_picks(
                    *final(self),
                    letter,
                    testimonials@,
                    names@,
                    bp,
                    cp,
                    np,
                ),
    {
        let ghost start = *self;
        let flavor_index = pick_ready(&mut self.flavors, rng);
        let flavor = flavors[flavor_index].duplicate();
        let recipients = blessing_amount;
        let time_limit = choose_in_range(rng, time_limits).unwrap();
        let interpolated_flavor = interpolate_flavor(&flavor, recipients, time_limit);

        let blessing_ids = pick_many(&mut self.blessings, blessing_amount, rng);
        assert(all_below(blessing_ids@, testimonials@.len())) by {
            assert forall|k: int| 0 <= k < blessing_ids@.len() implies #[trigger] blessing_ids@[k]
                < testimonials@.len() by {
                assert(bag_items(start.blessings).contains(blessing_ids@[k]));
            }
        }
        assert(all_tellable(blessing_ids@, bag_items(self.names), testimonials@, names@)) by {
            assert forall|s: usize, n: usize|
                blessing_ids@.contains(s) && bag_items(self.names).contains(n) implies testimonials@[s as int].playable_with(
                names@[n as int].pronouns,
            ) by {
                let k = choose|k: int| 0 <= k < blessing_ids@.len() && blessing_ids@[k] == s;
                assert(bag_items(start.blessings).contains(blessing_ids@[k]));
            }
        }
        let ghost mid0 = *self;
        let blessings = self.tell_all(&blessing_ids, testimonials, names, rng);
        let ghost mid = *self;

        let curse_ids = pick_many(&mut self.curses, curse_amount, rng);
        assert(all_below(curse_ids@, testimonials@.len())) by {
            assert forall|k: int| 0 <= k < curse_ids@.len() implies #[trigger] curse_ids@[k]
                < testimonials@.len() by {
                assert(bag_items(start.curses).contains(curse_ids@[k]));
            }
        }
        assert(all_tellable(curse_ids@, bag_items(self.names), testimonials@, names@)) by {
            assert forall|s: usize, n: usize|
                curse_ids@.contains(s) && bag_items(self.names).contains(n) implies testimonials@[s as int].playable_with(
                names@[n as int].pronouns,
            ) by {
                let k = choose|k: int| 0 <= k < curse_ids@.len() && curse_ids@[k] == s;
                assert(bag_items(start.curses).contains(curse_ids@[k]));
            }
        }
        let curses = self.tell_all(&curse_ids, testimonials, names, rng);
        let letter = Letter { flavor, interpolated_flavor, recipients, time_limit, blessings, curses };
        proof {
            let np1 = choose|np: Seq<usize>|
                #[trigger] successive_picks(mid0.names, mid.names, np) && told_in_order(
                    letter.blessings@,
                    testimonials@,
                    blessing_ids@,
                    names@,
                    np,
                );
            let np2 = choose|np: Seq<usize>|
                #[trigger] successive_picks(mid.names, self.names, np) && told_in_order(
                    letter.curses@,
                    testimonials@,
                    curse_ids@,
                    names@,
                    np,
                );
            lemma_successive_picks_concat(start.names, mid.names, self.names, np1, np2);
            let np = np1 + np2;
            assert(np.take(blessing_ids@.len() as int) =~= np1);
            assert(np.skip(blessing_ids@.len() as int) =~= np2);
            assert(start.letter_picks(
                *self,
                letter,
                testimonials@,
                names@,
                blessing_ids@,
                curse_ids@,
                np,
            ));
        }
        letter
    }
}

// ---------------------------------------------------------------------------
// The word bag
// ---------------------------------------------------------------------------

/// A cube for `word` that bursts into `ch`, in one of the hues `165..345`
/// that the game gives its cubes.
pub open spec fn cube_for(c: WordCube, word: Seq<char>, ch: char) -> bool {
    &&& c.word@ == word
    &&& c.despawn_character == ch
    &&& 165 <= c.hue < 345
}

/// `k` is the position of the first cube of `c` carrying the word `w`.
pub open spec fn is_first_with_word(c: Seq<WordCube>, w: Seq<char>, k: int) -> bool {
    &&& 0 <= k < c.len()
    &&& c[k].word@ == w
    &&& forall|j: int| 0 <= j < k ==> (#[trigger] c[j]).word@ != w
}

/// `c` without its first cube carrying the word `w` (unchanged if there is
/// none).
pub open spec fn without_first_word(c: Seq<WordCube>, w: Seq<char>) -> Seq<WordCube> {
    if exists|k: int| is_first_with_word(c, w, k) {
        c.remove(choose|k: int| is_first_with_word(c, w, k))
    } else {
        c
    }
}

/// There is only one first cube with a given word.
pub proof fn lemma_first_with_word_unique(c: Seq<WordCube>, w: Seq<char>, k: int, l: int)
    requires
        is_first_with_word(c, w, k),
        is_first_with_word(c, w, l),
    ensures
        k == l,
{
    if k < l {
        assert(c[k].word@ != w);
    } else if l < k {
        assert(c[l].word@ != w);
    }
}

/// Some cube carrying the word makes one of them the first.
proof fn lemma_first_with_word_exists(c: Seq<WordCube>, w: Seq<char>, i: int)
    requires
        0 <= i < c.len(),
        c[i].word@ == w,
    ensures
        exists|k: int| is_first_with_word(c, w, k),
    decreases i,
{
    if exists|j: int| 0 <= j < i && (#[trigger] c[j]).word@ == w {
        let j = choose|j: int| 0 <= j < i && (#[trigger] c[j]).word@ == w;
        lemma_first_with_word_exists(c, w, j);
    } else {
        assert(is_first_with_word(c, w, i));
    }
}

/// Taking out the first cube with a word shortens the bag by one exactly
/// when some cube carries the word, and keeps every cube before it in place;
/// when none does, the bag is unchanged.
pub proof fn lemma_without_first_word_shape(c: Seq<WordCube>, w: Seq<char>)
    ensures
        (exists|i: int| 0 <= i < c.len() && (#[trigger] c[i]).word@ == w) ==> without_first_word(
            c,
            w,
        ).len() == c.len() - 1,
        !(exists|i: int| 0 <= i < c.len() && (#[trigger] c[i]).word@ == w) ==> without_first_word(
            c,
            w,
        ) == c,
        forall|k: int, j: int|
            #![trigger is_first_with_word(c, w, k), without_first_word(c, w)[j]]
            is_first_with_word(c, w, k) && 0 <= j < k ==> without_first_word(c, w)[j] == c[j],
{
    if exists|i: int| 0 <= i < c.len() && (#[trigger] c[i]).word@ == w {
        let i = choose|i: int| 0 <= i < c.len() && (#[trigger] c[i]).word@ == w;
        lemma_first_with_word_exists(c, w, i);
        let k0 = choose|k: int| is_first_with_word(c, w, k);
        assert forall|k: int, j: int|
            #![trigger is_first_with_word(c, w, k), without_first_word(c, w)[j]]
            is_first_with_word(c, w, k) && 0 <= j < k implies without_first_word(c, w)[j] == c[j] by {
            lemma_first_with_word_unique(c, w, k, k0);
        }
    } else {
        assert(!exists|k: int| is_first_with_word(c, w, k));
    }
}

/// The hue a cube gets from 32 random bits: `(bits % 180 + 165) % 360`,
/// which is always in `165..345`.
pub fn cube_hue(bits: u32) -> (hue: u32)
    ensures
        hue == (bits % 180 + 165) % 360,
        165 <= hue < 345,
{
    (bits % 180 + 165) % 360
}

/// Appends a cube for `word` with a random hue from `165..345`.
fn push_cube(cubes: &mut Vec<WordCube>, word: &str, ch: char, rng: &mut ChaCha8Rng)
    ensures
        final(cubes)@.len() == old(cubes)@.len() + 1,
        forall|j: int| 0 <= j < old(cubes)@.len() ==> #[trigger] final(cubes)@[j] == old(cubes)@[j],
        cube_for(final(cubes)@[old(cubes)@.len() as int], word@, ch),
{
    let hue = cube_hue(next_u32(rng));
    cubes.push(WordCube::new(word, hue, ch));
}

/// The word cubes that can fall in a round: one per blessing and curse,
/// carrying its hidden word, and one per decoy word. They come out of a
/// shuffle bag in the order of its draft (last position first), a shuffle of
/// all the bag's positions that is reshuffled when it runs out; within one
/// draft no position comes out twice.
pub struct WordBag {
    cubes: Vec<WordCube>,
    bag: ShuffleBag<usize>,
}

impl WordBag {
    /// The cubes in the bag, in order.
    pub closed spec fn collection(self) -> Seq<WordCube> {
        bag_items(self.bag).map_values(|i: usize| self.cubes@[i as int])
    }

    /// The bag's draft: positions in `collection()` still to come in this
    /// round, the next one last.
    pub closed spec fn draft(self) -> Seq<usize> {
        bag_draft(self.bag)
    }

    /// The position in `collection()` of the cube drawn last, if any since
    /// the bag was made or last reset.
    pub closed spec fn last_drawn(self) -> Option<usize> {
        bag_last_pick(self.bag)
    }

    /// The cube the bag gives next: the one at the last position of its
    /// draft.
    pub open spec fn next_cube(self) -> WordCube {
        self.collection()[self.draft().last() as int]
    }

    /// `after` is the bag `before` after one cube was drawn: the same cubes;
    /// the drawn position is remembered as the last drawn; the draft has lost
    /// its last position, or, when that was its only one, is a full new
    /// shuffle which (with at least two cubes) does not start with the
    /// position just drawn.
    pub open spec fn drawn_once(before: WordBag, after: WordBag) -> bool {
        &&& after.collection() == before.collection()
        &&& after.last_drawn() == Some(before.draft().last())
        &&& before.draft().len() > 1 ==> after.draft() == before.draft().drop_last()
        &&& before.draft().len() <= 1 ==> is_full_draft(after.draft(), before.collection().len())
        &&& before.draft().len() <= 1 && before.collection().len() >= 2 ==> after.draft().last()
            != before.draft().last()
    }

    /// The bag can be picked from whenever it holds a cube.
    pub closed spec fn well_formed(self) -> bool {
        &&& bag_ready(self.bag)
        &&& all_below(bag_items(self.bag), self.cubes@.len())
    }

    /// The position `k` places before the end of the draft: the one that
    /// comes out after `k` more draws.
    pub open spec fn draft_from_end(self, k: int) -> usize {
        self.draft()[self.draft().len() - 1 - k]
    }

    /// Every cube falls once before any falls again: along a run of draws,
    /// each taking the bag one draw further, that does not outrun the first
    /// bag's draft, the cubes come out at the draft's positions from the last
    /// one backwards, and no position comes out twice.
    pub proof fn lemma_draws_follow_draft(bags: Seq<WordBag>)
        requires
            bags.len() >= 1,
            bags[0].well_formed(),
            bags.len() - 1 <= bags[0].draft().len(),
            forall|k: int| 0 <= k < bags.len() - 1 ==> #[trigger] WordBag::drawn_once(bags[k], bags[k + 1]),
        ensures
            forall|k: int|
                0 <= k < bags.len() - 1 ==> (#[trigger] bags[k]).next_cube() == bags[0].collection()[bags[0].draft_from_end(
                    k,
                ) as int],
            forall|j: int, k: int|
                0 <= j < k < bags.len() - 1 ==> #[trigger] bags[0].draft_from_end(j)
                    != #[trigger] bags[0].draft_from_end(k),
    {
        let d = bags[0].draft();
        assert forall|k: int| 0 <= k < bags.len() - 1 implies (#[trigger] bags[k]).next_cube()
            == bags[0].collection()[bags[0].draft_from_end(k) as int] by {
            WordBag::lemma_draft_prefix(bags, k);
            assert(bags[k].draft().last() == d[d.len() - 1 - k]);
        }
    }

    /// No cube is drawn twice in a row: in a bag of at least two cubes, the
    /// position that comes out after a draw is not the one just drawn.
    pub proof fn lemma_no_repeat_in_a_row(before: WordBag, after: WordBag)
        requires
            before.well_formed(),
            before.collection().len() >= 2,
            WordBag::drawn_once(before, after),
        ensures
            after.draft().last() != before.draft().last(),
    {
        let d = before.draft();
        if d.len() > 1 {
            assert(after.draft().last() == d[d.len() - 2]);
        }
    }

    /// Along such a run, the `k`-th bag has the first one's cubes, and its
    /// draft is the first draft without its last `k` positions.
    proof fn lemma_draft_prefix(bags: Seq<WordBag>, k: int)
        requires
            bags.len() >= 1,
            bags.len() - 1 <= bags[0].draft().len(),
            forall|j: int| 0 <= j < bags.len() - 1 ==> #[trigger] WordBag::drawn_once(bags[j], bags[j + 1]),
            0 <= k < bags.len() - 1,
        ensures
            bags[k].collection() == bags[0].collection(),
            bags[k].draft() == bags[0].draft().take(bags[0].draft().len() - k),
        decreases k,
    {
        let d = bags[0].draft();
        if k == 0 {
            assert(d.take(d.len() as int) =~= d);
        } else {
            let j = k - 1;
            WordBag::lemma_draft_prefix(bags, j);
            assert(WordBag::drawn_once(bags[j], bags[j + 1]));
            assert(bags[j + 1] == bags[k]);
            assert(bags[k - 1].draft().len() == d.len() - (k - 1));
            assert(d.take(d.len() - (k - 1)).drop_last() =~= d.take(d.len() - k));
        }
    }

    /// The bag of cubes for the given blessings (bursting into `'+'`), curses
    /// (`'x'`) and decoy words (`'~'`), in that order, each with a random hue.
    pub fn new(
        blessings: &[Testimonial],
        curses: &[Testimonial],
        decoys: &[&str],
        rng: &mut ChaCha8Rng,
    ) -> (bag: Self)
        requires
            blessings@.len() + curses@.len() + decoys@.len() > 0,
        ensures
            bag.well_formed(),
            bag.collection().len() == blessings@.len() + curses@.len() + decoys@.len(),
            is_full_draft(bag.draft(), bag.collection().len()),
            bag.last_drawn() is None,
            forall|k: int|
                0 <= k < blessings@.len() ==> cube_for(
                    #[trigger] bag.collection()[k],
                    blessings@[k].target_word@,
                    '+',
                ),
            forall|k: int|
                0 <= k < curses@.len() ==> cube_for(
                    #[trigger] bag.collection()[blessings@.len() + k],
                    curses@[k].target_word@,
                    'x',
                ),
            forall|k: int|
                0 <= k < decoys@.len() ==> cube_for(
                    #[trigger] bag.collection()[blessings@.len() + curses@.len() + k],
                    decoys@[k]@,
                    '~',
                ),
    {
        let mut cubes: Vec<WordCube> = Vec::new();
        let mut k: usize = 0;
        while k < blessings.len()
            invariant
                k <= blessings@.len(),
                cubes@.len() == k,
                forall|j: int|
                    0 <= j < k ==> cube_for(
                        #[trigger] cubes@[j],
                        blessings@[j].target_word@,
                        '+',
                    ),
            decreases blessings@.len() - k,
        {
            push_cube(&mut cubes, blessings[k].target_word.as_str(), '+', rng);
            k += 1;
        }
        let nb = blessings.len();
        let mut k: usize = 0;
        while k < curses.len()
            invariant
                nb == blessings@.len(),
                k <= curses@.len(),
                cubes@.len() == nb + k,
                forall|j: int|
                    0 <= j < nb ==> cube_for(
                        #[trigger] cubes@[j],
                        blessings@[j].target_word@,
                        '+',
                    ),
                forall|j: int|
                    0 <= j < k ==> cube_for(#[trigger] cubes@[nb + j], curses@[j].target_word@, 'x'),
            decreases curses@.len() - k,
        {
            push_cube(&mut cubes, curses[k].target_word.as_str(), 'x', rng);
            k += 1;
        }
        let nc = curses.len();
        let mut k: usize = 0;
        while k < decoys.len()
            invariant
                nb == blessings@.len(),
                nc == curses@.len(),
                k <= decoys@.len(),
                cubes@.len() == nb + nc + k,
                forall|j: int|
                    0 <= j < nb ==> cube_for(
                        #[trigger] cubes@[j],
                        blessings@[j].target_word@,
                        '+',
                    ),
                forall|j: int|
                    0 <= j < nc ==> cube_for(#[trigger] cubes@[nb + j], curses@[j].target_word@, 'x'),
                forall|j: int|
                    0 <= j < k ==> cube_for(#[trigger] cubes@[nb + nc + j], decoys@[j]@, '~'),
            decreases decoys@.len() - k,
        {
            push_cube(&mut cubes, decoys[k], '~', rng);
            k += 1;
        }
        let mut ids: Vec<usize> = Vec::new();
        let mut i: usize = 0;
        while i < cubes.len()
            invariant
                i <= cubes@.len(),
                ids@.len() == i,
                forall|j: int| 0 <= j < i ==> #[trigger] ids@[j] == j,
            decreases cubes@.len() - i,
        {
            ids.push(i);
            i += 1;
        }
        let ghost ids_view = ids@;
        let bag = bag_try_new(ids, rng).unwrap();
        let r = WordBag { cubes, bag };
        assert(r.collection() =~= cubes@);
        r
    }

    /// Draws the bag's next cube to spawn. A cube whose word is already on
    /// screen is not spawned: the bag reshuffles its draft instead, keeping
    /// the rejected cube as the last drawn so that (with at least two cubes)
    /// it does not come next, and nothing is returned. The cubes in the bag
    /// stay the same either way.
    pub fn draw_for_spawn(&mut self, on_screen: &[WordCube], rng: &mut ChaCha8Rng) -> (r: Option<
        WordCube,
    >)
        requires
            old(self).well_formed(),
            old(self).collection().len() > 0,
        ensures
            final(self).well_formed(),
            final(self).collection() == old(self).collection(),
            r == spawn_result(on_screen@, old(self).next_cube()),
            word_absent(on_screen@, old(self).next_cube().word@) ==> WordBag::drawn_once(
                *old(self),
                *final(self),
            ),
            !word_absent(on_screen@, old(self).next_cube().word@) ==> {
                &&& is_full_draft(final(self).draft(), old(self).collection().len())
                &&& final(self).last_drawn() == Some(old(self).draft().last())
                &&& old(self).collection().len() >= 2 ==> final(self).draft().last() != old(
                    self,
                ).draft().last()
            },
    {
        let ghost items = bag_items(self.bag);
        let i = pick_ready(&mut self.bag, rng);
        assert(old(self).next_cube() == self.cubes@[i as int]);
        let cube = self.cubes[i].duplicate();
        if may_spawn(&cube, on_screen) {
            assert(self.collection() =~= old(self).collection());
            Some(cube)
        } else {
            bag_shuffle_new_draft(&mut self.bag, rng);
            assert(self.collection() =~= old(self).collection());
            None
        }
    }

    /// Takes the first cube carrying `word` out of the bag (if there is one)
    /// and resets the bag: a fresh shuffle, with the last drawn cube
    /// forgotten.
    pub fn remove_word(&mut self, word: &str, rng: &mut ChaCha8Rng)
        requires
            old(self).well_formed(),
        ensures
            final(self).well_formed(),
            final(self).collection() == without_first_word(old(self).collection(), word@),
            is_full_draft(final(self).draft(), final(self).collection().len()),
            final(self).last_drawn() is None,
    {
        let ghost coll = old(self).collection();
        let target = String::from_str(word);
        let items = bag_items_ref(&self.bag);
        let mut k: usize = 0;
        let mut found: Option<usize> = None;
        while k < items.len()
            invariant
                k <= items@.len(),
                items@ == bag_items(self.bag),
                coll == self.collection(),
                self.well_formed(),
                target@ == word@,
                found matches Some(p) ==> is_first_with_word(coll, word@, p as int),
                found is None ==> forall|j: int| 0 <= j < k ==> (#[trigger] coll[j]).word@ != word@,
            decreases items@.len() - k,
        {
            if found.is_none() {
                let i = items[k];
                if self.cubes[i].word == target {
                    found = Some(k);
                }
            }
            k += 1;
        }
        match found {
            Some(p) => {
                bag_remove_item(&mut self.bag, p);
                proof {
                    let c = choose|q: int| is_first_with_word(coll, word@, q);
                    lemma_first_with_word_unique(coll, word@, c, p as int);
                    assert(self.collection() =~= coll.remove(p as int));
                }
            },
            None => {
                assert(!exists|q: int| is_first_with_word(coll, word@, q));
            },
        }
        bag_reset(&mut self.bag, rng);
        proof {
            assert forall|j: int|
                0 <= j < bag_items(self.bag).len() implies #[trigger] bag_items(self.bag)[j]
                < self.cubes@.len() by {
                let items_now = bag_items(self.bag);
                if let Some(p) = found {
                    assert(items_now[j] == items[if j < p { j } else { j + 1 }]);
                }
            }
        }
    }

    /// The cubes in the bag, in order.
    pub fn full_collection(&self) -> (r: Vec<WordCube>)
        requires
            self.well_formed(),
        ensures
            r@ == self.collection(),
    {
        let items = bag_items_ref(&self.bag);
        let mut r: Vec<WordCube> = Vec::new();
        let mut k: usize = 0;
        while k < items.len()
            invariant
                k <= items@.len(),
                items@ == bag_items(self.bag),
                self.well_formed(),
                r@ == self.collection().take(k as int),
            decreases items@.len() - k,
        {
            let c = self.cubes[items[k]].duplicate();
            r.push(c);
            assert(r@ =~= self.collection().take(k + 1));
            k += 1;
        }
        assert(self.collection().take(items@.len() as int) =~= self.collection());
        r
    }
}

} // verus!
