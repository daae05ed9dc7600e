//! Text handling: whitespace-separated words, placeholder substitution and
//! decimal rendering of numbers.

use vstd::prelude::*;
use vstd::string::StringExecFns;
use vstd::utf8::encode_utf8;

verus! {

/// Appends one character to a string (`String::push`).
#[verifier::external_body]
pub(crate) fn push_char(s: &mut String, c: char)
    ensures
        final(s)@ == old(s)@.push(c),
{
    s.push(c);
}

/// The characters of a string slice, in order.
pub fn chars_of(s: &str) -> (r: Vec<char>)
    ensures
        r@ == s@,
{
    let mut r: Vec<char> = Vec::new();
    for c in it: s.chars()
        invariant
            r@ == it.seq().take(it.index() as int),
            it.seq() == s@,
    {
        r.push(c);
    }
    r
}

/// The views of a sequence of strings.
pub open spec fn views(v: Seq<String>) -> Seq<Seq<char>> {
    v.map_values(|w: String| w@)
}

// ---------------------------------------------------------------------------
// Whitespace and words
// ---------------------------------------------------------------------------

/// Unicode `White_Space`: the characters that `char::is_whitespace`, and so
/// `str::split_whitespace`, treat as separators.
pub open spec fn is_whitespace(c: char) -> bool {
    let u = c as u32;
    ||| 0x09 <= u <= 0x0d
    ||| u == 0x20
    ||| u == 0x85
    ||| u == 0xa0
    ||| u == 0x1680
    ||| 0x2000 <= u <= 0x200a
    ||| u == 0x2028
    ||| u == 0x2029
    ||| u == 0x202f
    ||| u == 0x205f
    ||| u == 0x3000
}

/// Whether `c` is a whitespace character.
pub fn char_is_whitespace(c: char) -> (b: bool)
    ensures
        b == is_whitespace(c),
{
    let u = c as u32;
    (0x09 <= u && u <= 0x0d) || u == 0x20 || u == 0x85 || u == 0xa0 || u == 0x1680 || (0x2000
        <= u && u <= 0x200a) || u == 0x2028 || u == 0x2029 || u == 0x202f || u == 0x205f || u
        == 0x3000
}

/// A word: a non-empty run of characters none of which is whitespace.
pub open spec fn is_word(w: Seq<char>) -> bool {
    &&& w.len() > 0
    &&& forall|i: int| 0 <= i < w.len() ==> !is_whitespace(#[trigger] w[i])
}

/// Reading `s` from left to right: the words already closed by a whitespace
/// character, and the word still being read (empty between words).
pub open spec fn scan_words(s: Seq<char>) -> (Seq<Seq<char>>, Seq<char>)
    decreases s.len(),
{
    if s.len() == 0 {
        (Seq::empty(), Seq::empty())
    } else {
        let prev = scan_words(s.drop_last());
        if is_whitespace(s.last()) {
            if prev.1.len() > 0 {
                (prev.0.push(prev.1), Seq::empty())
            } else {
                (prev.0, Seq::empty())
            }
        } else {
            (prev.0, prev.1.push(s.last()))
        }
    }
}

/// The whitespace-separated words of `s`, as `str::split_whitespace` yields
/// them.
pub open spec fn words(s: Seq<char>) -> Seq<Seq<char>> {
    let st = scan_words(s);
    if st.1.len() > 0 {
        st.0.push(st.1)
    } else {
        st.0
    }
}

/// The words joined with one space between neighbours.
pub open spec fn join_words(ws: Seq<Seq<char>>) -> Seq<char>
    decreases ws.len(),
{
    if ws.len() == 0 {
        Seq::empty()
    } else if ws.len() == 1 {
        ws[0]
    } else {
        join_words(ws.drop_last()) + seq![' '] + ws.last()
    }
}

/// The words of `s`, as `str::split_whitespace` splits them.
pub fn split_whitespace(s: &str) -> (r: Vec<String>)
    ensures
        views(r@) == words(s@),
{
    let cs = chars_of(s);
    let mut done: Vec<String> = Vec::new();
    let mut cur = String::new();
    let mut i: usize = 0;
    while i < cs.len()
        invariant
            i <= cs.len(),
            views(done@) == scan_words(cs@.take(i as int)).0,
            cur@ == scan_words(cs@.take(i as int)).1,
        decreases cs.len() - i,
    {
        let c = cs[i];
        let ghost before = done@;
        assert(cs@.take(i + 1).drop_last() =~= cs@.take(i as int));
        assert(cs@.take(i + 1).last() == c);
        if char_is_whitespace(c) {
            if !cur.as_str().is_empty() {
                done.push(cur);
                assert(views(done@) =~= views(before).push(scan_words(cs@.take(i as int)).1));
                cur = String::new();
            }
        } else {
            push_char(&mut cur, c);
        }
        i += 1;
    }
    assert(cs@.take(cs.len() as int) =~= s@);
    if !cur.as_str().is_empty() {
        let ghost before = done@;
        let ghost last = cur@;
        done.push(cur);
        assert(views(done@) =~= views(before).push(last));
    }
    done
}

/// The strings joined with one space between neighbours.
pub fn join_with_spaces(ws: &Vec<String>) -> (r: String)
    ensures
        r@ == join_words(views(ws@)),
{
    let mut r = String::new();
    let mut i: usize = 0;
    while i < ws.len()
        invariant
            i <= ws.len(),
            r@ == join_words(views(ws@).take(i as int)),
        decreases ws.len() - i,
    {
        assert(views(ws@).take(i + 1).drop_last() =~= views(ws@).take(i as int));
        if i > 0 {
            r.append(" ");
        }
        r.append(ws[i].as_str());
        proof {
            reveal_strlit(" ");
            if i == 0 {
                assert(r@ =~= join_words(views(ws@).take(1)));
            } else {
                assert(r@ =~= join_words(views(ws@).take(i + 1)));
            }
        }
        i += 1;
    }
    assert(views(ws@).take(ws.len() as int) =~= views(ws@));
    r
}

// ---------------------------------------------------------------------------
// Laws of splitting and joining
// ---------------------------------------------------------------------------

proof fn lemma_scan_shape(s: Seq<char>)
    ensures
        forall|k: int|
            0 <= k < scan_words(s).0.len() ==> #[trigger] is_word(scan_words(s).0[k]),
        forall|i: int|
            0 <= i < scan_words(s).1.len() ==> !is_whitespace(#[trigger] scan_words(s).1[i]),
        s.len() > 0 && is_whitespace(s.last()) ==> scan_words(s).1.len() == 0,
    decreases s.len(),
{
    if s.len() > 0 {
        lemma_scan_shape(s.drop_last());
        let prev = scan_words(s.drop_last());
        if !is_whitespace(s.last()) {
            assert forall|i: int| 0 <= i < scan_words(s).1.len() implies !is_whitespace(
                #[trigger] scan_words(s).1[i],
            ) by {
                if i < prev.1.len() {
                    assert(scan_words(s).1[i] == prev.1[i]);
                }
            }
        }
    }
}

/// Every element that `words` yields is a word: non-empty and free of
/// whitespace.
pub proof fn lemma_words_are_words(s: Seq<char>)
    ensures
        forall|k: int| 0 <= k < words(s).len() ==> #[trigger] is_word(words(s)[k]),
{
    lemma_scan_shape(s);
}

proof fn lemma_scan_run(w: Seq<char>)
    requires
        forall|i: int| 0 <= i < w.len() ==> !is_whitespace(#[trigger] w[i]),
    ensures
        scan_words(w) == (Seq::<Seq<char>>::empty(), w),
    decreases w.len(),
{
    if w.len() > 0 {
        lemma_scan_run(w.drop_last());
        assert(w.drop_last().push(w.last()) =~= w);
    }
}

proof fn lemma_scan_after_space(p: Seq<char>, q: Seq<char>)
    requires
        p.len() > 0,
        is_whitespace(p.last()),
    ensures
        scan_words(p + q) == (words(p) + scan_words(q).0, scan_words(q).1),
    decreases q.len(),
{
    lemma_scan_shape(p);
    if q.len() == 0 {
        assert(p + q =~= p);
        assert(words(p) + scan_words(q).0 =~= words(p));
    } else {
        lemma_scan_after_space(p, q.drop_last());
        assert((p + q).drop_last() =~= p + q.drop_last());
        assert((p + q).last() == q.last());
        let prev = scan_words(q.drop_last());
        if is_whitespace(q.last()) && prev.1.len() > 0 {
            assert(words(p) + prev.0.push(prev.1) =~= (words(p) + prev.0).push(prev.1));
        }
    }
}

proof fn lemma_words_trailing_space(x: Seq<char>)
    ensures
        words(x + seq![' ']) == words(x),
{
    let s = x + seq![' '];
    assert(s.drop_last() =~= x);
    assert(s.last() == ' ');
}

/// Splitting text that was made by joining words with single spaces gives
/// back those words.
pub proof fn lemma_words_of_join(ws: Seq<Seq<char>>)
    requires
        forall|k: int| 0 <= k < ws.len() ==> #[trigger] is_word(ws[k]),
    ensures
        words(join_words(ws)) == ws,
    decreases ws.len(),
{
    if ws.len() == 0 {
    } else if ws.len() == 1 {
        assert(is_word(ws[0]));
        lemma_scan_run(ws[0]);
        assert(Seq::<Seq<char>>::empty().push(ws[0]) =~= ws);
    } else {
        let init = ws.drop_last();
        let w = ws.last();
        assert forall|k: int| 0 <= k < init.len() implies #[trigger] is_word(init[k]) by {
            assert(init[k] == ws[k]);
        }
        lemma_words_of_join(init);
        let x = join_words(init);
        let p = x + seq![' '];
        assert(p.last() == ' ');
        assert(join_words(ws) =~= p + w);
        assert(is_word(ws[ws.len() - 1]));
        lemma_scan_run(w);
        lemma_scan_after_space(p, w);
        lemma_words_trailing_space(x);
        assert(words(p) + Seq::<Seq<char>>::empty() =~= words(p));
        assert(init.push(w) =~= ws);
    }
}

/// Joining the words of a text with single spaces and splitting again gives
/// the same words: the split is stable under normalising the spacing.
pub proof fn lemma_split_join_split(s: Seq<char>)
    ensures
        words(join_words(words(s))) == words(s),
{
    lemma_words_are_words(s);
    lemma_words_of_join(words(s));
}

// ---------------------------------------------------------------------------
// Substitution
// ---------------------------------------------------------------------------

/// `s` with every occurrence of `pat` replaced by `to`, scanning from the left
/// and never letting two replaced occurrences overlap: what `str::replace`
/// returns for a non-empty pattern.
pub open spec fn replaced(s: Seq<char>, pat: Seq<char>, to: Seq<char>) -> Seq<char>
    decreases s.len(),
{
    if s.len() == 0 {
        Seq::empty()
    } else if 0 < pat.len() <= s.len() && s.take(pat.len() as int) == pat {
        to + replaced(s.skip(pat.len() as int), pat, to)
    } else {
        seq![s[0]] + replaced(s.skip(1), pat, to)
    }
}

/// Whether `pat` occurs in `s` at position `at`.
fn occurs_at(s: &Vec<char>, at: usize, pat: &Vec<char>) -> (b: bool)
    requires
        at <= s.len(),
    ensures
        b == (at + pat.len() <= s.len() && s@.subrange(at as int, at + pat.len()) == pat@),
{
    if pat.len() > s.len() - at {
        return false;
    }
    let mut k: usize = 0;
    while k < pat.len()
        invariant
            at + pat.len() <= s.len(),
            k <= pat.len(),
            forall|j: int| 0 <= j < k ==> s@[at + j] == pat@[j],
        decreases pat.len() - k,
    {
        if s[at + k] != pat[k] {
            assert(s@.subrange(at as int, at + pat.len())[k as int] != pat@[k as int]);
            return false;
        }
        k += 1;
    }
    assert(s@.subrange(at as int, at + pat.len()) =~= pat@);
    true
}

/// `s` with every occurrence of the non-empty `pat` replaced by `to`.
pub fn replace_all(s: &str, pat: &str, to: &str) -> (r: String)
    requires
        pat@.len() > 0,
    ensures
        r@ == replaced(s@, pat@, to@),
{
    let cs = chars_of(s);
    let ps = chars_of(pat);
    let mut out = String::new();
    let mut i: usize = 0;
    assert(cs@.skip(0) =~= cs@);
    while i < cs.len()
        invariant
            i <= cs.len(),
            ps@ == pat@,
            ps@.len() > 0,
            out@ + replaced(cs@.skip(i as int), ps@, to@) == replaced(cs@, ps@, to@),
        decreases cs.len() - i,
    {
        let ghost rest = cs@.skip(i as int);
        if occurs_at(&cs, i, &ps) {
            assert(rest.take(ps@.len() as int) =~= cs@.subrange(i as int, i + ps.len()));
            assert(rest.skip(ps@.len() as int) =~= cs@.skip(i + ps.len()));
            let ghost old_out = out@;
            out.append(to);
            assert(out@ + replaced(cs@.skip(i + ps.len()), ps@, to@) =~= old_out + replaced(
                rest,
                ps@,
                to@,
            ));
            i += ps.len();
        } else {
            assert(rest.take(ps@.len() as int) != ps@ || ps@.len() > rest.len()) by {
                if ps@.len() <= rest.len() {
                    assert(rest.take(ps@.len() as int) =~= cs@.subrange(i as int, i + ps.len()));
                }
            }
            assert(rest.skip(1) =~= cs@.skip(i + 1));
            let ghost old_out = out@;
            push_char(&mut out, cs[i]);
            assert(out@ + replaced(cs@.skip(i + 1), ps@, to@) =~= old_out + replaced(
                rest,
                ps@,
                to@,
            ));
            i += 1;
        }
    }
    assert(out@ + replaced(cs@.skip(i as int), ps@, to@) =~= out@);
    out
}

/// A text in which `pat` does not occur is left as it is by `replaced`.
pub proof fn lemma_replaced_absent(s: Seq<char>, pat: Seq<char>, to: Seq<char>)
    requires
        pat.len() > 0,
        forall|i: int|
            0 <= i && i + pat.len() <= s.len() ==> #[trigger] s.subrange(i, i + pat.len())
                != pat,
    ensures
        replaced(s, pat, to) == s,
    decreases s.len(),
{
    if s.len() > 0 {
        let t = s.skip(1);
        assert forall|i: int|
            0 <= i && i + pat.len() <= t.len() implies #[trigger] t.subrange(i, i + pat.len())
            != pat by {
            assert(t.subrange(i, i + pat.len()) =~= s.subrange(i + 1, i + 1 + pat.len()));
        }
        lemma_replaced_absent(t, pat, to);
        if pat.len() <= s.len() {
            assert(s.subrange(0int, 0int + pat.len()) != pat);
            assert(s.take(pat.len() as int) =~= s.subrange(0int, 0int + pat.len()));
        }
        assert(seq![s[0]] + t =~= s);
    }
}

// ---------------------------------------------------------------------------
// Blanking a word
// ---------------------------------------------------------------------------

/// The number of bytes of the UTF-8 encoding of `w`, as `str::len` reports it.
pub open spec fn utf8_len(w: Seq<char>) -> nat {
    encode_utf8(w).len()
}

/// `n` underscores.
pub open spec fn underscores(n: nat) -> Seq<char> {
    Seq::new(n, |_i: int| '_')
}

/// The words with the one at `index` replaced by as many underscores as its
/// UTF-8 encoding has bytes.
pub open spec fn blank_word(ws: Seq<Seq<char>>, index: int) -> Seq<Seq<char>> {
    ws.map(|k: int, w: Seq<char>| if k == index { underscores(utf8_len(w)) } else { w })
}

/// A string of `n` underscores.
pub fn underscore_run(n: usize) -> (r: String)
    ensures
        r@ == underscores(n as nat),
{
    let mut r = String::new();
    let mut k: usize = 0;
    while k < n
        invariant
            k <= n,
            r@ =~= underscores(k as nat),
        decreases n - k,
    {
        push_char(&mut r, '_');
        k += 1;
    }
    r
}

// ---------------------------------------------------------------------------
// Decimal numbers
// ---------------------------------------------------------------------------

/// The decimal digit character for `d < 10`.
pub open spec fn digit_char(d: nat) -> char {
    (d + 48) as char
}

/// The decimal rendering of `n`, without leading zeros.
pub open spec fn decimal(n: nat) -> Seq<char>
    decreases n,
{
    if n < 10 {
        seq![digit_char(n)]
    } else {
        decimal(n / 10).push(digit_char(n % 10))
    }
}

/// The decimal rendering of a signed number: a minus sign before the
/// magnitude of a negative one.
pub open spec fn signed_decimal(n: int) -> Seq<char> {
    if n < 0 {
        seq!['-'] + decimal((-n) as nat)
    } else {
        decimal(n as nat)
    }
}

fn digit(d: u64) -> (c: char)
    requires
        d < 10,
    ensures
        c == digit_char(d as nat),
{
    let b: u8 = 48 + d as u8;
    b as char
}

/// Appends the decimal rendering of `n` to `s`.
pub fn push_decimal(s: &mut String, n: u64)
    ensures
        final(s)@ == old(s)@ + decimal(n as nat),
    decreases n,
{
    if n >= 10 {
        push_decimal(s, n / 10);
    }
    push_char(s, digit(n % 10));
    assert(final(s)@ =~= old(s)@ + decimal(n as nat));
}

/// The decimal rendering of `n` (what `to_string` gives for an unsigned
/// integer).
pub fn decimal_string(n: u64) -> (r: String)
    ensures
        r@ == decimal(n as nat),
{
    let mut r = String::new();
    push_decimal(&mut r, n);
    assert(r@ =~= decimal(n as nat));
    r
}

/// Appends the decimal rendering of the signed `n` to `s`.
pub fn push_signed_decimal(s: &mut String, n: i32)
    ensures
        final(s)@ == old(s)@ + signed_decimal(n as int),
{
    if n < 0 {
        push_char(s, '-');
        let magnitude: i64 = -(n as i64);
        push_decimal(s, magnitude as u64);
        assert(final(s)@ =~= old(s)@ + signed_decimal(n as int));
    } else {
        push_decimal(s, n as u64);
    }
}

} // verus!
