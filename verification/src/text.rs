//! Whitespace, words, and decimal numerals.
use vstd::prelude::*;

verus! {

broadcast use vstd::string::group_string_axioms;

/// `String::push` of std, which appends the character to the end of the
/// string, as its documentation says.
#[verifier::external_body]
pub(crate) fn push_char(buf: &mut String, c: char)
    ensures
        final(buf)@ == old(buf)@.push(c),
{
    buf.push(c);
}

/// The characters with the Unicode `White_Space` property.
pub open spec fn is_white_space(c: char) -> bool {
    let u = c as u32;
    ||| 0x09 <= u <= 0x0D
    ||| u == 0x20
    ||| u == 0x85
    ||| u == 0xA0
    ||| u == 0x1680
    ||| 0x2000 <= u <= 0x200A
    ||| u == 0x2028
    ||| u == 0x2029
    ||| u == 0x202F
    ||| u == 0x205F
    ||| u == 0x3000
}

/// Whether `c` is white space, as `char::is_whitespace` of std decides it:
/// by the Unicode `White_Space` property.
pub fn char_is_whitespace(c: char) -> (b: bool)
    ensures
        b == is_white_space(c),
{
    let u = c as u32;
    (0x09 <= u && u <= 0x0D) || u == 0x20 || u == 0x85 || u == 0xA0 || u == 0x1680 || (0x2000 <= u
        && u <= 0x200A) || u == 0x2028 || u == 0x2029 || u == 0x202F || u == 0x205F || u == 0x3000
}

/// Position `i` of `s` starts a word: a character that is not white space,
/// at the start or after white space.
pub open spec fn starts_word(s: Seq<char>, i: int) -> bool {
    &&& 0 <= i < s.len()
    &&& !is_white_space(s[i])
    &&& (i == 0 || is_white_space(s[i - 1]))
}

/// The number of maximal runs of characters that are not white space.
pub open spec fn word_count(s: Seq<char>) -> nat
    decreases s.len(),
{
    if s.len() == 0 {
        0
    } else {
        word_count(s.drop_last()) + if starts_word(s, s.len() - 1) {
            1nat
        } else {
            0nat
        }
    }
}

/// Counts the whitespace-separated words of `s`, as
/// `s.split_whitespace().count()` does.
pub fn count_words(s: &str) -> (n: usize)
    ensures
        n == word_count(s@),
{
    let len = s.unicode_len();
    let mut n: usize = 0;
    let mut after_space = true;
    proof {
        assert(s@.take(0) =~= Seq::<char>::empty());
    }
    for c in it: s.chars()
        invariant
            it.seq() == s@,
            len == s@.len(),
            n == word_count(s@.take(it.index() as int)),
            n <= it.index(),
            after_space == (it.index() == 0 || is_white_space(s@[it.index() - 1])),
    {
        let ghost k = it.index();
        let ws = char_is_whitespace(c);
        proof {
            let t = s@.take(k + 1);
            assert(t.drop_last() =~= s@.take(k as int));
            assert(t[k as int] == c);
            if k > 0 {
                assert(t[k - 1] == s@[k - 1]);
            }
        }
        if !ws && after_space {
            n = n + 1;
        }
        after_space = ws;
    }
    proof {
        assert(s@.take(s@.len() as int) =~= s@);
    }
    n
}

/// The decimal digit for `d`, for `0 <= d < 10`.
pub open spec fn digit_char(d: int) -> char {
    (('0' as int) + d) as char
}

/// The decimal numeral of `n`, without leading zeros.
pub open spec fn decimal(n: nat) -> Seq<char>
    decreases n,
{
    if n < 10 {
        seq![digit_char(n as int)]
    } else {
        decimal(n / 10).push(digit_char((n % 10) as int))
    }
}

/// Appends the decimal numeral of `n` to `buf`.
pub fn push_decimal(buf: &mut String, n: u64)
    ensures
        final(buf)@ == old(buf)@ + decimal(n as nat),
    decreases n,
{
    if n >= 10 {
        push_decimal(buf, n / 10);
    }
    let d: u8 = (n % 10) as u8;
    let c: char = (d + 48) as char;
    push_char(buf, c);
    proof {
        assert(buf@ =~= old(buf)@ + decimal(n as nat));
    }
}

proof fn lemma_decimal_digits(n: nat)
    ensures
        decimal(n).len() > 0,
        forall|i: int| 0 <= i < decimal(n).len() ==> '0' <= #[trigger] decimal(n)[i] <= '9',
    decreases n,
{
    if n >= 10 {
        lemma_decimal_digits(n / 10);
    }
}

/// A word made of characters none of which is white space.
pub open spec fn is_word(t: Seq<char>) -> bool {
    t.len() > 0 && forall|i: int| 0 <= i < t.len() ==> !is_white_space(#[trigger] t[i])
}

/// Appending a word after white space (or to nothing) adds one word.
pub proof fn lemma_word_count_append_word(x: Seq<char>, t: Seq<char>)
    requires
        is_word(t),
        x.len() == 0 || is_white_space(x.last()),
    ensures
        word_count(x + t) == word_count(x) + 1,
    decreases t.len(),
{
    if t.len() == 1 {
        assert((x + t).drop_last() =~= x);
        assert((x + t)[x.len() as int] == t[0]);
        if x.len() > 0 {
            assert((x + t)[x.len() - 1] == x.last());
        }
    } else {
        let u = t.drop_last();
        assert(is_word(u)) by {
            assert forall|i: int| 0 <= i < u.len() implies !is_white_space(#[trigger] u[i]) by {
                assert(u[i] == t[i]);
            }
        }
        lemma_word_count_append_word(x, u);
        assert((x + t).drop_last() =~= x + u);
        assert((x + t)[(x + t).len() - 2] == t[t.len() - 2]);
    }
}

/// Appending white space adds no word.
pub proof fn lemma_word_count_append_space(x: Seq<char>, c: char)
    requires
        is_white_space(c),
    ensures
        word_count(x.push(c)) == word_count(x),
{
    assert(x.push(c).drop_last() =~= x);
}

/// The `i`-th word that the detokenizer writes: `w` and the index.
pub open spec fn placeholder_word(i: nat) -> Seq<char> {
    seq!['w'] + decimal(i)
}

/// `n` placeholder words `w0`, `w1`, ..., separated by single spaces.
pub open spec fn placeholder_text(n: nat) -> Seq<char>
    decreases n,
{
    if n == 0 {
        Seq::empty()
    } else if n == 1 {
        placeholder_word(0)
    } else {
        placeholder_text((n - 1) as nat).push(' ') + placeholder_word((n - 1) as nat)
    }
}

proof fn lemma_placeholder_word(i: nat)
    ensures
        is_word(placeholder_word(i)),
{
    lemma_decimal_digits(i);
    let w = placeholder_word(i);
    assert forall|k: int| 0 <= k < w.len() implies !is_white_space(#[trigger] w[k]) by {
        if k > 0 {
            assert(w[k] == decimal(i)[k - 1]);
        }
    }
}

/// The placeholder text of `n` words counts as `n` words.
pub proof fn lemma_placeholder_word_count(n: nat)
    ensures
        word_count(placeholder_text(n)) == n,
    decreases n,
{
    if n == 1 {
        lemma_placeholder_word(0);
        lemma_word_count_append_word(Seq::empty(), placeholder_word(0));
        assert(Seq::<char>::empty() + placeholder_word(0) =~= placeholder_word(0));
    } else if n > 1 {
        let prev = placeholder_text((n - 1) as nat);
        lemma_placeholder_word_count((n - 1) as nat);
        lemma_word_count_append_space(prev, ' ');
        lemma_placeholder_word((n - 1) as nat);
        lemma_word_count_append_word(prev.push(' '), placeholder_word((n - 1) as nat));
    }
}

/// Writes `n` placeholder words `w0 w1 ... w{n-1}`.
pub fn placeholder_words(n: usize) -> (text: String)
    ensures
        text@ == placeholder_text(n as nat),
{
    let mut text = String::new();
    let mut i: usize = 0;
    while i < n
        invariant
            i <= n,
            text@ == placeholder_text(i as nat),
        decreases n - i,
    {
        let ghost before = text@;
        if i > 0 {
            push_char(&mut text, ' ');
        }
        push_char(&mut text, 'w');
        push_decimal(&mut text, i as u64);
        proof {
            if i == 0 {
                assert(text@ =~= placeholder_word(0));
            } else {
                assert(text@ =~= before.push(' ') + placeholder_word(i as nat));
            }
        }
        i = i + 1;
    }
    text
}

} // verus!
