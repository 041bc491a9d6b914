//! What texts, their words and their numbers promise.

use crate::text::{
    all_digits, decimal, decimal_int, digit_char, digits_value, is_digit, is_white,
    lemma_first_index, parsed_int, parted, root_len, suffix_number, words,
};
use vstd::prelude::*;

verus! {

/// Whether a text is one word.
pub open spec fn is_word(w: Seq<char>) -> bool {
    w.len() > 0 && forall|i: int| 0 <= i < w.len() ==> !is_white(#[trigger] w[i])
}

proof fn lemma_word_behind(a: Seq<char>, w: Seq<char>)
    requires
        is_word(w),
        a.len() == 0 || is_white(a.last()),
    ensures
        words(a + w) == words(a).push(w),
    decreases w.len(),
{
    let s = a + w;
    let v = w.drop_last();
    assert(s.drop_last() =~= a + v);
    assert(s.last() == w.last());
    assert(!is_white(w[w.len() - 1]));
    if w.len() == 1 {
        assert(a + v =~= a);
        assert(w =~= seq![w.last()]);
        if s.len() >= 2 {
            assert(s[s.len() - 2] == a.last());
        }
    } else {
        assert forall|i: int| 0 <= i < v.len() implies !is_white(#[trigger] v[i]) by {
            assert(v[i] == w[i]);
        }
        lemma_word_behind(a, v);
        assert(s[s.len() - 2] == w[w.len() - 2]);
        assert(!is_white(w[w.len() - 2]));
        assert(v.push(w.last()) =~= w);
        assert(words(s) =~= words(a).push(w));
    }
}

/// Words are parted by white space and by nothing else: a text without white
/// space is one word; white space adds none; and a word behind white space is
/// one word more.
pub proof fn law_words(a: Seq<char>, white: char, w: Seq<char>)
    requires
        is_word(w),
        is_white(white),
    ensures
        words(w) == seq![w],
        words(a.push(white)) == words(a),
        words(a.push(white) + w) == words(a).push(w),
{
    assert(Seq::<char>::empty() + w =~= w);
    lemma_word_behind(Seq::empty(), w);
    assert(words(w) =~= seq![w]);
    assert(a.push(white).drop_last() =~= a);
    lemma_word_behind(a.push(white), w);
}

/// A text is parted at the first place of the character: what is before does
/// not hold it, and with it and what is behind gives the text again.
pub proof fn law_parted(a: Seq<char>, c: char, b: Seq<char>)
    requires
        !a.contains(c),
    ensures
        parted(a.push(c) + b, c) == Some((a, b)),
        parted(a, c) is None,
{
    let s = a.push(c) + b;
    assert(s[a.len() as int] == c);
    assert forall|j: int| 0 <= j < a.len() implies s[j] != c by {
        assert(s[j] == a[j]);
        assert(a.contains(a[j]));
    }
    lemma_first_index(s, c, a.len() as int);
    assert(s.take(a.len() as int) =~= a);
    assert(s.skip(a.len() as int + 1) =~= b);
}

/// The decimal text of a number has one digit for each power of ten, the
/// highest first: a digit more is ten times the number and the digit.
pub proof fn law_decimal_digits(n: nat, d: nat)
    requires
        d < 10,
    ensures
        n > 0 ==> decimal(10 * n + d) == decimal(n).push((0x30 + d) as char),
        decimal(d) == seq![(0x30 + d) as char],
        digits_value(decimal(n).push((0x30 + d) as char)) == 10 * digits_value(decimal(n)) + d,
        digits_value(seq![(0x30 + d) as char]) == d,
{
    let c = (0x30 + d) as char;
    assert(decimal(n).push(c).drop_last() =~= decimal(n));
    assert(seq![c].drop_last() =~= Seq::<char>::empty());
    assert(digits_value(Seq::<char>::empty()) == 0);
    assert((10 * n + d) / 10 == n && (10 * n + d) % 10 == d);
}

proof fn lemma_decimal_back(n: nat)
    ensures
        decimal(n).len() > 0,
        all_digits(decimal(n)),
        digits_value(decimal(n)) == n,
    decreases n,
{
    if n < 10 {
        assert(decimal(n).drop_last() =~= Seq::<char>::empty());
        assert(digits_value(Seq::<char>::empty()) == 0);
    } else {
        lemma_decimal_back(n / 10);
        let t = decimal(n / 10);
        let c = digit_char((n % 10) as int);
        assert(decimal(n).drop_last() =~= t);
        assert forall|i: int| 0 <= i < decimal(n).len() implies is_digit(#[trigger] decimal(n)[i]) by {
            if i < t.len() {
                assert(decimal(n)[i] == t[i]);
            }
        }
    }
}

/// A number reads back from its decimal text, with its sign.
pub proof fn law_decimal_round_trip(i: int)
    ensures
        parsed_int(decimal_int(i)) == Some(i),
        i >= 0 ==> parsed_int(seq!['+'] + decimal_int(i)) == Some(i),
        i < 0 ==> decimal_int(i)[0] == '-',
{
    if i < 0 {
        lemma_decimal_back((-i) as nat);
        let t = decimal((-i) as nat);
        assert((seq!['-'] + t).skip(1) =~= t);
    } else {
        lemma_decimal_back(i as nat);
        let t = decimal(i as nat);
        assert(is_digit(t[0]));
        assert((seq!['+'] + t).skip(1) =~= t);
    }
}

proof fn lemma_digits_end(a: Seq<char>, t: Seq<char>)
    requires
        all_digits(t),
        a.len() == 0 || !is_digit(a.last()),
    ensures
        root_len(a + t) == a.len(),
    decreases t.len(),
{
    let s = a + t;
    if t.len() == 0 {
        assert(s =~= a);
    } else {
        assert(s.drop_last() =~= a + t.drop_last());
        assert(s.last() == t[t.len() - 1]);
        assert forall|i: int| 0 <= i < t.drop_last().len() implies is_digit(
            #[trigger] t.drop_last()[i],
        ) by {
            assert(t.drop_last()[i] == t[i]);
        }
        lemma_digits_end(a, t.drop_last());
    }
}

/// A numbered name is parted into its root and its number.
pub proof fn law_numbered_name(root: Seq<char>, n: nat)
    requires
        n <= i32::MAX,
        root.len() == 0 || !is_digit(root.last()),
    ensures
        root_len(root + decimal(n)) == root.len(),
        suffix_number(root + decimal(n)) == n,
        suffix_number(root) == 0,
{
    lemma_decimal_back(n);
    lemma_digits_end(root, decimal(n));
    lemma_digits_end(root, Seq::empty());
    assert(root + Seq::<char>::empty() =~= root);
    assert((root + decimal(n)).skip(root.len() as int) =~= decimal(n));
}

} // verus!
