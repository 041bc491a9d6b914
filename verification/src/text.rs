//! Text helpers over `Seq<char>` models: words, decimal numbers, substrings.

use vstd::prelude::*;

verus! {

/// What the standard library's `Debug` formatting of a `str` yields: the text
/// in double quotes with its escapes.
pub uninterp spec fn str_debug(s: Seq<char>) -> Seq<char>;

/// Whether a character has the Unicode property `White_Space`: these are all
/// that have it.
pub open spec fn is_white(c: char) -> bool {
    let n = c as u32;
    ||| 9 <= n <= 13
    ||| n == 0x20
    ||| n == 0x85
    ||| n == 0xA0
    ||| n == 0x1680
    ||| 0x2000 <= n <= 0x200A
    ||| n == 0x2028
    ||| n == 0x2029
    ||| n == 0x202F
    ||| n == 0x205F
    ||| n == 0x3000
}

/// `String::push` of the standard library: appends one character.
pub assume_specification[ std::string::String::push ](s: &mut std::string::String, ch: char)
    ensures
        final(s)@ == old(s)@.push(ch),
;

/// `char::is_whitespace` of the standard library. Its result is the property
/// `White_Space`, which Unicode gives to the characters listed above.
#[verifier::external_body]
pub(crate) fn char_is_whitespace(c: char) -> (r: bool)
    ensures
        r == is_white(c),
{
    c.is_whitespace()
}

/// `Debug` formatting of a `str` by the standard library (`{:?}`).
#[verifier::external_body]
pub(crate) fn debug_text(s: &str) -> (r: String)
    ensures
        r@ == str_debug(s@),
{
    format!("{:?}", s)
}

/// The texts of a sequence of strings.
pub open spec fn texts(v: Seq<String>) -> Seq<Seq<char>> {
    Seq::new(v.len(), |i: int| v[i]@)
}

/// The byte strings of a sequence of byte vectors.
pub open spec fn byte_rows(v: Seq<Vec<u8>>) -> Seq<Seq<u8>> {
    Seq::new(v.len(), |i: int| v[i]@)
}

/// The characters of `s` as a vector.
pub fn chars_of(s: &str) -> (r: Vec<char>)
    ensures
        r@ == s@,
{
    let mut out: Vec<char> = Vec::new();
    for c in it: s.chars()
        invariant
            out@ == it.seq().take(it.index()),
            it.seq() == s@,
    {
        out.push(c);
    }
    out
}

/// The string of the characters `v[from..to]`.
pub fn string_of(v: &Vec<char>, from: usize, to: usize) -> (r: String)
    requires
        from <= to <= v.len(),
    ensures
        r@ == v@.subrange(from as int, to as int),
{
    let mut out: String = String::new();
    let mut i: usize = from;
    while i < to
        invariant
            from <= i <= to <= v.len(),
            out@ == v@.subrange(from as int, i as int),
        decreases to - i,
    {
        out.push(v[i]);
        i += 1;
        assert(v@.subrange(from as int, i as int) =~= v@.subrange(from as int, i - 1).push(v@[i - 1]));
    }
    out
}

/// Whether two texts are the same.
pub fn same_text(a: &str, b: &str) -> (r: bool)
    ensures
        r == (a@ == b@),
{
    let x: Vec<char> = chars_of(a);
    let y: Vec<char> = chars_of(b);
    same_chars(&x, &y)
}

/// Whether two character vectors are the same.
pub fn same_chars(x: &Vec<char>, y: &Vec<char>) -> (r: bool)
    ensures
        r == (x@ == y@),
{
    if x.len() != y.len() {
        return false;
    }
    let mut i: usize = 0;
    while i < x.len()
        invariant
            x.len() == y.len(),
            i <= x.len(),
            forall|j: int| 0 <= j < i ==> x@[j] == y@[j],
        decreases x.len() - i,
    {
        if x[i] != y[i] {
            return false;
        }
        i += 1;
    }
    assert(x@ =~= y@);
    true
}

/// The words of a text: its maximal runs of characters that are not white
/// space, in order.
pub open spec fn words(s: Seq<char>) -> Seq<Seq<char>>
    decreases s.len(),
{
    if s.len() == 0 {
        Seq::empty()
    } else {
        let before = words(s.drop_last());
        if is_white(s.last()) {
            before
        } else if s.len() >= 2 && !is_white(s[s.len() - 2]) {
            before.update(before.len() - 1, before.last().push(s.last()))
        } else {
            before.push(seq![s.last()])
        }
    }
}

/// The words of `s`, as `str::split_whitespace` of the standard library
/// yields them.
pub fn split_words(s: &str) -> (r: Vec<String>)
    ensures
        texts(r@) == words(s@),
{
    let cs: Vec<char> = chars_of(s);
    let mut out: Vec<String> = Vec::new();
    let mut i: usize = 0;
    let mut start: usize = 0;
    let mut inside: bool = false;
    proof {
        assert(cs@.take(0) =~= Seq::<char>::empty());
        assert(texts(out@) =~= words(cs@.take(0)));
    }
    while i < cs.len()
        invariant
            i <= cs.len(),
            cs@ == s@,
            start <= i,
            inside <==> (i > 0 && !is_white(cs@[i - 1])),
            inside ==> start < i && words(cs@.take(i as int)) == texts(out@).push(
                cs@.subrange(start as int, i as int),
            ),
            !inside ==> words(cs@.take(i as int)) == texts(out@),
        decreases cs.len() - i,
    {
        let ghost prev = cs@.take(i as int);
        let ghost next = cs@.take(i + 1);
        let white: bool = char_is_whitespace(cs[i]);
        proof {
            assert(next.drop_last() =~= prev);
            assert(next.last() == cs@[i as int]);
            if i > 0 {
                assert(next[next.len() - 2] == cs@[i - 1]);
            }
        }
        if white {
            if inside {
                let w: String = string_of(&cs, start, i);
                let ghost grown = texts(out@).push(w@);
                out.push(w);
                proof {
                    assert(texts(out@) =~= grown);
                }
            }
            inside = false;
        } else {
            if !inside {
                start = i;
                proof {
                    assert(cs@.subrange(i as int, i + 1) =~= seq![cs@[i as int]]);
                }
            } else {
                proof {
                    let before = words(prev);
                    assert(before.last() == cs@.subrange(start as int, i as int));
                    assert(before.last().push(cs@[i as int]) =~= cs@.subrange(start as int, i + 1));
                    assert(before.update(before.len() - 1, before.last().push(cs@[i as int]))
                        =~= texts(out@).push(cs@.subrange(start as int, i + 1)));
                }
            }
            inside = true;
        }
        i += 1;
    }
    proof {
        assert(cs@.take(cs@.len() as int) =~= cs@);
    }
    if inside {
        let w: String = string_of(&cs, start, i);
        let ghost grown = texts(out@).push(w@);
        out.push(w);
        proof {
            assert(texts(out@) =~= grown);
        }
    }
    out
}

/// The place of the first `c` in `s`.
pub open spec fn first_index(s: Seq<char>, c: char) -> int {
    choose|i: int|
        0 <= i < s.len() && #[trigger] s[i] == c && (forall|j: int| 0 <= j < i ==> s[j] != c)
}

/// A text parted at its first `c`.
pub open spec fn parted(s: Seq<char>, c: char) -> Option<(Seq<char>, Seq<char>)> {
    if s.contains(c) {
        Some((s.take(first_index(s, c)), s.skip(first_index(s, c) + 1)))
    } else {
        None
    }
}

/// The first place of a character is unique.
pub proof fn lemma_first_index(s: Seq<char>, c: char, i: int)
    requires
        0 <= i < s.len(),
        s[i] == c,
        forall|j: int| 0 <= j < i ==> s[j] != c,
    ensures
        s.contains(c),
        first_index(s, c) == i,
{
    let k = first_index(s, c);
    assert(0 <= k < s.len() && s[k] == c && (forall|j: int| 0 <= j < k ==> s[j] != c));
    if k < i {
        assert(s[k] != c);
    }
    if i < k {
        assert(s[i] != c);
    }
}

/// Parts `s` at its first `c`, which goes to neither side.
pub fn split_first(s: &str, c: char) -> (r: Option<(String, String)>)
    ensures
        match r {
            Some(p) => parted(s@, c) == Some((p.0@, p.1@)),
            None => parted(s@, c) is None,
        },
{
    let cs: Vec<char> = chars_of(s);
    let mut i: usize = 0;
    while i < cs.len()
        invariant
            i <= cs.len(),
            cs@ == s@,
            forall|j: int| 0 <= j < i ==> cs@[j] != c,
        decreases cs.len() - i,
    {
        if cs[i] == c {
            let left: String = string_of(&cs, 0, i);
            let right: String = string_of(&cs, i + 1, cs.len());
            proof {
                lemma_first_index(s@, c, i as int);
                assert(left@ =~= s@.take(i as int));
                assert(right@ =~= s@.skip(i + 1));
            }
            return Some((left, right));
        }
        i += 1;
    }
    None
}

/// Whether `s` ends with `tail`.
pub open spec fn ends_with(s: Seq<char>, tail: Seq<char>) -> bool {
    tail.len() <= s.len() && s.skip(s.len() - tail.len()) == tail
}

/// Whether `s` ends with an underscore followed by `tail`.
pub fn ends_with_underscored(s: &str, tail: &str) -> (r: bool)
    ensures
        r == ends_with(s@, seq!['_'] + tail@),
{
    let cs: Vec<char> = chars_of(s);
    let ts: Vec<char> = chars_of(tail);
    let ghost want = seq!['_'] + tail@;
    if ts.len() >= cs.len() {
        return false;
    }
    let from: usize = cs.len() - ts.len() - 1;
    let ghost got = s@.skip(s@.len() - want.len());
    proof {
        assert(want.len() == ts.len() + 1);
        assert(got.len() == want.len());
    }
    if cs[from] != '_' {
        proof {
            assert(got[0] == cs@[from as int]);
            assert(want[0] == '_');
        }
        return false;
    }
    let mut i: usize = 0;
    while i < ts.len()
        invariant
            cs@ == s@,
            ts@ == tail@,
            i <= ts.len(),
            from + ts.len() + 1 == cs.len(),
            got == s@.skip(from as int),
            want == seq!['_'] + tail@,
            forall|j: int| 0 <= j < i ==> cs@[from + 1 + j] == ts@[j],
        decreases ts.len() - i,
    {
        if cs[from + 1 + i] != ts[i] {
            proof {
                assert(got[i + 1] == cs@[from + 1 + i]);
                assert(want[i + 1] == ts@[i as int]);
            }
            return false;
        }
        i += 1;
    }
    proof {
        assert forall|k: int| 0 <= k < want.len() implies got[k] == want[k] by {
            if k > 0 {
                assert(cs@[from + 1 + (k - 1)] == ts@[k - 1]);
            }
        }
        assert(got =~= want);
    }
    true
}

/// The character of a decimal digit.
pub open spec fn digit_char(d: int) -> char {
    (48 + d) as char
}

/// The decimal text of a natural number.
pub open spec fn decimal(n: nat) -> Seq<char>
    decreases n,
{
    if n < 10 {
        seq![digit_char(n as int)]
    } else {
        decimal(n / 10).push(digit_char((n % 10) as int))
    }
}

/// The decimal text of an integer.
pub open spec fn decimal_int(i: int) -> Seq<char> {
    if i < 0 {
        seq!['-'] + decimal((-i) as nat)
    } else {
        decimal(i as nat)
    }
}

/// Appends the decimal text of `n`.
pub fn push_decimal(out: &mut String, n: u64)
    ensures
        final(out)@ == old(out)@ + decimal(n as nat),
    decreases n,
{
    if n >= 10 {
        push_decimal(out, n / 10);
    }
    let d: u8 = (n % 10) as u8;
    out.push((48u8 + d) as char);
    proof {
        if n >= 10 {
            assert(old(out)@ + decimal(n as nat) =~= (old(out)@ + decimal((n / 10) as nat)).push(
                digit_char((n % 10) as int),
            ));
        } else {
            assert(old(out)@ + decimal(n as nat) =~= old(out)@.push(digit_char(n as int)));
        }
    }
}

/// Appends the decimal text of `i`.
pub fn push_decimal_int(out: &mut String, i: i64)
    ensures
        final(out)@ == old(out)@ + decimal_int(i as int),
{
    if i < 0 {
        out.push('-');
        let m: u64 = (-(i as i128)) as u64;
        push_decimal(out, m);
        proof {
            assert(old(out)@ + decimal_int(i as int) =~= old(out)@.push('-') + decimal(m as nat));
        }
    } else {
        push_decimal(out, i as u64);
    }
}

/// Whether `c` is one of `0` to `9`.
pub open spec fn is_digit(c: char) -> bool {
    48 <= c as u32 && c as u32 <= 57
}

/// Whether a text is made of decimal digits alone.
pub open spec fn all_digits(s: Seq<char>) -> bool {
    forall|i: int| 0 <= i < s.len() ==> is_digit(#[trigger] s[i])
}

/// The number that a text of decimal digits denotes.
pub open spec fn digits_value(s: Seq<char>) -> nat
    decreases s.len(),
{
    if s.len() == 0 {
        0
    } else {
        (digits_value(s.drop_last()) * 10 + (s.last() as u32 - 48)) as nat
    }
}

/// The integer that a text denotes: decimal digits behind an optional sign.
pub open spec fn parsed_int(s: Seq<char>) -> Option<int> {
    let signed = s.len() > 0 && (s[0] == '-' || s[0] == '+');
    let body = if signed {
        s.skip(1)
    } else {
        s
    };
    if body.len() == 0 || !all_digits(body) {
        None
    } else if signed && s[0] == '-' {
        Some(-(digits_value(body) as int))
    } else {
        Some(digits_value(body) as int)
    }
}

/// A text of digits is worth at least as much as any of its beginnings.
proof fn lemma_digits_value_grows(s: Seq<char>, n: int)
    requires
        all_digits(s),
        0 <= n <= s.len(),
    ensures
        digits_value(s.take(n)) <= digits_value(s),
    decreases s.len(),
{
    if n == s.len() {
        assert(s.take(n) =~= s);
    } else {
        let t = s.drop_last();
        assert(all_digits(t)) by {
            assert forall|i: int| 0 <= i < t.len() implies is_digit(#[trigger] t[i]) by {
                assert(t[i] == s[i]);
            }
        }
        lemma_digits_value_grows(t, n);
        assert(t.take(n) =~= s.take(n));
        assert(is_digit(s.last()));
    }
}

/// The value of the digits `cs[from..]`, cut off where it passes `limit`.
fn digits_up_to(cs: &Vec<char>, from: usize, limit: u64) -> (r: Option<u64>)
    requires
        from <= cs.len(),
    ensures
        ({
            let body = cs@.skip(from as int);
            match r {
                Some(v) => body.len() > 0 && all_digits(body) && digits_value(body) == v && v
                    <= limit,
                None => body.len() == 0 || !all_digits(body) || digits_value(body) > limit,
            }
        }),
{
    let ghost body = cs@.skip(from as int);
    if from == cs.len() {
        return None;
    }
    let mut v: u64 = 0;
    let mut i: usize = from;
    let mut over: bool = false;
    proof {
        assert(body.take(0) =~= Seq::<char>::empty());
    }
    while i < cs.len()
        invariant
            from <= i <= cs.len(),
            body == cs@.skip(from as int),
            all_digits(body.take(i - from)),
            !over ==> v == digits_value(body.take(i - from)) && v <= limit,
            over ==> digits_value(body.take(i - from)) > limit,
        decreases cs.len() - i,
    {
        let c: char = cs[i];
        let ghost prev = body.take(i - from);
        let ghost next = body.take(i - from + 1);
        proof {
            assert(next.drop_last() =~= prev);
            assert(next.last() == c);
            assert(body[i - from] == c);
        }
        if (c as u32) < 48 || (c as u32) > 57 {
            return None;
        }
        proof {
            assert forall|k: int| 0 <= k < next.len() implies is_digit(#[trigger] next[k]) by {
                if k < prev.len() {
                    assert(next[k] == prev[k]);
                }
            }
            lemma_digits_value_grows(next, prev.len() as int);
            assert(next.take(prev.len() as int) =~= prev);
        }
        if !over {
            let wide: u128 = v as u128 * 10 + (c as u32 - 48) as u128;
            if wide > limit as u128 {
                over = true;
            } else {
                v = wide as u64;
            }
        }
        i += 1;
    }
    proof {
        assert(body.take(body.len() as int) =~= body);
    }
    if over {
        None
    } else {
        Some(v)
    }
}

/// Reads an `i64` as the standard library's `str::parse` does.
pub fn parse_i64(s: &str) -> (r: Option<i64>)
    ensures
        match r {
            Some(v) => parsed_int(s@) == Some(v as int),
            None => match parsed_int(s@) {
                Some(v) => v < i64::MIN || i64::MAX < v,
                None => true,
            },
        },
{
    let cs: Vec<char> = chars_of(s);
    if cs.len() > 0 && cs[0] == '-' {
        match digits_up_to(&cs, 1, 0x8000_0000_0000_0000) {
            Some(v) => Some((-(v as i128)) as i64),
            None => None,
        }
    } else if cs.len() > 0 && cs[0] == '+' {
        match digits_up_to(&cs, 1, 0x7fff_ffff_ffff_ffff) {
            Some(v) => Some(v as i64),
            None => None,
        }
    } else {
        proof {
            assert(cs@.skip(0) =~= cs@);
        }
        match digits_up_to(&cs, 0, 0x7fff_ffff_ffff_ffff) {
            Some(v) => Some(v as i64),
            None => None,
        }
    }
}

/// Reads a `u8` as the standard library's `str::parse` does: a plus sign may
/// stand in front, a minus sign may not.
pub fn parse_u8(s: &str) -> (r: Option<u8>)
    ensures
        match r {
            Some(v) => parsed_int(s@) == Some(v as int) && s@[0] != '-',
            None => match parsed_int(s@) {
                Some(v) => v > u8::MAX || s@[0] == '-',
                None => true,
            },
        },
{
    let cs: Vec<char> = chars_of(s);
    if cs.len() > 0 && cs[0] == '-' {
        return None;
    }
    let from: usize = if cs.len() > 0 && cs[0] == '+' {
        1
    } else {
        0
    };
    proof {
        assert(cs@.skip(0) =~= cs@);
    }
    match digits_up_to(&cs, from, 255) {
        Some(v) => Some(v as u8),
        None => None,
    }
}

/// The length of a text without the decimal digits at its end.
pub open spec fn root_len(s: Seq<char>) -> nat
    decreases s.len(),
{
    if s.len() > 0 && is_digit(s.last()) {
        root_len(s.drop_last())
    } else {
        s.len()
    }
}

/// The value of the digits at the end of a text, zero where there are none or
/// the value does not fit an `i32`.
pub open spec fn suffix_number(s: Seq<char>) -> int {
    let tail = s.skip(root_len(s) as int);
    if tail.len() > 0 && digits_value(tail) <= i32::MAX {
        digits_value(tail) as int
    } else {
        0
    }
}

/// The trailing digits of a text stand behind its root.
proof fn lemma_root_len(s: Seq<char>)
    ensures
        root_len(s) <= s.len(),
        all_digits(s.skip(root_len(s) as int)),
    decreases s.len(),
{
    if s.len() > 0 && is_digit(s.last()) {
        let t = s.drop_last();
        lemma_root_len(t);
        let n = root_len(s) as int;
        assert forall|i: int| 0 <= i < s.skip(n).len() implies is_digit(#[trigger] s.skip(n)[i]) by {
            if i < t.skip(n).len() {
                assert(s.skip(n)[i] == t.skip(n)[i]);
            }
        }
    }
}

/// Parts a name into its root and the number at its end.
pub fn root_and_number(s: &str) -> (r: (String, i32))
    ensures
        r.0@ == s@.take(root_len(s@) as int),
        r.1 == suffix_number(s@),
        r.1 >= 0,
{
    let cs: Vec<char> = chars_of(s);
    let mut n: usize = cs.len();
    proof {
        assert(cs@.take(n as int) =~= cs@);
    }
    while n > 0 && cs[n - 1] as u32 >= 48 && cs[n - 1] as u32 <= 57
        invariant
            n <= cs.len(),
            cs@ == s@,
            root_len(s@) == root_len(s@.take(n as int)),
        decreases n,
    {
        proof {
            assert(s@.take(n as int).drop_last() =~= s@.take(n - 1));
            assert(s@.take(n as int).last() == cs@[n - 1]);
        }
        n -= 1;
    }
    proof {
        if n > 0 {
            assert(s@.take(n as int).last() == cs@[n - 1]);
        }
        lemma_root_len(s@);
    }
    let root: String = string_of(&cs, 0, n);
    proof {
        assert(root@ =~= s@.take(n as int));
    }
    match digits_up_to(&cs, n, 0x7fff_ffff) {
        Some(v) => (root, v as i32),
        None => (root, 0),
    }
}

/// A string of the same text.
pub fn copy_text(s: &str) -> (r: String)
    ensures
        r@ == s@,
{
    s.to_owned()
}

} // verus!
