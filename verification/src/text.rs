use vstd::prelude::*;

use vstd::string::StrSliceExecFns;

verus! {

/// The ASCII whitespace characters that trimming strips.
pub open spec fn is_space_char(c: char) -> bool {
    c == ' ' || c == '\t' || c == '\r' || c == '\n'
}

pub open spec fn trim_front(s: Seq<char>) -> Seq<char>
    decreases s.len(),
{
    if s.len() > 0 && is_space_char(s[0]) {
        trim_front(s.drop_first())
    } else {
        s
    }
}

pub open spec fn trim_back(s: Seq<char>) -> Seq<char>
    decreases s.len(),
{
    if s.len() > 0 && is_space_char(s.last()) {
        trim_back(s.drop_last())
    } else {
        s
    }
}

/// The sequence without its leading and trailing whitespace.
pub open spec fn trim_spec(s: Seq<char>) -> Seq<char> {
    trim_back(trim_front(s))
}

/// Lower-case mapping for the ASCII letters; any other character is kept.
pub open spec fn lower_char(c: char) -> char {
    if c == 'A' {
        'a'
    } else if c == 'B' {
        'b'
    } else if c == 'C' {
        'c'
    } else if c == 'D' {
        'd'
    } else if c == 'E' {
        'e'
    } else if c == 'F' {
        'f'
    } else if c == 'G' {
        'g'
    } else if c == 'H' {
        'h'
    } else if c == 'I' {
        'i'
    } else if c == 'J' {
        'j'
    } else if c == 'K' {
        'k'
    } else if c == 'L' {
        'l'
    } else if c == 'M' {
        'm'
    } else if c == 'N' {
        'n'
    } else if c == 'O' {
        'o'
    } else if c == 'P' {
        'p'
    } else if c == 'Q' {
        'q'
    } else if c == 'R' {
        'r'
    } else if c == 'S' {
        's'
    } else if c == 'T' {
        't'
    } else if c == 'U' {
        'u'
    } else if c == 'V' {
        'v'
    } else if c == 'W' {
        'w'
    } else if c == 'X' {
        'x'
    } else if c == 'Y' {
        'y'
    } else if c == 'Z' {
        'z'
    } else {
        c
    }
}

pub open spec fn lower_seq(s: Seq<char>) -> Seq<char> {
    s.map_values(|c: char| lower_char(c))
}

/// Index of the first occurrence of `c`, or -1 when there is none.
pub open spec fn find_char(s: Seq<char>, c: char) -> int
    decreases s.len(),
{
    if s.len() == 0 {
        -1
    } else if s[0] == c {
        0
    } else {
        let r = find_char(s.drop_first(), c);
        if r == -1 {
            -1
        } else {
            r + 1
        }
    }
}

/// The sequence with every occurrence of `c` removed.
pub open spec fn remove_char(s: Seq<char>, c: char) -> Seq<char>
    decreases s.len(),
{
    if s.len() == 0 {
        Seq::empty()
    } else if s[0] == c {
        remove_char(s.drop_first(), c)
    } else {
        seq![s[0]] + remove_char(s.drop_first(), c)
    }
}

pub open spec fn is_digit_char(c: char) -> bool {
    48 <= c as u32 <= 57
}

pub open spec fn digit_char_val(c: char) -> int {
    c as u32 - 48
}

pub open spec fn all_digits(s: Seq<char>) -> bool {
    forall|i: int| 0 <= i < s.len() ==> is_digit_char(#[trigger] s[i])
}

/// The number written by a digit sequence, most significant digit first.
pub open spec fn digits_value(s: Seq<char>) -> int
    decreases s.len(),
{
    if s.len() == 0 {
        0
    } else {
        digits_value(s.drop_last()) * 10 + digit_char_val(s.last())
    }
}

/// The reading an unsigned decimal integer parser gives: an optional plus
/// sign, then at least one digit, rejecting values over the bound.
pub open spec fn parse_uint_spec(s: Seq<char>, bound: int) -> Option<int> {
    let t = if s.len() > 0 && s[0] == '+' {
        s.drop_first()
    } else {
        s
    };
    if t.len() > 0 && all_digits(t) && digits_value(t) <= bound {
        Some(digits_value(t))
    } else {
        None
    }
}

pub proof fn lemma_digits_value_nonneg(s: Seq<char>)
    requires
        all_digits(s),
    ensures
        digits_value(s) >= 0,
    decreases s.len(),
{
    if s.len() > 0 {
        assert(all_digits(s.drop_last())) by {
            assert(forall|i: int|
                0 <= i < s.len() - 1 ==> #[trigger] s.drop_last()[i] == s[i]);
        }
        lemma_digits_value_nonneg(s.drop_last());
    }
}

pub proof fn lemma_digits_value_prefix(s: Seq<char>, i: int)
    requires
        all_digits(s),
        0 <= i < s.len(),
    ensures
        digits_value(s.take(i)) <= digits_value(s.take(i + 1)),
{
    assert(s.take(i + 1).drop_last() =~= s.take(i));
    assert(all_digits(s.take(i))) by {
        assert(forall|j: int| 0 <= j < i ==> #[trigger] s.take(i)[j] == s[j]);
    }
    lemma_digits_value_nonneg(s.take(i));
}

pub proof fn lemma_digits_value_monotone(s: Seq<char>, i: int)
    requires
        all_digits(s),
        0 <= i <= s.len(),
    ensures
        digits_value(s.take(i)) <= digits_value(s),
    decreases s.len() - i,
{
    if i < s.len() {
        lemma_digits_value_prefix(s, i);
        lemma_digits_value_monotone(s, i + 1);
    } else {
        assert(s.take(i) =~= s);
    }
}

/// Whether the two strings hold the same characters.
pub fn str_eq(s: &str, t: &str) -> (r: bool)
    ensures
        r == (s@ == t@),
{
    let n = s.unicode_len();
    let m = t.unicode_len();
    if n != m {
        return false;
    }
    let mut i: usize = 0;
    while i < n
        invariant
            n == s@.len(),
            n == t@.len(),
            i <= n,
            forall|j: int| 0 <= j < i ==> s@[j] == t@[j],
        decreases n - i,
    {
        if s.get_char(i) != t.get_char(i) {
            return false;
        }
        i = i + 1;
    }
    proof {
        assert(s@ =~= t@);
    }
    true
}

fn is_space(c: char) -> (r: bool)
    ensures
        r == is_space_char(c),
{
    c == ' ' || c == '\t' || c == '\r' || c == '\n'
}

/// The string without its leading and trailing whitespace.
pub fn trim_str<'a>(s: &'a str) -> (r: &'a str)
    ensures
        r@ == trim_spec(s@),
{
    let n = s.unicode_len();
    let mut a: usize = 0;
    proof {
        assert(s@.skip(0) =~= s@);
    }
    while a < n && is_space(s.get_char(a))
        invariant
            n == s@.len(),
            a <= n,
            trim_front(s@) == trim_front(s@.skip(a as int)),
        decreases n - a,
    {
        proof {
            assert(s@.skip(a as int).drop_first() =~= s@.skip(a as int + 1));
        }
        a = a + 1;
    }
    proof {
        if a < n {
            assert(trim_front(s@.skip(a as int)) == s@.skip(a as int));
        } else {
            assert(s@.skip(n as int) =~= Seq::<char>::empty());
        }
    }
    let mut b: usize = n;
    while b > a && is_space(s.get_char(b - 1))
        invariant
            n == s@.len(),
            a <= b <= n,
            trim_front(s@) == trim_front(s@.skip(a as int)),
            trim_back(s@.skip(a as int)) == trim_back(s@.subrange(a as int, b as int)),
        decreases b,
    {
        proof {
            assert(s@.subrange(a as int, b as int).drop_last() =~= s@.subrange(
                a as int,
                b as int - 1,
            ));
        }
        b = b - 1;
    }
    proof {
        assert(s@.skip(a as int) =~= s@.subrange(a as int, n as int));
        if b > a {
            assert(trim_back(s@.subrange(a as int, b as int)) == s@.subrange(a as int, b as int));
        }
        if a >= n {
            assert(trim_back(trim_front(s@)) =~= s@.subrange(a as int, b as int));
        }
    }
    s.substring_char(a, b)
}

/// Relies on String::push: appends exactly the one character.
#[verifier::external_body]
pub fn push_char(s: &mut String, c: char)
    ensures
        final(s)@ == old(s)@.push(c),
{
    s.push(c);
}

fn to_lower(c: char) -> (r: char)
    ensures
        r == lower_char(c),
{
    match c {
        'A' => 'a',
        'B' => 'b',
        'C' => 'c',
        'D' => 'd',
        'E' => 'e',
        'F' => 'f',
        'G' => 'g',
        'H' => 'h',
        'I' => 'i',
        'J' => 'j',
        'K' => 'k',
        'L' => 'l',
        'M' => 'm',
        'N' => 'n',
        'O' => 'o',
        'P' => 'p',
        'Q' => 'q',
        'R' => 'r',
        'S' => 's',
        'T' => 't',
        'U' => 'u',
        'V' => 'v',
        'W' => 'w',
        'X' => 'x',
        'Y' => 'y',
        'Z' => 'z',
        _ => c,
    }
}

/// The string with its ASCII letters lower-cased.
pub fn lowercase(s: &str) -> (r: String)
    ensures
        r@ == lower_seq(s@),
{
    let n = s.unicode_len();
    let mut out = String::new();
    let mut i: usize = 0;
    while i < n
        invariant
            n == s@.len(),
            i <= n,
            out@ =~= s@.take(i as int).map_values(|c: char| lower_char(c)),
        decreases n - i,
    {
        let c = to_lower(s.get_char(i));
        push_char(&mut out, c);
        i = i + 1;
        proof {
            assert(out@ =~= s@.take(i as int).map_values(|c: char| lower_char(c)));
        }
    }
    proof {
        assert(s@.take(n as int) =~= s@);
    }
    out
}

/// Index of the first occurrence of `c` in the string, or the string length
/// when there is none.
pub fn find_char_at(s: &str, c: char) -> (r: usize)
    ensures
        find_char(s@, c) >= 0 ==> r == find_char(s@, c) && r < s@.len() && s@[r as int] == c,
        find_char(s@, c) == -1 ==> r == s@.len(),
{
    let n = s.unicode_len();
    let mut i: usize = 0;
    while i < n
        invariant
            n == s@.len(),
            i <= n,
            forall|j: int| 0 <= j < i ==> s@[j] != c,
        decreases n - i,
    {
        if s.get_char(i) == c {
            proof {
                lemma_find_char_prefix(s@, c, i as int);
            }
            return i;
        }
        i = i + 1;
    }
    proof {
        lemma_find_char_prefix(s@, c, n as int);
    }
    n
}

proof fn lemma_find_char_prefix(s: Seq<char>, c: char, i: int)
    requires
        0 <= i <= s.len(),
        forall|j: int| 0 <= j < i ==> s[j] != c,
    ensures
        i < s.len() && s[i] == c ==> find_char(s, c) == i,
        i == s.len() ==> find_char(s, c) == -1,
    decreases i,
{
    if i > 0 {
        let rest = s.drop_first();
        assert(forall|j: int| 0 <= j < i - 1 ==> #[trigger] rest[j] == s[j + 1]);
        lemma_find_char_prefix(rest, c, i - 1);
        if i < s.len() && s[i] == c {
            assert(rest[i - 1] == s[i]);
        }
    }
}

pub proof fn lemma_find_char_range(s: Seq<char>, c: char)
    ensures
        find_char(s, c) == -1 || 0 <= find_char(s, c) < s.len(),
    decreases s.len(),
{
    if s.len() > 0 && s[0] != c {
        lemma_find_char_range(s.drop_first(), c);
    }
}

/// The string with every occurrence of `c` removed.
pub fn remove_char_str(s: &str, c: char) -> (r: String)
    ensures
        r@ == remove_char(s@, c),
{
    let n = s.unicode_len();
    let mut out = String::new();
    let mut i: usize = 0;
    proof {
        assert(s@.skip(0) =~= s@);
        assert(out@ =~= Seq::<char>::empty());
        assert(remove_char(s@, c) =~= out@ + remove_char(s@, c));
    }
    while i < n
        invariant
            n == s@.len(),
            i <= n,
            remove_char(s@, c) == out@ + remove_char(s@.skip(i as int), c),
        decreases n - i,
    {
        let ch = s.get_char(i);
        let ghost rest = s@.skip(i as int);
        let ghost prev = out@;
        proof {
            assert(rest[0] == s@[i as int]);
            assert(rest.drop_first() =~= s@.skip(i as int + 1));
        }
        if ch != c {
            push_char(&mut out, ch);
            proof {
                assert(remove_char(rest, c) == seq![ch] + remove_char(s@.skip(i as int + 1), c));
                assert(prev + (seq![ch] + remove_char(s@.skip(i as int + 1), c)) =~= prev.push(ch)
                    + remove_char(s@.skip(i as int + 1), c));
            }
        }
        i = i + 1;
    }
    proof {
        assert(s@.skip(n as int) =~= Seq::<char>::empty());
        assert(remove_char(s@, c) =~= out@);
    }
    out
}

/// Unsigned decimal parsing as the standard integer parser reads it, bounded
/// by `bound`.
pub fn parse_uint(s: &str, bound: u32) -> (r: Option<u32>)
    ensures
        match r {
            Some(v) => parse_uint_spec(s@, bound as int) == Some(v as int),
            None => parse_uint_spec(s@, bound as int) is None,
        },
{
    let n = s.unicode_len();
    let start: usize = if n > 0 && s.get_char(0) == '+' {
        1
    } else {
        0
    };
    let ghost t = if s@.len() > 0 && s@[0] == '+' {
        s@.drop_first()
    } else {
        s@
    };
    proof {
        assert(t =~= s@.subrange(start as int, n as int));
    }
    if n == start {
        return None;
    }
    let mut acc: u64 = 0;
    let mut i: usize = start;
    while i < n
        invariant
            n == s@.len(),
            start <= i <= n,
            start == (if s@.len() > 0 && s@[0] == '+' {
                1int
            } else {
                0int
            }),
            t == (if s@.len() > 0 && s@[0] == '+' {
                s@.drop_first()
            } else {
                s@
            }),
            t == s@.subrange(start as int, n as int),
            all_digits(t.take(i - start)),
            acc == digits_value(t.take(i - start)),
            acc <= 0xFFFF_FFFF_FFFF,
        decreases n - i,
    {
        let c = s.get_char(i);
        let v = c as u32;
        if v < 48 || v > 57 {
            proof {
                assert(t[i - start] == c);
                assert(!is_digit_char(t[i - start]));
                assert(!all_digits(t));
            }
            return None;
        }
        proof {
            assert(t.take(i - start + 1).drop_last() =~= t.take(i - start));
            assert(t.take(i - start + 1).last() == c);
            assert(all_digits(t.take(i - start + 1)));
        }
        if acc > 0xFFFF_FFFF {
            // The value can only grow with more digits; scan the rest for
            // digit-ness and reject.
            let mut j: usize = i + 1;
            while j < n
                invariant
                    n == s@.len(),
                    start <= i < j <= n,
                    start == (if s@.len() > 0 && s@[0] == '+' {
                        1int
                    } else {
                        0int
                    }),
                    t == (if s@.len() > 0 && s@[0] == '+' {
                        s@.drop_first()
                    } else {
                        s@
                    }),
                    t == s@.subrange(start as int, n as int),
                    all_digits(t.take(j - start)),
                    acc > 0xFFFF_FFFF,
                    acc == digits_value(t.take(i - start)),
                decreases n - j,
            {
                let c2 = s.get_char(j);
                let v2 = c2 as u32;
                if v2 < 48 || v2 > 57 {
                    proof {
                        assert(t[j - start] == c2);
                        assert(!is_digit_char(t[j - start]));
                        assert(!all_digits(t));
                    }
                    return None;
                }
                proof {
                    assert(t.take(j - start + 1).drop_last() =~= t.take(j - start));
                    assert(t.take(j - start + 1).last() == c2);
                    assert(all_digits(t.take(j - start + 1)));
                }
                j = j + 1;
            }
            proof {
                assert(t.take(n - start) =~= t);
                lemma_digits_value_monotone(t, i - start);
                assert(digits_value(t) >= acc > 0xFFFF_FFFF >= bound);
            }
            return None;
        }
        acc = acc * 10 + (v - 48) as u64;
        i = i + 1;
    }
    proof {
        assert(t.take(n - start) =~= t);
    }
    if acc > bound as u64 {
        return None;
    }
    Some(acc as u32)
}

} // verus!
