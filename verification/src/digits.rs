//! Decimal digit strings: formatting non-negative integers and reading them
//! back, with the value of a digit string defined by `digits_value`.
use vstd::prelude::*;
use vstd::std_specs::iter::IteratorSpec;

verus! {

pub const DIGIT_CHARS: [char; 10] = ['0', '1', '2', '3', '4', '5', '6', '7', '8', '9'];

pub open spec fn is_digit(c: char) -> bool {
    '0' <= c <= '9'
}

pub open spec fn digit_of(c: char) -> int {
    c as int - '0' as int
}

pub open spec fn all_digits(s: Seq<char>) -> bool {
    forall|i: int| 0 <= i < s.len() ==> is_digit(#[trigger] s[i])
}

/// Numeric value of a digit string, most significant digit first.
pub open spec fn digits_value(s: Seq<char>) -> int
    decreases s.len(),
{
    if s.len() == 0 {
        0
    } else {
        digits_value(s.drop_last()) * 10 + digit_of(s.last())
    }
}

/// Canonical decimal representation of `n` (no leading zeros).
pub open spec fn dec_digits(n: int) -> Seq<char>
    decreases n,
{
    if n <= 0 {
        seq!['0']
    } else if n < 10 {
        seq![DIGIT_CHARS@[n]]
    } else {
        dec_digits(n / 10) + seq![DIGIT_CHARS@[n % 10]]
    }
}

pub proof fn lemma_digit_chars(d: int)
    requires
        0 <= d <= 9,
    ensures
        is_digit(DIGIT_CHARS@[d]),
        digit_of(DIGIT_CHARS@[d]) == d,
{
}

/// The canonical representation is made of digits and reads back to `n`.
pub proof fn lemma_dec_digits_value(n: int)
    requires
        0 <= n,
    ensures
        all_digits(dec_digits(n)),
        dec_digits(n).len() >= 1,
        digits_value(dec_digits(n)) == n,
    decreases n,
{
    if n < 10 {
        lemma_digit_chars(n);
        assert(dec_digits(n).drop_last() =~= Seq::<char>::empty());
        assert(digits_value(Seq::<char>::empty()) == 0);
    } else {
        lemma_dec_digits_value(n / 10);
        lemma_digit_chars(n % 10);
        let p = dec_digits(n / 10);
        let s = dec_digits(n);
        assert(s == p + seq![DIGIT_CHARS@[n % 10]]);
        assert(s.drop_last() =~= p);
        assert(s.last() == DIGIT_CHARS@[n % 10]);
        assert forall|i: int| 0 <= i < s.len() implies is_digit(#[trigger] s[i]) by {
            if i < p.len() {
                assert(s[i] == p[i]);
            } else {
                assert(s[i] == DIGIT_CHARS@[n % 10]);
            }
        }
        assert(digits_value(s) == digits_value(p) * 10 + digit_of(DIGIT_CHARS@[n % 10]));
    }
}

/// Appends one character. Relies on `String::push` from std: it appends the
/// character to the end of the string.
#[verifier::external_body]
pub fn push_char(s: &mut String, c: char)
    ensures
        final (s)@ == old(s)@ + seq![c],
{
    s.push(c);
}

fn push_decimal_rec(s: &mut String, n: u64)
    ensures
        final (s)@ == old(s)@ + dec_digits(n as int),
    decreases n,
{
    if n < 10 {
        push_char(s, DIGIT_CHARS[n as usize]);
    } else {
        push_decimal_rec(s, n / 10);
        push_char(s, DIGIT_CHARS[(n % 10) as usize]);
    }
}

/// Appends the canonical decimal form of `n`.
pub fn push_decimal(s: &mut String, n: u64)
    ensures
        final (s)@ == old(s)@ + dec_digits(n as int),
{
    push_decimal_rec(s, n);
}

/// Collects the characters of `s` into a vector.
pub fn chars_of(s: &str) -> (r: Vec<char>)
    ensures
        r@ == s@,
{
    broadcast use vstd::string::axiom_spec_iter;
    broadcast use vstd::string::next_postcondition;

    let mut it = s.chars();
    let mut v: Vec<char> = Vec::new();
    let mut done = false;
    while !done
        invariant
            it.obeys_prophetic_iter_laws(),
            it.decrease() is Some,
            v@ + it.remaining() == s@,
            done ==> it.remaining().len() == 0,
        decreases (if done {
            0nat
        } else {
            it.decrease()->0 + 1nat
        }),
    {
        match it.next() {
            Some(c) => {
                v.push(c);
            },
            None => {
                done = true;
            },
        }
    }
    v
}

/// Reads a digit string, saturating above `cap` so that out-of-range values
/// are still detected without overflow.
pub fn digits_to_value(v: &Vec<char>, start: usize, end: usize, cap: u64) -> (r: u64)
    requires
        0 <= start <= end <= v@.len(),
        all_digits(v@.subrange(start as int, end as int)),
        1 <= cap <= 1_000_000_000_000_000_000,
    ensures
        digits_value(v@.subrange(start as int, end as int)) <= cap ==> r == digits_value(
            v@.subrange(start as int, end as int),
        ),
        digits_value(v@.subrange(start as int, end as int)) > cap ==> r > cap,
        r <= cap * 10 + 9,
{
    let mut i: usize = start;
    let mut acc: u64 = 0;
    while i < end
        invariant
            start <= i <= end <= v@.len(),
            1 <= cap <= 1_000_000_000_000_000_000,
            all_digits(v@.subrange(start as int, end as int)),
            digits_value(v@.subrange(start as int, i as int)) <= cap ==> acc == digits_value(
                v@.subrange(start as int, i as int),
            ),
            digits_value(v@.subrange(start as int, i as int)) > cap ==> acc > cap,
            acc <= cap * 10 + 9,
        decreases end - i,
    {
        let ghost pre = v@.subrange(start as int, i as int);
        let ghost cur = v@.subrange(start as int, i as int + 1);
        proof {
            assert(cur.drop_last() =~= pre);
            assert(cur.last() == v@[i as int]);
            assert(is_digit(v@[i as int])) by {
                assert(v@.subrange(start as int, end as int)[i - start] == v@[i as int]);
            }
            lemma_digits_value_nonneg(pre);
        }
        let c = v[i];
        let d: u64 = (c as u32 as u64) - 48;
        if acc <= cap {
            acc = acc * 10 + d;
        }
        i = i + 1;
    }
    proof {
        assert(v@.subrange(start as int, end as int) =~= v@.subrange(start as int, end as int));
    }
    acc
}

pub proof fn lemma_digits_value_nonneg(s: Seq<char>)
    requires
        all_digits(s),
    ensures
        digits_value(s) >= 0,
    decreases s.len(),
{
    if s.len() > 0 {
        assert(forall|i: int| 0 <= i < s.len() - 1 ==> is_digit(#[trigger] s.drop_last()[i]));
        lemma_digits_value_nonneg(s.drop_last());
    }
}

} // verus!
