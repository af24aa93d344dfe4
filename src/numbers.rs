//! Decimal identifiers and real-number tokens.
use vstd::prelude::*;
use vstd::string::{StrSliceExecFns, StringExecFns};

verus! {

pub open spec fn is_digit(c: char) -> bool {
    '0' <= c && c <= '9'
}

pub open spec fn digit_value(c: char) -> nat {
    (c as u32 - '0' as u32) as nat
}

/// The character of a decimal digit `d < 10`.
pub open spec fn digit_char(d: nat) -> char {
    if d == 0 { '0' }
    else if d == 1 { '1' }
    else if d == 2 { '2' }
    else if d == 3 { '3' }
    else if d == 4 { '4' }
    else if d == 5 { '5' }
    else if d == 6 { '6' }
    else if d == 7 { '7' }
    else if d == 8 { '8' }
    else { '9' }
}

/// A non-empty run of decimal digits.
pub open spec fn is_decimal(t: Seq<char>) -> bool {
    t.len() > 0 && forall|i: int| 0 <= i < t.len() ==> is_digit(#[trigger] t[i])
}

/// The value of a run of decimal digits.
pub open spec fn decimal_value(t: Seq<char>) -> nat
    decreases t.len(),
{
    if t.len() == 0 {
        0
    } else {
        decimal_value(t.drop_last()) * 10 + digit_value(t.last())
    }
}

/// The shortest decimal text of `n`.
pub open spec fn decimal_of(n: nat) -> Seq<char>
    decreases n,
{
    if n < 10 {
        seq![digit_char(n)]
    } else {
        decimal_of(n / 10).push(digit_char(n % 10))
    }
}

/// The text of an identifier: decimal digits whose value fits in `usize`.
pub open spec fn is_id_token(t: Seq<char>) -> bool {
    is_decimal(t) && decimal_value(t) <= usize::MAX
}

proof fn lemma_digit_char(d: nat)
    requires
        d < 10,
    ensures
        is_digit(digit_char(d)),
        digit_value(digit_char(d)) == d,
{
}

/// The shortest decimal text of `n` is decimal text of value `n`.
pub proof fn lemma_decimal_of(n: nat)
    ensures
        is_decimal(decimal_of(n)),
        decimal_value(decimal_of(n)) == n,
    decreases n,
{
    if n < 10 {
        lemma_digit_char(n);
        assert(decimal_of(n).drop_last() =~= Seq::<char>::empty());
        assert(decimal_value(Seq::<char>::empty()) == 0);
        assert(decimal_value(decimal_of(n)) == digit_value(digit_char(n)));
    } else {
        lemma_decimal_of(n / 10);
        lemma_digit_char(n % 10);
        let t = decimal_of(n);
        assert(t.drop_last() =~= decimal_of(n / 10));
        assert(t.last() == digit_char(n % 10));
        assert(n == (n / 10) * 10 + n % 10) by (nonlinear_arith);
        assert(decimal_value(t) == decimal_value(decimal_of(n / 10)) * 10 + digit_value(digit_char(n % 10)));
        assert forall|i: int| 0 <= i < t.len() implies is_digit(#[trigger] t[i]) by {
            if i < t.len() - 1 {
                assert(t[i] == decimal_of(n / 10)[i]);
            }
        }
    }
}

proof fn lemma_decimal_prefix_le(t: Seq<char>, i: int)
    requires
        0 <= i <= t.len(),
    ensures
        decimal_value(t.take(i)) <= decimal_value(t),
    decreases t.len() - i,
{
    if i < t.len() {
        lemma_decimal_prefix_le(t, i + 1);
        let u = t.take(i + 1);
        assert(u.drop_last() =~= t.take(i));
    } else {
        assert(t.take(i) =~= t);
    }
}

fn digit_str(d: usize) -> (r: &'static str)
    requires
        d < 10,
    ensures
        r@ == seq![digit_char(d as nat)],
{
    if d == 0 {
        proof { reveal_strlit("0"); }
        "0"
    } else if d == 1 {
        proof { reveal_strlit("1"); }
        "1"
    } else if d == 2 {
        proof { reveal_strlit("2"); }
        "2"
    } else if d == 3 {
        proof { reveal_strlit("3"); }
        "3"
    } else if d == 4 {
        proof { reveal_strlit("4"); }
        "4"
    } else if d == 5 {
        proof { reveal_strlit("5"); }
        "5"
    } else if d == 6 {
        proof { reveal_strlit("6"); }
        "6"
    } else if d == 7 {
        proof { reveal_strlit("7"); }
        "7"
    } else if d == 8 {
        proof { reveal_strlit("8"); }
        "8"
    } else {
        proof { reveal_strlit("9"); }
        "9"
    }
}

/// Appends the shortest decimal text of `n` to `out`.
pub fn push_decimal(out: &mut String, n: usize)
    ensures
        final(out)@ == old(out)@ + decimal_of(n as nat),
    decreases n,
{
    if n >= 10 {
        push_decimal(out, n / 10);
    }
    let ghost mid = out@;
    out.append(digit_str(n % 10));
    proof {
        if n >= 10 {
            assert(mid + seq![digit_char((n % 10) as nat)] =~= old(out)@ + decimal_of(n as nat));
        } else {
            assert(decimal_of(n as nat) =~= seq![digit_char(n as nat)]);
        }
    }
}

/// The shortest decimal text of `n`.
pub fn decimal_string(n: usize) -> (r: String)
    ensures
        r@ == decimal_of(n as nat),
{
    let mut s = String::new();
    push_decimal(&mut s, n);
    assert(Seq::<char>::empty() + decimal_of(n as nat) =~= decimal_of(n as nat));
    s
}

/// Reads an identifier; `None` where `t` is not decimal text of a `usize`.
pub fn parse_id(t: &str) -> (r: Option<usize>)
    ensures
        r.is_some() == is_id_token(t@),
        r.is_some() ==> r.unwrap() as nat == decimal_value(t@),
{
    let n = t.unicode_len();
    if n == 0 {
        return None;
    }
    let mut v: usize = 0;
    let mut i: usize = 0;
    while i < n
        invariant
            n == t@.len(),
            i <= n,
            v as nat == decimal_value(t@.take(i as int)),
            forall|k: int| 0 <= k < i ==> is_digit(#[trigger] t@[k]),
        decreases n - i,
    {
        let c = t.get_char(i);
        proof {
            assert(t@.take(i as int + 1).drop_last() =~= t@.take(i as int));
        }
        if !('0' <= c && c <= '9') {
            return None;
        }
        let d = (c as u32 - '0' as u32) as usize;
        if v > (usize::MAX - d) / 10 {
            proof {
                lemma_decimal_prefix_le(t@, i as int + 1);
            }
            return None;
        }
        v = v * 10 + d;
        i = i + 1;
    }
    assert(t@.take(n as int) =~= t@);
    Some(v)
}

/// State of the recogniser of real-number text after one more character.
///
/// States: 0 start, 1 after a sign, 2 integer digits, 3 a point with no digit
/// yet, 4 fraction digits, 5 after `e`, 6 after the exponent's sign, 7 exponent
/// digits, 8 a point right after integer digits, 9 rejected.
pub open spec fn number_step(st: u8, c: char) -> u8 {
    if st == 0 {
        if c == '-' || c == '+' { 1 } else if is_digit(c) { 2 } else if c == '.' { 3 } else { 9 }
    } else if st == 1 {
        if is_digit(c) { 2 } else if c == '.' { 3 } else { 9 }
    } else if st == 2 {
        if is_digit(c) { 2 } else if c == '.' { 8 } else if c == 'e' || c == 'E' { 5 } else { 9 }
    } else if st == 3 {
        if is_digit(c) { 4 } else { 9 }
    } else if st == 4 || st == 8 {
        if is_digit(c) { 4 } else if c == 'e' || c == 'E' { 5 } else { 9 }
    } else if st == 5 {
        if c == '-' || c == '+' { 6 } else if is_digit(c) { 7 } else { 9 }
    } else if st == 6 || st == 7 {
        if is_digit(c) { 7 } else { 9 }
    } else {
        9
    }
}

/// State of the recogniser after reading all of `t`.
pub open spec fn number_state(t: Seq<char>) -> u8
    decreases t.len(),
{
    if t.len() == 0 {
        0
    } else {
        number_step(number_state(t.drop_last()), t.last())
    }
}

/// Decimal text of a real number: an optional sign, digits with an optional
/// point (at least one digit), and an optional exponent.
pub open spec fn is_number_token(t: Seq<char>) -> bool {
    let st = number_state(t);
    st == 2 || st == 4 || st == 7 || st == 8
}

fn number_next(st: u8, c: char) -> (r: u8)
    ensures
        r == number_step(st, c),
{
    let digit = '0' <= c && c <= '9';
    let exp = c == 'e' || c == 'E';
    let sign = c == '-' || c == '+';
    if st == 0 {
        if sign { 1 } else if digit { 2 } else if c == '.' { 3 } else { 9 }
    } else if st == 1 {
        if digit { 2 } else if c == '.' { 3 } else { 9 }
    } else if st == 2 {
        if digit { 2 } else if c == '.' { 8 } else if exp { 5 } else { 9 }
    } else if st == 3 {
        if digit { 4 } else { 9 }
    } else if st == 4 || st == 8 {
        if digit { 4 } else if exp { 5 } else { 9 }
    } else if st == 5 {
        if sign { 6 } else if digit { 7 } else { 9 }
    } else if st == 6 || st == 7 {
        if digit { 7 } else { 9 }
    } else {
        9
    }
}

/// Whether `t` is decimal text of a real number.
pub fn is_number(t: &str) -> (r: bool)
    ensures
        r == is_number_token(t@),
{
    let n = t.unicode_len();
    let mut st: u8 = 0;
    let mut i: usize = 0;
    while i < n
        invariant
            n == t@.len(),
            i <= n,
            st == number_state(t@.take(i as int)),
        decreases n - i,
    {
        let c = t.get_char(i);
        proof {
            assert(t@.take(i as int + 1).drop_last() =~= t@.take(i as int));
        }
        st = number_next(st, c);
        i = i + 1;
    }
    assert(t@.take(n as int) =~= t@);
    st == 2 || st == 4 || st == 7 || st == 8
}

} // verus!
