//! Unsigned decimal numerals: what a run of digits denotes, how a number is
//! written, and the executable readers and writers for both directions.

use vstd::prelude::*;

verus! {

/// `c` is one of the ten ASCII digits.
pub open spec fn is_digit(c: char) -> bool {
    48 <= c as u32 <= 57
}

/// The value of the digit `c`.
pub open spec fn digit_value(c: char) -> nat
    recommends
        is_digit(c),
{
    (c as u32 - 48) as nat
}

/// The digit that denotes `d`.
pub open spec fn digit_char(d: nat) -> char
    recommends
        d < 10,
{
    ((d + 48) as u8) as char
}

/// Every character of `s` is a digit.
pub open spec fn all_digits(s: Seq<char>) -> bool {
    forall|i: int| 0 <= i < s.len() ==> is_digit(#[trigger] s[i])
}

/// The number that the digits of `s` denote, most significant digit first.
/// The empty numeral denotes 0; leading zeros do not change the value.
pub open spec fn decimal_value(s: Seq<char>) -> nat
    decreases s.len(),
{
    if s.len() == 0 {
        0
    } else {
        decimal_value(s.drop_last()) * 10 + digit_value(s.last())
    }
}

/// The shortest numeral that denotes `n`.
pub open spec fn decimal_text(n: nat) -> Seq<char>
    decreases n,
{
    if n < 10 {
        seq![digit_char(n)]
    } else {
        decimal_text(n / 10).push(digit_char(n % 10))
    }
}

/// A numeral is never empty and holds digits only.
pub proof fn lemma_decimal_text_is_numeral(n: nat)
    ensures
        decimal_text(n).len() > 0,
        all_digits(decimal_text(n)),
    decreases n,
{
    if n >= 10 {
        lemma_decimal_text_is_numeral(n / 10);
    }
}

/// Reading back what was written gives the number that was written.
pub proof fn lemma_decimal_round_trip(n: nat)
    ensures
        decimal_value(decimal_text(n)) == n,
    decreases n,
{
    if n < 10 {
        let s = decimal_text(n);
        assert(s.drop_last() =~= Seq::<char>::empty());
        assert(decimal_value(s.drop_last()) == 0);
    } else {
        lemma_decimal_round_trip(n / 10);
        let s = decimal_text(n);
        assert(s.drop_last() =~= decimal_text(n / 10));
        assert(s.last() == digit_char(n % 10));
    }
}

/// A longer prefix of a numeral never denotes less.
pub proof fn lemma_decimal_value_grows(s: Seq<char>, k: int)
    requires
        0 <= k <= s.len(),
    ensures
        decimal_value(s.take(k)) <= decimal_value(s),
    decreases s.len() - k,
{
    if k == s.len() {
        assert(s.take(k) =~= s);
    } else {
        lemma_decimal_value_grows(s, k + 1);
        assert(s.take(k + 1).drop_last() =~= s.take(k));
    }
}

/// Whether `c` is a digit.
pub fn is_digit_char(c: char) -> (ok: bool)
    ensures
        ok == is_digit(c),
{
    let code: u32 = c as u32;
    48 <= code && code <= 57
}

/// Whether `text[from..to]` is a non-empty run of digits.
pub fn is_numeral(text: &Vec<char>, from: usize, to: usize) -> (ok: bool)
    requires
        from <= to <= text@.len(),
    ensures
        ok == (from < to && all_digits(text@.subrange(from as int, to as int))),
{
    if from >= to {
        return false;
    }
    let ghost run = text@.subrange(from as int, to as int);
    let mut i: usize = from;
    while i < to
        invariant
            from <= i <= to <= text@.len(),
            run == text@.subrange(from as int, to as int),
            forall|j: int| 0 <= j < i - from ==> is_digit(#[trigger] run[j]),
        decreases to - i,
    {
        let c: char = text[i];
        assert(run[i - from] == c);
        if !is_digit_char(c) {
            return false;
        }
        i = i + 1;
    }
    true
}

/// The value of the digits `text[from..to]`, or `None` where it does not fit
/// in 64 bits.
pub fn read_decimal(text: &Vec<char>, from: usize, to: usize) -> (value: Option<u64>)
    requires
        from <= to <= text@.len(),
        all_digits(text@.subrange(from as int, to as int)),
    ensures
        match value {
            Some(v) => v == decimal_value(text@.subrange(from as int, to as int)),
            None => decimal_value(text@.subrange(from as int, to as int)) > u64::MAX,
        },
{
    let ghost run = text@.subrange(from as int, to as int);
    let mut acc: u64 = 0;
    let mut i: usize = from;
    proof {
        assert(run.take(0) =~= Seq::<char>::empty());
    }
    while i < to
        invariant
            from <= i <= to <= text@.len(),
            run == text@.subrange(from as int, to as int),
            all_digits(run),
            acc == decimal_value(run.take(i - from)),
        decreases to - i,
    {
        let c: char = text[i];
        assert(run[i - from] == c);
        assert(is_digit(c));
        let d: u64 = (c as u32 - 48) as u64;
        proof {
            let next = run.take(i - from + 1);
            assert(next.drop_last() =~= run.take(i - from));
            assert(next.last() == c);
            assert(decimal_value(next) == acc * 10 + d);
            lemma_decimal_value_grows(run, i - from + 1);
        }
        if acc > (u64::MAX - d) / 10 {
            return None;
        }
        acc = acc * 10 + d;
        i = i + 1;
    }
    proof {
        assert(run.take(to - from) =~= run);
    }
    Some(acc)
}

/// The one-character text of a digit.
fn digit_text(d: u64) -> (text: &'static str)
    requires
        d < 10,
    ensures
        text@ == seq![digit_char(d as nat)],
{
    proof {
        reveal_strlit("0");
        reveal_strlit("1");
        reveal_strlit("2");
        reveal_strlit("3");
        reveal_strlit("4");
        reveal_strlit("5");
        reveal_strlit("6");
        reveal_strlit("7");
        reveal_strlit("8");
        reveal_strlit("9");
    }
    let text: &'static str = if d == 0 {
        "0"
    } else if d == 1 {
        "1"
    } else if d == 2 {
        "2"
    } else if d == 3 {
        "3"
    } else if d == 4 {
        "4"
    } else if d == 5 {
        "5"
    } else if d == 6 {
        "6"
    } else if d == 7 {
        "7"
    } else if d == 8 {
        "8"
    } else {
        "9"
    };
    assert(text@ =~= seq![digit_char(d as nat)]);
    text
}

/// Appends the numeral of `n` to `out`.
pub fn push_decimal(out: &mut String, n: u64)
    ensures
        final(out)@ == old(out)@ + decimal_text(n as nat),
    decreases n,
{
    if n >= 10 {
        push_decimal(out, n / 10);
    }
    out.append(digit_text(n % 10));
    proof {
        let head = old(out)@;
        if n >= 10 {
            assert(final(out)@ =~= head + decimal_text((n / 10) as nat).push(
                digit_char((n % 10) as nat),
            ));
        } else {
            assert(final(out)@ =~= head + seq![digit_char(n as nat)]);
        }
    }
}

/// The numeral of `n`.
pub fn write_decimal(n: u64) -> (text: String)
    ensures
        text@ == decimal_text(n as nat),
{
    let mut text = String::new();
    push_decimal(&mut text, n);
    assert(text@ =~= decimal_text(n as nat));
    text
}

} // verus!
