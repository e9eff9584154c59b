//! Naming an output file after the second in which it is written.
//!
//! A name is `./`, the decimal numeral of the Unix time in seconds, and
//! `.png`. The numeral is written here, digit by digit, so that the name is
//! known exactly for every second; only the reading of the clock is left to
//! the `time` crate.

use vstd::prelude::*;
use vstd::string::StringExecFns;

verus! {

/// The character for one decimal digit.
pub open spec fn digit_char(digit: nat) -> char {
    if digit == 0 {
        '0'
    } else if digit == 1 {
        '1'
    } else if digit == 2 {
        '2'
    } else if digit == 3 {
        '3'
    } else if digit == 4 {
        '4'
    } else if digit == 5 {
        '5'
    } else if digit == 6 {
        '6'
    } else if digit == 7 {
        '7'
    } else if digit == 8 {
        '8'
    } else {
        '9'
    }
}

/// The decimal numeral of `n`, without leading zeros.
pub open spec fn decimal(n: nat) -> Seq<char>
    decreases n,
{
    if n < 10 {
        seq![digit_char(n)]
    } else {
        decimal(n / 10).push(digit_char(n % 10))
    }
}

/// The distance of `n` from zero.
pub open spec fn magnitude(n: int) -> nat {
    if n < 0 {
        (-n) as nat
    } else {
        n as nat
    }
}

/// The decimal numeral of an integer: the numeral of its magnitude, after a
/// minus sign when it is negative.
pub open spec fn signed_decimal(n: int) -> Seq<char> {
    if n < 0 {
        seq!['-'] + decimal(magnitude(n))
    } else {
        decimal(magnitude(n))
    }
}

/// The file name for an image written `seconds` after the Unix epoch.
pub open spec fn name_at(seconds: int) -> Seq<char> {
    seq!['.', '/'] + signed_decimal(seconds) + seq!['.', 'p', 'n', 'g']
}

fn digit_str(digit: u64) -> (text: &'static str)
    requires
        digit < 10,
    ensures
        text@ == seq![digit_char(digit as nat)],
{
    proof {
        reveal_strlit("0");
        reveal_strlit("1");
        reveal_strlit("2");
        reveal_strlit("3");
        reveal_strlit("4");
        reveal_strlit("5");
        reveal_strlit("6");
        reveal_strlit("7");
        reveal_strlit("8");
        reveal_strlit("9");
    }
    let text = if digit == 0 {
        "0"
    } else if digit == 1 {
        "1"
    } else if digit == 2 {
        "2"
    } else if digit == 3 {
        "3"
    } else if digit == 4 {
        "4"
    } else if digit == 5 {
        "5"
    } else if digit == 6 {
        "6"
    } else if digit == 7 {
        "7"
    } else if digit == 8 {
        "8"
    } else {
        "9"
    };
    assert(text@ =~= seq![digit_char(digit as nat)]);
    text
}

/// Appends the numeral of `n` to `text`, most significant digit first.
fn push_decimal(text: &mut String, n: u64)
    ensures
        final(text)@ == old(text)@ + decimal(n as nat),
    decreases n,
{
    if n >= 10 {
        push_decimal(text, n / 10);
    }
    text.append(digit_str(n % 10));
    assert(text@ =~= old(text)@ + decimal(n as nat));
}

/// Writes the name for a given second.
pub fn timestamp_name(seconds: i64) -> (name: String)
    ensures
        name@ == name_at(seconds as int),
{
    proof {
        reveal_strlit("./");
        reveal_strlit("-");
        reveal_strlit(".png");
    }
    let mut name = String::from_str("./");
    if seconds < 0 {
        name.append("-");
        // The magnitude of the least `i64` does not fit in an `i64`.
        let magnitude: u64 = (-(seconds + 1)) as u64 + 1;
        push_decimal(&mut name, magnitude);
    } else {
        push_decimal(&mut name, seconds as u64);
    }
    name.append(".png");
    assert(name@ =~= name_at(seconds as int));
    name
}

/// The number of whole seconds since the Unix epoch, by the system clock.
///
/// Calls `time::OffsetDateTime::now_utc` and reads the moment it returns
/// with `OffsetDateTime::unix_timestamp`. Nothing is claimed of the number:
/// it is whatever the clock says. `now_utc` returns for every clock reading
/// within the years that `time` can represent.
#[verifier::external_body]
fn unix_now() -> i64 {
    time::OffsetDateTime::now_utc().unix_timestamp()
}

/// Names an output file after the current second: the result is the name of
/// some second, whichever the clock gave.
pub fn fresh_output_name() -> (name: String)
    ensures
        exists|seconds: i64| name@ == name_at(seconds as int),
{
    timestamp_name(unix_now())
}

/// A decimal numeral is never empty, has two characters or more from ten
/// onwards, and holds no minus sign.
pub proof fn lemma_decimal_shape(n: nat)
    ensures
        decimal(n).len() >= 1,
        n >= 10 ==> decimal(n).len() >= 2,
        forall|i: int| 0 <= i < decimal(n).len() ==> #[trigger] decimal(n)[i] != '-',
    decreases n,
{
    if n >= 10 {
        lemma_decimal_shape(n / 10);
    }
}

/// Different numbers have different numerals.
pub proof fn lemma_decimal_injective(a: nat, b: nat)
    requires
        decimal(a) == decimal(b),
    ensures
        a == b,
    decreases a,
{
    lemma_decimal_shape(a);
    lemma_decimal_shape(b);
    if a < 10 && b < 10 {
        assert(decimal(a)[0] == digit_char(a));
        assert(decimal(b)[0] == digit_char(b));
    } else if a >= 10 && b >= 10 {
        assert(decimal(a).drop_last() =~= decimal(a / 10));
        assert(decimal(b).drop_last() =~= decimal(b / 10));
        assert(decimal(a).last() == digit_char(a % 10));
        assert(decimal(b).last() == digit_char(b % 10));
        lemma_decimal_injective(a / 10, b / 10);
    }
}

/// Different integers have different numerals.
pub proof fn lemma_signed_decimal_injective(a: int, b: int)
    requires
        signed_decimal(a) == signed_decimal(b),
    ensures
        a == b,
{
    let digits_a = decimal(magnitude(a));
    let digits_b = decimal(magnitude(b));
    let minus = seq!['-'];
    lemma_decimal_shape(magnitude(a));
    lemma_decimal_shape(magnitude(b));
    if a < 0 && b < 0 {
        assert((minus + digits_a).subrange(1, 1 + digits_a.len() as int) =~= digits_a);
        assert((minus + digits_b).subrange(1, 1 + digits_b.len() as int) =~= digits_b);
    } else if a < 0 {
        assert((minus + digits_a)[0] == '-');
        assert(digits_b[0] != '-');
    } else if b < 0 {
        assert((minus + digits_b)[0] == '-');
        assert(digits_a[0] != '-');
    }
    if (a < 0) == (b < 0) {
        lemma_decimal_injective(magnitude(a), magnitude(b));
    }
}

/// Images written in different seconds never share a name.
pub proof fn lemma_names_distinct(a: int, b: int)
    requires
        name_at(a) == name_at(b),
    ensures
        a == b,
{
    let head = seq!['.', '/'];
    let tail = seq!['.', 'p', 'n', 'g'];
    let middle_a = signed_decimal(a);
    let middle_b = signed_decimal(b);
    assert((head + middle_a + tail).len() == middle_a.len() + 6);
    assert((head + middle_b + tail).len() == middle_b.len() + 6);
    assert((head + middle_a + tail).subrange(2, 2 + middle_a.len() as int) =~= middle_a);
    assert((head + middle_b + tail).subrange(2, 2 + middle_b.len() as int) =~= middle_b);
    lemma_signed_decimal_injective(a, b);
}

} // verus!
