use vstd::prelude::*;
use crate::duration::{all_digits, digits_value, is_digit, digit_value};

verus! {

/// The ASCII character of the decimal digit `d` (0 to 9).
pub open spec fn digit_char(d: int) -> char {
    if d == 0 {
        '0'
    } else if d == 1 {
        '1'
    } else if d == 2 {
        '2'
    } else if d == 3 {
        '3'
    } else if d == 4 {
        '4'
    } else if d == 5 {
        '5'
    } else if d == 6 {
        '6'
    } else if d == 7 {
        '7'
    } else if d == 8 {
        '8'
    } else {
        '9'
    }
}

/// `n` written in decimal without leading zeros, as `{}` formats it.
pub open spec fn decimal(n: nat) -> Seq<char>
    decreases n,
{
    if n < 10 {
        seq![digit_char(n as int)]
    } else {
        decimal(n / 10).push(digit_char((n % 10) as int))
    }
}

/// `n` in decimal, padded with a leading zero to at least two digits, as `{:02}`
/// formats it.
pub open spec fn pad2(n: nat) -> Seq<char> {
    if n < 10 {
        seq!['0'] + decimal(n)
    } else {
        decimal(n)
    }
}

/// The clock face for `secs` seconds: `H:MM:SS` when there is at least one
/// hour, `MM:SS` otherwise.
pub open spec fn spec_format_time(secs: nat) -> Seq<char> {
    let h = secs / 3600;
    let m = (secs % 3600) / 60;
    let s = secs % 60;
    if h > 0 {
        decimal(h) + seq![':'] + pad2(m) + seq![':'] + pad2(s)
    } else {
        pad2(m) + seq![':'] + pad2(s)
    }
}

pub(crate) fn digit_str(d: u64) -> (r: &'static str)
    requires
        d < 10,
    ensures
        r@ == seq![digit_char(d as int)],
{
    proof {
        reveal_strlit("0");
        reveal_strlit("1");
        reveal_strlit("2");
        reveal_strlit("3");
        reveal_strlit("4");
        reveal_strlit("5");
        reveal_strlit("6");
        reveal_strlit("7");
        reveal_strlit("8");
        reveal_strlit("9");
    }
    if d == 0 {
        "0"
    } else if d == 1 {
        "1"
    } else if d == 2 {
        "2"
    } else if d == 3 {
        "3"
    } else if d == 4 {
        "4"
    } else if d == 5 {
        "5"
    } else if d == 6 {
        "6"
    } else if d == 7 {
        "7"
    } else if d == 8 {
        "8"
    } else {
        "9"
    }
}

fn push_decimal(buf: &mut String, n: u64)
    ensures
        final(buf)@ == old(buf)@ + decimal(n as nat),
    decreases n,
{
    if n >= 10 {
        push_decimal(buf, n / 10);
    }
    buf.append(digit_str(n % 10));
    proof {
        if n >= 10 {
            assert(decimal(n as nat) == decimal((n / 10) as nat).push(digit_char((n % 10) as int)));
        }
    }
}

fn push_pad2(buf: &mut String, n: u64)
    ensures
        final(buf)@ == old(buf)@ + pad2(n as nat),
{
    if n < 10 {
        proof {
            reveal_strlit("0");
        }
        buf.append("0");
    }
    push_decimal(buf, n);
}

/// Formats a number of seconds as a clock face: `H:MM:SS`, or `MM:SS` under an hour.
pub fn format_time(secs: u64) -> (r: String)
    ensures
        r@ == spec_format_time(secs as nat),
{
    let h = secs / 3600;
    let m = (secs % 3600) / 60;
    let s = secs % 60;
    let mut buf = String::new();
    proof {
        reveal_strlit(":");
    }
    if h > 0 {
        push_decimal(&mut buf, h);
        buf.append(":");
    }
    push_pad2(&mut buf, m);
    buf.append(":");
    push_pad2(&mut buf, s);
    buf
}


// ── Laws ───────────────────────────────────────────────────────────────────

proof fn lemma_digit_char(d: int)
    requires
        0 <= d < 10,
    ensures
        is_digit(digit_char(d)),
        digit_value(digit_char(d)) == d,
{
}

proof fn lemma_decimal(n: nat)
    ensures
        decimal(n).len() >= 1,
        all_digits(decimal(n)),
        digits_value(decimal(n)) == n,
    decreases n,
{
    let d = decimal(n);
    if n < 10 {
        lemma_digit_char(n as int);
        assert(d.drop_last() =~= Seq::<char>::empty());
        assert(digits_value(Seq::<char>::empty()) == 0);
        assert(d.last() == digit_char(n as int));
        assert(digits_value(d) == digits_value(d.drop_last()) * 10 + digit_value(d.last()));
    } else {
        lemma_decimal(n / 10);
        lemma_digit_char((n % 10) as int);
        assert(d.drop_last() =~= decimal(n / 10));
        assert(d.last() == digit_char((n % 10) as int));
        assert(digits_value(d) == digits_value(d.drop_last()) * 10 + digit_value(d.last()));
        assert forall|i: int| 0 <= i < d.len() implies is_digit(#[trigger] d[i]) by {
            if i < d.len() - 1 {
                assert(d[i] == decimal(n / 10)[i]);
            }
        }
    }
}

proof fn lemma_pad2(n: nat)
    requires
        n < 100,
    ensures
        pad2(n).len() == 2,
        all_digits(pad2(n)),
        digits_value(pad2(n)) == n,
{
    let p = pad2(n);
    lemma_decimal(n);
    if n < 10 {
        lemma_digit_char(n as int);
        assert(p =~= seq!['0', digit_char(n as int)]);
        assert(p.drop_last() =~= seq!['0']);
        assert(seq!['0'].drop_last() =~= Seq::<char>::empty());
        assert(digits_value(Seq::<char>::empty()) == 0);
        assert(digits_value(seq!['0']) == digits_value(seq!['0'].drop_last()) * 10 + digit_value('0'));
        assert(digits_value(p) == digits_value(p.drop_last()) * 10 + digit_value(p.last()));
    } else {
        lemma_decimal(n / 10);
        assert(decimal(n / 10).len() == 1);
    }
}

/// The clock face reads back as the time it shows: its last two digits are
/// the seconds, the two before the last colon the minutes, and, from an hour
/// on, everything before the first colon the whole hours; under an hour it is
/// exactly `MM:SS`.
pub proof fn law_clock_face_reads_back(secs: nat)
    ensures
        ({
            let f = spec_format_time(secs);
            let n = f.len() as int;
            &&& n >= 5
            &&& f[n - 3] == ':'
            &&& all_digits(f.subrange(n - 2, n))
            &&& digits_value(f.subrange(n - 2, n)) == secs % 60
            &&& all_digits(f.subrange(n - 5, n - 3))
            &&& digits_value(f.subrange(n - 5, n - 3)) == (secs % 3600) / 60
            &&& secs < 3600 ==> n == 5
            &&& secs >= 3600 ==> {
                &&& n >= 7
                &&& f[n - 6] == ':'
                &&& all_digits(f.subrange(0, n - 6))
                &&& digits_value(f.subrange(0, n - 6)) == secs / 3600
            }
        }),
{
    let h = secs / 3600;
    let m = (secs % 3600) / 60;
    let s = secs % 60;
    lemma_pad2(m);
    lemma_pad2(s);
    lemma_decimal(h);
    let f = spec_format_time(secs);
    let n = f.len() as int;
    let tail = pad2(m) + seq![':'] + pad2(s);
    if h > 0 {
        assert(f =~= decimal(h) + seq![':'] + tail);
        assert(f.subrange(0, n - 6) =~= decimal(h));
    } else {
        assert(f =~= tail);
    }
    assert(f.subrange(n - 2, n) =~= pad2(s));
    assert(f.subrange(n - 5, n - 3) =~= pad2(m));
}

} // verus!
