use vstd::prelude::*;

verus! {

// ── Characters ─────────────────────────────────────────────────────────────

/// Unicode `White_Space`: the characters that `str::trim` strips from both ends.
pub open spec fn is_white_space(c: char) -> bool {
    let v = c as u32;
    ||| 0x09 <= v <= 0x0d
    ||| v == 0x20 || v == 0x85 || v == 0xa0 || v == 0x1680
    ||| 0x2000 <= v <= 0x200a
    ||| v == 0x2028 || v == 0x2029 || v == 0x202f || v == 0x205f || v == 0x3000
}

/// An ASCII decimal digit.
pub open spec fn is_digit(c: char) -> bool {
    ('0' as u32) <= (c as u32) <= ('9' as u32)
}

/// The numeric value of an ASCII digit.
pub open spec fn digit_value(c: char) -> int {
    (c as u32) - ('0' as u32)
}

/// Seconds per unit letter: `h`/`H` hours, `m`/`M` minutes, `s`/`S` seconds.
pub open spec fn unit_seconds(c: char) -> Option<int> {
    if c == 'h' || c == 'H' {
        Some(3600)
    } else if c == 'm' || c == 'M' {
        Some(60)
    } else if c == 's' || c == 'S' {
        Some(1)
    } else {
        None
    }
}

fn white_space(c: char) -> (b: bool)
    ensures
        b == is_white_space(c),
{
    let v = c as u32;
    (0x09 <= v && v <= 0x0d) || v == 0x20 || v == 0x85 || v == 0xa0 || v == 0x1680 || (0x2000
        <= v && v <= 0x200a) || v == 0x2028 || v == 0x2029 || v == 0x202f || v == 0x205f || v
        == 0x3000
}

fn digit(c: char) -> (b: bool)
    ensures
        b == is_digit(c),
{
    let v = c as u32;
    ('0' as u32) <= v && v <= ('9' as u32)
}

// ── Trimming ───────────────────────────────────────────────────────────────

/// `s` without its leading white space.
pub open spec fn trim_start(s: Seq<char>) -> Seq<char>
    decreases s.len(),
{
    if s.len() > 0 && is_white_space(s[0]) {
        trim_start(s.drop_first())
    } else {
        s
    }
}

/// `s` without its trailing white space.
pub open spec fn trim_end(s: Seq<char>) -> Seq<char>
    decreases s.len(),
{
    if s.len() > 0 && is_white_space(s.last()) {
        trim_end(s.drop_last())
    } else {
        s
    }
}

/// `s` without leading and trailing white space, as `str::trim` gives it.
pub open spec fn trim(s: Seq<char>) -> Seq<char> {
    trim_end(trim_start(s))
}

proof fn lemma_trim_start(s: Seq<char>, i: int)
    requires
        0 <= i <= s.len(),
        forall|k: int| 0 <= k < i ==> is_white_space(#[trigger] s[k]),
        i == s.len() || !is_white_space(s[i]),
    ensures
        trim_start(s) == s.subrange(i, s.len() as int),
    decreases i,
{
    if i > 0 {
        let r = s.drop_first();
        assert forall|k: int| 0 <= k < i - 1 implies is_white_space(#[trigger] r[k]) by {
            assert(r[k] == s[k + 1]);
        }
        lemma_trim_start(r, i - 1);
        assert(r.subrange(i - 1, r.len() as int) =~= s.subrange(i, s.len() as int));
    } else {
        assert(s.subrange(0, s.len() as int) =~= s);
    }
}

proof fn lemma_trim_end(s: Seq<char>, j: int)
    requires
        0 <= j <= s.len(),
        forall|k: int| j <= k < s.len() ==> is_white_space(#[trigger] s[k]),
        j == 0 || !is_white_space(s[j - 1]),
    ensures
        trim_end(s) == s.subrange(0, j),
    decreases s.len() - j,
{
    if j < s.len() {
        let r = s.drop_last();
        assert forall|k: int| j <= k < r.len() implies is_white_space(#[trigger] r[k]) by {
            assert(r[k] == s[k]);
        }
        lemma_trim_end(r, j);
        assert(r.subrange(0, j) =~= s.subrange(0, j));
    } else {
        assert(s.subrange(0, j) =~= s);
    }
}

fn chars_of(s: &str) -> (out: Vec<char>)
    ensures
        out@ == s@,
{
    let mut out: Vec<char> = Vec::new();
    for c in it: s.chars()
        invariant
            out@ == it.seq().take(it.index() as int),
    {
        out.push(c);
    }
    out
}

/// The characters of `s` with leading and trailing white space removed.
fn trim_chars(s: &str) -> (t: Vec<char>)
    ensures
        t@ == trim(s@),
{
    let c = chars_of(s);
    let n = c.len();
    let mut i: usize = 0;
    while i < n && white_space(c[i])
        invariant
            0 <= i <= n,
            n == c@.len(),
            forall|k: int| 0 <= k < i ==> is_white_space(#[trigger] c@[k]),
        decreases n - i,
    {
        i = i + 1;
    }
    let mut j: usize = n;
    while j > i && white_space(c[j - 1])
        invariant
            i <= j <= n,
            n == c@.len(),
            forall|k: int| j <= k < n ==> is_white_space(#[trigger] c@[k]),
        decreases j,
    {
        j = j - 1;
    }
    let mut t: Vec<char> = Vec::new();
    let mut k: usize = i;
    while k < j
        invariant
            i <= k <= j <= n,
            n == c@.len(),
            t@ == c@.subrange(i as int, k as int),
        decreases j - k,
    {
        t.push(c[k]);
        proof {
            assert(c@.subrange(i as int, k + 1) =~= c@.subrange(i as int, k as int).push(c@[k as int]));
        }
        k = k + 1;
    }
    proof {
        lemma_trim_start(c@, i as int);
        let u = c@.subrange(i as int, n as int);
        assert forall|m: int| j - i <= m < u.len() implies is_white_space(#[trigger] u[m]) by {
            assert(u[m] == c@[m + i]);
        }
        if j > i {
            assert(u[j - i - 1] == c@[j - 1]);
        }
        lemma_trim_end(u, j - i);
        assert(u.subrange(0, j - i) =~= c@.subrange(i as int, j as int));
    }
    t
}


// ── Decimal numbers ────────────────────────────────────────────────────────

/// Every character of `d` is an ASCII digit.
pub open spec fn all_digits(d: Seq<char>) -> bool {
    forall|i: int| 0 <= i < d.len() ==> is_digit(#[trigger] d[i])
}

/// The value of the decimal numeral `d`, most significant digit first.
pub open spec fn digits_value(d: Seq<char>) -> int
    decreases d.len(),
{
    if d.len() == 0 {
        0
    } else {
        digits_value(d.drop_last()) * 10 + digit_value(d.last())
    }
}

/// A non-empty run of ASCII digits whose value fits in a `u64`, and that value.
pub open spec fn spec_decimal_u64(d: Seq<char>) -> Option<int> {
    if d.len() > 0 && all_digits(d) && digits_value(d) <= u64::MAX {
        Some(digits_value(d))
    } else {
        None
    }
}

/// What `u64::from_str` accepts: an optional `+`, then a non-empty run of ASCII
/// digits whose value fits in a `u64`.
pub open spec fn spec_parse_u64(t: Seq<char>) -> Option<int> {
    if t.len() > 0 && t[0] == '+' {
        spec_decimal_u64(t.drop_first())
    } else {
        spec_decimal_u64(t)
    }
}

proof fn lemma_digits_prefix_le(d: Seq<char>, k: int)
    requires
        all_digits(d),
        0 <= k <= d.len(),
    ensures
        0 <= digits_value(d.take(k)) <= digits_value(d),
    decreases d.len(),
{
    if k == d.len() {
        assert(d.take(k) =~= d);
        if d.len() > 0 {
            let r = d.drop_last();
            assert(all_digits(r)) by {
                assert forall|i: int| 0 <= i < r.len() implies is_digit(#[trigger] r[i]) by {
                    assert(r[i] == d[i]);
                }
            }
            lemma_digits_prefix_le(r, r.len() as int);
            assert(r.take(r.len() as int) =~= r);
            assert(is_digit(d[d.len() - 1]));
        }
    } else {
        let r = d.drop_last();
        assert(all_digits(r)) by {
            assert forall|i: int| 0 <= i < r.len() implies is_digit(#[trigger] r[i]) by {
                assert(r[i] == d[i]);
            }
        }
        lemma_digits_prefix_le(r, k);
        lemma_digits_prefix_le(r, r.len() as int);
        assert(r.take(k) =~= d.take(k));
        assert(r.take(r.len() as int) =~= r);
        assert(is_digit(d[d.len() - 1]));
    }
}

/// Reads `t[start..end]` as a decimal `u64`: `None` when the range is empty,
/// holds a character that is not a digit, or is too large.
fn parse_decimal(t: &Vec<char>, start: usize, end: usize) -> (r: Option<u64>)
    requires
        start <= end <= t@.len(),
    ensures
        r is Some <==> spec_decimal_u64(t@.subrange(start as int, end as int)) is Some,
        r matches Some(v) ==> spec_decimal_u64(t@.subrange(start as int, end as int)) == Some(
            v as int,
        ),
{
    let ghost full = t@.subrange(start as int, end as int);
    let mut v: u64 = 0;
    let mut k: usize = start;
    while k < end
        invariant
            start <= k <= end <= t@.len(),
            full == t@.subrange(start as int, end as int),
            all_digits(t@.subrange(start as int, k as int)),
            v as int == digits_value(t@.subrange(start as int, k as int)),
        decreases end - k,
    {
        let c = t[k];
        let ghost next = t@.subrange(start as int, k + 1);
        proof {
            assert(next.drop_last() =~= t@.subrange(start as int, k as int));
            assert(next.last() == c);
            assert(full[k - start] == c);
        }
        if !digit(c) {
            return None;
        }
        let d = (c as u32 - '0' as u32) as u64;
        proof {
            assert(all_digits(next)) by {
                assert forall|i: int| 0 <= i < next.len() implies is_digit(#[trigger] next[i]) by {
                    if i < next.len() - 1 {
                        assert(next[i] == t@.subrange(start as int, k as int)[i]);
                    }
                }
            }
            if all_digits(full) {
                lemma_digits_prefix_le(full, k + 1 - start);
                assert(full.take(k + 1 - start) =~= next);
            }
        }
        let v10 = match v.checked_mul(10) {
            Some(x) => x,
            None => {
                return None;
            },
        };
        v = match v10.checked_add(d) {
            Some(x) => x,
            None => {
                return None;
            },
        };
        k = k + 1;
    }
    if k == start {
        return None;
    }
    Some(v)
}


// ── Unit sequences such as `1h30m` ─────────────────────────────────────────

/// Left-to-right scan of a unit sequence: the running total in seconds and the
/// digits read since the last unit letter; `None` once a character is neither a
/// digit nor a unit letter, or a unit letter is not preceded by a number that
/// fits in a `u64`.
pub open spec fn scan(t: Seq<char>) -> Option<(int, Seq<char>)>
    decreases t.len(),
{
    if t.len() == 0 {
        Some((0, Seq::empty()))
    } else {
        match scan(t.drop_last()) {
            None => None,
            Some((total, digits)) => {
                let c = t.last();
                if is_digit(c) {
                    Some((total, digits.push(c)))
                } else {
                    match (spec_decimal_u64(digits), unit_seconds(c)) {
                        (Some(n), Some(u)) => Some((total + n * u, Seq::empty())),
                        _ => None,
                    }
                }
            }
        }
    }
}

/// Some prefix of `t` brings the running total of its scan past `u64::MAX`.
pub open spec fn scan_overflows(t: Seq<char>) -> bool
    decreases t.len(),
{
    t.len() > 0 && (scan_overflows(t.drop_last()) || match scan(t) {
        Some((total, _)) => total > u64::MAX,
        None => false,
    })
}

/// The seconds a unit sequence stands for; trailing digits without a unit count
/// as minutes.
pub open spec fn units_total(t: Seq<char>) -> Option<int> {
    match scan(t) {
        None => None,
        Some((total, digits)) => if digits.len() == 0 {
            Some(total)
        } else {
            match spec_decimal_u64(digits) {
                Some(n) => Some(total + n * 60),
                None => None,
            }
        },
    }
}

/// The number of seconds that `s` stands for, if it is a valid duration: after
/// trimming white space, either a plain number of minutes (as `u64::from_str`
/// reads it), or a non-zero total of number-unit pairs (`h`, `m`, `s`, either
/// case), where trailing digits without a unit count as minutes.
pub open spec fn spec_parse_duration(s: Seq<char>) -> Option<int> {
    let t = trim(s);
    if t.len() == 0 {
        None
    } else {
        match spec_parse_u64(t) {
            Some(n) => Some(n * 60),
            None => match units_total(t) {
                Some(v) => if v == 0 {
                    None
                } else {
                    Some(v)
                },
                None => None,
            },
        }
    }
}

/// Reading `s` as a duration computes a number of seconds past `u64::MAX`
/// along the way.
pub open spec fn parse_overflows(s: Seq<char>) -> bool {
    let t = trim(s);
    t.len() > 0 && match spec_parse_u64(t) {
        Some(n) => n * 60 > u64::MAX,
        None => scan_overflows(t) || match units_total(t) {
            Some(v) => v > u64::MAX,
            None => false,
        },
    }
}

proof fn lemma_scan_digits(t: Seq<char>)
    requires
        scan(t) is Some,
    ensures
        all_digits(scan(t).unwrap().1),
        scan(t).unwrap().0 >= 0,
    decreases t.len(),
{
    if t.len() > 0 {
        lemma_scan_digits(t.drop_last());
        let d = scan(t.drop_last()).unwrap().1;
        let c = t.last();
        if is_digit(c) {
            let e = d.push(c);
            assert forall|i: int| 0 <= i < e.len() implies is_digit(#[trigger] e[i]) by {
                if i < d.len() {
                    assert(e[i] == d[i]);
                }
            }
        } else {
            let n = spec_decimal_u64(d).unwrap();
            assert(n >= 0) by {
                lemma_digits_prefix_le(d, 0);
            }
        }
    }
}

proof fn lemma_scan_stuck(t: Seq<char>, k: int)
    requires
        0 <= k <= t.len(),
        scan(t.take(k)) is None,
        !scan_overflows(t.take(k)),
    ensures
        scan(t) is None,
        !scan_overflows(t),
    decreases t.len(),
{
    if k == t.len() {
        assert(t.take(k) =~= t);
    } else {
        assert(t.drop_last().take(k) =~= t.take(k));
        lemma_scan_stuck(t.drop_last(), k);
    }
}

proof fn lemma_overflow_extends(t: Seq<char>, k: int)
    requires
        0 <= k <= t.len(),
        scan_overflows(t.take(k)),
    ensures
        scan_overflows(t),
    decreases t.len(),
{
    if k == t.len() {
        assert(t.take(k) =~= t);
    } else {
        assert(t.drop_last().take(k) =~= t.take(k));
        lemma_overflow_extends(t.drop_last(), k);
    }
}

/// Scans a unit sequence. `None` when the running total would pass
/// `u64::MAX`; otherwise the total, or `None` inside when `t` is not a unit sequence.
fn units_checked(t: &Vec<char>) -> (r: Option<Option<u64>>)
    ensures
        r is None <==> (scan_overflows(t@) || match units_total(t@) {
            Some(v) => v > u64::MAX,
            None => false,
        }),
        r matches Some(x) ==> (x is Some <==> units_total(t@) is Some),
        r matches Some(Some(v)) ==> units_total(t@) == Some(v as int),
{
    let n = t.len();
    let mut total: u64 = 0;
    let mut start: usize = 0;
    let mut i: usize = 0;
    proof {
        assert(t@.take(0) =~= Seq::<char>::empty());
        assert(t@.subrange(0, 0) =~= Seq::<char>::empty());
    }
    while i < n
        invariant
            0 <= start <= i <= n,
            n == t@.len(),
            scan(t@.take(i as int)) == Some((total as int, t@.subrange(start as int, i as int))),
            !scan_overflows(t@.take(i as int)),
        decreases n - i,
    {
        let c = t[i];
        let ghost pre = t@.take(i as int);
        let ghost cur = t@.take(i + 1);
        proof {
            assert(cur.drop_last() =~= pre);
            assert(cur.last() == c);
        }
        if digit(c) {
            proof {
                assert(t@.subrange(start as int, i as int).push(c) =~= t@.subrange(
                    start as int,
                    i + 1,
                ));
            }
        } else {
            let num = match parse_decimal(t, start, i) {
                Some(x) => x,
                None => {
                    proof {
                        lemma_scan_stuck(t@, i + 1);
                    }
                    return Some(None);
                },
            };
            let u: u64 = if c == 'h' || c == 'H' {
                3600
            } else if c == 'm' || c == 'M' {
                60
            } else if c == 's' || c == 'S' {
                1
            } else {
                proof {
                    lemma_scan_stuck(t@, i + 1);
                }
                return Some(None);
            };
            proof {
                assert(unit_seconds(c) == Some(u as int));
                assert(scan(cur) == Some((total + num * u, Seq::<char>::empty())));
            }
            let add = match num.checked_mul(u) {
                Some(x) => x,
                None => {
                    proof {
                        assert(total + num * u > u64::MAX) by (nonlinear_arith)
                            requires num * u > u64::MAX, total >= 0;
                        lemma_overflow_extends(t@, i + 1);
                    }
                    return None;
                },
            };
            total = match total.checked_add(add) {
                Some(x) => x,
                None => {
                    proof {
                        lemma_overflow_extends(t@, i + 1);
                    }
                    return None;
                },
            };
            start = i + 1;
            proof {
                assert(t@.subrange(start as int, start as int) =~= Seq::<char>::empty());
            }
        }
        i = i + 1;
    }
    proof {
        assert(t@.take(n as int) =~= t@);
    }
    if start < n {
        let num = match parse_decimal(t, start, n) {
            Some(x) => x,
            None => {
                return Some(None);
            },
        };
        let add = match num.checked_mul(60) {
            Some(x) => x,
            None => {
                return None;
            },
        };
        total = match total.checked_add(add) {
            Some(x) => x,
            None => {
                return None;
            },
        };
    }
    Some(Some(total))
}

/// Reads a duration; the outer `None` when the computation would pass `u64::MAX`.
fn parse_duration_checked(s: &str) -> (r: Option<Option<u64>>)
    ensures
        r is None <==> parse_overflows(s@),
        r matches Some(x) ==> (x is Some <==> spec_parse_duration(s@) is Some),
        r matches Some(Some(v)) ==> spec_parse_duration(s@) == Some(v as int),
{
    let t = trim_chars(s);
    let n = t.len();
    if n == 0 {
        return Some(None);
    }
    let plus = t[0] == '+';
    let pure = if plus {
        parse_decimal(&t, 1, n)
    } else {
        parse_decimal(&t, 0, n)
    };
    proof {
        assert(t@.drop_first() =~= t@.subrange(1, n as int));
        assert(t@ =~= t@.subrange(0, n as int));
    }
    match pure {
        Some(m) => match m.checked_mul(60) {
            Some(v) => Some(Some(v)),
            None => None,
        },
        None => match units_checked(&t) {
            None => None,
            Some(None) => Some(None),
            Some(Some(total)) => {
                if total == 0 {
                    Some(None)
                } else {
                    Some(Some(total))
                }
            },
        },
    }
}

/// Reads a countdown duration in seconds: a plain number is minutes (`45`),
/// otherwise number-unit pairs such as `1h30m` or `90s` are summed, trailing
/// digits without a unit counting as minutes. Surrounding white space is ignored;
/// an empty, malformed or zero-length unit sequence gives `None`.
pub fn parse_duration(s: &str) -> (r: Option<u64>)
    requires
        !parse_overflows(s@),
    ensures
        r is Some <==> spec_parse_duration(s@) is Some,
        r matches Some(v) ==> spec_parse_duration(s@) == Some(v as int),
{
    match parse_duration_checked(s) {
        Some(x) => x,
        None => None,
    }
}

/// Whether reading `s` with `parse_duration` would compute a number of seconds
/// past `u64::MAX`, the inputs that `parse_duration` does not accept.
pub fn parse_would_overflow(s: &str) -> (b: bool)
    ensures
        b == parse_overflows(s@),
{
    parse_duration_checked(s).is_none()
}


/// Durations are never negative.
pub proof fn lemma_duration_nonneg(s: Seq<char>)
    ensures
        spec_parse_duration(s) matches Some(v) ==> v >= 0,
{
    let t = trim(s);
    let d = if t.len() > 0 && t[0] == '+' {
        t.drop_first()
    } else {
        t
    };
    if all_digits(d) {
        lemma_digits_prefix_le(d, d.len() as int);
        assert(d.take(d.len() as int) =~= d);
    }
    if scan(t) is Some {
        lemma_scan_digits(t);
        let digits = scan(t).unwrap().1;
        lemma_digits_prefix_le(digits, digits.len() as int);
        assert(digits.take(digits.len() as int) =~= digits);
    }
}

// ── Laws ───────────────────────────────────────────────────────────────────

/// A non-empty run of digits and unit letters (no white space) that ends in a
/// unit letter, such as `1h30m`.
pub open spec fn unit_sequence(t: Seq<char>) -> bool {
    &&& t.len() > 0
    &&& forall|i: int| 0 <= i < t.len() ==> (is_digit(#[trigger] t[i]) || unit_seconds(t[i]) is Some)
    &&& unit_seconds(t.last()) is Some
}

proof fn lemma_scan_concat(a: Seq<char>, b: Seq<char>, x: int)
    requires
        scan(a) == Some((x, Seq::<char>::empty())),
    ensures
        scan(a + b) == match scan(b) {
            Some((y, d)) => Some((x + y, d)),
            None => None,
        },
    decreases b.len(),
{
    if b.len() == 0 {
        assert(a + b =~= a);
    } else {
        lemma_scan_concat(a, b.drop_last(), x);
        assert((a + b).drop_last() =~= a + b.drop_last());
        assert((a + b).last() == b.last());
    }
}

proof fn lemma_unit_sequence_reading(t: Seq<char>)
    requires
        unit_sequence(t),
    ensures
        trim(t) == t,
        spec_parse_u64(t) is None,
        scan(t) is Some ==> scan(t).unwrap().1.len() == 0,
        spec_parse_duration(t) == match scan(t) {
            Some((total, _)) => if total == 0 {
                None
            } else {
                Some(total)
            },
            None => None,
        },
{
    let n = t.len() as int;
    assert(is_digit(t[0]) || unit_seconds(t[0]) is Some);
    assert(is_digit(t[n - 1]) || unit_seconds(t[n - 1]) is Some);
    assert(!is_white_space(t[0]));
    assert(!is_white_space(t.last()));
    assert(trim_start(t) == t);
    assert(trim_end(t) == t);
    assert(!is_digit(t.last()));
    assert(!all_digits(t)) by {
        assert(!is_digit(t[n - 1]));
    }
    assert(t[0] != '+');
    if scan(t) is Some {
        assert(t.drop_last() + seq![t.last()] =~= t);
    }
}

/// Unit sequences add up: when `a` and `b` are each number-unit pairs ending in
/// a unit letter (as in `1h` and `30m`), both valid durations, reading `a`
/// followed by `b` gives the sum of their readings.
pub proof fn law_unit_sequences_add(a: Seq<char>, b: Seq<char>)
    requires
        unit_sequence(a),
        unit_sequence(b),
        spec_parse_duration(a) is Some,
        spec_parse_duration(b) is Some,
    ensures
        spec_parse_duration(a + b) == Some(
            spec_parse_duration(a).unwrap() + spec_parse_duration(b).unwrap(),
        ),
{
    lemma_unit_sequence_reading(a);
    lemma_unit_sequence_reading(b);
    let x = scan(a).unwrap().0;
    let y = scan(b).unwrap().0;
    lemma_scan_digits(a);
    lemma_scan_digits(b);
    assert(scan(a) == Some((x, Seq::<char>::empty()))) by {
        assert(scan(a).unwrap().1 =~= Seq::<char>::empty());
    }
    lemma_scan_concat(a, b, x);
    let ab = a + b;
    assert(unit_sequence(ab)) by {
        assert forall|i: int| 0 <= i < ab.len() implies (is_digit(#[trigger] ab[i]) || unit_seconds(
            ab[i],
        ) is Some) by {
            if i < a.len() {
                assert(ab[i] == a[i]);
            } else {
                assert(ab[i] == b[i - a.len()]);
            }
        }
        assert(ab.last() == b.last());
    }
    lemma_unit_sequence_reading(ab);
}


/// `c` with an ASCII upper-case letter turned to lower case, as
/// `char::to_ascii_lowercase` gives it.
pub open spec fn ascii_lower(c: char) -> char {
    if ('A' as u32) <= (c as u32) <= ('Z' as u32) {
        ((c as u32) + 32) as char
    } else {
        c
    }
}

/// `s` with every ASCII upper-case letter turned to lower case, as
/// `str::to_ascii_lowercase` gives it.
pub open spec fn ascii_lowercase(s: Seq<char>) -> Seq<char> {
    s.map_values(|c: char| ascii_lower(c))
}

proof fn lemma_lower_char(c: char)
    ensures
        is_white_space(ascii_lower(c)) == is_white_space(c),
        is_digit(ascii_lower(c)) == is_digit(c),
        is_digit(c) ==> ascii_lower(c) == c,
        unit_seconds(ascii_lower(c)) == unit_seconds(c),
        (ascii_lower(c) == '+') == (c == '+'),
{
}

proof fn lemma_lower_trim(s: Seq<char>)
    ensures
        trim(ascii_lowercase(s)) == ascii_lowercase(trim(s)),
{
    lemma_lower_trim_start(s);
    lemma_lower_trim_end(trim_start(s));
}

proof fn lemma_lower_trim_start(s: Seq<char>)
    ensures
        trim_start(ascii_lowercase(s)) == ascii_lowercase(trim_start(s)),
    decreases s.len(),
{
    let l = ascii_lowercase(s);
    if s.len() > 0 {
        lemma_lower_char(s[0]);
        assert(l[0] == ascii_lower(s[0]));
        if is_white_space(s[0]) {
            assert(l.drop_first() =~= ascii_lowercase(s.drop_first()));
            lemma_lower_trim_start(s.drop_first());
        }
    }
}

proof fn lemma_lower_trim_end(s: Seq<char>)
    ensures
        trim_end(ascii_lowercase(s)) == ascii_lowercase(trim_end(s)),
    decreases s.len(),
{
    let l = ascii_lowercase(s);
    if s.len() > 0 {
        lemma_lower_char(s.last());
        assert(l.last() == ascii_lower(s.last()));
        if is_white_space(s.last()) {
            assert(l.drop_last() =~= ascii_lowercase(s.drop_last()));
            lemma_lower_trim_end(s.drop_last());
        }
    }
}

proof fn lemma_lower_decimal(d: Seq<char>)
    ensures
        spec_decimal_u64(ascii_lowercase(d)) == spec_decimal_u64(d),
{
    let l = ascii_lowercase(d);
    if all_digits(d) {
        assert(l =~= d) by {
            assert forall|i: int| 0 <= i < d.len() implies l[i] == d[i] by {
                assert(is_digit(d[i]));
                lemma_lower_char(d[i]);
            }
        }
    } else {
        let i = choose|i: int| 0 <= i < d.len() && !is_digit(#[trigger] d[i]);
        lemma_lower_char(d[i]);
        assert(!is_digit(l[i]));
    }
}

proof fn lemma_lower_parse_u64(t: Seq<char>)
    ensures
        spec_parse_u64(ascii_lowercase(t)) == spec_parse_u64(t),
{
    let l = ascii_lowercase(t);
    lemma_lower_decimal(t);
    if t.len() > 0 {
        lemma_lower_char(t[0]);
        assert(l[0] == ascii_lower(t[0]));
        assert(l.drop_first() =~= ascii_lowercase(t.drop_first()));
        lemma_lower_decimal(t.drop_first());
    }
}

proof fn lemma_lower_scan(t: Seq<char>)
    ensures
        scan(ascii_lowercase(t)) == scan(t),
        scan_overflows(ascii_lowercase(t)) == scan_overflows(t),
    decreases t.len(),
{
    let l = ascii_lowercase(t);
    if t.len() > 0 {
        assert(l.drop_last() =~= ascii_lowercase(t.drop_last()));
        lemma_lower_scan(t.drop_last());
        lemma_lower_char(t.last());
        assert(l.last() == ascii_lower(t.last()));
    }
}

/// Letter case does not matter in a duration: reading `s` and reading `s`
/// with its ASCII letters in lower case give the same number of seconds (or
/// both none), and overflow on the same inputs.
pub proof fn law_letter_case_ignored(s: Seq<char>)
    ensures
        spec_parse_duration(ascii_lowercase(s)) == spec_parse_duration(s),
        parse_overflows(ascii_lowercase(s)) == parse_overflows(s),
{
    lemma_lower_trim(s);
    let t = trim(s);
    lemma_lower_parse_u64(t);
    lemma_lower_scan(t);
}

} // verus!
