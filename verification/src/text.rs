//! Decimal text: rendering integers and fixed-point values, and parsing
//! decimal degree coordinates into micro-degrees.
//!
//! The grammar accepted by the parser is an optional minus sign, one to
//! twelve integer digits, and an optional fraction of at least one digit
//! introduced by a dot. The value is truncated toward zero at micro-degree
//! precision.

use vstd::prelude::*;

verus! {

/// The digit character for a value in `[0, 9]`.
pub open spec fn digit_char(d: int) -> char {
    if d == 0 {
        '0'
    } else if d == 1 {
        '1'
    } else if d == 2 {
        '2'
    } else if d == 3 {
        '3'
    } else if d == 4 {
        '4'
    } else if d == 5 {
        '5'
    } else if d == 6 {
        '6'
    } else if d == 7 {
        '7'
    } else if d == 8 {
        '8'
    } else {
        '9'
    }
}

/// Decimal rendering of a non-negative integer, most significant digit
/// first, without leading zeros (a single zero for 0).
pub open spec fn digits_of(n: int) -> Seq<char>
    recommends
        n >= 0,
    decreases n,
{
    if n <= 9 {
        seq![digit_char(n)]
    } else {
        digits_of(n / 10).push(digit_char(n % 10))
    }
}

/// Rendering of a signed fixed-point value held in hundredths: sign,
/// integer part, dot, exactly two fraction digits.
pub open spec fn fixed2_of(v: int) -> Seq<char> {
    let a = if v < 0 {
        -v
    } else {
        v
    };
    let sign: Seq<char> = if v < 0 {
        seq!['-']
    } else {
        Seq::empty()
    };
    sign + digits_of(a / 100) + seq!['.', digit_char((a / 10) % 10), digit_char(a % 10)]
}

/// Rendering of a signed fixed-point value held in tenths: sign, integer
/// part, dot, exactly one fraction digit.
pub open spec fn fixed1_of(v: int) -> Seq<char> {
    let a = if v < 0 {
        -v
    } else {
        v
    };
    let sign: Seq<char> = if v < 0 {
        seq!['-']
    } else {
        Seq::empty()
    };
    sign + digits_of(a / 10) + seq!['.', digit_char(a % 10)]
}

/// Appends one decimal digit.
fn push_digit(s: &mut String, d: u64)
    requires
        d <= 9,
    ensures
        final(s)@ == old(s)@ + seq![digit_char(d as int)],
{
    if d == 0 {
        proof {
            reveal_strlit("0");
        }
        s.append("0");
    } else if d == 1 {
        proof {
            reveal_strlit("1");
        }
        s.append("1");
    } else if d == 2 {
        proof {
            reveal_strlit("2");
        }
        s.append("2");
    } else if d == 3 {
        proof {
            reveal_strlit("3");
        }
        s.append("3");
    } else if d == 4 {
        proof {
            reveal_strlit("4");
        }
        s.append("4");
    } else if d == 5 {
        proof {
            reveal_strlit("5");
        }
        s.append("5");
    } else if d == 6 {
        proof {
            reveal_strlit("6");
        }
        s.append("6");
    } else if d == 7 {
        proof {
            reveal_strlit("7");
        }
        s.append("7");
    } else if d == 8 {
        proof {
            reveal_strlit("8");
        }
        s.append("8");
    } else {
        proof {
            reveal_strlit("9");
        }
        s.append("9");
    }
    proof {
        assert(final(s)@ =~= old(s)@ + seq![digit_char(d as int)]);
    }
}

/// Appends the decimal rendering of a non-negative integer.
pub fn push_digits(s: &mut String, n: u64)
    ensures
        final(s)@ == old(s)@ + digits_of(n as int),
    decreases n,
{
    if n <= 9 {
        push_digit(s, n);
    } else {
        push_digits(s, n / 10);
        push_digit(s, n % 10);
        proof {
            assert(final(s)@ =~= old(s)@ + digits_of(n as int));
        }
    }
}

/// Appends the fixed-point rendering of a value held in hundredths.
pub fn push_fixed2(s: &mut String, v: i64)
    requires
        -1000000000000000000 <= v <= 1000000000000000000,
    ensures
        final(s)@ == old(s)@ + fixed2_of(v as int),
{
    let a: u64 = if v < 0 {
        proof {
            reveal_strlit("-");
        }
        s.append("-");
        (-v) as u64
    } else {
        v as u64
    };
    push_digits(s, a / 100);
    proof {
        reveal_strlit(".");
    }
    s.append(".");
    push_digit(s, (a / 10) % 10);
    push_digit(s, a % 10);
    proof {
        assert(final(s)@ =~= old(s)@ + fixed2_of(v as int));
    }
}

/// Appends the fixed-point rendering of a value held in tenths.
pub fn push_fixed1(s: &mut String, v: i64)
    requires
        -1000000000000000000 <= v <= 1000000000000000000,
    ensures
        final(s)@ == old(s)@ + fixed1_of(v as int),
{
    let a: u64 = if v < 0 {
        proof {
            reveal_strlit("-");
        }
        s.append("-");
        (-v) as u64
    } else {
        v as u64
    };
    push_digits(s, a / 10);
    proof {
        reveal_strlit(".");
    }
    s.append(".");
    push_digit(s, a % 10);
    proof {
        assert(final(s)@ =~= old(s)@ + fixed1_of(v as int));
    }
}

/// The digit character determines the digit.
proof fn lemma_digit_char_injective(a: int, b: int)
    requires
        0 <= a <= 9,
        0 <= b <= 9,
        digit_char(a) == digit_char(b),
    ensures
        a == b,
{
}

/// Decimal renderings are non-empty and consist of digit characters.
proof fn lemma_digits_of_chars(n: int)
    requires
        n >= 0,
    ensures
        digits_of(n).len() >= 1,
        forall|i: int| 0 <= i < digits_of(n).len() ==> is_digit(#[trigger] digits_of(n)[i]),
    decreases n,
{
    if n <= 9 {
        assert(is_digit(digit_char(n)));
    } else {
        lemma_digits_of_chars(n / 10);
        assert forall|i: int| 0 <= i < digits_of(n).len() implies is_digit(
            #[trigger] digits_of(n)[i],
        ) by {
            if i < digits_of(n / 10).len() {
                assert(digits_of(n)[i] == digits_of(n / 10)[i]);
            } else {
                assert(digits_of(n)[i] == digit_char(n % 10));
                assert(is_digit(digit_char(n % 10)));
            }
        }
    }
}

/// Equal decimal renderings come from equal numbers.
proof fn lemma_digits_of_injective(a: int, b: int)
    requires
        a >= 0,
        b >= 0,
        digits_of(a) == digits_of(b),
    ensures
        a == b,
    decreases a,
{
    lemma_digits_of_chars(a);
    lemma_digits_of_chars(b);
    if a <= 9 && b <= 9 {
        assert(digits_of(a)[0] == digit_char(a));
        assert(digits_of(b)[0] == digit_char(b));
        lemma_digit_char_injective(a, b);
    } else if a <= 9 {
        assert(digits_of(b).len() == digits_of(b / 10).len() + 1);
        assert(digits_of(a).len() == 1);
        assert(false);
    } else if b <= 9 {
        assert(digits_of(a).len() == digits_of(a / 10).len() + 1);
        assert(digits_of(b).len() == 1);
        assert(false);
    } else {
        assert(digits_of(a).last() == digit_char(a % 10));
        assert(digits_of(b).last() == digit_char(b % 10));
        lemma_digit_char_injective(a % 10, b % 10);
        assert(digits_of(a).drop_last() =~= digits_of(a / 10));
        assert(digits_of(b).drop_last() =~= digits_of(b / 10));
        lemma_digits_of_injective(a / 10, b / 10);
    }
}

/// Fixed-point renderings never contain a colon.
pub proof fn lemma_fixed2_no_colon(v: int)
    ensures
        forall|i: int| 0 <= i < fixed2_of(v).len() ==> #[trigger] fixed2_of(v)[i] != ':',
{
    let a = if v < 0 {
        -v
    } else {
        v
    };
    lemma_digits_of_chars(a / 100);
    let sign: Seq<char> = if v < 0 {
        seq!['-']
    } else {
        Seq::empty()
    };
    let tail = seq!['.', digit_char((a / 10) % 10), digit_char(a % 10)];
    assert forall|i: int| 0 <= i < fixed2_of(v).len() implies #[trigger] fixed2_of(v)[i]
        != ':' by {
        let ds = digits_of(a / 100);
        if i < sign.len() {
            assert(fixed2_of(v)[i] == '-');
        } else if i < sign.len() + ds.len() {
            assert(fixed2_of(v)[i] == ds[i - sign.len()]);
            assert(is_digit(ds[i - sign.len()]));
        } else {
            assert(fixed2_of(v)[i] == tail[i - sign.len() - ds.len()]);
            assert(is_digit(digit_char((a / 10) % 10)));
            assert(is_digit(digit_char(a % 10)));
        }
    }
}

/// Equal fixed-point renderings come from equal values.
pub proof fn lemma_fixed2_injective(v1: int, v2: int)
    requires
        fixed2_of(v1) == fixed2_of(v2),
    ensures
        v1 == v2,
{
    let a1 = if v1 < 0 {
        -v1
    } else {
        v1
    };
    let a2 = if v2 < 0 {
        -v2
    } else {
        v2
    };
    let d1 = digits_of(a1 / 100);
    let d2 = digits_of(a2 / 100);
    lemma_digits_of_chars(a1 / 100);
    lemma_digits_of_chars(a2 / 100);
    if (v1 < 0) != (v2 < 0) {
        if v1 < 0 {
            assert(fixed2_of(v1)[0] == '-');
            assert(fixed2_of(v2)[0] == d2[0]);
            assert(is_digit(d2[0]));
        } else {
            assert(fixed2_of(v2)[0] == '-');
            assert(fixed2_of(v1)[0] == d1[0]);
            assert(is_digit(d1[0]));
        }
        assert(false);
    }
    let slen: int = if v1 < 0 {
        1int
    } else {
        0int
    };
    assert(fixed2_of(v1).len() == slen + d1.len() + 3);
    assert(fixed2_of(v2).len() == slen + d2.len() + 3);
    assert(d1.len() == d2.len());
    assert forall|i: int| 0 <= i < d1.len() implies d1[i] == d2[i] by {
        assert(fixed2_of(v1)[slen + i] == d1[i]);
        assert(fixed2_of(v2)[slen + i] == d2[i]);
    }
    assert(d1 =~= d2);
    lemma_digits_of_injective(a1 / 100, a2 / 100);
    let n = fixed2_of(v1).len();
    assert(fixed2_of(v1)[n - 2] == digit_char((a1 / 10) % 10));
    assert(fixed2_of(v2)[n - 2] == digit_char((a2 / 10) % 10));
    assert(fixed2_of(v1)[n - 1] == digit_char(a1 % 10));
    assert(fixed2_of(v2)[n - 1] == digit_char(a2 % 10));
    lemma_digit_char_injective((a1 / 10) % 10, (a2 / 10) % 10);
    lemma_digit_char_injective(a1 % 10, a2 % 10);
    assert(a1 == 100 * (a1 / 100) + 10 * ((a1 / 10) % 10) + a1 % 10);
    assert(a2 == 100 * (a2 / 100) + 10 * ((a2 / 10) % 10) + a2 % 10);
}

/// A decimal digit.
pub open spec fn is_digit(c: char) -> bool {
    '0' <= c && c <= '9'
}

/// Its numeric value.
pub open spec fn digit_val(c: char) -> int {
    c as int - '0' as int
}

/// Every character is a decimal digit.
pub open spec fn all_digits(s: Seq<char>) -> bool {
    forall|i: int| 0 <= i < s.len() ==> is_digit(#[trigger] s[i])
}

/// The value of a digit string, most significant digit first.
pub open spec fn digits_val(s: Seq<char>) -> int
    decreases s.len(),
{
    if s.len() == 0 {
        0int
    } else {
        digits_val(s.drop_last()) * 10 + digit_val(s.last())
    }
}

/// Powers of ten.
pub open spec fn pow10(k: nat) -> int
    decreases k,
{
    if k == 0 {
        1int
    } else {
        10 * pow10((k - 1) as nat)
    }
}

/// A digit string of length `n` has value below `pow10(n)`.
proof fn lemma_digits_val_bound(s: Seq<char>)
    requires
        all_digits(s),
    ensures
        0 <= digits_val(s) < pow10(s.len()),
    decreases s.len(),
{
    if s.len() > 0 {
        assert(all_digits(s.drop_last()));
        lemma_digits_val_bound(s.drop_last());
        assert(0 <= digit_val(s.last()) <= 9);
    }
}

/// Micro-degree value of a fraction string: the first six digits, right
/// padded with zeros; deeper digits are truncated away.
pub open spec fn frac_micro(s: Seq<char>) -> int {
    if s.len() >= 6 {
        digits_val(s.take(6))
    } else {
        digits_val(s) * pow10((6 - s.len()) as nat)
    }
}

/// Index of the first dot, or the length when there is none.
pub open spec fn find_dot(s: Seq<char>) -> int
    decreases s.len(),
{
    if s.len() == 0 {
        0int
    } else if s[0] == '.' {
        0int
    } else {
        1 + find_dot(s.skip(1))
    }
}

/// A scan that stops at the first dot finds `find_dot`.
proof fn lemma_find_dot(s: Seq<char>, j: int)
    requires
        0 <= j <= s.len(),
        forall|k: int| 0 <= k < j ==> s[k] != '.',
        j < s.len() ==> s[j] == '.',
        j == s.len() || s[j] == '.',
    ensures
        find_dot(s) == j,
    decreases j,
{
    if j == 0 {
    } else {
        assert(s[0] != '.');
        assert(forall|k: int| 0 <= k < j - 1 ==> s.skip(1)[k] == s[k + 1]);
        lemma_find_dot(s.skip(1), j - 1);
    }
}

/// Value of an unsigned decimal-degree string in micro-degrees: one to
/// twelve integer digits, optionally a dot and at least one fraction digit.
pub open spec fn unsigned_micro_of(s: Seq<char>) -> Option<int> {
    let d = find_dot(s);
    let ip = s.take(d);
    let fp = if d == s.len() {
        Seq::<char>::empty()
    } else {
        s.skip(d + 1)
    };
    if 1 <= ip.len() <= 12 && all_digits(ip) && (d == s.len() || (fp.len() >= 1 && all_digits(
        fp,
    )))
    {
        Some(digits_val(ip) * 1000000 + frac_micro(fp))
    } else {
        None
    }
}

/// Value of a signed decimal-degree string in micro-degrees.
pub open spec fn micro_deg_of(s: Seq<char>) -> Option<int> {
    if s.len() > 0 && s[0] == '-' {
        match unsigned_micro_of(s.skip(1)) {
            Some(v) => Some(-v),
            None => None,
        }
    } else {
        unsigned_micro_of(s)
    }
}

/// Parses a decimal-degree string into micro-degrees; `None` exactly on
/// text outside the grammar.
#[verifier::rlimit(100)]
pub fn parse_micro_deg(s: &str) -> (r: Option<i64>)
    ensures
        match r {
            Some(v) => micro_deg_of(s@) == Some(v as int),
            None => micro_deg_of(s@) is None,
        },
{
    let n = s.unicode_len();
    let neg = n > 0 && s.get_char(0) == '-';
    let start: usize = if neg {
        1
    } else {
        0
    };
    let ghost u = if neg {
        s@.skip(1)
    } else {
        s@
    };
    proof {
        assert(u.len() == n - start);
        assert(forall|k: int| 0 <= k < u.len() ==> u[k] == s@[k + start]);
    }
    // Find the dot that separates integer and fraction parts.
    let mut d: usize = start;
    while d < n && s.get_char(d) != '.'
        invariant
            start <= d <= n,
            n == s@.len(),
            forall|k: int| start <= k < d ==> s@[k] != '.',
        decreases n - d,
    {
        d += 1;
    }
    proof {
        lemma_find_dot(u, d - start);
    }
    let ghost ip = u.take(d - start);
    if d == start || d - start > 12 {
        return None;
    }
    // Integer part.
    let mut acc: u64 = 0;
    let mut i = start;
    while i < d
        invariant
            start <= i <= d <= n,
            n == s@.len(),
            1 <= d - start <= 12,
            u == (if neg {
                s@.skip(1)
            } else {
                s@
            }),
            start == (if neg {
                1int
            } else {
                0int
            }),
            ip == u.take(d - start),
            find_dot(u) == d - start,
            neg <==> (s@.len() > 0 && s@[0] == '-'),
            all_digits(u.subrange(0, i - start)),
            acc == digits_val(u.subrange(0, i - start)),
            acc < pow10((i - start) as nat),
        decreases d - i,
    {
        let c = s.get_char(i);
        proof {
            assert(u[i - start] == c);
            assert(ip[i - start] == c);
        }
        if !('0' <= c && c <= '9') {
            proof {
                assert(!is_digit(ip[i - start]));
                assert(!all_digits(ip));
                assert(find_dot(u) == d - start);
                assert(unsigned_micro_of(u) is None);
                assert(micro_deg_of(s@) is None);
            }
            return None;
        }
        let dv: u64 = (c as u32 - '0' as u32) as u64;
        proof {
            assert(u.subrange(0, i + 1 - start).drop_last() =~= u.subrange(0, i - start));
            assert(u.subrange(0, i + 1 - start).last() == c);
            assert(pow10(((i + 1) - start) as nat) == 10 * pow10((i - start) as nat));
            lemma_pow10_mono((i + 1 - start) as nat, 12);
            assert(pow10(12) == 1000000000000) by {
                reveal_with_fuel(pow10, 13);
            }
        }
        acc = acc * 10 + dv;
        i += 1;
    }
    proof {
        assert(u.subrange(0, d - start) =~= ip);
        lemma_digits_val_bound(ip);
        lemma_pow10_mono((d - start) as nat, 12);
        assert(pow10(12) == 1000000000000) by {
            reveal_with_fuel(pow10, 13);
        }
    }
    // Fraction part: the first six digits count, the rest only validate.
    let mut fracv: u64 = 0;
    let mut cnt: usize = 0;
    let ghost fp = if d == n {
        Seq::<char>::empty()
    } else {
        u.skip(d + 1 - start)
    };
    if d < n {
        if d + 1 == n {
            // A dot with no fraction digits is outside the grammar.
            return None;
        }
        let mut j = d + 1;
        while j < n
            invariant
                d + 1 <= j <= n,
                n == s@.len(),
                start <= d < n,
                d + 1 < n,
                u == (if neg {
                    s@.skip(1)
                } else {
                    s@
                }),
                start == (if neg {
                    1int
                } else {
                    0int
                }),
                fp == u.skip(d + 1 - start),
                fp.len() == n - (d + 1),
                find_dot(u) == d - start,
                neg <==> (s@.len() > 0 && s@[0] == '-'),
                ip == u.take(d - start),
                all_digits(fp.take(j - (d + 1))),
                cnt == (if j - (d + 1) <= 6 {
                    j - (d + 1)
                } else {
                    6int
                }),
                fracv == digits_val(fp.take(cnt as int)),
                fracv < pow10(cnt as nat),
                cnt <= 6,
            decreases n - j,
        {
            let c = s.get_char(j);
            proof {
                assert(fp[j - (d + 1)] == s@[j as int]);
            }
            if !('0' <= c && c <= '9') {
                proof {
                    assert(!is_digit(fp[j - (d + 1)]));
                    assert(!all_digits(fp));
                    assert(find_dot(u) == d - start);
                    assert(d - start < u.len());
                    assert(unsigned_micro_of(u) is None);
                    assert(micro_deg_of(s@) is None);
                }
                return None;
            }
            proof {
                assert(fp.take(j + 1 - (d + 1)).drop_last() =~= fp.take(j - (d + 1)));
                assert(fp.take(j + 1 - (d + 1)).last() == c);
            }
            if cnt < 6 {
                let dv: u64 = (c as u32 - '0' as u32) as u64;
                proof {
                    assert(fp.take(cnt + 1).drop_last() =~= fp.take(cnt as int));
                    assert(fp.take(cnt + 1).last() == c);
                    assert(pow10((cnt + 1) as nat) == 10 * pow10(cnt as nat));
                    lemma_pow10_mono((cnt + 1) as nat, 6);
                    assert(pow10(6) == 1000000) by {
                        reveal_with_fuel(pow10, 7);
                    }
                }
                fracv = fracv * 10 + dv;
                cnt += 1;
            }
            j += 1;
        }
        proof {
            assert(fp.take(fp.len() as int) =~= fp);
        }
    }
    proof {
        lemma_pow10_mono(cnt as nat, 6);
        assert(pow10(6) == 1000000) by {
            reveal_with_fuel(pow10, 7);
        }
        if d == n {
            assert(fp.len() == 0);
            assert(cnt == 0 && fracv == 0);
            assert(digits_val(fp) == 0);
            assert(pow10(0) == 1);
            assert(fracv == digits_val(fp) * pow10((cnt - fp.len()) as nat));
        } else if fp.len() < 6 {
            assert(cnt == fp.len());
            assert(fracv == digits_val(fp.take(fp.len() as int)));
            assert(fp.take(fp.len() as int) =~= fp);
            assert(fracv == digits_val(fp));
            assert((cnt - fp.len()) as nat == 0);
            assert(pow10(0) == 1);
            assert(digits_val(fp) * 1 == digits_val(fp));
            assert(fracv == digits_val(fp) * pow10((cnt - fp.len()) as nat));
        }
    }
    // Right-pad the fraction to six digits.
    while cnt < 6
        invariant
            cnt <= 6,
            all_digits(fp),
            fp.len() < 6 ==> cnt >= fp.len(),
            fp.len() >= 6 ==> cnt == 6,
            fp.len() >= 6 ==> fracv == digits_val(fp.take(6)),
            fp.len() < 6 ==> fracv == digits_val(fp) * pow10((cnt - fp.len()) as nat),
            fracv < pow10(cnt as nat),
        decreases 6 - cnt,
    {
        proof {
            let e = (cnt - fp.len()) as nat;
            assert(pow10((e + 1) as nat) == 10 * pow10(e));
            assert(pow10((cnt + 1) as nat) == 10 * pow10(cnt as nat));
            assert(digits_val(fp) * (10 * pow10(e)) == (digits_val(fp) * pow10(e)) * 10)
                by (nonlinear_arith);
            lemma_pow10_mono((cnt + 1) as nat, 6);
            assert(pow10(6) == 1000000) by {
                reveal_with_fuel(pow10, 7);
            }
        }
        fracv = fracv * 10;
        cnt += 1;
    }
    proof {
        lemma_pow10_mono(cnt as nat, 6);
        assert(pow10(6) == 1000000) by {
            reveal_with_fuel(pow10, 7);
        }
        assert(unsigned_micro_of(u) == Some(digits_val(ip) * 1000000 + frac_micro(fp)));
    }
    let v: u64 = acc * 1000000 + fracv;
    if neg {
        Some(-(v as i64))
    } else {
        Some(v as i64)
    }
}

/// Multiplying a bounded digit value by a power of ten keeps it below the
/// combined power.
proof fn lemma_pow10_mul_bound(s: Seq<char>, k: nat)
    requires
        all_digits(s),
    ensures
        digits_val(s) * pow10(k) < pow10(s.len() + k),
    decreases k,
{
    lemma_digits_val_bound(s);
    if k == 0 {
    } else {
        lemma_pow10_mul_bound(s, (k - 1) as nat);
        assert(pow10(s.len() + k) == 10 * pow10((s.len() + k - 1) as nat));
        assert(digits_val(s) * pow10(k) == 10 * (digits_val(s) * pow10((k - 1) as nat)))
            by (nonlinear_arith)
        requires
            pow10(k) == 10 * pow10((k - 1) as nat),
        ;
    }
}

/// Powers of ten grow with the exponent.
proof fn lemma_pow10_mono(a: nat, b: nat)
    requires
        a <= b,
    ensures
        pow10(a) <= pow10(b),
        pow10(a) >= 1,
    decreases b,
{
    if a < b {
        lemma_pow10_mono(a, (b - 1) as nat);
    } else if b > 0 {
        lemma_pow10_mono((a - 1) as nat, (b - 1) as nat);
    }
}

} // verus!
