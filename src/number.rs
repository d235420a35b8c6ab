//! Values of integer literals: optional sign, then hexadecimal (`0x`),
//! binary (`0b`), octal (leading `0`) or decimal digits.
use vstd::prelude::*;
use crate::text::chars_of;

verus! {

/// The value of a digit character in base 16 or lower; 99 for a non-digit.
pub open spec fn digit_value(c: char) -> int {
    if '0' <= c <= '9' {
        c as int - '0' as int
    } else if 'a' <= c <= 'f' {
        c as int - 'a' as int + 10
    } else if 'A' <= c <= 'F' {
        c as int - 'A' as int + 10
    } else {
        99
    }
}

/// A non-empty run of digits of the radix.
pub open spec fn valid_digits(w: Seq<char>, radix: int) -> bool {
    w.len() > 0 && forall|k: int| 0 <= k < w.len() ==> digit_value(#[trigger] w[k]) < radix
}

/// The number that the digits `w` denote in base `radix`.
pub open spec fn digits_value(w: Seq<char>, radix: int) -> int
    decreases w.len(),
{
    if w.len() == 0 {
        0
    } else {
        digits_value(w.drop_last(), radix) * radix + digit_value(w.last())
    }
}

/// The radix of a literal body (without its sign) and where its digits start.
pub open spec fn radix_of(b: Seq<char>) -> (int, int) {
    if b.len() >= 2 && b[0] == '0' && (b[1] == 'x' || b[1] == 'X') {
        (16, 2)
    } else if b.len() >= 2 && b[0] == '0' && (b[1] == 'b' || b[1] == 'B') {
        (2, 2)
    } else if b.len() >= 2 && b[0] == '0' {
        (8, 1)
    } else {
        (10, 0)
    }
}

/// The value of an integer literal, or `None` if `w` is not one.
pub open spec fn int_literal_value(w: Seq<char>) -> Option<int> {
    let p: int = if w.len() > 0 && (w[0] == '-' || w[0] == '+') {
        1
    } else {
        0
    };
    let b = w.subrange(p, w.len() as int);
    let (radix, start) = radix_of(b);
    let d = b.subrange(start, b.len() as int);
    if valid_digits(d, radix) {
        let v = digits_value(d, radix);
        Some(
            if p == 1 && w[0] == '-' {
                -v
            } else {
                v
            },
        )
    } else {
        None
    }
}

pub open spec fn fits_i64(v: int) -> bool {
    i64::MIN <= v <= i64::MAX
}

proof fn lemma_digits_value_grows(w: Seq<char>, radix: int, k: int)
    requires
        2 <= radix <= 16,
        0 <= k <= w.len(),
        valid_digits(w, radix),
    ensures
        digits_value(w.subrange(0, k), radix) <= digits_value(w, radix),
        0 <= digits_value(w.subrange(0, k), radix),
    decreases w.len() - k,
{
    let pre = w.subrange(0, k);
    assert forall|m: int| 0 <= m < pre.len() implies digit_value(#[trigger] pre[m]) < radix by {
        assert(pre[m] == w[m]);
    }
    lemma_digits_value_nonneg(pre, radix);
    if k < w.len() {
        let u = w.subrange(0, k + 1);
        assert(u.drop_last() =~= w.subrange(0, k));
        lemma_digits_value_grows(w, radix, k + 1);
        assert(digit_value(w[k]) >= 0);
        assert(digits_value(u, radix) == digits_value(w.subrange(0, k), radix) * radix + digit_value(
            w[k],
        ));
        assert(digits_value(w.subrange(0, k), radix) <= digits_value(w.subrange(0, k), radix)
            * radix) by (nonlinear_arith)
            requires
                digits_value(w.subrange(0, k), radix) >= 0,
                radix >= 2,
        ;
    } else {
        assert(w.subrange(0, k) =~= w);
        lemma_digits_value_nonneg(w, radix);
    }
}

proof fn lemma_digits_value_nonneg(w: Seq<char>, radix: int)
    requires
        2 <= radix <= 16,
        forall|k: int| 0 <= k < w.len() ==> digit_value(#[trigger] w[k]) < radix,
    ensures
        0 <= digits_value(w, radix),
    decreases w.len(),
{
    if w.len() > 0 {
        lemma_digits_value_nonneg(w.drop_last(), radix);
        let v = digits_value(w.drop_last(), radix);
        assert(v * radix >= 0) by (nonlinear_arith)
            requires
                v >= 0,
                radix >= 2,
        ;
        assert(digit_value(w[w.len() - 1]) >= 0);
    }
}

fn digit_of(c: char) -> (r: u64)
    ensures
        r == digit_value(c),
{
    if '0' <= c && c <= '9' {
        (c as u32 - '0' as u32) as u64
    } else if 'a' <= c && c <= 'f' {
        (c as u32 - 'a' as u32 + 10) as u64
    } else if 'A' <= c && c <= 'F' {
        (c as u32 - 'A' as u32 + 10) as u64
    } else {
        99
    }
}

/// The value of the digits `s[start..]` in base `radix`, if it is at most `limit`.
fn digits_up_to(s: &Vec<char>, start: usize, radix: u64, limit: u64) -> (r: Option<u64>)
    requires
        start <= s.len(),
        2 <= radix <= 16,
        16 <= limit,
        valid_digits(s@.subrange(start as int, s.len() as int), radix as int),
    ensures
        r is Some <==> digits_value(s@.subrange(start as int, s.len() as int), radix as int)
            <= limit,
        r matches Some(v) ==> v == digits_value(
            s@.subrange(start as int, s.len() as int),
            radix as int,
        ),
{
    let ghost d = s@.subrange(start as int, s.len() as int);
    let mut acc: u64 = 0;
    let mut j: usize = start;
    while j < s.len()
        invariant
            start <= j <= s.len(),
            2 <= radix <= 16,
            d == s@.subrange(start as int, s.len() as int),
            valid_digits(d, radix as int),
            acc == digits_value(d.subrange(0, j - start), radix as int),
            acc <= limit,
            16 <= limit,
        decreases s.len() - j,
    {
        let dv = digit_of(s[j]);
        proof {
            assert(d[j - start] == s@[j as int]);
            assert(digit_value(d[j - start]) < radix);
            let u = d.subrange(0, j - start + 1);
            assert(u.drop_last() =~= d.subrange(0, j - start));
            assert(u.last() == s@[j as int]);
        }
        if acc > (limit - dv) / radix {
            proof {
                lemma_digits_value_grows(d, radix as int, j - start + 1);
                let q = (limit - dv) / radix as int;
                assert(acc * radix + dv > limit) by (nonlinear_arith)
                    requires
                        acc > q,
                        q == (limit - dv) / radix as int,
                        radix >= 2,
                        dv <= limit,
                ;
            }
            return None;
        }
        proof {
            let q = (limit - dv) / radix as int;
            assert(acc * radix + dv <= limit) by (nonlinear_arith)
                requires
                    acc <= q,
                    q == (limit - dv) / radix as int,
                    radix >= 2,
                    dv <= limit,
            ;
        }
        acc = acc * radix + dv;
        j = j + 1;
    }
    assert(d.subrange(0, j - start) =~= d);
    Some(acc)
}

/// Parses an integer literal into a signed 64-bit value; `None` when the text
/// is no integer literal or its value does not fit.
pub fn parse_int(text: &str) -> (r: Option<i64>)
    ensures
        r is Some <==> (int_literal_value(text@) matches Some(v) && fits_i64(v)),
        r matches Some(x) ==> int_literal_value(text@) == Some(x as int),
{
    let s = chars_of(text);
    let n = s.len();
    let neg = n > 0 && s[0] == '-';
    let p: usize = if n > 0 && (s[0] == '-' || s[0] == '+') {
        1
    } else {
        0
    };
    let ghost b = s@.subrange(p as int, n as int);
    let (radix, off): (u64, usize) = if n >= p + 2 && s[p] == '0' && (s[p + 1] == 'x' || s[p
        + 1] == 'X') {
        (16, 2)
    } else if n >= p + 2 && s[p] == '0' && (s[p + 1] == 'b' || s[p + 1] == 'B') {
        (2, 2)
    } else if n >= p + 2 && s[p] == '0' {
        (8, 1)
    } else {
        (10, 0)
    };
    let start = p + off;
    let ghost dd = s@.subrange(start as int, n as int);
    let ghost mag = digits_value(dd, radix as int);
    proof {
        assert(radix_of(b) == (radix as int, off as int));
        assert(b.subrange(off as int, b.len() as int) =~= dd);
        assert(int_literal_value(text@) == if valid_digits(dd, radix as int) {
            Some(
                if neg {
                    -mag
                } else {
                    mag
                },
            )
        } else {
            None::<int>
        });
    }
    if start >= n {
        assert(s@.subrange(start as int, n as int).len() == 0);
        return None;
    }
    let mut j: usize = start;
    while j < n
        invariant
            start <= j <= n == s.len(),
            forall|k: int| start <= k < j ==> digit_value(#[trigger] s@[k]) < radix,
            dd == s@.subrange(start as int, n as int),
            int_literal_value(text@) == if valid_digits(dd, radix as int) {
                Some(
                    if neg {
                        -mag
                    } else {
                        mag
                    },
                )
            } else {
                None::<int>
            },
        decreases n - j,
    {
        if digit_of(s[j]) >= radix {
            proof {
                let d = s@.subrange(start as int, n as int);
                assert(d[j - start] == s@[j as int]);
                assert(!valid_digits(d, radix as int));
            }
            return None;
        }
        j = j + 1;
    }
    proof {
        let d = s@.subrange(start as int, n as int);
        assert forall|k: int| 0 <= k < d.len() implies digit_value(#[trigger] d[k]) < radix by {
            assert(d[k] == s@[start + k]);
        }
    }
    let limit: u64 = if neg {
        0x8000_0000_0000_0000
    } else {
        0x7fff_ffff_ffff_ffff
    };
    match digits_up_to(&s, start, radix, limit) {
        None => None,
        Some(v) => {
            if neg {
                if v == 0x8000_0000_0000_0000 {
                    Some(i64::MIN)
                } else {
                    Some(-(v as i64))
                }
            } else {
                Some(v as i64)
            }
        },
    }
}

} // verus!
