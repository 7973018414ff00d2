use vstd::prelude::*;
use vstd::string::*;

verus! {

/// A decimal digit.
pub open spec fn is_digit(c: char) -> bool {
    48 <= c as u32 && c as u32 <= 57
}

/// How many characters at the front of `s` are decimal digits.
pub open spec fn leading_digits(s: Seq<char>) -> nat
    decreases s.len(),
{
    if s.len() > 0 && is_digit(s[0]) {
        leading_digits(s.drop_first()) + 1
    } else {
        0
    }
}

pub proof fn lemma_leading_digits_le(s: Seq<char>)
    ensures
        leading_digits(s) <= s.len(),
    decreases s.len(),
{
    if s.len() > 0 && is_digit(s[0]) {
        lemma_leading_digits_le(s.drop_first());
    }
}

/// `s` without a single leading plus or minus sign.
pub open spec fn strip_sign(s: Seq<char>) -> Seq<char> {
    if s.len() > 0 && (s[0] == '+' || s[0] == '-') {
        s.drop_first()
    } else {
        s
    }
}

/// One character, either of two spellings.
pub open spec fn either(c: char, lo: char, up: char) -> bool {
    c == lo || c == up
}

/// The case-insensitive keywords the floating-point grammar accepts in
/// place of a mantissa: `inf`, `infinity` and `nan`.
pub open spec fn is_float_keyword(b: Seq<char>) -> bool {
    ||| (b.len() == 3 && either(b[0], 'i', 'I') && either(b[1], 'n', 'N') && either(
        b[2],
        'f',
        'F',
    ))
    ||| (b.len() == 8 && either(b[0], 'i', 'I') && either(b[1], 'n', 'N') && either(b[2], 'f', 'F')
        && either(b[3], 'i', 'I') && either(b[4], 'n', 'N') && either(b[5], 'i', 'I') && either(
        b[6],
        't',
        'T',
    ) && either(b[7], 'y', 'Y'))
    ||| (b.len() == 3 && either(b[0], 'n', 'N') && either(b[1], 'a', 'A') && either(
        b[2],
        'n',
        'N',
    ))
}

/// An exponent part: `e` or `E`, an optional sign, then one or more
/// digits reaching the end of the text.
pub open spec fn is_exponent(r: Seq<char>) -> bool {
    r.len() > 0 && (r[0] == 'e' || r[0] == 'E') && {
        let b = strip_sign(r.drop_first());
        b.len() > 0 && leading_digits(b) == b.len()
    }
}

/// A mantissa with an optional exponent: digits, optionally a point with
/// further digits, with at least one digit on one side of the point.
pub open spec fn is_mantissa_exp(b: Seq<char>) -> bool {
    let d1 = leading_digits(b);
    if d1 < b.len() && b[d1 as int] == '.' {
        let after = b.skip(d1 as int + 1);
        let d2 = leading_digits(after);
        (d1 > 0 || d2 > 0) && {
            let rest = after.skip(d2 as int);
            rest.len() == 0 || is_exponent(rest)
        }
    } else {
        d1 > 0 && (d1 == b.len() || is_exponent(b.skip(d1 as int)))
    }
}

/// The grammar of text that parses as a floating-point number: an
/// optional sign, then an infinity or NaN keyword or a mantissa with an
/// optional exponent. A `Number` token's raw text is lexically valid
/// exactly when it matches this grammar.
pub open spec fn is_float_literal(s: Seq<char>) -> bool {
    s.len() > 0 && {
        let b = strip_sign(s);
        is_float_keyword(b) || is_mantissa_exp(b)
    }
}

/// Counts the decimal digits of `s` from character index `from` on.
fn count_digits(s: &str, from: usize) -> (k: usize)
    requires
        from as nat <= s@.len(),
    ensures
        k as nat == leading_digits(s@.skip(from as int)),
        from + k <= s@.len(),
    decreases s@.len() - from,
{
    let n = s.unicode_len();
    if from < n {
        let c = s.get_char(from);
        proof {
            assert(s@.skip(from as int)[0] == c);
            assert(s@.skip(from as int).drop_first() =~= s@.skip(from + 1 as int));
        }
        let u = c as u32;
        if 48 <= u && u <= 57 {
            let k = count_digits(s, from + 1);
            return k + 1;
        }
        0
    } else {
        proof {
            assert(s@.skip(from as int) =~= Seq::<char>::empty());
        }
        0
    }
}

/// Decides [`is_exponent`] on the text from character index `from` on.
fn check_exponent(s: &str, from: usize) -> (b: bool)
    requires
        from as nat <= s@.len(),
    ensures
        b == is_exponent(s@.skip(from as int)),
{
    let n = s.unicode_len();
    if from >= n {
        proof {
            assert(s@.skip(from as int) =~= Seq::<char>::empty());
        }
        return false;
    }
    let c = s.get_char(from);
    proof {
        assert(s@.skip(from as int)[0] == c);
        assert(s@.skip(from as int).drop_first() =~= s@.skip(from + 1 as int));
    }
    if !(c == 'e' || c == 'E') {
        return false;
    }
    let mut j = from + 1;
    if j < n {
        let c2 = s.get_char(j);
        if c2 == '+' || c2 == '-' {
            j = j + 1;
        }
    }
    proof {
        assert(s@.skip(j as int) =~= strip_sign(s@.skip(from + 1 as int)));
    }
    let k = count_digits(s, j);
    n - j > 0 && k == n - j
}

/// Decides [`is_mantissa_exp`] on the text from character index `from` on.
fn check_mantissa(s: &str, from: usize) -> (b: bool)
    requires
        from as nat <= s@.len(),
    ensures
        b == is_mantissa_exp(s@.skip(from as int)),
{
    let n = s.unicode_len();
    let d1 = count_digits(s, from);
    let p = from + d1;
    if p < n && s.get_char(p) == '.' {
        proof {
            assert(s@.skip(from as int)[d1 as int] == s@[p as int]);
            assert(s@.skip(from as int).skip(d1 + 1 as int) =~= s@.skip(p + 1 as int));
        }
        let d2 = count_digits(s, p + 1);
        let q = p + 1 + d2;
        proof {
            assert(s@.skip(p + 1 as int).skip(d2 as int) =~= s@.skip(q as int));
        }
        if d1 == 0 && d2 == 0 {
            false
        } else if q == n {
            proof {
                assert(s@.skip(q as int).len() == 0);
            }
            true
        } else {
            check_exponent(s, q)
        }
    } else {
        proof {
            if d1 < n - from {
                assert(s@.skip(from as int)[d1 as int] == s@[p as int]);
            }
            assert(s@.skip(from as int).skip(d1 as int) =~= s@.skip(p as int));
        }
        if d1 == 0 {
            false
        } else if p == n {
            true
        } else {
            check_exponent(s, p)
        }
    }
}

/// Decides [`is_float_literal`].
pub fn check_float(s: &str) -> (b: bool)
    ensures
        b == is_float_literal(s@),
{
    let n = s.unicode_len();
    if n == 0 {
        return false;
    }
    let c0 = s.get_char(0);
    let start: usize = if c0 == '+' || c0 == '-' {
        1
    } else {
        0
    };
    proof {
        assert(s@.skip(start as int) =~= strip_sign(s@));
    }
    let blen = n - start;
    let keyword = if blen == 3 {
        let k0 = s.get_char(start);
        let k1 = s.get_char(start + 1);
        let k2 = s.get_char(start + 2);
        ((k0 == 'i' || k0 == 'I') && (k1 == 'n' || k1 == 'N') && (k2 == 'f' || k2 == 'F')) || ((k0
            == 'n' || k0 == 'N') && (k1 == 'a' || k1 == 'A') && (k2 == 'n' || k2 == 'N'))
    } else if blen == 8 {
        let k0 = s.get_char(start);
        let k1 = s.get_char(start + 1);
        let k2 = s.get_char(start + 2);
        let k3 = s.get_char(start + 3);
        let k4 = s.get_char(start + 4);
        let k5 = s.get_char(start + 5);
        let k6 = s.get_char(start + 6);
        let k7 = s.get_char(start + 7);
        (k0 == 'i' || k0 == 'I') && (k1 == 'n' || k1 == 'N') && (k2 == 'f' || k2 == 'F') && (k3
            == 'i' || k3 == 'I') && (k4 == 'n' || k4 == 'N') && (k5 == 'i' || k5 == 'I') && (k6
            == 't' || k6 == 'T') && (k7 == 'y' || k7 == 'Y')
    } else {
        false
    };
    proof {
        assert(keyword == is_float_keyword(s@.skip(start as int)));
    }
    if keyword {
        return true;
    }
    check_mantissa(s, start)
}

} // verus!
