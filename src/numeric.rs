//! Decimal integers and float literals, as std reads and writes them.

use vstd::prelude::*;

verus! {

pub open spec fn is_digit(c: char) -> bool {
    '0' <= c <= '9'
}

pub open spec fn digit_value(c: char) -> int {
    c as int - '0' as int
}

pub open spec fn all_digits(s: Seq<char>) -> bool {
    forall|i: int| 0 <= i < s.len() ==> is_digit(#[trigger] s[i])
}

/// The value of a run of decimal digits.
pub open spec fn digits_value(s: Seq<char>) -> int
    decreases s.len(),
{
    if s.len() == 0 {
        0
    } else {
        digits_value(s.drop_last()) * 10 + digit_value(s.last())
    }
}

/// The integer that a decimal text denotes: an optional '+' or '-' and at
/// least one digit, nothing else.
pub open spec fn signed_decimal(s: Seq<char>) -> Option<int> {
    if s.len() > 0 && (s[0] == '+' || s[0] == '-') {
        let d = s.skip(1);
        if d.len() > 0 && all_digits(d) {
            Some(if s[0] == '-' { -digits_value(d) } else { digits_value(d) })
        } else {
            None
        }
    } else if s.len() > 0 && all_digits(s) {
        Some(digits_value(s))
    } else {
        None
    }
}

/// What `i64::from_str` yields: the decimal value when it fits in 64 signed bits.
pub open spec fn i64_of(s: Seq<char>) -> Option<i64> {
    match signed_decimal(s) {
        Some(v) => if i64::MIN <= v <= i64::MAX {
            Some(v as i64)
        } else {
            None
        },
        None => None,
    }
}

/// What `u64::from_str` yields: an optional '+', digits, a value that fits.
pub open spec fn u64_of(s: Seq<char>) -> Option<u64> {
    if s.len() > 0 && s[0] == '-' {
        None
    } else {
        match signed_decimal(s) {
            Some(v) => if 0 <= v <= u64::MAX {
                Some(v as u64)
            } else {
                None
            },
            None => None,
        }
    }
}

/// An integer written with an optional single leading '-' and digits only.
pub open spec fn is_integer_text(s: Seq<char>) -> bool {
    ||| s.len() > 0 && all_digits(s)
    ||| s.len() > 1 && s[0] == '-' && all_digits(s.skip(1))
}

proof fn lemma_digits_nonneg(s: Seq<char>)
    requires
        all_digits(s),
    ensures
        digits_value(s) >= 0,
    decreases s.len(),
{
    if s.len() > 0 {
        lemma_digits_nonneg(s.drop_last());
    }
}

proof fn lemma_digits_prefix(s: Seq<char>, i: int)
    requires
        all_digits(s),
        0 <= i <= s.len(),
    ensures
        digits_value(s.take(i)) <= digits_value(s),
    decreases s.len(),
{
    if i < s.len() {
        assert(s.drop_last().take(i) =~= s.take(i));
        lemma_digits_prefix(s.drop_last(), i);
        lemma_digits_nonneg(s.drop_last());
    } else {
        assert(s.take(i) =~= s);
    }
}

/// Reads a decimal `i64` as std's `i64::from_str` does.
pub fn parse_i64(s: &Vec<char>) -> (r: Option<i64>)
    ensures
        r == i64_of(s@),
{
    let n = s.len();
    if n == 0 {
        return None;
    }
    let mut start: usize = 0;
    let mut neg = false;
    if s[0] == '+' {
        start = 1;
    } else if s[0] == '-' {
        start = 1;
        neg = true;
    }
    if start == n {
        return None;
    }
    let ghost d = s@.skip(start as int);
    let mut acc: u64 = 0;
    let mut i: usize = start;
    while i < n
        invariant
            n == s@.len(),
            start <= i <= n,
            start == 0 || start == 1,
            start == 0 ==> s@[0] != '+' && s@[0] != '-',
            start == 1 ==> s@[0] == '+' || s@[0] == '-',
            neg == (start == 1 && s@[0] == '-'),
            d == s@.skip(start as int),
            all_digits(s@.subrange(start as int, i as int)),
            acc as int == digits_value(s@.subrange(start as int, i as int)),
            acc <= 9223372036854775808u64,
        decreases n - i,
    {
        let c = s[i];
        if !('0' <= c && c <= '9') {
            proof {
                assert(d[i - start] == c);
                assert(!all_digits(d));
                if start == 0 {
                    assert(d =~= s@);
                }
            }
            return None;
        }
        let dv = (c as u32 - '0' as u32) as u64;
        proof {
            assert(s@.subrange(start as int, i as int + 1).drop_last() =~= s@.subrange(
                start as int,
                i as int,
            ));
        }
        if acc > (9223372036854775808u64 - dv) / 10 {
            proof {
                let p = s@.subrange(start as int, i as int + 1);
                assert(p.last() == c);
                assert(digits_value(p) == acc * 10 + dv);
                assert(acc * 10 + dv > 9223372036854775808) by (nonlinear_arith)
                    requires
                        acc > (9223372036854775808u64 - dv) / 10,
                        dv <= 9,
                ;
                if all_digits(d) {
                    assert(d.take(i - start + 1) =~= p);
                    lemma_digits_prefix(d, i - start + 1);
                }
                if start == 0 {
                    assert(d =~= s@);
                }
            }
            return None;
        }
        proof {
            assert(acc * 10 + dv <= 9223372036854775808) by (nonlinear_arith)
                requires
                    acc <= (9223372036854775808u64 - dv) / 10,
                    dv <= 9,
            ;
        }
        acc = acc * 10 + dv;
        i = i + 1;
    }
    proof {
        assert(s@.subrange(start as int, n as int) =~= d);
        if start == 0 {
            assert(d =~= s@);
        }
    }
    if neg {
        if acc == 9223372036854775808u64 {
            Some(i64::MIN)
        } else {
            Some(-(acc as i64))
        }
    } else if acc > 9223372036854775807u64 {
        None
    } else {
        Some(acc as i64)
    }
}

/// Reads a decimal `u64` as std's `u64::from_str` does.
pub fn parse_u64(s: &Vec<char>) -> (r: Option<u64>)
    ensures
        r == u64_of(s@),
{
    let n = s.len();
    if n == 0 || s[0] == '-' {
        return None;
    }
    let start: usize = if s[0] == '+' { 1 } else { 0 };
    if start == n {
        return None;
    }
    let ghost d = s@.skip(start as int);
    let mut acc: u64 = 0;
    let mut i: usize = start;
    while i < n
        invariant
            n == s@.len(),
            start <= i <= n,
            start == 0 || start == 1,
            start == 0 ==> s@[0] != '+' && s@[0] != '-',
            start == 1 ==> s@[0] == '+',
            d == s@.skip(start as int),
            all_digits(s@.subrange(start as int, i as int)),
            acc as int == digits_value(s@.subrange(start as int, i as int)),
        decreases n - i,
    {
        let c = s[i];
        if !('0' <= c && c <= '9') {
            proof {
                assert(d[i - start] == c);
                if start == 0 {
                    assert(d =~= s@);
                }
            }
            return None;
        }
        let dv = (c as u32 - '0' as u32) as u64;
        proof {
            assert(s@.subrange(start as int, i as int + 1).drop_last() =~= s@.subrange(
                start as int,
                i as int,
            ));
        }
        if acc > (18446744073709551615u64 - dv) / 10 {
            proof {
                let p = s@.subrange(start as int, i as int + 1);
                assert(p.last() == c);
                assert(digits_value(p) == acc * 10 + dv);
                assert(acc * 10 + dv > 18446744073709551615) by (nonlinear_arith)
                    requires
                        acc > (18446744073709551615u64 - dv) / 10,
                        dv <= 9,
                ;
                if all_digits(d) {
                    assert(d.take(i - start + 1) =~= p);
                    lemma_digits_prefix(d, i - start + 1);
                }
                if start == 0 {
                    assert(d =~= s@);
                }
            }
            return None;
        }
        proof {
            assert(acc * 10 + dv <= 18446744073709551615) by (nonlinear_arith)
                requires
                    acc <= (18446744073709551615u64 - dv) / 10,
                    dv <= 9,
            ;
        }
        acc = acc * 10 + dv;
        i = i + 1;
    }
    proof {
        assert(s@.subrange(start as int, n as int) =~= d);
        if start == 0 {
            assert(d =~= s@);
        }
        lemma_digits_nonneg(d);
    }
    Some(acc)
}

/// Whether `s` is a run of digits with an optional single leading '-'.
pub fn integer_text(s: &Vec<char>) -> (r: bool)
    ensures
        r == is_integer_text(s@),
{
    let n = s.len();
    if n == 0 {
        return false;
    }
    let start: usize = if s[0] == '-' { 1 } else { 0 };
    if start == n {
        return false;
    }
    let mut i: usize = start;
    while i < n
        invariant
            n == s@.len(),
            start <= i <= n,
            start == 0 || (start == 1 && s@[0] == '-'),
            start == 0 ==> s@[0] != '-',
            forall|j: int| start <= j < i ==> is_digit(#[trigger] s@[j]),
        decreases n - i,
    {
        if !('0' <= s[i] && s[i] <= '9') {
            proof {
                if start == 1 {
                    assert(s@.skip(1)[i - 1] == s@[i as int]);
                }
            }
            return false;
        }
        i = i + 1;
    }
    proof {
        if start == 1 {
            assert forall|j: int| 0 <= j < s@.skip(1).len() implies is_digit(
                #[trigger] s@.skip(1)[j],
            ) by {
                assert(s@.skip(1)[j] == s@[j + 1]);
            }
        }
    }
    true
}

// ---------------------------------------------------------------------
// Writing integers
// ---------------------------------------------------------------------

pub open spec fn digit_char(d: nat) -> char {
    ((d + 48) as u8) as char
}

/// The decimal digits of `n`, without leading zeros.
pub open spec fn nat_text(n: nat) -> Seq<char>
    decreases n,
{
    if n < 10 {
        seq![digit_char(n)]
    } else {
        nat_text(n / 10).push(digit_char(n % 10))
    }
}

/// The decimal text of `v`, as `Display` writes an integer.
pub open spec fn int_text(v: int) -> Seq<char> {
    if v < 0 {
        seq!['-'] + nat_text((-v) as nat)
    } else {
        nat_text(v as nat)
    }
}

fn push_nat_text(n: u64, out: &mut Vec<char>)
    ensures
        final(out)@ == old(out)@ + nat_text(n as nat),
    decreases n,
{
    if n >= 10 {
        push_nat_text(n / 10, out);
    }
    let c = ((n % 10) as u8 + 48u8) as char;
    out.push(c);
    proof {
        assert(old(out)@ + nat_text(n as nat) =~= final(out)@) by {
            if n >= 10 {
                assert(nat_text(n as nat) == nat_text((n / 10) as nat).push(
                    digit_char((n % 10) as nat),
                ));
            }
        }
    }
}

/// Appends the decimal text of `v` to `out`.
pub fn push_int_text(v: i64, out: &mut Vec<char>)
    ensures
        final(out)@ == old(out)@ + int_text(v as int),
{
    if v < 0 {
        out.push('-');
        let m: u64 = if v == i64::MIN {
            9223372036854775808u64
        } else {
            (-v) as u64
        };
        push_nat_text(m, out);
        assert(final(out)@ =~= old(out)@ + int_text(v as int));
    } else {
        push_nat_text(v as u64, out);
    }
}


// ---------------------------------------------------------------------
// Float literals
// ---------------------------------------------------------------------
//
// `f64::from_str` accepts exactly the texts that, lowercased, match
//   Float    ::= Sign? ( 'inf' | 'infinity' | 'nan' | Number )
//   Number   ::= ( Digit+ | Digit+ '.' Digit* | Digit* '.' Digit+ ) Exp?
//   Exp      ::= 'e' Sign? Digit+
// The value it yields is left to the host; only the shape is decided here.

pub open spec fn lower_ascii(c: char) -> char {
    if 'A' <= c <= 'Z' {
        ((c as u32) + 32) as char
    } else {
        c
    }
}

pub open spec fn is_mantissa_char(c: char) -> bool {
    is_digit(c) || c == '.'
}

/// Digits with at most one '.', and at least one digit.
pub open spec fn is_mantissa(m: Seq<char>) -> bool {
    &&& forall|i: int| 0 <= i < m.len() ==> is_mantissa_char(#[trigger] m[i])
    &&& forall|i: int, j: int| 0 <= i < m.len() && 0 <= j < m.len() && m[i] == '.' && m[j] == '.' ==> i == j
    &&& exists|i: int| 0 <= i < m.len() && is_digit(#[trigger] m[i])
}

pub open spec fn is_exponent(e: Seq<char>) -> bool {
    ||| e.len() > 0 && all_digits(e)
    ||| e.len() > 1 && (e[0] == '+' || e[0] == '-') && all_digits(e.skip(1))
}

pub open spec fn is_number_text(u: Seq<char>) -> bool {
    ||| is_mantissa(u)
    ||| exists|k: int|
        0 <= k < u.len() && lower_ascii(#[trigger] u[k]) == 'e' && is_mantissa(u.take(k))
            && is_exponent(u.skip(k + 1))
}

pub open spec fn unsigned_part(s: Seq<char>) -> Seq<char> {
    if s.len() > 0 && (s[0] == '+' || s[0] == '-') {
        s.skip(1)
    } else {
        s
    }
}

/// Whether `f64::from_str` accepts `s`.
pub open spec fn is_float_text(s: Seq<char>) -> bool {
    let u = unsigned_part(s);
    let l = u.map_values(|c: char| lower_ascii(c));
    ||| l == seq!['i', 'n', 'f']
    ||| l == seq!['i', 'n', 'f', 'i', 'n', 'i', 't', 'y']
    ||| l == seq!['n', 'a', 'n']
    ||| is_number_text(u)
}

fn lower_ascii_exec(c: char) -> (r: char)
    ensures
        r == lower_ascii(c),
{
    if 'A' <= c && c <= 'Z' {
        ((c as u32) + 32) as u8 as char
    } else {
        c
    }
}

/// Whether `s[from..to]` lowercased equals `word`.
fn lowered_is(s: &Vec<char>, from: usize, to: usize, word: &Vec<char>) -> (r: bool)
    requires
        from <= to <= s@.len(),
    ensures
        r == (s@.subrange(from as int, to as int).map_values(|c: char| lower_ascii(c)) == word@),
{
    let ghost l = s@.subrange(from as int, to as int).map_values(|c: char| lower_ascii(c));
    if to - from != word.len() {
        return false;
    }
    let mut i: usize = 0;
    while i < word.len()
        invariant
            from <= to <= s@.len(),
            to - from == word@.len(),
            i <= word@.len(),
            l == s@.subrange(from as int, to as int).map_values(|c: char| lower_ascii(c)),
            forall|j: int| 0 <= j < i ==> l[j] == word@[j],
        decreases word@.len() - i,
    {
        if lower_ascii_exec(s[from + i]) != word[i] {
            return false;
        }
        i = i + 1;
    }
    assert(l =~= word@);
    true
}

/// Whether `s[from..to]` is a mantissa.
fn mantissa_at(s: &Vec<char>, from: usize, to: usize) -> (r: bool)
    requires
        from <= to <= s@.len(),
    ensures
        r == is_mantissa(s@.subrange(from as int, to as int)),
{
    let ghost m = s@.subrange(from as int, to as int);
    let mut dot: Option<usize> = None;
    let mut digit: Option<usize> = None;
    let mut i: usize = from;
    while i < to
        invariant
            from <= i <= to <= s@.len(),
            m == s@.subrange(from as int, to as int),
            forall|j: int| 0 <= j < i - from ==> is_mantissa_char(#[trigger] m[j]),
            dot is None ==> forall|j: int| 0 <= j < i - from ==> #[trigger] m[j] != '.',
            dot matches Some(k) ==> from <= k < i && m[k - from] == '.' && forall|j: int|
                0 <= j < i - from && #[trigger] m[j] == '.' ==> j == k - from,
            digit is None ==> forall|j: int| 0 <= j < i - from ==> !is_digit(#[trigger] m[j]),
            digit matches Some(k) ==> from <= k < i && is_digit(m[k - from]),
        decreases to - i,
    {
        let c = s[i];
        assert(m[i - from] == c);
        if c == '.' {
            if dot.is_some() {
                return false;
            }
            dot = Some(i);
        } else if '0' <= c && c <= '9' {
            digit = Some(i);
        } else {
            assert(!is_mantissa_char(m[i - from]));
            return false;
        }
        i = i + 1;
    }
    match digit {
        Some(k) => {
            assert(is_digit(m[k - from]));
            true
        },
        None => false,
    }
}

/// Whether `s[from..]` is an exponent.
fn exponent_at(s: &Vec<char>, from: usize) -> (r: bool)
    requires
        from <= s@.len(),
    ensures
        r == is_exponent(s@.skip(from as int)),
{
    let ghost e = s@.skip(from as int);
    let n = s.len();
    if from == n {
        return false;
    }
    let start: usize = if s[from] == '+' || s[from] == '-' { from + 1 } else { from };
    if start == n {
        assert(e[0] == s@[from as int]);
        assert(!is_digit(e[0]));
        return false;
    }
    let mut i: usize = start;
    while i < n
        invariant
            n == s@.len(),
            from <= start <= i <= n,
            e == s@.skip(from as int),
            start == from ==> s@[from as int] != '+' && s@[from as int] != '-',
            start == from + 1 ==> s@[from as int] == '+' || s@[from as int] == '-',
            start == from || start == from + 1,
            forall|j: int| start <= j < i ==> is_digit(#[trigger] s@[j]),
        decreases n - i,
    {
        if !('0' <= s[i] && s[i] <= '9') {
            proof {
                assert(e[i - from] == s@[i as int]);
                if start == from + 1 {
                    assert(e.skip(1)[i - from - 1] == s@[i as int]);
                }
            }
            return false;
        }
        i = i + 1;
    }
    proof {
        if start == from {
            assert forall|j: int| 0 <= j < e.len() implies is_digit(#[trigger] e[j]) by {
                assert(e[j] == s@[from + j]);
            }
        } else {
            assert forall|j: int| 0 <= j < e.skip(1).len() implies is_digit(
                #[trigger] e.skip(1)[j],
            ) by {
                assert(e.skip(1)[j] == s@[from + 1 + j]);
            }
        }
    }
    true
}

fn word(a: char, b: char, c: char) -> (r: Vec<char>)
    ensures
        r@ == seq![a, b, c],
{
    let mut v: Vec<char> = Vec::new();
    v.push(a);
    v.push(b);
    v.push(c);
    assert(v@ =~= seq![a, b, c]);
    v
}

/// Whether `f64::from_str` accepts the characters `s`.
pub fn float_text(s: &Vec<char>) -> (r: bool)
    ensures
        r == is_float_text(s@),
{
    let n = s.len();
    let from: usize = if n > 0 && (s[0] == '+' || s[0] == '-') { 1 } else { 0 };
    let ghost u = unsigned_part(s@);
    proof {
        if from == 0 {
            assert(u =~= s@.subrange(0, n as int));
        } else {
            assert(u =~= s@.subrange(1, n as int));
        }
    }
    let inf = word('i', 'n', 'f');
    let nan = word('n', 'a', 'n');
    let mut infinity = word('i', 'n', 'f');
    infinity.push('i');
    infinity.push('n');
    infinity.push('i');
    infinity.push('t');
    infinity.push('y');
    assert(infinity@ =~= seq!['i', 'n', 'f', 'i', 'n', 'i', 't', 'y']);
    if lowered_is(s, from, n, &inf) || lowered_is(s, from, n, &infinity) || lowered_is(
        s,
        from,
        n,
        &nan,
    ) {
        return true;
    }
    // the first character that cannot belong to a mantissa
    let mut k: usize = from;
    while k < n && (s[k] == '.' || ('0' <= s[k] && s[k] <= '9'))
        invariant
            from <= k <= n,
            n == s@.len(),
            forall|j: int| from <= j < k ==> is_mantissa_char(#[trigger] s@[j]),
        decreases n - k,
    {
        k = k + 1;
    }
    let r = if k == n {
        mantissa_at(s, from, n)
    } else if lower_ascii_exec(s[k]) == 'e' {
        mantissa_at(s, from, k) && exponent_at(s, k + 1)
    } else {
        false
    };
    proof {
        let kk = k - from;
        if k == n {
            assert forall|q: int|
                0 <= q < u.len() && lower_ascii(#[trigger] u[q]) == 'e' implies !(is_mantissa(
                u.take(q),
            ) && is_exponent(u.skip(q + 1))) by {
                assert(u[q] == s@[from + q]);
            }
        } else {
            assert(u[kk] == s@[k as int]);
            assert(!is_mantissa_char(u[kk]));
            assert(!is_mantissa(u));
            assert(u.take(kk) =~= s@.subrange(from as int, k as int));
            assert(u.skip(kk + 1) =~= s@.skip(k + 1));
            assert forall|q: int|
                0 <= q < u.len() && q != kk && lower_ascii(#[trigger] u[q]) == 'e' implies !(
            is_mantissa(u.take(q)) && is_exponent(u.skip(q + 1))) by {
                assert(u[q] == s@[from + q]);
                if q > kk {
                    assert(u.take(q)[kk] == u[kk]);
                } else {
                    assert(!is_mantissa_char(u[q]));
                    assert(u.take(q) =~= u.take(q));
                    assert(is_mantissa(u.take(q)) ==> is_mantissa_char(u.take(q)[q - 1]) || q
                        == 0);
                }
            }
        }
    }
    r
}

} // verus!
