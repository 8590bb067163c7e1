//! Decoding of the numeric and address fields of a record.
//!
//! Each decoder accepts the text that the standard library's `FromStr`
//! implementation for the target type accepts, as its documentation
//! describes it, and on failure gives the message of the kind of failure
//! that the standard library reports there.
use vstd::prelude::*;

use crate::split::chars_of;

verus! {

/// Message for an integer field that is empty.
pub const EMPTY_INTEGER: &'static str = "cannot parse integer from empty string";

/// Message for an integer field that holds a character other than a digit.
pub const INVALID_DIGIT: &'static str = "invalid digit found in string";

/// Message for an integer field whose value does not fit its type.
pub const INTEGER_TOO_LARGE: &'static str = "number too large to fit in target type";

/// Message for a processing time that is empty.
pub const EMPTY_FLOAT: &'static str = "cannot parse float from empty string";

/// Message for a processing time that is not a decimal number.
pub const INVALID_FLOAT: &'static str = "invalid float literal";

/// Message for an address that is not an IPv4 address and a port.
pub const INVALID_SOCKET_ADDRESS: &'static str = "invalid IPv4 socket address syntax";

pub open spec fn is_digit(c: char) -> bool {
    '0' <= c <= '9'
}

pub open spec fn all_digits(t: Seq<char>) -> bool {
    forall|i: int| 0 <= i < t.len() ==> is_digit(#[trigger] t[i])
}

/// The value of a run of decimal digits.
pub open spec fn digits_value(t: Seq<char>) -> nat
    decreases t.len(),
{
    if t.len() == 0 {
        0
    } else {
        digits_value(t.drop_last()) * 10 + (t.last() as nat - '0' as nat) as nat
    }
}

/// A non-empty run of digits whose value is at most `max`.
pub open spec fn digits_within(t: Seq<char>, max: nat) -> bool {
    t.len() > 0 && all_digits(t) && digits_value(t) <= max
}

/// The text of an unsigned integer after its optional leading `+`.
pub open spec fn unsigned_digits(s: Seq<char>) -> Seq<char> {
    if s.len() > 0 && s[0] == '+' {
        s.drop_first()
    } else {
        s
    }
}

/// The value of the digit `c`.
pub open spec fn digit_value(c: char) -> nat {
    (c as nat - '0' as nat) as nat
}

/// Reading the digits `d` from position `i` on, with `value` read so far:
/// each character in turn must be a digit, and the value read up to it must
/// stay at most `max`. The first character that breaks either rule decides
/// the failure.
pub open spec fn scan_unsigned(d: Seq<char>, max: nat, i: int, value: nat) -> Result<
    nat,
    Seq<char>,
>
    decreases d.len() - i,
{
    if i < 0 || i >= d.len() {
        Ok(value)
    } else if !is_digit(d[i]) {
        Err(INVALID_DIGIT@)
    } else if value * 10 + digit_value(d[i]) > max {
        Err(INTEGER_TOO_LARGE@)
    } else {
        scan_unsigned(d, max, i + 1, value * 10 + digit_value(d[i]))
    }
}

/// What reading `s` as an unsigned integer no larger than `max` gives: its
/// value, or the message of the failure.
pub open spec fn unsigned_from(s: Seq<char>, max: nat) -> Result<nat, Seq<char>> {
    let d = unsigned_digits(s);
    if s.len() == 0 {
        Err(EMPTY_INTEGER@)
    } else if d.len() == 0 {
        Err(INVALID_DIGIT@)
    } else {
        scan_unsigned(d, max, 0, 0)
    }
}

proof fn lemma_digits_value_prefix(t: Seq<char>, j: int)
    requires
        all_digits(t),
        0 <= j <= t.len(),
    ensures
        digits_value(t.take(j)) <= digits_value(t),
    decreases t.len(),
{
    if j < t.len() {
        let u = t.drop_last();
        assert(u.take(j) == t.take(j));
        lemma_digits_value_prefix(u, j);
        assert(digits_value(u) <= digits_value(u) * 10) by (nonlinear_arith);
    } else {
        assert(t.take(j) == t);
    }
}

/// The value of the digits `chars[from..to]`, if they are all digits, there
/// is at least one, and the value is at most `max`.
fn digits_in(chars: &Vec<char>, from: usize, to: usize, max: u64) -> (r: Option<u64>)
    requires
        from <= to <= chars@.len(),
    ensures
        r is Some <==> digits_within(chars@.subrange(from as int, to as int), max as nat),
        r is Some ==> r->0 as nat == digits_value(chars@.subrange(from as int, to as int)),
{
    let ghost t = chars@.subrange(from as int, to as int);
    if from == to {
        return None;
    }
    let mut i: usize = from;
    while i < to
        invariant
            from <= i <= to <= chars@.len(),
            t == chars@.subrange(from as int, to as int),
            forall|k: int| from <= k < i ==> is_digit(#[trigger] chars@[k]),
        decreases to - i,
    {
        if !('0' <= chars[i] && chars[i] <= '9') {
            assert(t[i - from] == chars@[i as int]);
            assert(!is_digit(t[i - from]));
            return None;
        }
        i = i + 1;
    }
    assert(all_digits(t)) by {
        assert forall|k: int| 0 <= k < t.len() implies is_digit(#[trigger] t[k]) by {
            assert(t[k] == chars@[from + k]);
        }
    }
    let mut value: u64 = 0;
    let mut i: usize = from;
    while i < to
        invariant
            from <= i <= to <= chars@.len(),
            t == chars@.subrange(from as int, to as int),
            all_digits(t),
            value as nat == digits_value(t.take(i - from)),
            value <= max,
        decreases to - i,
    {
        proof {
            assert(t.take(i - from + 1).drop_last() == t.take(i - from));
            assert(t.take(i - from + 1).last() == chars@[i as int]);
            assert(t[i - from] == chars@[i as int]);
            assert(is_digit(t[i - from]));
        }
        let d = (chars[i] as u32 - '0' as u32) as u64;
        let next: u128 = value as u128 * 10 + d as u128;
        if next > max as u128 {
            proof {
                lemma_digits_value_prefix(t, i - from + 1);
            }
            return None;
        }
        value = next as u64;
        i = i + 1;
    }
    assert(t.take(to - from) == t);
    Some(value)
}

/// Reads `s` as an unsigned integer no larger than `max`: an optional `+`
/// followed by decimal digits, read from left to right.
pub fn parse_unsigned(s: &str, max: u64) -> (r: Result<u64, String>)
    ensures
        match (r, unsigned_from(s@, max as nat)) {
            (Ok(v), Ok(w)) => v as nat == w,
            (Err(e), Err(m)) => e@ == m,
            _ => false,
        },
        r matches Ok(v) ==> v <= max,
{
    let chars = chars_of(s);
    let n = chars.len();
    if n == 0 {
        return Err(EMPTY_INTEGER.to_owned());
    }
    let from: usize = if chars[0] == '+' {
        1
    } else {
        0
    };
    let ghost d = unsigned_digits(s@);
    assert(d == chars@.subrange(from as int, n as int));
    if from == n {
        return Err(INVALID_DIGIT.to_owned());
    }
    let mut value: u64 = 0;
    let mut i: usize = from;
    while i < n
        invariant
            from <= i <= n == chars@.len(),
            chars@ == s@,
            n > 0,
            d.len() > 0,
            d == unsigned_digits(s@),
            d == chars@.subrange(from as int, n as int),
            value <= max,
            scan_unsigned(d, max as nat, i - from, value as nat) == unsigned_from(s@, max as nat),
        decreases n - i,
    {
        let c = chars[i];
        assert(d[i - from] == c);
        if !('0' <= c && c <= '9') {
            return Err(INVALID_DIGIT.to_owned());
        }
        let next: u128 = value as u128 * 10 + (c as u32 - '0' as u32) as u128;
        if next > max as u128 {
            return Err(INTEGER_TOO_LARGE.to_owned());
        }
        value = next as u64;
        i = i + 1;
    }
    Ok(value)
}

pub open spec fn is_sign(c: char) -> bool {
    c == '+' || c == '-'
}

/// Whether `t` spells the lowercase word `w`, ignoring ASCII case.
pub open spec fn spells(t: Seq<char>, w: Seq<char>) -> bool {
    t.len() == w.len() && forall|i: int|
        0 <= i < t.len() ==> #[trigger] t[i] == w[i] || (t[i] as u32) as int + 32 == (w[i] as u32) as int
}

/// A processing time after its optional sign.
pub open spec fn unsigned_float(s: Seq<char>) -> Seq<char> {
    if s.len() > 0 && is_sign(s[0]) {
        s.drop_first()
    } else {
        s
    }
}

/// The index of the first `e` or `E` at or after `from`, or the length of `t`.
pub open spec fn exponent_index(t: Seq<char>, from: int) -> int
    decreases t.len() - from,
{
    if from >= t.len() || t[from] == 'e' || t[from] == 'E' {
        from
    } else {
        exponent_index(t, from + 1)
    }
}

/// Digits with at most one decimal point, and at least one digit.
pub open spec fn valid_mantissa(m: Seq<char>) -> bool {
    &&& forall|i: int| 0 <= i < m.len() ==> is_digit(#[trigger] m[i]) || m[i] == '.'
    &&& exists|i: int| 0 <= i < m.len() && is_digit(#[trigger] m[i])
    &&& forall|i: int, j: int|
        0 <= i < m.len() && 0 <= j < m.len() && #[trigger] m[i] == '.' && #[trigger] m[j] == '.'
            ==> i == j
}

/// An `e` or `E`, an optional sign and at least one digit.
pub open spec fn valid_exponent(x: Seq<char>) -> bool {
    &&& x.len() > 0
    &&& x[0] == 'e' || x[0] == 'E'
    &&& ({
        let r = x.drop_first();
        let d = if r.len() > 0 && is_sign(r[0]) {
            r.drop_first()
        } else {
            r
        };
        d.len() > 0 && all_digits(d)
    })
}

/// Whether `s` is a decimal floating-point literal: an optional sign, then
/// `inf`, `infinity` or `nan` in any case, or a mantissa with an optional
/// exponent.
pub open spec fn is_float_literal(s: Seq<char>) -> bool {
    let b = unsigned_float(s);
    let k = exponent_index(b, 0);
    ||| spells(b, "inf"@)
    ||| spells(b, "infinity"@)
    ||| spells(b, "nan"@)
    ||| valid_mantissa(b.take(k)) && (k == b.len() || valid_exponent(b.skip(k)))
}

/// What checking `s` as a processing time gives: nothing, or the message of
/// the failure.
pub open spec fn float_check(s: Seq<char>) -> Result<(), Seq<char>> {
    if s.len() == 0 {
        Err(EMPTY_FLOAT@)
    } else if is_float_literal(s) {
        Ok(())
    } else {
        Err(INVALID_FLOAT@)
    }
}

pub proof fn lemma_exponent_index(t: Seq<char>, from: int)
    requires
        0 <= from <= t.len(),
    ensures
        from <= exponent_index(t, from) <= t.len(),
        forall|j: int|
            from <= j < exponent_index(t, from) ==> #[trigger] t[j] != 'e' && t[j] != 'E',
        exponent_index(t, from) < t.len() ==> (t[exponent_index(t, from)] == 'e' || t[exponent_index(t, from)] == 'E'),
    decreases t.len() - from,
{
    if from < t.len() && t[from] != 'e' && t[from] != 'E' {
        lemma_exponent_index(t, from + 1);
    }
}

/// Whether `chars[from..]` spells the lowercase word `w`, ignoring ASCII case.
fn spells_at(chars: &Vec<char>, from: usize, w: &str) -> (r: bool)
    requires
        from <= chars@.len(),
    ensures
        r == spells(chars@.subrange(from as int, chars@.len() as int), w@),
{
    let ghost t = chars@.subrange(from as int, chars@.len() as int);
    let wc = chars_of(w);
    if chars.len() - from != wc.len() {
        return false;
    }
    let mut i: usize = 0;
    while i < wc.len()
        invariant
            from + wc@.len() == chars@.len(),
            wc@.len() == wc.len(),
            chars@.len() == chars.len(),
            wc@ == w@,
            t == chars@.subrange(from as int, chars@.len() as int),
            i <= wc@.len(),
            forall|j: int| 0 <= j < i ==> #[trigger] t[j] == w@[j] || (t[j] as u32) as int + 32 == (w@[j] as u32) as int,
        decreases wc.len() - i,
    {
        let c = chars[from + i];
        let l = wc[i];
        assert(t[i as int] == c);
        let cu = c as u32;
        let lu = l as u32;
        if !(c == l || (lu >= 32 && cu == lu - 32)) {
            return false;
        }
        i = i + 1;
    }
    true
}

/// Whether `chars[from..to]` is a valid mantissa.
fn mantissa_at(chars: &Vec<char>, from: usize, to: usize) -> (r: bool)
    requires
        from <= to <= chars@.len(),
    ensures
        r == valid_mantissa(chars@.subrange(from as int, to as int)),
{
    let ghost m = chars@.subrange(from as int, to as int);
    let mut seen_digit = false;
    let mut dot: Option<usize> = None;
    let mut i: usize = from;
    while i < to
        invariant
            from <= i <= to <= chars@.len(),
            m == chars@.subrange(from as int, to as int),
            forall|j: int| from <= j < i ==> is_digit(#[trigger] chars@[j]) || chars@[j] == '.',
            seen_digit <==> exists|j: int| from <= j < i && is_digit(#[trigger] chars@[j]),
            match dot {
                Some(p) => from <= p < i && chars@[p as int] == '.' && forall|j: int|
                    from <= j < i && #[trigger] chars@[j] == '.' ==> j == p,
                None => forall|j: int| from <= j < i ==> #[trigger] chars@[j] != '.',
            },
        decreases to - i,
    {
        let c = chars[i];
        if '0' <= c && c <= '9' {
            seen_digit = true;
        } else if c == '.' {
            if let Some(p) = dot {
                assert(m[p - from] == '.' && m[i - from] == '.');
                assert(!valid_mantissa(m));
                return false;
            }
            dot = Some(i);
        } else {
            assert(m[i - from] == c);
            return false;
        }
        i = i + 1;
    }
    if seen_digit {
        assert(valid_mantissa(m)) by {
            let j = choose|j: int| from <= j < to && is_digit(#[trigger] chars@[j]);
            assert(m[j - from] == chars@[j]);
            assert forall|a: int| 0 <= a < m.len() implies is_digit(#[trigger] m[a]) || m[a] == '.' by {
                assert(m[a] == chars@[from + a]);
            }
            assert forall|a: int, b: int|
                0 <= a < m.len() && 0 <= b < m.len() && #[trigger] m[a] == '.' && #[trigger] m[b] == '.' implies a == b by {
                assert(m[a] == chars@[from + a]);
                assert(m[b] == chars@[from + b]);
            }
        }
    } else {
        assert forall|a: int| 0 <= a < m.len() implies !is_digit(#[trigger] m[a]) by {
            assert(m[a] == chars@[from + a]);
        }
    }
    seen_digit
}

/// Whether `chars[from..]` is a valid exponent.
fn exponent_at(chars: &Vec<char>, from: usize) -> (r: bool)
    requires
        from <= chars@.len(),
    ensures
        r == valid_exponent(chars@.subrange(from as int, chars@.len() as int)),
{
    let ghost x = chars@.subrange(from as int, chars@.len() as int);
    let n = chars.len();
    if from == n || !(chars[from] == 'e' || chars[from] == 'E') {
        return false;
    }
    let mut start: usize = from + 1;
    if start < n && (chars[start] == '+' || chars[start] == '-') {
        start = start + 1;
    }
    let ghost r = x.drop_first();
    let ghost d = if r.len() > 0 && is_sign(r[0]) {
        r.drop_first()
    } else {
        r
    };
    assert(d == chars@.subrange(start as int, n as int));
    assert(valid_exponent(x) == (d.len() > 0 && all_digits(d)));
    if start == n {
        return false;
    }
    let mut i: usize = start;
    while i < n
        invariant
            start <= i <= n == chars@.len(),
            d == chars@.subrange(start as int, n as int),
            x == chars@.subrange(from as int, n as int),
            valid_exponent(x) == (d.len() > 0 && all_digits(d)),
            forall|j: int| start <= j < i ==> is_digit(#[trigger] chars@[j]),
        decreases n - i,
    {
        if !('0' <= chars[i] && chars[i] <= '9') {
            assert(d[i - start] == chars@[i as int]);
            return false;
        }
        i = i + 1;
    }
    assert forall|a: int| 0 <= a < d.len() implies is_digit(#[trigger] d[a]) by {
        assert(d[a] == chars@[start + a]);
    }
    true
}

/// Checks that `s` is a processing time: a decimal floating-point literal as
/// the standard library reads one.
pub fn check_float(s: &str) -> (r: Result<(), String>)
    ensures
        match (r, float_check(s@)) {
            (Ok(_), Ok(_)) => true,
            (Err(e), Err(m)) => e@ == m,
            _ => false,
        },
{
    let chars = chars_of(s);
    let n = chars.len();
    if n == 0 {
        return Err(EMPTY_FLOAT.to_owned());
    }
    let from: usize = if chars[0] == '+' || chars[0] == '-' {
        1
    } else {
        0
    };
    let ghost b = unsigned_float(s@);
    assert(b == chars@.subrange(from as int, n as int));
    if spells_at(&chars, from, "inf") || spells_at(&chars, from, "infinity") || spells_at(
        &chars,
        from,
        "nan",
    ) {
        return Ok(());
    }
    let mut k: usize = from;
    while k < n && chars[k] != 'e' && chars[k] != 'E'
        invariant
            from <= k <= n == chars@.len(),
            b == chars@.subrange(from as int, n as int),
            exponent_index(b, k - from) == exponent_index(b, 0),
        decreases n - k,
    {
        assert(b[k - from] == chars@[k as int]);
        k = k + 1;
    }
    proof {
        if k < n {
            assert(b[k - from] == chars@[k as int]);
        }
        assert(exponent_index(b, k - from) == k - from);
        assert(b.take(k - from) == chars@.subrange(from as int, k as int));
        assert(b.skip(k - from) == chars@.subrange(k as int, n as int));
    }
    if mantissa_at(&chars, from, k) && (k == n || exponent_at(&chars, k)) {
        Ok(())
    } else {
        Err(INVALID_FLOAT.to_owned())
    }
}

/// An IPv4 address and a port.
#[derive(Debug, Clone, Copy, PartialEq, Eq)]
pub struct SocketAddress {
    /// The four octets of the address, most significant first.
    pub octets: [u8; 4],
    pub port: u16,
}

/// The positions of the characters of `t` that are not digits, in order.
pub open spec fn separator_positions(t: Seq<char>) -> Seq<int>
    decreases t.len(),
{
    if t.len() == 0 {
        Seq::empty()
    } else {
        let p = separator_positions(t.drop_last());
        if is_digit(t.last()) {
            p
        } else {
            p.push(t.len() - 1)
        }
    }
}

/// One to three digits with a value of at most 255 and no leading zero.
pub open spec fn valid_octet(t: Seq<char>) -> bool {
    digits_within(t, 255) && t.len() <= 3 && (t.len() == 1 || t[0] != '0')
}

/// The texts of the four octets and of the port of `s`, cut at the positions
/// of its separators.
pub open spec fn socket_pieces(s: Seq<char>) -> Seq<Seq<char>> {
    let p = separator_positions(s);
    seq![
        s.subrange(0, p[0]),
        s.subrange(p[0] + 1, p[1]),
        s.subrange(p[1] + 1, p[2]),
        s.subrange(p[2] + 1, p[3]),
        s.subrange(p[3] + 1, s.len() as int),
    ]
}

/// Whether `s` is an IPv4 address in dotted decimal notation, a colon and a
/// port number.
pub open spec fn is_socket_address(s: Seq<char>) -> bool {
    let p = separator_positions(s);
    let t = socket_pieces(s);
    &&& p.len() == 4
    &&& s[p[0]] == '.' && s[p[1]] == '.' && s[p[2]] == '.' && s[p[3]] == ':'
    &&& valid_octet(t[0]) && valid_octet(t[1]) && valid_octet(t[2]) && valid_octet(t[3])
    &&& digits_within(t[4], 65535)
}

/// Whether `a` is the address that the text `s` names.
pub open spec fn names_address(s: Seq<char>, a: SocketAddress) -> bool {
    let t = socket_pieces(s);
    &&& a.octets@ == seq![
        digits_value(t[0]) as u8,
        digits_value(t[1]) as u8,
        digits_value(t[2]) as u8,
        digits_value(t[3]) as u8,
    ]
    &&& a.port as nat == digits_value(t[4])
}

pub proof fn lemma_separator_positions(t: Seq<char>)
    ensures
        forall|k: int|
            0 <= k < separator_positions(t).len() ==> 0 <= #[trigger] separator_positions(t)[k]
                < t.len() && !is_digit(t[separator_positions(t)[k]]),
        forall|k: int, l: int|
            0 <= k < l < separator_positions(t).len() ==> #[trigger] separator_positions(t)[k]
                < #[trigger] separator_positions(t)[l],
    decreases t.len(),
{
    if t.len() > 0 {
        let u = t.drop_last();
        lemma_separator_positions(u);
        assert forall|k: int|
            0 <= k < separator_positions(u).len() implies t[separator_positions(u)[k]] == u[separator_positions(u)[k]] by {
        }
    }
}

/// Reads `s` as an IPv4 address and a port, such as `172.16.1.5:9000`.
pub fn parse_socket_address(s: &str) -> (r: Result<SocketAddress, String>)
    ensures
        r is Ok <==> is_socket_address(s@),
        r matches Ok(a) ==> names_address(s@, a),
        r matches Err(e) ==> e@ == INVALID_SOCKET_ADDRESS@,
{
    let chars = chars_of(s);
    let n = chars.len();
    let mut pos: Vec<usize> = Vec::new();
    let mut i: usize = 0;
    while i < n
        invariant
            i <= n == chars@.len(),
            chars@ == s@,
            pos@.len() == separator_positions(chars@.take(i as int)).len(),
            forall|k: int|
                0 <= k < pos@.len() ==> #[trigger] pos@[k] as int == separator_positions(
                    chars@.take(i as int),
                )[k],
        decreases n - i,
    {
        proof {
            assert(chars@.take(i + 1).drop_last() == chars@.take(i as int));
            assert(chars@.take(i + 1).last() == chars@[i as int]);
        }
        if !('0' <= chars[i] && chars[i] <= '9') {
            pos.push(i);
        }
        i = i + 1;
    }
    proof {
        assert(chars@.take(n as int) == s@);
        lemma_separator_positions(s@);
    }
    let ghost p = separator_positions(s@);
    let ghost t = socket_pieces(s@);
    if pos.len() != 4 {
        return Err(INVALID_SOCKET_ADDRESS.to_owned());
    }
    assert(p[0] < p[1] < p[2] < p[3]);
    if !(chars[pos[0]] == '.' && chars[pos[1]] == '.' && chars[pos[2]] == '.' && chars[pos[3]]
        == ':') {
        return Err(INVALID_SOCKET_ADDRESS.to_owned());
    }
    let mut octets: [u8; 4] = [0, 0, 0, 0];
    let mut k: usize = 0;
    while k < 4
        invariant
            0 <= k <= 4,
            n == chars@.len(),
            chars@ == s@,
            p == separator_positions(s@),
            t == socket_pieces(s@),
            p.len() == 4,
            forall|j: int| 0 <= j < 4 ==> #[trigger] pos@[j] as int == p[j],
            pos@.len() == 4,
            0 <= p[0] < p[1] < p[2] < p[3] < n,
            forall|j: int| 0 <= j < k ==> valid_octet(#[trigger] t[j]) && octets@[j] == digits_value(t[j]) as u8,
        decreases 4 - k,
    {
        let from: usize = if k == 0 {
            0
        } else {
            pos[k - 1] + 1
        };
        let to: usize = pos[k];
        assert(t[k as int] == chars@.subrange(from as int, to as int));
        let v = digits_in(&chars, from, to, 255);
        match v {
            Some(v) => {
                if to - from > 3 || (to - from > 1 && chars[from] == '0') {
                    assert(t[k as int][0] == chars@[from as int]);
                    return Err(INVALID_SOCKET_ADDRESS.to_owned());
                }
                proof {
                    if to - from > 1 {
                        assert(t[k as int][0] == chars@[from as int]);
                    }
                }
                octets[k] = v as u8;
            },
            None => {
                return Err(INVALID_SOCKET_ADDRESS.to_owned());
            },
        }
        k = k + 1;
    }
    assert(t[4] == chars@.subrange(pos[3] + 1, n as int));
    match digits_in(&chars, pos[3] + 1, n, 65535) {
        Some(port) => {
            let a = SocketAddress { octets, port: port as u16 };
            assert(a.octets@ =~= seq![
                digits_value(t[0]) as u8,
                digits_value(t[1]) as u8,
                digits_value(t[2]) as u8,
                digits_value(t[3]) as u8,
            ]);
            Ok(a)
        },
        None => Err(INVALID_SOCKET_ADDRESS.to_owned()),
    }
}

} // verus!
