//! Raw candidate values, the closed set of value kinds an item can declare,
//! and verified parsers that coerce text into the typed kinds.

use vstd::prelude::*;
use vstd::string::StrSliceExecFns;
use crate::text::str_eq;

verus! {

/// A fixed-point decimal: `mantissa / 10^scale`, negated when `negative`.
/// Stands in for fractional numeric configuration values.
#[derive(Clone, Copy, Debug, PartialEq, Eq, Structural)]
pub struct Decimal {
    pub negative: bool,
    pub mantissa: u64,
    pub scale: u32,
}

/// A raw candidate value offered by a source: either already typed, or text
/// still to be parsed, or raw bytes.
#[derive(Debug, PartialEq)]
pub enum RawValue {
    Text(String),
    Integer(i64),
    Numeric(Decimal),
    Boolean(bool),
    Bytes(Vec<u8>),
}

/// The kind of value a configuration item declares for its slot.
#[derive(Clone, Copy, Debug, PartialEq, Eq, Structural)]
pub enum ValueKind {
    Text,
    Integer,
    Numeric,
    Boolean,
    Bytes,
}

/// Why an item refused a candidate value.
#[derive(Debug, Clone, Copy, PartialEq, Eq, Structural)]
pub enum AcceptError {
    /// The candidate was textual and the declared kind parses from text,
    /// but the text did not parse.
    ParseFailed,
    /// No coercion path exists from the candidate to the declared kind.
    ValueNotHandled,
}

/// Text fetched from the operating system: either valid Unicode or not.
#[derive(Debug, PartialEq)]
pub enum OsText {
    Unicode(String),
    NotUnicode,
}

pub open spec fn kind_of(v: RawValue) -> ValueKind {
    match v {
        RawValue::Text(_) => ValueKind::Text,
        RawValue::Integer(_) => ValueKind::Integer,
        RawValue::Numeric(_) => ValueKind::Numeric,
        RawValue::Boolean(_) => ValueKind::Boolean,
        RawValue::Bytes(_) => ValueKind::Bytes,
    }
}

impl RawValue {
    /// The kind this candidate already has.
    pub fn kind(&self) -> (k: ValueKind)
        ensures
            k == kind_of(*self),
    {
        match self {
            RawValue::Text(_) => ValueKind::Text,
            RawValue::Integer(_) => ValueKind::Integer,
            RawValue::Numeric(_) => ValueKind::Numeric,
            RawValue::Boolean(_) => ValueKind::Boolean,
            RawValue::Bytes(_) => ValueKind::Bytes,
        }
    }
}

/// Relies on `Vec::clone` from std: cloning a vector of bytes returns an
/// equal vector.
#[verifier::external_body]
pub(crate) fn clone_bytes(v: &Vec<u8>) -> (r: Vec<u8>)
    ensures
        r == *v,
{
    v.clone()
}

impl Clone for OsText {
    fn clone(&self) -> (r: Self)
        ensures
            r == *self,
    {
        match self {
            OsText::Unicode(s) => OsText::Unicode(s.clone()),
            OsText::NotUnicode => OsText::NotUnicode,
        }
    }
}

impl Clone for RawValue {
    fn clone(&self) -> (r: Self)
        ensures
            r == *self,
    {
        match self {
            RawValue::Text(s) => RawValue::Text(s.clone()),
            RawValue::Integer(i) => RawValue::Integer(*i),
            RawValue::Numeric(d) => RawValue::Numeric(*d),
            RawValue::Boolean(b) => RawValue::Boolean(*b),
            RawValue::Bytes(v) => RawValue::Bytes(clone_bytes(v)),
        }
    }
}

// ---------------------------------------------------------------------------
// Digit strings.
// ---------------------------------------------------------------------------
pub open spec fn is_digit_char(c: char) -> bool {
    48 <= c as int <= 57
}

pub open spec fn digit_value(c: char) -> nat {
    (c as int - 48) as nat
}

pub open spec fn all_digits(s: Seq<char>) -> bool {
    forall|i: int| 0 <= i < s.len() ==> is_digit_char(s[i])
}

/// The numeric value of a digit string, most significant digit first.
pub open spec fn digits_val(s: Seq<char>) -> nat
    decreases s.len(),
{
    if s.len() == 0 {
        0
    } else {
        digits_val(s.drop_last()) * 10 + digit_value(s.last())
    }
}

/// The same accumulation started from `init`, front to back; this is the
/// shape the executable loops take.
pub open spec fn digits_ext(init: nat, s: Seq<char>) -> nat
    decreases s.len(),
{
    if s.len() == 0 {
        init
    } else {
        digits_ext(init * 10 + digit_value(s[0]), s.drop_first())
    }
}

proof fn lemma_digits_ext_push(init: nat, s: Seq<char>, c: char)
    ensures
        digits_ext(init, s.push(c)) == digits_ext(init, s) * 10 + digit_value(c),
    decreases s.len(),
{
    assert(s.push(c).len() == s.len() + 1);
    if s.len() == 0 {
        assert(s.push(c)[0] == c);
        assert(s.push(c).drop_first() =~= Seq::<char>::empty());
        assert(digits_ext(init, s.push(c)) == digits_ext(
            init * 10 + digit_value(c),
            s.push(c).drop_first(),
        ));
        assert(digits_ext(init * 10 + digit_value(c), Seq::<char>::empty()) == init * 10
            + digit_value(c));
    } else {
        assert(s.push(c)[0] == s[0]);
        assert(s.push(c).drop_first() =~= s.drop_first().push(c));
        assert(digits_ext(init, s.push(c)) == digits_ext(
            init * 10 + digit_value(s[0]),
            s.drop_first().push(c),
        ));
        lemma_digits_ext_push(init * 10 + digit_value(s[0]), s.drop_first(), c);
        assert(digits_ext(init, s) == digits_ext(init * 10 + digit_value(s[0]), s.drop_first()));
    }
}

/// Accumulating the digits of `b` after those of `a` yields the value of the
/// concatenated digit string.
proof fn lemma_digits_ext_concat(a: Seq<char>, b: Seq<char>)
    ensures
        digits_ext(digits_val(a), b) == digits_val(a + b),
    decreases b.len(),
{
    if b.len() == 0 {
        assert(a + b =~= a);
    } else {
        let b0 = b.drop_last();
        lemma_digits_ext_concat(a, b0);
        assert(b0.push(b.last()) =~= b);
        lemma_digits_ext_push(digits_val(a), b0, b.last());
        assert((a + b).drop_last() =~= a + b0);
    }
}

/// Extending a digit accumulation can only grow it.
proof fn lemma_digits_ext_lower_bound(init: nat, s: Seq<char>)
    ensures
        digits_ext(init, s) >= init,
    decreases s.len(),
{
    if s.len() > 0 {
        lemma_digits_ext_lower_bound(init * 10 + digit_value(s[0]), s.drop_first());
    }
}

// ---------------------------------------------------------------------------
// Integer literals.
// ---------------------------------------------------------------------------
/// The literal with a single leading sign removed.
pub open spec fn unsigned_part(s: Seq<char>) -> Seq<char> {
    if s.len() > 0 && (s[0] == '-' || s[0] == '+') {
        s.drop_first()
    } else {
        s
    }
}

pub open spec fn is_negative_literal(s: Seq<char>) -> bool {
    s.len() > 0 && s[0] == '-'
}

pub open spec fn int_grammar(s: Seq<char>) -> bool {
    unsigned_part(s).len() > 0 && all_digits(unsigned_part(s))
}

/// What parsing a signed 64-bit integer from text returns: `None` exactly on
/// bad grammar or a magnitude out of range.
pub open spec fn parse_i64_spec(s: Seq<char>) -> Option<i64> {
    if int_grammar(s) {
        let m = digits_val(unsigned_part(s));
        if is_negative_literal(s) {
            if m <= 0x8000_0000_0000_0000 {
                Some((-(m as int)) as i64)
            } else {
                None
            }
        } else {
            if m <= 0x7fff_ffff_ffff_ffff {
                Some(m as i64)
            } else {
                None
            }
        }
    } else {
        None
    }
}

// ---------------------------------------------------------------------------
// Boolean literals.
// ---------------------------------------------------------------------------
pub open spec fn parse_bool_spec(s: Seq<char>) -> Option<bool> {
    if s == seq!['t', 'r', 'u', 'e'] {
        Some(true)
    } else if s == seq!['f', 'a', 'l', 's', 'e'] {
        Some(false)
    } else {
        None
    }
}

// ---------------------------------------------------------------------------
// Decimal literals.
// ---------------------------------------------------------------------------
/// Index of the first `.` in `s`, or `s.len()` when there is none.
pub open spec fn dot_index(s: Seq<char>) -> int
    decreases s.len(),
{
    if s.len() == 0 {
        0
    } else if s[0] == '.' {
        0
    } else {
        1 + dot_index(s.drop_first())
    }
}

proof fn lemma_dot_index_is(s: Seq<char>, k: int)
    requires
        0 <= k <= s.len(),
        forall|j: int| 0 <= j < k ==> s[j] != '.',
        k < s.len() ==> s[k] == '.',
    ensures
        dot_index(s) == k,
    decreases k,
{
    if k == 0 {
    } else {
        assert(s[0] != '.');
        let t = s.drop_first();
        assert(forall|j: int| 0 <= j < k - 1 ==> t[j] == s[j + 1] && t[j] != '.');
        lemma_dot_index_is(t, k - 1);
    }
}

pub open spec fn decimal_grammar(s: Seq<char>) -> bool {
    let b = unsigned_part(s);
    let d = dot_index(b);
    &&& d > 0
    &&& all_digits(b.take(d))
    &&& (d < b.len() ==> d + 1 < b.len() && all_digits(b.skip(d + 1)))
}

/// All digits of the literal, the dot removed.
pub open spec fn decimal_digits(s: Seq<char>) -> Seq<char> {
    let b = unsigned_part(s);
    let d = dot_index(b);
    if d < b.len() {
        b.take(d) + b.skip(d + 1)
    } else {
        b
    }
}

/// How many digits follow the dot.
pub open spec fn decimal_scale(s: Seq<char>) -> nat {
    let b = unsigned_part(s);
    let d = dot_index(b);
    if d < b.len() {
        (b.len() - d - 1) as nat
    } else {
        0
    }
}

/// What parsing a decimal literal from text returns: `None` exactly on bad
/// grammar, a mantissa over `u64::MAX`, or a scale over `u32::MAX`.
pub open spec fn parse_decimal_spec(s: Seq<char>) -> Option<Decimal> {
    if decimal_grammar(s) && digits_val(decimal_digits(s)) <= u64::MAX && decimal_scale(s)
        <= u32::MAX {
        Some(
            Decimal {
                negative: is_negative_literal(s),
                mantissa: digits_val(decimal_digits(s)) as u64,
                scale: decimal_scale(s) as u32,
            },
        )
    } else {
        None
    }
}

// ---------------------------------------------------------------------------
// Coercion.
// ---------------------------------------------------------------------------
/// The coercion policy of a configuration item, in order: a candidate whose
/// kind already matches is taken as it is; otherwise a textual candidate is
/// parsed when the declared kind parses from text; otherwise there is no
/// coercion path.
pub open spec fn coerce_spec(kind: ValueKind, v: RawValue) -> Result<RawValue, AcceptError> {
    if kind_of(v) == kind {
        Ok(v)
    } else {
        match v {
            RawValue::Text(s) => match kind {
                ValueKind::Integer => match parse_i64_spec(s@) {
                    Some(i) => Ok(RawValue::Integer(i)),
                    None => Err(AcceptError::ParseFailed),
                },
                ValueKind::Numeric => match parse_decimal_spec(s@) {
                    Some(d) => Ok(RawValue::Numeric(d)),
                    None => Err(AcceptError::ParseFailed),
                },
                ValueKind::Boolean => match parse_bool_spec(s@) {
                    Some(b) => Ok(RawValue::Boolean(b)),
                    None => Err(AcceptError::ParseFailed),
                },
                _ => Err(AcceptError::ValueNotHandled),
            },
            _ => Err(AcceptError::ValueNotHandled),
        }
    }
}

/// Coerce a raw candidate to the declared kind.
pub fn coerce(kind: ValueKind, v: RawValue) -> (r: Result<RawValue, AcceptError>)
    ensures
        r == coerce_spec(kind, v),
{
    if v.kind() == kind {
        return Ok(v);
    }
    match v {
        RawValue::Text(s) => match kind {
            ValueKind::Integer => match parse_i64(s.as_str()) {
                Some(i) => Ok(RawValue::Integer(i)),
                None => Err(AcceptError::ParseFailed),
            },
            ValueKind::Numeric => match parse_decimal(s.as_str()) {
                Some(d) => Ok(RawValue::Numeric(d)),
                None => Err(AcceptError::ParseFailed),
            },
            ValueKind::Boolean => match parse_bool(s.as_str()) {
                Some(b) => Ok(RawValue::Boolean(b)),
                None => Err(AcceptError::ParseFailed),
            },
            _ => Err(AcceptError::ValueNotHandled),
        },
        _ => Err(AcceptError::ValueNotHandled),
    }
}

// ---------------------------------------------------------------------------
// Executable parsers.
// ---------------------------------------------------------------------------
/// Fold the digits of `s[from..to]` onto `acc`. Returns `None` on a
/// non-digit character or on overflow past `u64::MAX`.
fn accumulate_digits(s: &str, from: usize, to: usize, acc: u64) -> (r: Option<u64>)
    requires
        from <= to <= s@.len(),
    ensures
        ({
            let part = s@.subrange(from as int, to as int);
            match r {
                Some(v) => all_digits(part) && digits_ext(acc as nat, part) <= u64::MAX && v
                    == digits_ext(acc as nat, part),
                None => !all_digits(part) || digits_ext(acc as nat, part) > u64::MAX,
            }
        }),
{
    let ghost part = s@.subrange(from as int, to as int);
    let mut cur: u64 = acc;
    let mut i: usize = from;
    while i < to
        invariant
            from <= i <= to <= s@.len(),
            part == s@.subrange(from as int, to as int),
            all_digits(s@.subrange(from as int, i as int)),
            digits_ext(acc as nat, part) == digits_ext(
                cur as nat,
                s@.subrange(i as int, to as int),
            ),
        decreases to - i,
    {
        let ghost rest = s@.subrange(i as int, to as int);
        let c = s.get_char(i);
        let u = c as u32;
        if u < 48 || u > 57 {
            proof {
                assert(part[i - from] == s@[i as int]);
                assert(!is_digit_char(part[i - from]));
            }
            return None;
        }
        let d: u64 = (u - 48) as u64;
        proof {
            assert(rest[0] == s@[i as int]);
            assert(digit_value(rest[0]) == d as nat);
            assert(rest.drop_first() =~= s@.subrange(i + 1, to as int));
        }
        let next = match cur.checked_mul(10) {
            Some(x) => x.checked_add(d),
            None => None,
        };
        match next {
            Some(x) => {
                cur = x;
            },
            None => {
                proof {
                    // The running value already exceeds u64::MAX, and
                    // appending further digits cannot shrink it.
                    if all_digits(part) {
                        assert(all_digits(rest.drop_first())) by {
                            assert(forall|j: int|
                                0 <= j < rest.drop_first().len() ==> rest.drop_first()[j]
                                    == part[i - from + 1 + j]);
                        }
                        lemma_digits_ext_lower_bound(
                            cur as nat * 10 + d as nat,
                            rest.drop_first(),
                        );
                    }
                }
                return None;
            },
        }
        proof {
            assert(s@.subrange(from as int, i + 1) =~= s@.subrange(from as int, i as int).push(
                s@[i as int],
            ));
        }
        i += 1;
    }
    proof {
        assert(s@.subrange(i as int, to as int) =~= Seq::<char>::empty());
        assert(s@.subrange(from as int, i as int) =~= part);
    }
    Some(cur)
}

/// Sign handling shared by the numeric parsers: whether the literal opens
/// with a sign, and whether it is a minus.
fn split_sign(s: &str) -> (r: (bool, usize))
    ensures
        r.1 <= 1,
        r.1 as int <= s@.len(),
        unsigned_part(s@) == s@.skip(r.1 as int),
        r.0 == is_negative_literal(s@),
{
    let n = s.unicode_len();
    if n > 0 {
        let c0 = s.get_char(0);
        if c0 == '-' {
            proof {
                assert(unsigned_part(s@) =~= s@.skip(1));
            }
            (true, 1)
        } else if c0 == '+' {
            proof {
                assert(unsigned_part(s@) =~= s@.skip(1));
            }
            (false, 1)
        } else {
            proof {
                assert(unsigned_part(s@) =~= s@.skip(0));
            }
            (false, 0)
        }
    } else {
        proof {
            assert(unsigned_part(s@) =~= s@.skip(0));
        }
        (false, 0)
    }
}

/// Parse a signed 64-bit integer from text.
pub fn parse_i64(s: &str) -> (r: Option<i64>)
    ensures
        r == parse_i64_spec(s@),
{
    let n = s.unicode_len();
    let (neg, start) = split_sign(s);
    let ghost b = unsigned_part(s@);
    proof {
        assert(b =~= s@.subrange(start as int, n as int));
    }
    if start == n {
        return None;
    }
    match accumulate_digits(s, start, n, 0) {
        None => {
            proof {
                if all_digits(b) {
                    assert(digits_ext(0, b) == digits_val(Seq::<char>::empty() + b)) by {
                        lemma_digits_ext_concat(Seq::<char>::empty(), b);
                    }
                    assert(Seq::<char>::empty() + b =~= b);
                }
            }
            None
        },
        Some(m) => {
            proof {
                lemma_digits_ext_concat(Seq::<char>::empty(), b);
                assert(Seq::<char>::empty() + b =~= b);
            }
            if neg {
                if m > 0x8000_0000_0000_0000u64 {
                    None
                } else if m == 0x8000_0000_0000_0000u64 {
                    Some(i64::MIN)
                } else {
                    Some(-(m as i64))
                }
            } else {
                if m > 0x7fff_ffff_ffff_ffffu64 {
                    None
                } else {
                    Some(m as i64)
                }
            }
        },
    }
}

/// Parse a boolean from text: exactly `true` or `false`.
pub fn parse_bool(s: &str) -> (r: Option<bool>)
    ensures
        r == parse_bool_spec(s@),
{
    proof {
        reveal_strlit("true");
        reveal_strlit("false");
        assert("true"@ =~= seq!['t', 'r', 'u', 'e']);
        assert("false"@ =~= seq!['f', 'a', 'l', 's', 'e']);
    }
    if str_eq(s, "true") {
        Some(true)
    } else if str_eq(s, "false") {
        Some(false)
    } else {
        None
    }
}

/// Index of the first occurrence of `c` in `s` at or after `start`, or the
/// length of `s` when there is none.
fn find_from(s: &str, start: usize, c: char) -> (r: usize)
    requires
        start <= s@.len(),
    ensures
        start <= r <= s@.len(),
        forall|j: int| start <= j < r ==> s@[j] != c,
        r < s@.len() ==> s@[r as int] == c,
{
    let n = s.unicode_len();
    let mut i: usize = start;
    while i < n
        invariant
            start <= i <= n,
            n == s@.len(),
            forall|j: int| start <= j < i ==> s@[j] != c,
        decreases n - i,
    {
        if s.get_char(i) == c {
            return i;
        }
        i += 1;
    }
    n
}

/// Parse a decimal literal from text.
pub fn parse_decimal(s: &str) -> (r: Option<Decimal>)
    ensures
        r == parse_decimal_spec(s@),
{
    let n = s.unicode_len();
    let (neg, start) = split_sign(s);
    let ghost b = unsigned_part(s@);
    proof {
        assert(b =~= s@.subrange(start as int, n as int));
    }
    // Find the first dot at or after the sign.
    let dot = find_from(s, start, '.');
    proof {
        assert(forall|j: int| 0 <= j < b.len() ==> b[j] == s@[start + j]);
        assert(forall|j: int| 0 <= j < dot - start ==> b[j] != '.');
        if dot < n {
            assert(b[dot - start] == s@[dot as int]);
        }
        lemma_dot_index_is(b, dot - start);
    }
    let ghost d = dot_index(b);
    if dot == start {
        // Empty integer part.
        return None;
    }
    let ghost ip = b.take(d);
    proof {
        assert(ip =~= s@.subrange(start as int, dot as int));
    }
    match accumulate_digits(s, start, dot, 0) {
        None => {
            proof {
                lemma_digits_ext_concat(Seq::<char>::empty(), ip);
                assert(Seq::<char>::empty() + ip =~= ip);
                if decimal_grammar(s@) && digits_val(decimal_digits(s@)) <= u64::MAX {
                    // The integer part alone already overflows, so the whole
                    // mantissa does too.
                    if d < b.len() {
                        lemma_digits_ext_concat(ip, b.skip(d + 1));
                        lemma_digits_ext_lower_bound(digits_val(ip), b.skip(d + 1));
                    }
                }
            }
            None
        },
        Some(m1) => {
            proof {
                lemma_digits_ext_concat(Seq::<char>::empty(), ip);
                assert(Seq::<char>::empty() + ip =~= ip);
            }
            if dot == n {
                proof {
                    assert(decimal_digits(s@) == ip);
                    assert(decimal_grammar(s@));
                }
                Some(Decimal { negative: neg, mantissa: m1, scale: 0 })
            } else {
                if dot + 1 == n {
                    // Empty fraction part.
                    return None;
                }
                let ghost fp = b.skip(d + 1);
                proof {
                    assert(fp =~= s@.subrange(dot + 1, n as int));
                }
                match accumulate_digits(s, dot + 1, n, m1) {
                    None => {
                        proof {
                            lemma_digits_ext_concat(ip, fp);
                        }
                        None
                    },
                    Some(m) => {
                        proof {
                            lemma_digits_ext_concat(ip, fp);
                            assert(decimal_digits(s@) == ip + fp);
                            assert(decimal_grammar(s@));
                        }
                        let scale_usize = n - dot - 1;
                        if scale_usize > 0xffff_ffffusize {
                            None
                        } else {
                            Some(Decimal { negative: neg, mantissa: m, scale: scale_usize as u32 })
                        }
                    },
                }
            }
        },
    }
}

} // verus!
