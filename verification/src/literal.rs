use vstd::prelude::*;
use crate::error::AssemblerError;
use crate::text::{CharClass, in_class, in_class_exec};

verus! {

/// A numeric base of a literal: hexadecimal (`0x`), decimal, or binary (`0b`).
#[derive(Clone, Copy, Debug, PartialEq, Eq, Structural)]
pub enum Base {
    Hex,
    Dec,
    Bin,
}

pub open spec fn base_radix(b: Base) -> int {
    match b {
        Base::Hex => 16,
        Base::Dec => 10,
        Base::Bin => 2,
    }
}

pub open spec fn base_class(b: Base) -> CharClass {
    match b {
        Base::Hex => CharClass::Hexadecimal,
        Base::Dec => CharClass::Decimal,
        Base::Bin => CharClass::Binary,
    }
}

/// The numeric value of one digit character; hexadecimal letters in either
/// case count from ten.
pub open spec fn digit_val(c: char) -> int {
    if '0' <= c && c <= '9' {
        c as int - '0' as int
    } else if 'a' <= c && c <= 'f' {
        c as int - 'a' as int + 10
    } else if 'A' <= c && c <= 'F' {
        c as int - 'A' as int + 10
    } else {
        0
    }
}

/// Every character of `s` is a digit of base `b`.
pub open spec fn digits_ok(s: Seq<char>, b: Base) -> bool {
    forall|k: int| 0 <= k < s.len() ==> in_class(#[trigger] s[k], base_class(b))
}

/// The value of a digit string read in base `b`, most significant digit
/// first.
pub open spec fn radix_val(s: Seq<char>, b: Base) -> int
    decreases s.len(),
{
    if s.len() == 0 {
        0
    } else {
        radix_val(s.drop_last(), b) * base_radix(b) + digit_val(s.last())
    }
}

/// A digit string is accepted when it is non-empty, made of digits of the
/// base, and its value fits the native unsigned integer width.
pub open spec fn radix_accepts(s: Seq<char>, b: Base) -> bool {
    s.len() > 0 && digits_ok(s, b) && radix_val(s, b) <= usize::MAX as int
}

pub proof fn lemma_radix_nonneg(s: Seq<char>, b: Base)
    ensures
        0 <= radix_val(s, b),
    decreases s.len(),
{
    if s.len() > 0 {
        lemma_radix_nonneg(s.drop_last(), b);
        assert(radix_val(s.drop_last(), b) * base_radix(b) >= 0) by (nonlinear_arith)
            requires
                radix_val(s.drop_last(), b) >= 0,
                base_radix(b) >= 2,
        ;
    }
}

/// The value of any prefix of a digit string is at most the value of the
/// whole string.
pub proof fn lemma_radix_prefix_le(s: Seq<char>, b: Base, m: int)
    requires
        0 <= m <= s.len(),
    ensures
        radix_val(s.subrange(0, m), b) <= radix_val(s, b),
    decreases s.len() - m,
{
    if m == s.len() {
        assert(s.subrange(0, m) =~= s);
    } else {
        lemma_radix_prefix_le(s, b, m + 1);
        let p = s.subrange(0, m + 1);
        assert(p.drop_last() =~= s.subrange(0, m));
        assert(p.last() == s[m]);
        lemma_radix_nonneg(s.subrange(0, m), b);
        assert(radix_val(s.subrange(0, m), b) * base_radix(b) >= radix_val(s.subrange(0, m), b))
            by (nonlinear_arith)
            requires
                radix_val(s.subrange(0, m), b) >= 0,
                base_radix(b) >= 2,
        ;
        assert(digit_val(s[m]) >= 0);
    }
}

fn base_radix_exec(b: Base) -> (r: usize)
    ensures
        r == base_radix(b),
{
    match b {
        Base::Hex => 16,
        Base::Dec => 10,
        Base::Bin => 2,
    }
}

fn digit_val_exec(c: char) -> (d: usize)
    requires
        crate::text::is_hex_digit(c),
    ensures
        d == digit_val(c),
{
    if '0' <= c && c <= '9' {
        (c as u32 - '0' as u32) as usize
    } else if 'a' <= c && c <= 'f' {
        (c as u32 - 'a' as u32 + 10) as usize
    } else {
        (c as u32 - 'A' as u32 + 10) as usize
    }
}

/// Read the digits of `v` from position `start` on as one number of base
/// `b`: the value if the digits are well-formed and fit the native width,
/// and the literal-overflow error otherwise.
pub fn parse_radix(v: &Vec<char>, start: usize, b: Base) -> (r: Result<usize, AssemblerError>)
    requires
        start <= v@.len(),
    ensures
        match r {
            Ok(n) => radix_accepts(v@.subrange(start as int, v@.len() as int), b) && n
                == radix_val(v@.subrange(start as int, v@.len() as int), b),
            Err(e) => !radix_accepts(v@.subrange(start as int, v@.len() as int), b) && e
                == AssemblerError::LiteralOverflowError,
        },
{
    let ghost t = v@.subrange(start as int, v@.len() as int);
    if start >= v.len() {
        return Err(AssemblerError::LiteralOverflowError);
    }
    let radix = base_radix_exec(b);
    let mut acc: usize = 0;
    let mut k = start;
    while k < v.len()
        invariant
            start <= k <= v@.len(),
            t == v@.subrange(start as int, v@.len() as int),
            radix == base_radix(b),
            digits_ok(t.subrange(0, k - start), b),
            acc == radix_val(t.subrange(0, k - start), b),
        decreases v@.len() - k,
    {
        let c = v[k];
        assert(c == t[k - start]);
        if !in_class_exec(c, base_class_exec(b)) {
            return Err(AssemblerError::LiteralOverflowError);
        }
        let d = digit_val_exec(c);
        let ghost pre = t.subrange(0, k - start);
        let ghost ext = t.subrange(0, k - start + 1);
        proof {
            assert(ext.drop_last() =~= pre);
            assert(ext.last() == t[k - start]);
        }
        let step = match acc.checked_mul(radix) {
            Some(m) => m.checked_add(d),
            None => None,
        };
        match step {
            Some(next) => {
                acc = next;
            },
            None => {
                proof {
                    assert(radix_val(ext, b) > usize::MAX as int);
                    lemma_radix_prefix_le(t, b, k - start + 1);
                }
                return Err(AssemblerError::LiteralOverflowError);
            },
        }
        k += 1;
    }
    proof {
        assert(t.subrange(0, t.len() as int) =~= t);
    }
    Ok(acc)
}

fn base_class_exec(b: Base) -> (r: CharClass)
    ensures
        r == base_class(b),
{
    match b {
        Base::Hex => CharClass::Hexadecimal,
        Base::Dec => CharClass::Decimal,
        Base::Bin => CharClass::Binary,
    }
}

/// The shortest big-endian byte representation of a non-negative number:
/// no leading zero byte, except that zero itself is the single byte `0`.
pub open spec fn spec_min_be(n: int) -> Seq<u8>
    decreases n,
    via spec_min_be_decreases
{
    if n < 256 {
        seq![if n >= 0 {
                n as u8
            } else {
                0
            }]
    } else {
        spec_min_be(n / 256).push((n % 256) as u8)
    }
}

#[via_fn]
proof fn spec_min_be_decreases(n: int) {
    if n >= 256 {
        assert(0 <= n / 256 < n) by (nonlinear_arith)
            requires
                n >= 256,
        ;
    }
}

/// The value read back from a big-endian byte sequence.
pub open spec fn bytes_val(s: Seq<u8>) -> int
    decreases s.len(),
{
    if s.len() == 0 {
        0
    } else {
        bytes_val(s.drop_last()) * 256 + s.last()
    }
}

fn to_min_be(n: usize) -> (r: Vec<u8>)
    ensures
        r@ == spec_min_be(n as int),
    decreases n,
{
    if n < 256 {
        let mut out: Vec<u8> = Vec::new();
        out.push(n as u8);
        assert(out@ =~= spec_min_be(n as int));
        out
    } else {
        proof {
            assert(0 <= n as int / 256 < n as int) by (nonlinear_arith)
                requires
                    n >= 256,
            ;
        }
        let mut out = to_min_be(n / 256);
        out.push((n % 256) as u8);
        assert(out@ =~= spec_min_be(n as int));
        out
    }
}

/// The byte sequence with its leading zero bytes removed; a sequence of
/// nothing but zeros trims to the empty sequence.
pub open spec fn spec_trim_zeros(s: Seq<u8>) -> Seq<u8>
    decreases s.len(),
{
    if s.len() > 0 && s[0] == 0 {
        spec_trim_zeros(s.drop_first())
    } else {
        s
    }
}

/// Strip the leading zero bytes of a numeric encoding.
pub fn trim_zeros(v: Vec<u8>) -> (r: Vec<u8>)
    ensures
        r@ == spec_trim_zeros(v@),
{
    assert(v@.subrange(0, v@.len() as int) =~= v@);
    let mut k: usize = 0;
    while k < v.len() && v[k] == 0
        invariant
            k <= v@.len(),
            spec_trim_zeros(v@) == spec_trim_zeros(v@.subrange(k as int, v@.len() as int)),
        decreases v@.len() - k,
    {
        proof {
            assert(v@.subrange(k as int, v@.len() as int).drop_first() =~= v@.subrange(
                k + 1 as int,
                v@.len() as int,
            ));
        }
        k += 1;
    }
    let mut out: Vec<u8> = Vec::new();
    let mut j = k;
    while j < v.len()
        invariant
            k <= j <= v@.len(),
            out@ == v@.subrange(k as int, j as int),
        decreases v@.len() - j,
    {
        out.push(v[j]);
        assert(v@.subrange(k as int, j as int) + seq![v@[j as int]] =~= v@.subrange(
            k as int,
            j + 1 as int,
        ));
        j += 1;
    }
    assert(out@ =~= v@.subrange(k as int, v@.len() as int));
    out
}

#[verifier::external_type_specification]
#[verifier::external_body]
pub struct ExUnescapeError(snailquote::UnescapeError);

/// What unescaping a quoted string literal yields: the UTF-8 bytes of the
/// unescaped text, or nothing when the literal is malformed. The outcome
/// depends on the characters of the literal alone.
pub uninterp spec fn unescaped_bytes_of(s: Seq<char>) -> Option<Seq<u8>>;

/// Relies on snailquote::unescape for shell-style unquoting of a string
/// literal with backslash escapes; the result is converted to its UTF-8
/// bytes.
#[verifier::external_body]
fn unescape_chars(s: &Vec<char>) -> (r: Result<Vec<u8>, snailquote::UnescapeError>)
    ensures
        match r {
            Ok(v) => unescaped_bytes_of(s@) == Some(v@),
            Err(_) => unescaped_bytes_of(s@) is None,
        },
{
    let text: String = s.iter().collect();
    match snailquote::unescape(&text) {
        Ok(u) => Ok(u.into_bytes()),
        Err(e) => Err(e),
    }
}

/// What `parse_value` yields on a literal token: the minimal big-endian
/// bytes of a hexadecimal, binary or decimal number, the unescaped bytes of
/// a quoted string, or the matching error.
pub open spec fn spec_parse_value(t: Seq<char>) -> Result<Seq<u8>, AssemblerError> {
    if t.len() >= 2 && t[0] == '0' && t[1] == 'x' {
        spec_radix_value_result(t.subrange(2, t.len() as int), Base::Hex)
    } else if t.len() >= 2 && t[0] == '0' && t[1] == 'b' {
        spec_radix_value_result(t.subrange(2, t.len() as int), Base::Bin)
    } else if t.len() >= 1 && t[0] == '"' {
        match unescaped_bytes_of(t) {
            Some(bytes) => Ok(bytes),
            None => Err(AssemblerError::InvalidStringError),
        }
    } else {
        spec_radix_value_result(t, Base::Dec)
    }
}

pub open spec fn spec_radix_value_result(s: Seq<char>, b: Base) -> Result<Seq<u8>, AssemblerError> {
    if radix_accepts(s, b) {
        Ok(spec_min_be(radix_val(s, b)))
    } else {
        Err(AssemblerError::LiteralOverflowError)
    }
}

/// Parse one `#value` literal: `0x`-hex, `0b`-binary or decimal number to
/// its minimal big-endian bytes, or a double-quoted string to its unescaped
/// bytes.
pub fn parse_value(input: &Vec<char>) -> (r: Result<Vec<u8>, AssemblerError>)
    ensures
        match (r, spec_parse_value(input@)) {
            (Ok(v), Ok(sv)) => v@ == sv,
            (Err(e), Err(se)) => e == se,
            _ => false,
        },
{
    let num = if input.len() >= 2 && input[0] == '0' && input[1] == 'x' {
        parse_radix(input, 2, Base::Hex)
    } else if input.len() >= 2 && input[0] == '0' && input[1] == 'b' {
        parse_radix(input, 2, Base::Bin)
    } else if input.len() >= 1 && input[0] == '"' {
        return match unescape_chars(input) {
            Ok(bytes) => Ok(bytes),
            Err(_) => Err(AssemblerError::InvalidStringError),
        };
    } else {
        proof {
            assert(input@.subrange(0, input@.len() as int) =~= input@);
        }
        parse_radix(input, 0, Base::Dec)
    };
    match num {
        Ok(n) => Ok(to_min_be(n)),
        Err(e) => Err(e),
    }
}

} // verus!
