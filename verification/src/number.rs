//! Decimal and hexadecimal rendering and parsing of unsigned integers.
use vstd::prelude::*;
use crate::text::{is_ascii_digit, push_char, push_str, string_of};

verus! {

/// The digit for `d` in bases up to 16, lower case.
pub open spec fn digit_char(d: nat) -> char {
    if d < 10 {
        (('0' as u8) + (d as u8)) as u8 as char
    } else {
        (('a' as u8) + ((d - 10) as u8)) as u8 as char
    }
}

/// The decimal representation of `n`, as `{}` formats an unsigned integer.
pub open spec fn decimal(n: nat) -> Seq<char>
    decreases n,
{
    if n < 10 {
        seq![digit_char(n)]
    } else {
        decimal(n / 10).push(digit_char(n % 10))
    }
}

/// The decimal representation of a signed integer.
pub open spec fn decimal_int(n: int) -> Seq<char> {
    if n < 0 {
        seq!['-'] + decimal((-n) as nat)
    } else {
        decimal(n as nat)
    }
}

/// The last `width` hexadecimal digits of `n`, lower case, zero padded:
/// `{:0width$x}` for values below `16^width`.
pub open spec fn hex_fixed(n: nat, width: nat) -> Seq<char>
    decreases width,
{
    if width == 0 {
        seq![]
    } else {
        hex_fixed(n / 16, (width - 1) as nat).push(digit_char(n % 16))
    }
}

fn digit_char_exec(d: u64) -> (c: char)
    requires
        d < 16,
    ensures
        c == digit_char(d as nat),
{
    if d < 10 {
        let b: u8 = ('0' as u8) + (d as u8);
        b as char
    } else {
        let b: u8 = ('a' as u8) + ((d - 10) as u8);
        b as char
    }
}

/// `n.to_string()`.
pub fn decimal_u64(n: u64) -> (s: String)
    ensures
        s@ == decimal(n as nat),
{
    let mut q = n;
    let mut acc: Vec<char> = Vec::new();
    while q >= 10
        invariant
            decimal(n as nat) == decimal(q as nat) + acc@,
        decreases q,
    {
        let d = digit_char_exec(q % 10);
        let ghost old_acc = acc@;
        acc.insert(0, d);
        proof {
            assert(decimal(q as nat) == decimal((q / 10) as nat).push(digit_char((q % 10) as nat)));
            assert(decimal(q as nat) + old_acc =~= decimal((q / 10) as nat) + acc@);
        }
        q = q / 10;
    }
    let d = digit_char_exec(q);
    let ghost old_acc = acc@;
    acc.insert(0, d);
    assert(decimal(n as nat) =~= acc@);
    string_of(acc.as_slice())
}

/// `n.to_string()` for a 128-bit value.
pub fn decimal_u128(n: u128) -> (s: String)
    ensures
        s@ == decimal(n as nat),
{
    let mut q = n;
    let mut acc: Vec<char> = Vec::new();
    while q >= 10
        invariant
            decimal(n as nat) == decimal(q as nat) + acc@,
        decreases q,
    {
        let d = digit_char_exec((q % 10) as u64);
        let ghost old_acc = acc@;
        acc.insert(0, d);
        proof {
            assert(decimal(q as nat) == decimal((q / 10) as nat).push(digit_char((q % 10) as nat)));
            assert(decimal(q as nat) + old_acc =~= decimal((q / 10) as nat) + acc@);
        }
        q = q / 10;
    }
    let d = digit_char_exec(q as u64);
    acc.insert(0, d);
    assert(decimal(n as nat) =~= acc@);
    string_of(acc.as_slice())
}

/// `n.to_string()` for a signed value.
pub fn decimal_i64(n: i64) -> (s: String)
    ensures
        s@ == decimal_int(n as int),
{
    if n < 0 {
        let m: u64 = if n == i64::MIN {
            9223372036854775808u64
        } else {
            (-n) as u64
        };
        let mut s = String::new();
        push_char(&mut s, '-');
        let t = decimal_u64(m);
        push_str(&mut s, t.as_str());
        assert(s@ =~= seq!['-'] + decimal(m as nat));
        s
    } else {
        decimal_u64(n as u64)
    }
}

/// The last `width` hexadecimal digits of `n`, lower case and zero-padded:
/// `format!("{n:0width$x}")` whenever `n` has at most `width` digits.
pub fn hex_fixed_u64(n: u64, width: usize) -> (s: String)
    ensures
        s@ == hex_fixed(n as nat, width as nat),
{
    let mut q = n;
    let mut acc: Vec<char> = Vec::new();
    let mut w = width;
    while w > 0
        invariant
            hex_fixed(n as nat, width as nat) == hex_fixed(q as nat, w as nat) + acc@,
        decreases w,
    {
        let d = digit_char_exec(q % 16);
        let ghost old_acc = acc@;
        acc.insert(0, d);
        proof {
            assert(hex_fixed(q as nat, w as nat) == hex_fixed((q / 16) as nat, (w - 1) as nat).push(
                digit_char((q % 16) as nat),
            ));
            assert(hex_fixed(q as nat, w as nat) + old_acc =~= hex_fixed(
                (q / 16) as nat,
                (w - 1) as nat,
            ) + acc@);
        }
        q = q / 16;
        w = w - 1;
    }
    assert(hex_fixed(q as nat, 0) + acc@ =~= acc@);
    string_of(acc.as_slice())
}

// ---------------------------------------------------------------------------
// Parsing
// ---------------------------------------------------------------------------

/// Why `str::parse` / `from_str_radix` rejected an unsigned integer.
#[derive(Clone, Copy, Debug, PartialEq, Eq, Structural)]
pub enum IntErrorKind {
    Empty,
    InvalidDigit,
    PosOverflow,
}

impl IntErrorKind {
    /// The message `ParseIntError` displays for this kind.
    pub fn message(&self) -> (s: &'static str)
        ensures
            s@ == int_error_message(*self),
    {
        match self {
            IntErrorKind::Empty => "cannot parse integer from empty string",
            IntErrorKind::InvalidDigit => "invalid digit found in string",
            IntErrorKind::PosOverflow => "number too large to fit in target type",
        }
    }
}

pub open spec fn int_error_message(k: IntErrorKind) -> Seq<char> {
    match k {
        IntErrorKind::Empty => "cannot parse integer from empty string"@,
        IntErrorKind::InvalidDigit => "invalid digit found in string"@,
        IntErrorKind::PosOverflow => "number too large to fit in target type"@,
    }
}

/// `char::to_digit(radix)` for radix 10 or 16.
pub open spec fn digit_value(c: char, radix: nat) -> Option<nat> {
    if is_ascii_digit(c) && (c as u32) - ('0' as u32) < radix {
        Some(((c as u32) - ('0' as u32)) as nat)
    } else if radix == 16 && 'a' <= c && c <= 'f' {
        Some(((c as u32) - ('a' as u32) + 10) as nat)
    } else if radix == 16 && 'A' <= c && c <= 'F' {
        Some(((c as u32) - ('A' as u32) + 10) as nat)
    } else {
        None
    }
}

/// Reading the digits of `s` left to right; the first problem met decides
/// the error.
pub open spec fn parse_digits(s: Seq<char>, radix: nat, max: nat) -> Result<nat, IntErrorKind>
    decreases s.len(),
{
    if s.len() == 0 {
        Ok(0)
    } else {
        match parse_digits(s.drop_last(), radix, max) {
            Err(k) => Err(k),
            Ok(v) => match digit_value(s.last(), radix) {
                None => Err(IntErrorKind::InvalidDigit),
                Some(d) => if v * radix + d > max {
                    Err(IntErrorKind::PosOverflow)
                } else {
                    Ok(v * radix + d)
                },
            },
        }
    }
}

/// `from_str_radix` of an unsigned integer type whose largest value is `max`.
pub open spec fn parse_uint(s: Seq<char>, radix: nat, max: nat) -> Result<nat, IntErrorKind> {
    if s.len() == 0 {
        Err(IntErrorKind::Empty)
    } else if s[0] == '+' {
        if s.len() == 1 {
            Err(IntErrorKind::InvalidDigit)
        } else {
            parse_digits(s.drop_first(), radix, max)
        }
    } else {
        parse_digits(s, radix, max)
    }
}

fn digit_value_exec(c: char, radix: u64) -> (r: Option<u64>)
    requires
        radix == 10 || radix == 16,
    ensures
        match r {
            Some(d) => digit_value(c, radix as nat) == Some(d as nat) && d < radix,
            None => digit_value(c, radix as nat) is None,
        },
{
    if '0' <= c && c <= '9' {
        let d = (c as u32 - '0' as u32) as u64;
        Some(d)
    } else if radix == 16 && 'a' <= c && c <= 'f' {
        Some((c as u32 - 'a' as u32 + 10) as u64)
    } else if radix == 16 && 'A' <= c && c <= 'F' {
        Some((c as u32 - 'A' as u32 + 10) as u64)
    } else {
        None
    }
}

proof fn lemma_parse_digits_bound(s: Seq<char>, radix: nat, max: nat)
    ensures
        parse_digits(s, radix, max) matches Ok(v) ==> v <= max,
    decreases s.len(),
{
    if s.len() > 0 {
        lemma_parse_digits_bound(s.drop_last(), radix, max);
    }
}

/// Parses the digits `s[from..]`.
fn parse_digits_exec(s: &[char], from: usize, radix: u64, max: u64) -> (r: Result<u64, IntErrorKind>)
    requires
        from <= s.len(),
        radix == 10 || radix == 16,
    ensures
        match r {
            Ok(v) => parse_digits(s@.skip(from as int), radix as nat, max as nat) == Ok::<
                nat,
                IntErrorKind,
            >(v as nat),
            Err(k) => parse_digits(s@.skip(from as int), radix as nat, max as nat) == Err::<
                nat,
                IntErrorKind,
            >(k),
        },
{
    let ghost body = s@.skip(from as int);
    let mut v: u64 = 0;
    let mut i = from;
    assert(body.take(0) =~= Seq::<char>::empty());
    while i < s.len()
        invariant
            from <= i <= s.len(),
            body == s@.skip(from as int),
            radix == 10 || radix == 16,
            parse_digits(body.take(i - from), radix as nat, max as nat) == Ok::<nat, IntErrorKind>(
                v as nat,
            ),
        decreases s.len() - i,
    {
        let ghost pre = body.take(i - from);
        let ghost next = body.take(i - from + 1);
        assert(next.drop_last() =~= pre);
        assert(next.last() == s@[i as int]);
        match digit_value_exec(s[i], radix) {
            None => {
                proof {
                    lemma_parse_digits_prefix_err(body, (i - from) as int, radix as nat, max as nat);
                }
                return Err(IntErrorKind::InvalidDigit);
            },
            Some(d) => {
                let w: u128 = (v as u128) * (radix as u128) + (d as u128);
                if w > max as u128 {
                    proof {
                        lemma_parse_digits_prefix_err(body, (i - from) as int, radix as nat, max as nat);
                    }
                    return Err(IntErrorKind::PosOverflow);
                }
                v = w as u64;
            },
        }
        i += 1;
    }
    assert(body.take(i - from) =~= body);
    Ok(v)
}

/// An error met in a prefix is the error of the whole.
proof fn lemma_parse_digits_prefix_err(s: Seq<char>, k: int, radix: nat, max: nat)
    requires
        0 <= k < s.len(),
        parse_digits(s.take(k + 1), radix, max) is Err,
    ensures
        parse_digits(s, radix, max) == parse_digits(s.take(k + 1), radix, max),
    decreases s.len(),
{
    if k + 1 < s.len() {
        assert(s.drop_last().take(k + 1) =~= s.take(k + 1));
        lemma_parse_digits_prefix_err(s.drop_last(), k, radix, max);
    } else {
        assert(s.take(k + 1) =~= s);
    }
}

/// `u64::from_str_radix(s, radix)` with `radix` 10 or 16, bounded by `max`.
pub fn parse_uint_exec(s: &[char], radix: u64, max: u64) -> (r: Result<u64, IntErrorKind>)
    requires
        radix == 10 || radix == 16,
    ensures
        match r {
            Ok(v) => parse_uint(s@, radix as nat, max as nat) == Ok::<nat, IntErrorKind>(v as nat),
            Err(k) => parse_uint(s@, radix as nat, max as nat) == Err::<nat, IntErrorKind>(k),
        },
{
    if s.len() == 0 {
        return Err(IntErrorKind::Empty);
    }
    if s[0] == '+' {
        if s.len() == 1 {
            return Err(IntErrorKind::InvalidDigit);
        }
        assert(s@.skip(1) =~= s@.drop_first());
        parse_digits_exec(s, 1, radix, max)
    } else {
        assert(s@.skip(0) =~= s@);
        parse_digits_exec(s, 0, radix, max)
    }
}

// ---------------------------------------------------------------------------
// Rendering then parsing gives the value back
// ---------------------------------------------------------------------------

pub proof fn lemma_digit_round_trip(d: nat, radix: nat)
    requires
        d < radix,
        radix == 10 || radix == 16,
    ensures
        digit_value(digit_char(d), radix) == Some(d),
        digit_char(d) != '+',
        digit_char(d) != ':',
        digit_char(d) != '-',
{
    if d < 10 {
        assert(('0' as u8) == 48u8);
        assert(digit_char(d) as u32 == 48 + d);
    } else {
        assert(('a' as u8) == 97u8);
        assert(digit_char(d) as u32 == 97 + d - 10);
    }
}

pub proof fn lemma_decimal_chars(n: nat)
    ensures
        decimal(n).len() > 0,
        forall|i: int| 0 <= i < decimal(n).len() ==> #[trigger] decimal(n)[i] != ':' && decimal(
            n,
        )[i] != '+' && is_ascii_digit(decimal(n)[i]),
    decreases n,
{
    lemma_digit_round_trip(n % 10, 10);
    if n >= 10 {
        lemma_decimal_chars(n / 10);
        assert forall|i: int| 0 <= i < decimal(n).len() implies #[trigger] decimal(n)[i] != ':'
            && decimal(n)[i] != '+' && is_ascii_digit(decimal(n)[i]) by {
            if i < decimal(n).len() - 1 {
                assert(decimal(n)[i] == decimal(n / 10)[i]);
            }
        }
    } else {
        lemma_digit_round_trip(n, 10);
    }
}

pub proof fn lemma_decimal_parse(n: nat, max: nat)
    requires
        n <= max,
    ensures
        parse_digits(decimal(n), 10, max) == Ok::<nat, IntErrorKind>(n),
        parse_uint(decimal(n), 10, max) == Ok::<nat, IntErrorKind>(n),
    decreases n,
{
    lemma_digit_round_trip(n % 10, 10);
    lemma_decimal_chars(n);
    if n >= 10 {
        lemma_decimal_parse(n / 10, max);
        let s = decimal(n);
        assert(s.drop_last() =~= decimal(n / 10));
        assert(s.last() == digit_char(n % 10));
        assert((n / 10) * 10 + n % 10 == n);
        assert(parse_digits(s.drop_last(), 10, max) == Ok::<nat, IntErrorKind>(n / 10));
        assert(digit_value(s.last(), 10) == Some(n % 10));
        assert(parse_digits(s, 10, max) == Ok::<nat, IntErrorKind>(n));
        assert(s[0] == decimal(n)[0]);
    } else {
        let s = decimal(n);
        assert(s.drop_last() =~= Seq::<char>::empty());
        assert(parse_digits(s.drop_last(), 10, max) == Ok::<nat, IntErrorKind>(0));
        assert(s.last() == digit_char(n));
        assert(parse_digits(s, 10, max) == Ok::<nat, IntErrorKind>(n));
        assert(s[0] == decimal(n)[0]);
    }
}

pub open spec fn pow16(w: nat) -> nat
    decreases w,
{
    if w == 0 {
        1
    } else {
        16 * pow16((w - 1) as nat)
    }
}

pub proof fn lemma_hex_chars(n: nat, w: nat)
    ensures
        hex_fixed(n, w).len() == w,
        forall|i: int| 0 <= i < hex_fixed(n, w).len() ==> #[trigger] hex_fixed(n, w)[i] != ':'
            && hex_fixed(n, w)[i] != '+',
    decreases w,
{
    if w > 0 {
        lemma_digit_round_trip(n % 16, 16);
        lemma_hex_chars(n / 16, (w - 1) as nat);
        assert forall|i: int| 0 <= i < hex_fixed(n, w).len() implies #[trigger] hex_fixed(n, w)[i]
            != ':' && hex_fixed(n, w)[i] != '+' by {
            if i < w - 1 {
                assert(hex_fixed(n, w)[i] == hex_fixed(n / 16, (w - 1) as nat)[i]);
            }
        }
    }
}

pub proof fn lemma_hex_parse(n: nat, w: nat, max: nat)
    requires
        n < pow16(w),
        n <= max,
    ensures
        parse_digits(hex_fixed(n, w), 16, max) == Ok::<nat, IntErrorKind>(n),
    decreases w,
{
    if w == 0 {
        assert(n == 0);
    } else {
        lemma_digit_round_trip(n % 16, 16);
        assert(n / 16 < pow16((w - 1) as nat));
        lemma_hex_parse(n / 16, (w - 1) as nat, max);
        let s = hex_fixed(n, w);
        assert(s.drop_last() =~= hex_fixed(n / 16, (w - 1) as nat));
        assert((n / 16) * 16 + n % 16 == n);
    }
}

pub proof fn lemma_pow16_16()
    ensures
        pow16(16) == 0x1_0000_0000_0000_0000,
{
    reveal_with_fuel(pow16, 17);
}

/// A parsed value never exceeds the bound.
pub proof fn lemma_parse_uint_bound(s: Seq<char>, radix: nat, max: nat)
    ensures
        parse_uint(s, radix, max) matches Ok(n) ==> n <= max,
{
    if s.len() > 0 {
        if s[0] == '+' {
            lemma_parse_digits_bound(s.drop_first(), radix, max);
        } else {
            lemma_parse_digits_bound(s, radix, max);
        }
    }
}

} // verus!
