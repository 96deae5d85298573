use vstd::prelude::*;

verus! {

/// Relies on String::push: appends exactly the given character at the end.
#[verifier::external_body]
pub fn push_char(s: &mut String, c: char)
    ensures
        final(s)@ == old(s)@.push(c),
{
    s.push(c)
}

/// The characters of a string slice, as a vector.
pub fn str_chars(s: &str) -> (r: Vec<char>)
    ensures
        r@ == s@,
{
    let n: usize = s.unicode_len();
    let mut r: Vec<char> = Vec::new();
    let mut i: usize = 0;
    while i < n
        invariant
            n == s@.len(),
            i <= n,
            r@ == s@.take(i as int),
        decreases n - i,
    {
        r.push(s.get_char(i));
        i = i + 1;
        proof {
            assert(r@ =~= s@.take(i as int));
        }
    }
    proof {
        assert(s@.take(n as int) =~= s@);
    }
    r
}

/// A string holding exactly the given characters.
pub fn string_of_chars(v: &Vec<char>) -> (r: String)
    ensures
        r@ == v@,
{
    let mut r = String::new();
    let mut i: usize = 0;
    while i < v.len()
        invariant
            i <= v@.len(),
            r@ == v@.take(i as int),
        decreases v@.len() - i,
    {
        push_char(&mut r, v[i]);
        i = i + 1;
        proof {
            assert(r@ =~= v@.take(i as int));
        }
    }
    proof {
        assert(v@.take(v@.len() as int) =~= v@);
    }
    r
}

/// The character for one decimal digit.
pub open spec fn digit_char(d: nat) -> char {
    if d == 0 {
        '0'
    } else if d == 1 {
        '1'
    } else if d == 2 {
        '2'
    } else if d == 3 {
        '3'
    } else if d == 4 {
        '4'
    } else if d == 5 {
        '5'
    } else if d == 6 {
        '6'
    } else if d == 7 {
        '7'
    } else if d == 8 {
        '8'
    } else {
        '9'
    }
}

/// The usual decimal rendering of a natural number, without sign or padding.
pub open spec fn dec_of(n: nat) -> Seq<char>
    decreases n,
{
    if n < 10 {
        seq![digit_char(n)]
    } else {
        dec_of(n / 10).push(digit_char(n % 10))
    }
}

fn digit_char_exec(d: u32) -> (r: char)
    requires
        d < 10,
    ensures
        r == digit_char(d as nat),
{
    if d == 0 {
        '0'
    } else if d == 1 {
        '1'
    } else if d == 2 {
        '2'
    } else if d == 3 {
        '3'
    } else if d == 4 {
        '4'
    } else if d == 5 {
        '5'
    } else if d == 6 {
        '6'
    } else if d == 7 {
        '7'
    } else if d == 8 {
        '8'
    } else {
        '9'
    }
}

/// The decimal rendering of an unsigned number.
pub fn u32_to_string(n: u32) -> (r: String)
    ensures
        r@ == dec_of(n as nat),
    decreases n,
{
    if n < 10 {
        let mut r = String::new();
        push_char(&mut r, digit_char_exec(n));
        proof {
            assert(r@ =~= dec_of(n as nat));
        }
        r
    } else {
        let mut r = u32_to_string(n / 10);
        push_char(&mut r, digit_char_exec(n % 10));
        r
    }
}

pub open spec fn is_dec_digit(c: char) -> bool {
    '0' <= c && c <= '9'
}

pub open spec fn digit_val(c: char) -> nat {
    ((c as int) - ('0' as int)) as nat
}

/// Why a string failed to parse as an unsigned number, mirroring the cases
/// std's integer parsing distinguishes.
#[derive(Debug, Clone, Copy, PartialEq, Eq, Structural)]
pub enum ParseNumError {
    Empty,
    InvalidDigit,
    Overflow,
}

impl ParseNumError {
    /// The diagnostic line for this failure.
    pub fn message(&self) -> (r: &'static str)
        ensures
            self is Empty ==> r@ == "cannot parse integer from empty string"@,
            self is InvalidDigit ==> r@ == "invalid digit found in string"@,
            self is Overflow ==> r@ == "number too large to fit in target type"@,
    {
        match self {
            ParseNumError::Empty => "cannot parse integer from empty string",
            ParseNumError::InvalidDigit => "invalid digit found in string",
            ParseNumError::Overflow => "number too large to fit in target type",
        }
    }
}

/// Left-to-right accumulation of decimal digits, stopping at the first
/// non-digit or at the first step that would exceed `u32::MAX`.
pub open spec fn dec_accum(s: Seq<char>, i: int, acc: u32) -> Result<u32, ParseNumError>
    decreases s.len() - i,
{
    if i < 0 || i >= s.len() {
        Ok(acc)
    } else if !is_dec_digit(s[i]) {
        Err(ParseNumError::InvalidDigit)
    } else if acc as nat * 10 + digit_val(s[i]) > u32::MAX as nat {
        Err(ParseNumError::Overflow)
    } else {
        dec_accum(s, i + 1, (acc as nat * 10 + digit_val(s[i])) as u32)
    }
}

/// What parsing a whole string as a `u32` yields: an optional leading `+`,
/// then at least one decimal digit, with the value within range.
pub open spec fn parse_u32_spec(s: Seq<char>) -> Result<u32, ParseNumError> {
    if s.len() == 0 {
        Err(ParseNumError::Empty)
    } else if s[0] == '+' {
        if s.len() == 1 {
            Err(ParseNumError::InvalidDigit)
        } else {
            dec_accum(s, 1, 0)
        }
    } else {
        dec_accum(s, 0, 0)
    }
}

/// Parses a string as an unsigned number, as std's `str::parse::<u32>` does.
pub fn parse_u32(s: &str) -> (r: Result<u32, ParseNumError>)
    ensures
        r == parse_u32_spec(s@),
{
    let v = str_chars(s);
    if v.len() == 0 {
        return Err(ParseNumError::Empty);
    }
    let start: usize = if v[0] == '+' {
        1
    } else {
        0
    };
    if v.len() == start {
        return Err(ParseNumError::InvalidDigit);
    }
    let mut acc: u32 = 0;
    let mut i: usize = start;
    while i < v.len()
        invariant
            v@ == s@,
            start <= i <= v@.len(),
            parse_u32_spec(s@) == dec_accum(s@, i as int, acc),
        decreases v@.len() - i,
    {
        let c = v[i];
        if !('0' <= c && c <= '9') {
            return Err(ParseNumError::InvalidDigit);
        }
        let d: u32 = (c as u32) - ('0' as u32);
        assert(d == digit_val(c));
        if acc > (u32::MAX - d) / 10 {
            assert(acc as nat * 10 + digit_val(c) > u32::MAX as nat) by {
                assert(acc >= (u32::MAX - d) / 10 + 1);
            };
            return Err(ParseNumError::Overflow);
        }
        assert(acc as nat * 10 + digit_val(c) <= u32::MAX as nat) by {
            assert(acc <= (u32::MAX - d) / 10);
        };
        acc = acc * 10 + d;
        i = i + 1;
    }
    Ok(acc)
}

/// Whether two string slices hold the same characters.
pub fn str_eq(a: &str, b: &str) -> (r: bool)
    ensures
        r == (a@ == b@),
{
    let n = a.unicode_len();
    let m = b.unicode_len();
    if n != m {
        return false;
    }
    let mut i: usize = 0;
    while i < n
        invariant
            n == a@.len(),
            n == b@.len(),
            i <= n,
            forall|j: int| 0 <= j < i ==> a@[j] == b@[j],
        decreases n - i,
    {
        if a.get_char(i) != b.get_char(i) {
            return false;
        }
        i = i + 1;
    }
    proof {
        assert(a@ =~= b@);
    }
    true
}

} // verus!
