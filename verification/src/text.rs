//! Text primitives shared by the document encoder, the decoder and the
//! response formatter: decimal rendering of integers, digit values, and
//! character-level access to strings.

use vstd::prelude::*;

verus! {

/// Relies on std's `String::push`: appends exactly the one character.
#[verifier::external_body]
pub fn push_char(s: &mut String, c: char)
    ensures
        final(s)@ == old(s)@.push(c),
{
    s.push(c);
}

/// The characters of `s`, in order.
pub fn chars_of(s: &str) -> (v: Vec<char>)
    ensures
        v@ == s@,
{
    let n = s.unicode_len();
    let mut v: Vec<char> = Vec::new();
    let mut i: usize = 0;
    while i < n
        invariant
            i <= n,
            n == s@.len(),
            v@ == s@.take(i as int),
        decreases n - i,
    {
        v.push(s.get_char(i));
        proof {
            assert(v@ =~= s@.take(i + 1));
        }
        i = i + 1;
    }
    proof {
        assert(v@ =~= s@);
    }
    v
}

/// A `String` holding exactly the characters of `v`.
pub fn string_of(v: &Vec<char>) -> (s: String)
    ensures
        s@ == v@,
{
    let mut s = String::new();
    let mut i: usize = 0;
    while i < v.len()
        invariant
            i <= v@.len(),
            s@ == v@.take(i as int),
        decreases v@.len() - i,
    {
        push_char(&mut s, v[i]);
        proof {
            assert(s@ =~= v@.take(i + 1));
        }
        i = i + 1;
    }
    proof {
        assert(s@ =~= v@);
    }
    s
}

/// Are these two texts the same characters?
pub fn str_eq(a: &String, b: &str) -> (r: bool)
    ensures
        r == (a@ == b@),
{
    let bs: String = b.to_owned();
    a.eq(&bs)
}

/// The character for one decimal digit.
pub open spec fn dec_char(d: nat) -> char {
    if d == 0 {
        '0'
    } else if d == 1 {
        '1'
    } else if d == 2 {
        '2'
    } else if d == 3 {
        '3'
    } else if d == 4 {
        '4'
    } else if d == 5 {
        '5'
    } else if d == 6 {
        '6'
    } else if d == 7 {
        '7'
    } else if d == 8 {
        '8'
    } else {
        '9'
    }
}

/// The usual decimal rendering of `n`, without sign or padding.
pub open spec fn spec_dec(n: nat) -> Seq<char>
    decreases n,
{
    if n < 10 {
        seq![dec_char(n)]
    } else {
        spec_dec(n / 10).push(dec_char(n % 10))
    }
}

/// Is `c` a decimal digit?
pub open spec fn is_dec_digit(c: char) -> bool {
    '0' <= c <= '9'
}

/// The value of a decimal digit character.
pub open spec fn dec_val(c: char) -> nat {
    (c as u32 - '0' as u32) as nat
}

/// Every character of a decimal rendering is a digit carrying the right
/// value, and the rendering is never empty.
pub proof fn lemma_dec_digits(n: nat)
    ensures
        spec_dec(n).len() >= 1,
        forall|k: int|
            0 <= k < spec_dec(n).len() ==> is_dec_digit(#[trigger] spec_dec(n)[k]),
    decreases n,
{
    if n >= 10 {
        lemma_dec_digits(n / 10);
    }
    assert(is_dec_digit(dec_char(n % 10)));
}

fn dec_char_exec(d: u64) -> (c: char)
    requires
        d < 10,
    ensures
        c == dec_char(d as nat),
{
    if d == 0 {
        '0'
    } else if d == 1 {
        '1'
    } else if d == 2 {
        '2'
    } else if d == 3 {
        '3'
    } else if d == 4 {
        '4'
    } else if d == 5 {
        '5'
    } else if d == 6 {
        '6'
    } else if d == 7 {
        '7'
    } else if d == 8 {
        '8'
    } else {
        '9'
    }
}

/// The decimal digits of `n`, as characters.
pub fn dec_chars(n: u64) -> (v: Vec<char>)
    ensures
        v@ == spec_dec(n as nat),
{
    let mut digits: Vec<char> = Vec::new();
    let mut m = n;
    proof {
        assert(spec_dec(n as nat) =~= spec_dec(m as nat) + digits@);
    }
    loop
        invariant_except_break
            spec_dec(n as nat) == spec_dec(m as nat) + digits@,
        ensures
            digits@ == spec_dec(n as nat),
        decreases m,
    {
        let ghost old_digits = digits@;
        let d = m % 10;
        digits.insert(0, dec_char_exec(d));
        proof {
            assert(digits@ =~= seq![dec_char(d as nat)] + old_digits);
        }
        if m < 10 {
            proof {
                assert(spec_dec(m as nat) == seq![dec_char(d as nat)]);
                assert(spec_dec(n as nat) =~= digits@);
            }
            break ;
        }
        proof {
            assert(spec_dec(m as nat) == spec_dec((m / 10) as nat).push(
                dec_char((m % 10) as nat),
            ));
            assert(spec_dec(m as nat) + old_digits =~= spec_dec((m / 10) as nat) + digits@);
        }
        m = m / 10;
    }
    digits
}

/// The usual decimal rendering of `n`, as a `String`.
pub fn dec_string(n: u64) -> (s: String)
    ensures
        s@ == spec_dec(n as nat),
{
    let v = dec_chars(n);
    string_of(&v)
}

/// The value of one decimal digit character, when it is one.
pub fn dec_digit_val(c: char) -> (r: Option<u64>)
    ensures
        (match r {
            Some(v) => is_dec_digit(c) && v == dec_val(c) && v < 10,
            None => !is_dec_digit(c),
        }),
{
    if '0' <= c && c <= '9' {
        Some((c as u32 - '0' as u32) as u64)
    } else {
        None
    }
}

/// The value of one hexadecimal digit character, either case.
pub open spec fn spec_hex_val(c: char) -> Option<nat> {
    if '0' <= c <= '9' {
        Some((c as u32 - '0' as u32) as nat)
    } else if 'a' <= c <= 'f' {
        Some((c as u32 - 'a' as u32 + 10) as nat)
    } else if 'A' <= c <= 'F' {
        Some((c as u32 - 'A' as u32 + 10) as nat)
    } else {
        None
    }
}

/// The lower-case character for one hexadecimal digit.
pub open spec fn hex_char(d: nat) -> char {
    if d < 10 {
        dec_char(d)
    } else if d == 10 {
        'a'
    } else if d == 11 {
        'b'
    } else if d == 12 {
        'c'
    } else if d == 13 {
        'd'
    } else if d == 14 {
        'e'
    } else {
        'f'
    }
}

/// A hexadecimal digit character round-trips through its value.
pub proof fn lemma_hex_char_val(d: nat)
    requires
        d < 16,
    ensures
        spec_hex_val(hex_char(d)) == Some(d),
{
}

fn hex_char_exec(d: u32) -> (c: char)
    requires
        d < 16,
    ensures
        c == hex_char(d as nat),
{
    if d < 10 {
        dec_char_exec(d as u64)
    } else if d == 10 {
        'a'
    } else if d == 11 {
        'b'
    } else if d == 12 {
        'c'
    } else if d == 13 {
        'd'
    } else if d == 14 {
        'e'
    } else {
        'f'
    }
}

/// The value of one hexadecimal digit character, when it is one.
pub fn hex_digit_val(c: char) -> (r: Option<u32>)
    ensures
        (match r {
            Some(v) => spec_hex_val(c) == Some(v as nat) && v < 16,
            None => spec_hex_val(c) is None,
        }),
{
    if '0' <= c && c <= '9' {
        Some(c as u32 - '0' as u32)
    } else if 'a' <= c && c <= 'f' {
        Some(c as u32 - 'a' as u32 + 10)
    } else if 'A' <= c && c <= 'F' {
        Some(c as u32 - 'A' as u32 + 10)
    } else {
        None
    }
}

/// The two lower-case hexadecimal digits of a byte-sized value.
pub open spec fn spec_hex2(v: nat) -> Seq<char> {
    seq![hex_char(v / 16), hex_char(v % 16)]
}

/// The two hexadecimal digits of a byte-sized value, as characters.
pub fn hex2_chars(v: u32) -> (r: (char, char))
    requires
        v < 256,
    ensures
        seq![r.0, r.1] == spec_hex2(v as nat),
{
    (hex_char_exec(v / 16), hex_char_exec(v % 16))
}

} // verus!
