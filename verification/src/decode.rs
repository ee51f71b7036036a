//! Decoding of the structured documents: the answer the presentation
//! process writes, read back into the canonical types.
//!
//! The decoder is deliberately tolerant in what it accepts — surrounding
//! whitespace, any field order, either hexadecimal case in escapes,
//! unknown fields stepped over without being kept — and strict about
//! structure: a document that does not parse yields no value, which the
//! bridge then treats as cancellation.

use vstd::prelude::*;
use crate::text::{is_dec_digit, dec_val, spec_hex_val, dec_digit_val, hex_digit_val, str_eq};

verus! {

/// Insignificant whitespace between tokens.
pub open spec fn is_ws(c: char) -> bool {
    c == ' ' || c == '\t' || c == '\n' || c == '\r'
}

/// The first position at or after `i` holding something other than
/// whitespace.
pub open spec fn skip_ws(s: Seq<char>, i: int) -> int
    decreases s.len() - i,
{
    if 0 <= i < s.len() && is_ws(s[i]) {
        skip_ws(s, i + 1)
    } else {
        i
    }
}

/// Skipping whitespace where none stands is the identity.
pub proof fn lemma_skip_ws_noop(s: Seq<char>, i: int)
    requires
        !(0 <= i < s.len() && is_ws(s[i])),
    ensures
        skip_ws(s, i) == i,
{
}

fn skip_ws_exec(s: &Vec<char>, i: usize) -> (r: usize)
    requires
        i <= s@.len(),
    ensures
        r as int == skip_ws(s@, i as int),
        i <= r <= s@.len(),
{
    let mut j = i;
    while j < s.len() && (s[j] == ' ' || s[j] == '\t' || s[j] == '\n' || s[j] == '\r')
        invariant
            i <= j <= s@.len(),
            skip_ws(s@, i as int) == skip_ws(s@, j as int),
        decreases s@.len() - j,
    {
        j = j + 1;
    }
    j
}

/// Does the literal `lit` stand at position `i` of `s`?
pub open spec fn match_lit(s: Seq<char>, i: int, lit: Seq<char>) -> bool {
    0 <= i && i + lit.len() <= s.len() && s.subrange(i, i + lit.len()) == lit
}

/// One of the two boolean words at position `i`.
pub open spec fn parse_bool(s: Seq<char>, i: int) -> Option<(bool, int)> {
    if match_lit(s, i, seq!['t', 'r', 'u', 'e']) {
        Some((true, i + 4))
    } else if match_lit(s, i, seq!['f', 'a', 'l', 's', 'e']) {
        Some((false, i + 5))
    } else {
        None
    }
}

fn parse_bool_exec(s: &Vec<char>, i: usize) -> (r: Option<(bool, usize)>)
    requires
        i <= s@.len(),
    ensures
        (match r {
            Some((v, j)) => parse_bool(s@, i as int) == Some((v, j as int)) && j <= s@.len(),
            None => parse_bool(s@, i as int) is None,
        }),
{
    if s.len() - i >= 4 && s[i] == 't' && s[i + 1] == 'r' && s[i + 2] == 'u' && s[i + 3] == 'e' {
        proof {
            assert(s@.subrange(i as int, i + 4) =~= seq!['t', 'r', 'u', 'e']);
        }
        Some((true, i + 4))
    } else if s.len() - i >= 5 && s[i] == 'f' && s[i + 1] == 'a' && s[i + 2] == 'l' && s[i + 3]
        == 's' && s[i + 4] == 'e' {
        proof {
            assert(s@.subrange(i as int, i + 5) =~= seq!['f', 'a', 'l', 's', 'e']);
            if match_lit(s@, i as int, seq!['t', 'r', 'u', 'e']) {
                assert(s@.subrange(i as int, i + 4)[0] == 't');
                assert(false);
            }
        }
        Some((false, i + 5))
    } else {
        proof {
            if match_lit(s@, i as int, seq!['t', 'r', 'u', 'e']) {
                let sub = s@.subrange(i as int, i + 4);
                assert(s@[i as int] == sub[0] && s@[i + 1] == sub[1] && s@[i + 2] == sub[2] && s@[
                    i + 3
                ] == sub[3]);
            }
            if match_lit(s@, i as int, seq!['f', 'a', 'l', 's', 'e']) {
                let sub = s@.subrange(i as int, i + 5);
                assert(s@[i as int] == sub[0] && s@[i + 1] == sub[1] && s@[i + 2] == sub[2] && s@[
                    i + 3
                ] == sub[3] && s@[i + 4] == sub[4]);
            }
        }
        None
    }
}

/// The word for an absent value, at position `i`.
pub open spec fn parse_null(s: Seq<char>, i: int) -> Option<int> {
    if match_lit(s, i, seq!['n', 'u', 'l', 'l']) {
        Some(i + 4)
    } else {
        None
    }
}

fn parse_null_exec(s: &Vec<char>, i: usize) -> (r: Option<usize>)
    requires
        i <= s@.len(),
    ensures
        (match r {
            Some(j) => parse_null(s@, i as int) == Some(j as int) && j <= s@.len(),
            None => parse_null(s@, i as int) is None,
        }),
{
    if s.len() - i >= 4 && s[i] == 'n' && s[i + 1] == 'u' && s[i + 2] == 'l' && s[i + 3] == 'l' {
        proof {
            assert(s@.subrange(i as int, i + 4) =~= seq!['n', 'u', 'l', 'l']);
        }
        Some(i + 4)
    } else {
        proof {
            if match_lit(s@, i as int, seq!['n', 'u', 'l', 'l']) {
                let sub = s@.subrange(i as int, i + 4);
                assert(s@[i as int] == sub[0] && s@[i + 1] == sub[1] && s@[i + 2] == sub[2] && s@[
                    i + 3
                ] == sub[3]);
            }
        }
        None
    }
}

/// The first position at or after `i` holding no decimal digit.
pub open spec fn digits_end(s: Seq<char>, i: int) -> int
    decreases s.len() - i,
{
    if 0 <= i < s.len() && is_dec_digit(s[i]) {
        digits_end(s, i + 1)
    } else {
        i
    }
}

/// The value of the digit run from `i` to `j`.
pub open spec fn digits_val(s: Seq<char>, i: int, j: int) -> nat
    decreases j - i,
{
    if i >= j {
        0
    } else {
        digits_val(s, i, j - 1) * 10 + dec_val(s[j - 1])
    }
}

/// A decimal index at position `i`: at least one digit, value within
/// the machine bound.
pub open spec fn parse_usize(s: Seq<char>, i: int) -> Option<(usize, int)> {
    let j = digits_end(s, i);
    if j == i {
        None
    } else if digits_val(s, i, j) > usize::MAX {
        None
    } else {
        Some((digits_val(s, i, j) as usize, j))
    }
}

pub proof fn lemma_digits_end_bounds(s: Seq<char>, i: int)
    requires
        0 <= i <= s.len(),
    ensures
        i <= digits_end(s, i) <= s.len(),
        digits_end(s, i) < s.len() ==> !is_dec_digit(s[digits_end(s, i)]),
        forall|k: int| i <= k < digits_end(s, i) ==> is_dec_digit(s[k]),
    decreases s.len() - i,
{
    if 0 <= i < s.len() && is_dec_digit(s[i]) {
        lemma_digits_end_bounds(s, i + 1);
    }
}

pub proof fn lemma_digits_end_step(s: Seq<char>, i: int, j: int)
    requires
        0 <= i <= j <= s.len(),
        forall|k: int| i <= k < j ==> is_dec_digit(s[k]),
    ensures
        digits_end(s, i) == digits_end(s, j),
    decreases j - i,
{
    if i < j {
        assert(is_dec_digit(s[i]));
        lemma_digits_end_step(s, i + 1, j);
    }
}

fn parse_usize_exec(s: &Vec<char>, i: usize) -> (r: Option<(usize, usize)>)
    requires
        i <= s@.len(),
    ensures
        (match r {
            Some((v, j)) => parse_usize(s@, i as int) == Some((v, j as int)) && i < j <= s@.len(),
            None => parse_usize(s@, i as int) is None,
        }),
{
    proof {
        lemma_digits_end_bounds(s@, i as int);
    }
    let ghost e = digits_end(s@, i as int);
    let mut j = i;
    let mut acc: usize = 0;
    let mut overflowed = false;
    loop
        invariant
            i <= j <= s@.len(),
            j <= e <= s@.len(),
            digits_end(s@, j as int) == e,
            !overflowed ==> acc == digits_val(s@, i as int, j as int),
            overflowed ==> digits_val(s@, i as int, j as int) > usize::MAX,
            digits_val(s@, i as int, j as int) <= digits_val(s@, i as int, e),
        ensures
            j as int == e,
            !overflowed ==> acc == digits_val(s@, i as int, e),
            overflowed ==> digits_val(s@, i as int, e) > usize::MAX,
        decreases s@.len() - j,
    {
        proof {
            lemma_digits_end_bounds(s@, j as int);
        }
        if j >= s.len() {
            break ;
        }
        let d = match dec_digit_val(s[j]) {
            Some(d) => d,
            None => {
                break ;
            },
        };
        proof {
            assert(is_dec_digit(s@[j as int]));
            assert(digits_end(s@, j as int) == digits_end(s@, j + 1));
            lemma_digits_end_bounds(s@, j + 1);
            assert(digits_val(s@, i as int, j + 1) == digits_val(s@, i as int, j as int) * 10
                + dec_val(s@[j as int]));
            lemma_digits_val_monotone(s@, i as int, j + 1, e);
        }
        if !overflowed {
            if acc > (usize::MAX - (d as usize)) / 10 {
                overflowed = true;
                proof {
                    assert(acc * 10 + (d as usize) > usize::MAX) by (nonlinear_arith)
                        requires
                            acc > (usize::MAX - (d as usize)) / 10,
                            d < 10,
                    ;
                }
            } else {
                proof {
                    assert(acc * 10 + (d as usize) <= usize::MAX) by (nonlinear_arith)
                        requires
                            acc <= (usize::MAX - (d as usize)) / 10,
                            d < 10,
                    ;
                }
                acc = acc * 10 + (d as usize);
            }
        } else {
            proof {
                assert(digits_val(s@, i as int, j as int) * 10 + dec_val(s@[j as int])
                    > usize::MAX) by (nonlinear_arith)
                    requires
                        digits_val(s@, i as int, j as int) > usize::MAX,
                        dec_val(s@[j as int]) >= 0,
                ;
            }
        }
        j = j + 1;
    }
    if j == i {
        None
    } else if overflowed {
        None
    } else {
        Some((acc, j))
    }
}

proof fn lemma_digits_val_monotone(s: Seq<char>, i: int, j: int, e: int)
    requires
        i <= j <= e,
    ensures
        digits_val(s, i, j) <= digits_val(s, i, e),
    decreases e - j,
{
    if j < e {
        lemma_digits_val_monotone(s, i, j + 1, e);
        assert(digits_val(s, i, j + 1) == digits_val(s, i, j) * 10 + dec_val(s[j]));
        assert(digits_val(s, i, j) * 10 >= digits_val(s, i, j)) by (nonlinear_arith)
            requires
                digits_val(s, i, j) >= 0,
        ;
    }
}

/// The character standing for a two-character escape.
pub open spec fn unesc_char(e: char) -> Option<char> {
    if e == '"' {
        Some('"')
    } else if e == '\\' {
        Some('\\')
    } else if e == '/' {
        Some('/')
    } else if e == 'n' {
        Some('\n')
    } else if e == 'r' {
        Some('\r')
    } else if e == 't' {
        Some('\t')
    } else if e == 'b' {
        Some(8u8 as char)
    } else if e == 'f' {
        Some(12u8 as char)
    } else {
        None
    }
}

/// The body of a quoted string from position `i` up to its closing
/// quote: characters stand for themselves, escapes for their character.
pub open spec fn parse_str_body(s: Seq<char>, i: int) -> Option<(Seq<char>, int)>
    decreases s.len() - i,
{
    if !(0 <= i < s.len()) {
        None
    } else if s[i] == '"' {
        Some((Seq::empty(), i + 1))
    } else if s[i] == '\\' {
        if i + 1 >= s.len() {
            None
        } else if s[i + 1] == 'u' {
            if i + 6 <= s.len() && s[i + 2] == '0' && s[i + 3] == '0' && spec_hex_val(s[i + 4])
                is Some && spec_hex_val(s[i + 5]) is Some {
                let v = spec_hex_val(s[i + 4]).unwrap() * 16 + spec_hex_val(s[i + 5]).unwrap();
                match parse_str_body(s, i + 6) {
                    Some((t, j)) => Some((seq![(v as u8) as char] + t, j)),
                    None => None,
                }
            } else {
                None
            }
        } else {
            match unesc_char(s[i + 1]) {
                Some(c) => match parse_str_body(s, i + 2) {
                    Some((t, j)) => Some((seq![c] + t, j)),
                    None => None,
                },
                None => None,
            }
        }
    } else {
        match parse_str_body(s, i + 1) {
            Some((t, j)) => Some((seq![s[i]] + t, j)),
            None => None,
        }
    }
}

/// A quoted string at position `i`.
pub open spec fn parse_string(s: Seq<char>, i: int) -> Option<(Seq<char>, int)> {
    if 0 <= i < s.len() && s[i] == '"' {
        parse_str_body(s, i + 1)
    } else {
        None
    }
}

/// A successful string body parse always moves forward and stays in
/// bounds.
pub proof fn lemma_parse_str_body_bounds(s: Seq<char>, i: int)
    ensures
        (match parse_str_body(s, i) {
            Some((t, j)) => i < j <= s.len(),
            None => true,
        }),
    decreases s.len() - i,
{
    if 0 <= i < s.len() {
        if s[i] == '"' {
        } else if s[i] == '\\' {
            if i + 1 < s.len() {
                if s[i + 1] == 'u' {
                    if i + 6 <= s.len() {
                        lemma_parse_str_body_bounds(s, i + 6);
                    }
                } else {
                    lemma_parse_str_body_bounds(s, i + 2);
                }
            }
        } else {
            lemma_parse_str_body_bounds(s, i + 1);
        }
    }
}

/// Prefixing the characters already read onto a pending body parse.
pub open spec fn prepend_chars(p: Option<(Seq<char>, int)>, pre: Seq<char>) -> Option<
    (Seq<char>, int),
> {
    match p {
        Some((t, j)) => Some((pre + t, j)),
        None => None,
    }
}

proof fn lemma_prepend_chars_compose(p: Option<(Seq<char>, int)>, a: Seq<char>, b: Seq<char>)
    ensures
        prepend_chars(prepend_chars(p, b), a) == prepend_chars(p, a + b),
{
    match p {
        Some((t, j)) => {
            assert(a + (b + t) =~= (a + b) + t);
        },
        None => {},
    }
}

fn unesc_char_exec(e: char) -> (r: Option<char>)
    ensures
        r == unesc_char(e),
{
    if e == '"' {
        Some('"')
    } else if e == '\\' {
        Some('\\')
    } else if e == '/' {
        Some('/')
    } else if e == 'n' {
        Some('\n')
    } else if e == 'r' {
        Some('\r')
    } else if e == 't' {
        Some('\t')
    } else if e == 'b' {
        Some(8u8 as char)
    } else if e == 'f' {
        Some(12u8 as char)
    } else {
        None
    }
}

fn parse_str_body_exec(s: &Vec<char>, start: usize) -> (r: Option<(Vec<char>, usize)>)
    requires
        start <= s@.len(),
    ensures
        (match r {
            Some((t, j)) => parse_str_body(s@, start as int) == Some((t@, j as int)) && start < j
                <= s@.len(),
            None => parse_str_body(s@, start as int) is None,
        }),
{
    proof {
        lemma_parse_str_body_bounds(s@, start as int);
    }
    let mut acc: Vec<char> = Vec::new();
    let mut i = start;
    loop
        invariant
            start <= i <= s@.len(),
            parse_str_body(s@, start as int) == prepend_chars(
                parse_str_body(s@, i as int),
                acc@,
            ),
        decreases s@.len() - i,
    {
        let ghost old_acc = acc@;
        if i >= s.len() {
            return None;
        }
        let c = s[i];
        if c == '"' {
            proof {
                assert(acc@ + Seq::<char>::empty() =~= acc@);
                lemma_parse_str_body_bounds(s@, start as int);
            }
            return Some((acc, i + 1));
        } else if c == '\\' {
            if i + 1 >= s.len() {
                return None;
            }
            let e = s[i + 1];
            if e == 'u' {
                if s.len() - i < 6 {
                    return None;
                }
                if !(s[i + 2] == '0' && s[i + 3] == '0') {
                    return None;
                }
                let h = match hex_digit_val(s[i + 4]) {
                    Some(h) => h,
                    None => {
                        return None;
                    },
                };
                let l = match hex_digit_val(s[i + 5]) {
                    Some(l) => l,
                    None => {
                        return None;
                    },
                };
                let v = h * 16 + l;
                let c2 = (v as u8) as char;
                acc.push(c2);
                proof {
                    assert(parse_str_body(s@, i as int) == prepend_chars(
                        parse_str_body(s@, i + 6),
                        seq![c2],
                    ));
                    lemma_prepend_chars_compose(parse_str_body(s@, i + 6), old_acc, seq![c2]);
                    assert(old_acc + seq![c2] =~= acc@);
                }
                i = i + 6;
            } else {
                let c2 = match unesc_char_exec(e) {
                    Some(c2) => c2,
                    None => {
                        return None;
                    },
                };
                acc.push(c2);
                proof {
                    assert(parse_str_body(s@, i as int) == prepend_chars(
                        parse_str_body(s@, i + 2),
                        seq![c2],
                    ));
                    lemma_prepend_chars_compose(parse_str_body(s@, i + 2), old_acc, seq![c2]);
                    assert(old_acc + seq![c2] =~= acc@);
                }
                i = i + 2;
            }
        } else {
            acc.push(c);
            proof {
                assert(parse_str_body(s@, i as int) == prepend_chars(
                    parse_str_body(s@, i + 1),
                    seq![c],
                ));
                lemma_prepend_chars_compose(parse_str_body(s@, i + 1), old_acc, seq![c]);
                assert(old_acc + seq![c] =~= acc@);
            }
            i = i + 1;
        }
    }
}

fn parse_string_exec(s: &Vec<char>, i: usize) -> (r: Option<(String, usize)>)
    requires
        i <= s@.len(),
    ensures
        (match r {
            Some((t, j)) => parse_string(s@, i as int) == Some((t@, j as int)) && i < j <= s@.len(),
            None => parse_string(s@, i as int) is None,
        }),
{
    if i < s.len() && s[i] == '"' {
        match parse_str_body_exec(s, i + 1) {
            Some((t, j)) => Some((crate::text::string_of(&t), j)),
            None => None,
        }
    } else {
        None
    }
}

/// The elements of an index list, from the first element to the
/// closing bracket.
pub open spec fn parse_usize_elems(s: Seq<char>, i: int) -> Option<(Seq<usize>, int)>
    decreases s.len() - i,
{
    match parse_usize(s, i) {
        None => None,
        Some((v, j)) => {
            let k = skip_ws(s, j);
            if 0 <= k < s.len() && s[k] == ']' {
                Some((seq![v], k + 1))
            } else if 0 <= k < s.len() && s[k] == ',' {
                let m = skip_ws(s, k + 1);
                if i < m <= s.len() {
                    match parse_usize_elems(s, m) {
                        Some((vs, e)) => Some((seq![v] + vs, e)),
                        None => None,
                    }
                } else {
                    None
                }
            } else {
                None
            }
        },
    }
}

/// A bracketed index list at position `i`.
pub open spec fn parse_usize_array(s: Seq<char>, i: int) -> Option<(Seq<usize>, int)> {
    if 0 <= i < s.len() && s[i] == '[' {
        let k = skip_ws(s, i + 1);
        if 0 <= k < s.len() && s[k] == ']' {
            Some((Seq::empty(), k + 1))
        } else if 0 <= k <= s.len() {
            parse_usize_elems(s, k)
        } else {
            None
        }
    } else {
        None
    }
}

spec fn prepend_usizes(p: Option<(Seq<usize>, int)>, pre: Seq<usize>) -> Option<
    (Seq<usize>, int),
> {
    match p {
        Some((t, j)) => Some((pre + t, j)),
        None => None,
    }
}

proof fn lemma_prepend_usizes_compose(p: Option<(Seq<usize>, int)>, a: Seq<usize>, b: Seq<usize>)
    ensures
        prepend_usizes(prepend_usizes(p, b), a) == prepend_usizes(p, a + b),
{
    match p {
        Some((t, j)) => {
            assert(a + (b + t) =~= (a + b) + t);
        },
        None => {},
    }
}

fn parse_usize_array_exec(s: &Vec<char>, i: usize) -> (r: Option<(Vec<usize>, usize)>)
    requires
        i <= s@.len(),
    ensures
        (match r {
            Some((t, j)) => parse_usize_array(s@, i as int) == Some((t@, j as int)) && i < j
                <= s@.len(),
            None => parse_usize_array(s@, i as int) is None,
        }),
{
    if !(i < s.len() && s[i] == '[') {
        return None;
    }
    let k = skip_ws_exec(s, i + 1);
    if k < s.len() && s[k] == ']' {
        let empty: Vec<usize> = Vec::new();
        proof {
            assert(empty@ =~= Seq::<usize>::empty());
        }
        return Some((empty, k + 1));
    }
    let mut acc: Vec<usize> = Vec::new();
    let mut pos = k;
    loop
        invariant
            k <= pos <= s@.len(),
            i < k <= s@.len(),
            parse_usize_elems(s@, k as int) == prepend_usizes(
                parse_usize_elems(s@, pos as int),
                acc@,
            ),
            parse_usize_array(s@, i as int) == parse_usize_elems(s@, k as int),
        decreases s@.len() - pos,
    {
        let ghost old_acc = acc@;
        let (v, j) = match parse_usize_exec(s, pos) {
            Some(x) => x,
            None => {
                return None;
            },
        };
        acc.push(v);
        let k2 = skip_ws_exec(s, j);
        if k2 < s.len() && s[k2] == ']' {
            proof {
                assert(parse_usize_elems(s@, pos as int) == Some((seq![v], k2 + 1)));
                assert(old_acc + seq![v] =~= acc@);
            }
            return Some((acc, k2 + 1));
        } else if k2 < s.len() && s[k2] == ',' {
            let m = skip_ws_exec(s, k2 + 1);
            proof {
                assert(parse_usize_elems(s@, pos as int) == prepend_usizes(
                    parse_usize_elems(s@, m as int),
                    seq![v],
                ));
                lemma_prepend_usizes_compose(parse_usize_elems(s@, m as int), old_acc, seq![v]);
                assert(old_acc + seq![v] =~= acc@);
            }
            pos = m;
        } else {
            return None;
        }
    }
}

/// The elements of a string list, from the first element to the
/// closing bracket.
pub open spec fn parse_str_elems(s: Seq<char>, i: int) -> Option<(Seq<Seq<char>>, int)>
    decreases s.len() - i,
{
    match parse_string(s, i) {
        None => None,
        Some((v, j)) => {
            let k = skip_ws(s, j);
            if 0 <= k < s.len() && s[k] == ']' {
                Some((seq![v], k + 1))
            } else if 0 <= k < s.len() && s[k] == ',' {
                let m = skip_ws(s, k + 1);
                if i < m <= s.len() {
                    match parse_str_elems(s, m) {
                        Some((vs, e)) => Some((seq![v] + vs, e)),
                        None => None,
                    }
                } else {
                    None
                }
            } else {
                None
            }
        },
    }
}

/// A bracketed string list at position `i`.
pub open spec fn parse_str_array(s: Seq<char>, i: int) -> Option<(Seq<Seq<char>>, int)> {
    if 0 <= i < s.len() && s[i] == '[' {
        let k = skip_ws(s, i + 1);
        if 0 <= k < s.len() && s[k] == ']' {
            Some((Seq::empty(), k + 1))
        } else if 0 <= k <= s.len() {
            parse_str_elems(s, k)
        } else {
            None
        }
    } else {
        None
    }
}

spec fn prepend_strs(p: Option<(Seq<Seq<char>>, int)>, pre: Seq<Seq<char>>) -> Option<
    (Seq<Seq<char>>, int),
> {
    match p {
        Some((t, j)) => Some((pre + t, j)),
        None => None,
    }
}

proof fn lemma_prepend_strs_compose(
    p: Option<(Seq<Seq<char>>, int)>,
    a: Seq<Seq<char>>,
    b: Seq<Seq<char>>,
)
    ensures
        prepend_strs(prepend_strs(p, b), a) == prepend_strs(p, a + b),
{
    match p {
        Some((t, j)) => {
            assert(a + (b + t) =~= (a + b) + t);
        },
        None => {},
    }
}

fn parse_str_array_exec(s: &Vec<char>, i: usize) -> (r: Option<(Vec<String>, usize)>)
    requires
        i <= s@.len(),
    ensures
        (match r {
            Some((t, j)) => parse_str_array(s@, i as int) == Some(
                (t@.map_values(|x: String| x@), j as int),
            ) && i < j <= s@.len(),
            None => parse_str_array(s@, i as int) is None,
        }),
{
    if !(i < s.len() && s[i] == '[') {
        return None;
    }
    let k = skip_ws_exec(s, i + 1);
    if k < s.len() && s[k] == ']' {
        let empty: Vec<String> = Vec::new();
        proof {
            assert(empty@.map_values(|x: String| x@) =~= Seq::<Seq<char>>::empty());
        }
        return Some((empty, k + 1));
    }
    let mut acc: Vec<String> = Vec::new();
    let mut pos = k;
    loop
        invariant
            k <= pos <= s@.len(),
            i < k <= s@.len(),
            parse_str_elems(s@, k as int) == prepend_strs(
                parse_str_elems(s@, pos as int),
                acc@.map_values(|x: String| x@),
            ),
            parse_str_array(s@, i as int) == parse_str_elems(s@, k as int),
        decreases s@.len() - pos,
    {
        let ghost old_acc = acc@.map_values(|x: String| x@);
        let (v, j) = match parse_string_exec(s, pos) {
            Some(x) => x,
            None => {
                return None;
            },
        };
        let ghost vv = v@;
        acc.push(v);
        proof {
            assert(acc@.map_values(|x: String| x@) =~= old_acc + seq![vv]);
        }
        let k2 = skip_ws_exec(s, j);
        if k2 < s.len() && s[k2] == ']' {
            proof {
                assert(parse_str_elems(s@, pos as int) == Some((seq![vv], k2 + 1)));
            }
            return Some((acc, k2 + 1));
        } else if k2 < s.len() && s[k2] == ',' {
            let m = skip_ws_exec(s, k2 + 1);
            proof {
                assert(parse_str_elems(s@, pos as int) == prepend_strs(
                    parse_str_elems(s@, m as int),
                    seq![vv],
                ));
                lemma_prepend_strs_compose(parse_str_elems(s@, m as int), old_acc, seq![vv]);
            }
            pos = m;
        } else {
            return None;
        }
    }
}

/// What has been gathered of an answer document while its fields are
/// read: each field at most once, in any order.
pub struct UrAcc {
    pub confirmed: Option<bool>,
    pub selected: Option<Seq<usize>>,
    pub user_input: Option<Seq<char>>,
    pub images: Option<Seq<Seq<char>>>,
}

/// Nothing gathered yet.
pub open spec fn ur_acc0() -> UrAcc {
    UrAcc { confirmed: None, selected: None, user_input: None, images: None }
}

/// One `key: value` pair of an answer document at position `i`: a known
/// key not yet seen, and a value of its type. An unknown key's value is
/// stepped over and kept nowhere; a repeated key fails the parse.
pub open spec fn parse_ur_field(s: Seq<char>, i: int, acc: UrAcc) -> Option<(UrAcc, int)> {
    match parse_string(s, i) {
        None => None,
        Some((key, j)) => {
            let k = skip_ws(s, j);
            if !(0 <= k < s.len() && s[k] == ':') {
                None
            } else {
                let m = skip_ws(s, k + 1);
                if key == "confirmed"@ {
                    if acc.confirmed is Some {
                        None
                    } else {
                        match parse_bool(s, m) {
                            Some((b, j2)) => Some((UrAcc { confirmed: Some(b), ..acc }, j2)),
                            None => None,
                        }
                    }
                } else if key == "selectedSections"@ {
                    if acc.selected is Some {
                        None
                    } else {
                        match parse_usize_array(s, m) {
                            Some((v, j2)) => Some((UrAcc { selected: Some(v), ..acc }, j2)),
                            None => None,
                        }
                    }
                } else if key == "userInput"@ {
                    if acc.user_input is Some {
                        None
                    } else {
                        match parse_string(s, m) {
                            Some((v, j2)) => Some((UrAcc { user_input: Some(v), ..acc }, j2)),
                            None => None,
                        }
                    }
                } else if key == "images"@ {
                    if acc.images is Some {
                        None
                    } else {
                        match parse_str_array(s, m) {
                            Some((v, j2)) => Some((UrAcc { images: Some(v), ..acc }, j2)),
                            None => None,
                        }
                    }
                } else {
                    match skip_value(s, m, SKIP_DEPTH as nat) {
                        Some(j2) => Some((acc, j2)),
                        None => None,
                    }
                }
            }
        },
    }
}

/// The fields of an answer document from position `i` (at a key) up to
/// and past the closing brace.
pub open spec fn parse_ur_fields(s: Seq<char>, i: int, acc: UrAcc) -> Option<(UrAcc, int)>
    decreases s.len() - i,
{
    match parse_ur_field(s, i, acc) {
        None => None,
        Some((acc2, j)) => {
            let k = skip_ws(s, j);
            if 0 <= k < s.len() && s[k] == '}' {
                Some((acc2, k + 1))
            } else if 0 <= k < s.len() && s[k] == ',' {
                let m = skip_ws(s, k + 1);
                if i < m <= s.len() {
                    parse_ur_fields(s, m, acc2)
                } else {
                    None
                }
            } else {
                None
            }
        },
    }
}

/// The answer a field record denotes: `confirmed` is required, the
/// other fields default to empty.
pub open spec fn ur_finish(acc: UrAcc) -> Option<crate::types::UserResponseV> {
    match acc.confirmed {
        None => None,
        Some(c) => Some(
            crate::types::UserResponseV {
                confirmed: c,
                selected_sections: match acc.selected {
                    Some(v) => v,
                    None => Seq::empty(),
                },
                user_input: match acc.user_input {
                    Some(v) => v,
                    None => Seq::empty(),
                },
                images: match acc.images {
                    Some(v) => v,
                    None => Seq::empty(),
                },
            },
        ),
    }
}

/// A whole answer object at position `i`.
pub open spec fn parse_ur(s: Seq<char>, i: int) -> Option<(crate::types::UserResponseV, int)> {
    if !(0 <= i < s.len() && s[i] == '{') {
        None
    } else {
        let k = skip_ws(s, i + 1);
        if 0 <= k < s.len() && s[k] == '}' {
            match ur_finish(ur_acc0()) {
                Some(u) => Some((u, k + 1)),
                None => None,
            }
        } else if 0 <= k <= s.len() {
            match parse_ur_fields(s, k, ur_acc0()) {
                Some((acc, j)) => match ur_finish(acc) {
                    Some(u) => Some((u, j)),
                    None => None,
                },
                None => None,
            }
        } else {
            None
        }
    }
}

/// The answer document as a whole: one object, surrounded by nothing
/// but whitespace.
pub open spec fn spec_decode_user_response(s: Seq<char>) -> Option<crate::types::UserResponseV> {
    let i = skip_ws(s, 0);
    match parse_ur(s, i) {
        Some((u, j)) => if skip_ws(s, j) == s.len() {
            Some(u)
        } else {
            None
        },
        None => None,
    }
}

#[verifier::rlimit(100)]
fn parse_ur_exec(s: &Vec<char>, i: usize) -> (r: Option<(crate::types::UserResponse, usize)>)
    requires
        i <= s@.len(),
    ensures
        (match r {
            Some((u, j)) => parse_ur(s@, i as int) == Some((u@, j as int)) && j <= s@.len(),
            None => parse_ur(s@, i as int) is None,
        }),
{
    if !(i < s.len() && s[i] == '{') {
        return None;
    }
    let k0 = skip_ws_exec(s, i + 1);
    if k0 < s.len() && s[k0] == '}' {
        return None;
    }
    let mut c_opt: Option<bool> = None;
    let mut sel_opt: Option<Vec<usize>> = None;
    let mut inp_opt: Option<String> = None;
    let mut img_opt: Option<Vec<String>> = None;
    let ghost acc0 = ur_acc0();
    let mut pos = k0;
    let ghost mut accv = acc0;
    let end: usize;
    loop
        invariant_except_break
            parse_ur_fields(s@, k0 as int, acc0) == parse_ur_fields(s@, pos as int, accv),
        invariant
            k0 <= pos <= s@.len(),
            i < k0 <= s@.len(),
            i < s@.len(),
            s@[i as int] == '{',
            k0 as int == skip_ws(s@, i as int + 1),
            !(k0 < s@.len() && s@[k0 as int] == '}'),
            acc0 == ur_acc0(),
            accv.confirmed == c_opt,
            accv.selected == (match sel_opt {
                Some(ref v) => Some(v@),
                None => None::<Seq<usize>>,
            }),
            accv.user_input == (match inp_opt {
                Some(ref v) => Some(v@),
                None => None::<Seq<char>>,
            }),
            accv.images == (match img_opt {
                Some(ref v) => Some(v@.map_values(|x: String| x@)),
                None => None::<Seq<Seq<char>>>,
            }),
        ensures
            k0 <= pos <= s@.len(),
            i < s@.len(),
            s@[i as int] == '{',
            k0 as int == skip_ws(s@, i as int + 1),
            !(k0 < s@.len() && s@[k0 as int] == '}'),
            i < k0 <= s@.len(),
            acc0 == ur_acc0(),
            end <= s@.len(),
            parse_ur_fields(s@, k0 as int, acc0) == Some((accv, end as int)),
            accv.confirmed == c_opt,
            accv.selected == (match sel_opt {
                Some(ref v) => Some(v@),
                None => None::<Seq<usize>>,
            }),
            accv.user_input == (match inp_opt {
                Some(ref v) => Some(v@),
                None => None::<Seq<char>>,
            }),
            accv.images == (match img_opt {
                Some(ref v) => Some(v@.map_values(|x: String| x@)),
                None => None::<Seq<Seq<char>>>,
            }),
        decreases s@.len() - pos,
    {
        let ghost acc_in = accv;
        let (key, j) = match parse_string_exec(s, pos) {
            Some(x) => x,
            None => {
                proof {
                    assert(parse_ur_field(s@, pos as int, accv) is None);
                    assert(parse_ur_fields(s@, pos as int, accv) is None);
                }
                return None;
            },
        };
        let k = skip_ws_exec(s, j);
        if !(k < s.len() && s[k] == ':') {
            proof {
                assert(parse_ur_field(s@, pos as int, accv) is None);
                assert(parse_ur_fields(s@, pos as int, accv) is None);
            }
            return None;
        }
        let m = skip_ws_exec(s, k + 1);
        let pos2: usize;
        if str_eq(&key, "confirmed") {
            if c_opt.is_some() {
                return None;
            }
            let (b, j2) = match parse_bool_exec(s, m) {
                Some(x) => x,
                None => {
                    return None;
                },
            };
            c_opt = Some(b);
            proof {
                accv = UrAcc { confirmed: Some(b), ..acc_in };
            }
            pos2 = j2;
        } else if str_eq(&key, "selectedSections") {
            if sel_opt.is_some() {
                return None;
            }
            let (v, j2) = match parse_usize_array_exec(s, m) {
                Some(x) => x,
                None => {
                    return None;
                },
            };
            proof {
                accv = UrAcc { selected: Some(v@), ..acc_in };
            }
            sel_opt = Some(v);
            pos2 = j2;
        } else if str_eq(&key, "userInput") {
            if inp_opt.is_some() {
                return None;
            }
            let (v, j2) = match parse_string_exec(s, m) {
                Some(x) => x,
                None => {
                    return None;
                },
            };
            proof {
                accv = UrAcc { user_input: Some(v@), ..acc_in };
            }
            inp_opt = Some(v);
            pos2 = j2;
        } else if str_eq(&key, "images") {
            if img_opt.is_some() {
                return None;
            }
            let (v, j2) = match parse_str_array_exec(s, m) {
                Some(x) => x,
                None => {
                    return None;
                },
            };
            proof {
                accv = UrAcc { images: Some(v@.map_values(|x: String| x@)), ..acc_in };
            }
            img_opt = Some(v);
            pos2 = j2;
        } else {
            let j2 = match skip_value_exec(s, m, SKIP_DEPTH) {
                Some(j2) => j2,
                None => {
                    proof {
                        assert(parse_ur_field(s@, pos as int, acc_in) is None);
                        assert(parse_ur_fields(s@, pos as int, acc_in) is None);
                    }
                    return None;
                },
            };
            pos2 = j2;
        }
        proof {
            assert(parse_ur_field(s@, pos as int, acc_in) == Some((accv, pos2 as int)));
        }
        let k3 = skip_ws_exec(s, pos2);
        if k3 < s.len() && s[k3] == '}' {
            end = k3 + 1;
            break ;
        } else if k3 < s.len() && s[k3] == ',' {
            let m2 = skip_ws_exec(s, k3 + 1);
            proof {
                assert(parse_ur_fields(s@, pos as int, acc_in) == parse_ur_fields(
                    s@,
                    m2 as int,
                    accv,
                ));
            }
            pos = m2;
        } else {
            return None;
        }
    }
    let c = match c_opt {
        Some(c) => c,
        None => {
            return None;
        },
    };
    let selected_sections = match sel_opt {
        Some(v) => v,
        None => Vec::new(),
    };
    let user_input = match inp_opt {
        Some(v) => v,
        None => String::new(),
    };
    let images = match img_opt {
        Some(v) => v,
        None => Vec::new(),
    };
    let u = crate::types::UserResponse { confirmed: c, selected_sections, user_input, images };
    proof {
        assert(u@.selected_sections =~= ur_finish(accv).unwrap().selected_sections);
        assert(u@.user_input =~= ur_finish(accv).unwrap().user_input);
        assert(u@.images =~= ur_finish(accv).unwrap().images);
    }
    Some((u, end))
}

/// Reads one answer document. Yields the canonical answer exactly when
/// the text is a well-formed answer object surrounded only by
/// whitespace; yields nothing otherwise.
pub fn decode_user_response(s: &str) -> (r: Option<crate::types::UserResponse>)
    ensures
        (match r {
            Some(u) => spec_decode_user_response(s@) == Some(u@),
            None => spec_decode_user_response(s@) is None,
        }),
{
    let v = crate::text::chars_of(s);
    let i = skip_ws_exec(&v, 0);
    match parse_ur_exec(&v, i) {
        None => None,
        Some((u, j)) => {
            let e = skip_ws_exec(&v, j);
            if e == v.len() {
                Some(u)
            } else {
                None
            }
        },
    }
}

/// A decimal count at position `i`: at least one digit, value within
/// the wide machine bound.
pub open spec fn parse_u64(s: Seq<char>, i: int) -> Option<(u64, int)> {
    let j = digits_end(s, i);
    if j == i {
        None
    } else if digits_val(s, i, j) > u64::MAX {
        None
    } else {
        Some((digits_val(s, i, j) as u64, j))
    }
}

fn parse_u64_exec(s: &Vec<char>, i: usize) -> (r: Option<(u64, usize)>)
    requires
        i <= s@.len(),
    ensures
        (match r {
            Some((v, j)) => parse_u64(s@, i as int) == Some((v, j as int)) && i < j <= s@.len(),
            None => parse_u64(s@, i as int) is None,
        }),
{
    proof {
        lemma_digits_end_bounds(s@, i as int);
    }
    let ghost e = digits_end(s@, i as int);
    let mut j = i;
    let mut acc: u64 = 0;
    let mut overflowed = false;
    loop
        invariant
            i <= j <= s@.len(),
            j <= e <= s@.len(),
            digits_end(s@, j as int) == e,
            !overflowed ==> acc == digits_val(s@, i as int, j as int),
            overflowed ==> digits_val(s@, i as int, j as int) > u64::MAX,
            digits_val(s@, i as int, j as int) <= digits_val(s@, i as int, e),
        ensures
            j as int == e,
            !overflowed ==> acc == digits_val(s@, i as int, e),
            overflowed ==> digits_val(s@, i as int, e) > u64::MAX,
        decreases s@.len() - j,
    {
        proof {
            lemma_digits_end_bounds(s@, j as int);
        }
        if j >= s.len() {
            break ;
        }
        let d = match dec_digit_val(s[j]) {
            Some(d) => d,
            None => {
                break ;
            },
        };
        proof {
            assert(is_dec_digit(s@[j as int]));
            assert(digits_end(s@, j as int) == digits_end(s@, j + 1));
            lemma_digits_end_bounds(s@, j + 1);
            assert(digits_val(s@, i as int, j + 1) == digits_val(s@, i as int, j as int) * 10
                + dec_val(s@[j as int]));
            lemma_digits_val_monotone(s@, i as int, j + 1, e);
        }
        if !overflowed {
            if acc > (u64::MAX - d) / 10 {
                overflowed = true;
                proof {
                    assert(acc * 10 + d > u64::MAX) by (nonlinear_arith)
                        requires
                            acc > (u64::MAX - d) / 10,
                            d < 10,
                    ;
                }
            } else {
                proof {
                    assert(acc * 10 + d <= u64::MAX) by (nonlinear_arith)
                        requires
                            acc <= (u64::MAX - d) / 10,
                            d < 10,
                    ;
                }
                acc = acc * 10 + d;
            }
        } else {
            proof {
                assert(digits_val(s@, i as int, j as int) * 10 + dec_val(s@[j as int])
                    > u64::MAX) by (nonlinear_arith)
                    requires
                        digits_val(s@, i as int, j as int) > u64::MAX,
                        dec_val(s@[j as int]) >= 0,
                ;
            }
        }
        j = j + 1;
    }
    if j == i {
        None
    } else if overflowed {
        None
    } else {
        Some((acc, j))
    }
}

/// An optional string value: the null word, or a quoted string.
pub open spec fn parse_opt_string(s: Seq<char>, i: int) -> Option<(Option<Seq<char>>, int)> {
    match parse_null(s, i) {
        Some(j) => Some((None, j)),
        None => match parse_string(s, i) {
            Some((v, j)) => Some((Some(v), j)),
            None => None,
        },
    }
}

fn parse_opt_string_exec(s: &Vec<char>, i: usize) -> (r: Option<(Option<String>, usize)>)
    requires
        i <= s@.len(),
    ensures
        (match r {
            Some((v, j)) => parse_opt_string(s@, i as int) == Some(
                (
                    match v {
                        Some(ref t) => Some(t@),
                        None => None::<Seq<char>>,
                    },
                    j as int,
                ),
            ) && i < j <= s@.len(),
            None => parse_opt_string(s@, i as int) is None,
        }),
{
    match parse_null_exec(s, i) {
        Some(j) => Some((None, j)),
        None => match parse_string_exec(s, i) {
            Some((v, j)) => Some((Some(v), j)),
            None => None,
        },
    }
}

/// An optional number value: the null word, or a decimal number.
pub open spec fn parse_opt_u64(s: Seq<char>, i: int) -> Option<(Option<u64>, int)> {
    match parse_null(s, i) {
        Some(j) => Some((None, j)),
        None => match parse_u64(s, i) {
            Some((v, j)) => Some((Some(v), j)),
            None => None,
        },
    }
}

fn parse_opt_u64_exec(s: &Vec<char>, i: usize) -> (r: Option<(Option<u64>, usize)>)
    requires
        i <= s@.len(),
    ensures
        (match r {
            Some((v, j)) => parse_opt_u64(s@, i as int) == Some((v, j as int)) && i < j
                <= s@.len(),
            None => parse_opt_u64(s@, i as int) is None,
        }),
{
    match parse_null_exec(s, i) {
        Some(j) => Some((None, j)),
        None => match parse_u64_exec(s, i) {
            Some((v, j)) => Some((Some(v), j)),
            None => None,
        },
    }
}

/// What has been gathered of a context object while its fields are read.
pub struct EnvAcc {
    pub cwd: Option<Option<Seq<char>>>,
    pub project_name: Option<Option<Seq<char>>>,
    pub terminal: Option<Option<Seq<char>>>,
    pub pid: Option<Option<u64>>,
}

/// Nothing gathered yet.
pub open spec fn env_acc0() -> EnvAcc {
    EnvAcc { cwd: None, project_name: None, terminal: None, pid: None }
}

/// One `key: value` pair of a context object at position `i`.
pub open spec fn parse_env_field(s: Seq<char>, i: int, acc: EnvAcc) -> Option<(EnvAcc, int)> {
    match parse_string(s, i) {
        None => None,
        Some((key, j)) => {
            let k = skip_ws(s, j);
            if !(0 <= k < s.len() && s[k] == ':') {
                None
            } else {
                let m = skip_ws(s, k + 1);
                if key == "cwd"@ {
                    if acc.cwd is Some {
                        None
                    } else {
                        match parse_opt_string(s, m) {
                            Some((v, j2)) => Some((EnvAcc { cwd: Some(v), ..acc }, j2)),
                            None => None,
                        }
                    }
                } else if key == "projectName"@ {
                    if acc.project_name is Some {
                        None
                    } else {
                        match parse_opt_string(s, m) {
                            Some((v, j2)) => Some((EnvAcc { project_name: Some(v), ..acc }, j2)),
                            None => None,
                        }
                    }
                } else if key == "terminal"@ {
                    if acc.terminal is Some {
                        None
                    } else {
                        match parse_opt_string(s, m) {
                            Some((v, j2)) => Some((EnvAcc { terminal: Some(v), ..acc }, j2)),
                            None => None,
                        }
                    }
                } else if key == "pid"@ {
                    if acc.pid is Some {
                        None
                    } else {
                        match parse_opt_u64(s, m) {
                            Some((v, j2)) => Some((EnvAcc { pid: Some(v), ..acc }, j2)),
                            None => None,
                        }
                    }
                } else {
                    match skip_value(s, m, SKIP_DEPTH as nat) {
                        Some(j2) => Some((acc, j2)),
                        None => None,
                    }
                }
            }
        },
    }
}

/// The fields of a context object from position `i` up to and past the
/// closing brace.
pub open spec fn parse_env_fields(s: Seq<char>, i: int, acc: EnvAcc) -> Option<(EnvAcc, int)>
    decreases s.len() - i,
{
    match parse_env_field(s, i, acc) {
        None => None,
        Some((acc2, j)) => {
            let k = skip_ws(s, j);
            if 0 <= k < s.len() && s[k] == '}' {
                Some((acc2, k + 1))
            } else if 0 <= k < s.len() && s[k] == ',' {
                let m = skip_ws(s, k + 1);
                if i < m <= s.len() {
                    parse_env_fields(s, m, acc2)
                } else {
                    None
                }
            } else {
                None
            }
        },
    }
}

/// The context a field record denotes: every field defaults to absent.
pub open spec fn env_finish(acc: EnvAcc) -> crate::types::EnvContextV {
    crate::types::EnvContextV {
        cwd: match acc.cwd {
            Some(v) => v,
            None => None,
        },
        project_name: match acc.project_name {
            Some(v) => v,
            None => None,
        },
        terminal: match acc.terminal {
            Some(v) => v,
            None => None,
        },
        pid: match acc.pid {
            Some(v) => v,
            None => None,
        },
    }
}

/// A whole context object at position `i`.
pub open spec fn parse_env(s: Seq<char>, i: int) -> Option<(crate::types::EnvContextV, int)> {
    if !(0 <= i < s.len() && s[i] == '{') {
        None
    } else {
        let k = skip_ws(s, i + 1);
        if 0 <= k < s.len() && s[k] == '}' {
            Some((env_finish(env_acc0()), k + 1))
        } else if 0 <= k <= s.len() {
            match parse_env_fields(s, k, env_acc0()) {
                Some((acc, j)) => Some((env_finish(acc), j)),
                None => None,
            }
        } else {
            None
        }
    }
}

#[verifier::rlimit(100)]
fn parse_env_exec(s: &Vec<char>, i: usize) -> (r: Option<(crate::types::EnvContext, usize)>)
    requires
        i <= s@.len(),
    ensures
        (match r {
            Some((e, j)) => parse_env(s@, i as int) == Some((e@, j as int)) && i < j <= s@.len(),
            None => parse_env(s@, i as int) is None,
        }),
{
    if !(i < s.len() && s[i] == '{') {
        return None;
    }
    let k0 = skip_ws_exec(s, i + 1);
    if k0 < s.len() && s[k0] == '}' {
        let e = crate::types::EnvContext { cwd: None, project_name: None, terminal: None, pid: None };
        return Some((e, k0 + 1));
    }
    let mut cwd_o: Option<Option<String>> = None;
    let mut pn_o: Option<Option<String>> = None;
    let mut term_o: Option<Option<String>> = None;
    let mut pid_o: Option<Option<u64>> = None;
    let ghost acc0 = env_acc0();
    let mut pos = k0;
    let ghost mut accv = acc0;
    let end: usize;
    loop
        invariant_except_break
            parse_env_fields(s@, k0 as int, acc0) == parse_env_fields(s@, pos as int, accv),
        invariant
            k0 <= pos <= s@.len(),
            i < k0 <= s@.len(),
            i < s@.len(),
            s@[i as int] == '{',
            k0 as int == skip_ws(s@, i as int + 1),
            !(k0 < s@.len() && s@[k0 as int] == '}'),
            acc0 == env_acc0(),
            accv.cwd == (match cwd_o {
                Some(Some(ref v)) => Some(Some(v@)),
                Some(None) => Some(None::<Seq<char>>),
                None => None::<Option<Seq<char>>>,
            }),
            accv.project_name == (match pn_o {
                Some(Some(ref v)) => Some(Some(v@)),
                Some(None) => Some(None::<Seq<char>>),
                None => None::<Option<Seq<char>>>,
            }),
            accv.terminal == (match term_o {
                Some(Some(ref v)) => Some(Some(v@)),
                Some(None) => Some(None::<Seq<char>>),
                None => None::<Option<Seq<char>>>,
            }),
            accv.pid == pid_o,
        ensures
            i < end <= s@.len(),
            parse_env_fields(s@, k0 as int, acc0) == Some((accv, end as int)),
            accv.cwd == (match cwd_o {
                Some(Some(ref v)) => Some(Some(v@)),
                Some(None) => Some(None::<Seq<char>>),
                None => None::<Option<Seq<char>>>,
            }),
            accv.project_name == (match pn_o {
                Some(Some(ref v)) => Some(Some(v@)),
                Some(None) => Some(None::<Seq<char>>),
                None => None::<Option<Seq<char>>>,
            }),
            accv.terminal == (match term_o {
                Some(Some(ref v)) => Some(Some(v@)),
                Some(None) => Some(None::<Seq<char>>),
                None => None::<Option<Seq<char>>>,
            }),
            accv.pid == pid_o,
        decreases s@.len() - pos,
    {
        let ghost acc_in = accv;
        let (key, j) = match parse_string_exec(s, pos) {
            Some(x) => x,
            None => {
                proof {
                    assert(parse_env_field(s@, pos as int, accv) is None);
                    assert(parse_env_fields(s@, pos as int, accv) is None);
                }
                return None;
            },
        };
        let k = skip_ws_exec(s, j);
        if !(k < s.len() && s[k] == ':') {
            proof {
                assert(parse_env_field(s@, pos as int, accv) is None);
                assert(parse_env_fields(s@, pos as int, accv) is None);
            }
            return None;
        }
        let m = skip_ws_exec(s, k + 1);
        let pos2: usize;
        if crate::text::str_eq(&key, "cwd") {
            if cwd_o.is_some() {
                return None;
            }
            let (v, j2) = match parse_opt_string_exec(s, m) {
                Some(x) => x,
                None => {
                    return None;
                },
            };
            proof {
                accv = EnvAcc {
                    cwd: Some(
                        match v {
                            Some(ref t) => Some(t@),
                            None => None,
                        },
                    ),
                    ..acc_in
                };
            }
            cwd_o = Some(v);
            pos2 = j2;
        } else if crate::text::str_eq(&key, "projectName") {
            if pn_o.is_some() {
                return None;
            }
            let (v, j2) = match parse_opt_string_exec(s, m) {
                Some(x) => x,
                None => {
                    return None;
                },
            };
            proof {
                accv = EnvAcc {
                    project_name: Some(
                        match v {
                            Some(ref t) => Some(t@),
                            None => None,
                        },
                    ),
                    ..acc_in
                };
            }
            pn_o = Some(v);
            pos2 = j2;
        } else if crate::text::str_eq(&key, "terminal") {
            if term_o.is_some() {
                return None;
            }
            let (v, j2) = match parse_opt_string_exec(s, m) {
                Some(x) => x,
                None => {
                    return None;
                },
            };
            proof {
                accv = EnvAcc {
                    terminal: Some(
                        match v {
                            Some(ref t) => Some(t@),
                            None => None,
                        },
                    ),
                    ..acc_in
                };
            }
            term_o = Some(v);
            pos2 = j2;
        } else if crate::text::str_eq(&key, "pid") {
            if pid_o.is_some() {
                return None;
            }
            let (v, j2) = match parse_opt_u64_exec(s, m) {
                Some(x) => x,
                None => {
                    return None;
                },
            };
            proof {
                accv = EnvAcc { pid: Some(v), ..acc_in };
            }
            pid_o = Some(v);
            pos2 = j2;
        } else {
            let j2 = match skip_value_exec(s, m, SKIP_DEPTH) {
                Some(j2) => j2,
                None => {
                    proof {
                        assert(parse_env_field(s@, pos as int, acc_in) is None);
                        assert(parse_env_fields(s@, pos as int, acc_in) is None);
                    }
                    return None;
                },
            };
            pos2 = j2;
        }
        proof {
            assert(parse_env_field(s@, pos as int, acc_in) == Some((accv, pos2 as int)));
        }
        let k3 = skip_ws_exec(s, pos2);
        if k3 < s.len() && s[k3] == '}' {
            end = k3 + 1;
            break ;
        } else if k3 < s.len() && s[k3] == ',' {
            let m2 = skip_ws_exec(s, k3 + 1);
            proof {
                assert(parse_env_fields(s@, pos as int, acc_in) == parse_env_fields(
                    s@,
                    m2 as int,
                    accv,
                ));
            }
            pos = m2;
        } else {
            return None;
        }
    }
    let e = crate::types::EnvContext {
        cwd: match cwd_o {
            Some(v) => v,
            None => None,
        },
        project_name: match pn_o {
            Some(v) => v,
            None => None,
        },
        terminal: match term_o {
            Some(v) => v,
            None => None,
        },
        pid: match pid_o {
            Some(v) => v,
            None => None,
        },
    };
    proof {
        assert(e@ == env_finish(accv));
    }
    Some((e, end))
}

/// What has been gathered of a section object while its fields are read.
pub struct SecAcc {
    pub title: Option<Seq<char>>,
    pub content: Option<Seq<char>>,
    pub selected: Option<bool>,
}

/// Nothing gathered yet.
pub open spec fn sec_acc0() -> SecAcc {
    SecAcc { title: None, content: None, selected: None }
}

/// One `key: value` pair of a section object at position `i`.
pub open spec fn parse_sec_field(s: Seq<char>, i: int, acc: SecAcc) -> Option<(SecAcc, int)> {
    match parse_string(s, i) {
        None => None,
        Some((key, j)) => {
            let k = skip_ws(s, j);
            if !(0 <= k < s.len() && s[k] == ':') {
                None
            } else {
                let m = skip_ws(s, k + 1);
                if key == "title"@ {
                    if acc.title is Some {
                        None
                    } else {
                        match parse_string(s, m) {
                            Some((v, j2)) => Some((SecAcc { title: Some(v), ..acc }, j2)),
                            None => None,
                        }
                    }
                } else if key == "content"@ {
                    if acc.content is Some {
                        None
                    } else {
                        match parse_string(s, m) {
                            Some((v, j2)) => Some((SecAcc { content: Some(v), ..acc }, j2)),
                            None => None,
                        }
                    }
                } else if key == "selected"@ {
                    if acc.selected is Some {
                        None
                    } else {
                        match parse_bool(s, m) {
                            Some((v, j2)) => Some((SecAcc { selected: Some(v), ..acc }, j2)),
                            None => None,
                        }
                    }
                } else {
                    match skip_value(s, m, SKIP_DEPTH as nat) {
                        Some(j2) => Some((acc, j2)),
                        None => None,
                    }
                }
            }
        },
    }
}

/// The fields of a section object from position `i` up to and past the
/// closing brace.
pub open spec fn parse_sec_fields(s: Seq<char>, i: int, acc: SecAcc) -> Option<(SecAcc, int)>
    decreases s.len() - i,
{
    match parse_sec_field(s, i, acc) {
        None => None,
        Some((acc2, j)) => {
            let k = skip_ws(s, j);
            if 0 <= k < s.len() && s[k] == '}' {
                Some((acc2, k + 1))
            } else if 0 <= k < s.len() && s[k] == ',' {
                let m = skip_ws(s, k + 1);
                if i < m <= s.len() {
                    parse_sec_fields(s, m, acc2)
                } else {
                    None
                }
            } else {
                None
            }
        },
    }
}

/// The section a field record denotes: title and content are required,
/// selection defaults to true.
pub open spec fn sec_finish(acc: SecAcc) -> Option<crate::types::SectionV> {
    match (acc.title, acc.content) {
        (Some(t), Some(c)) => Some(
            crate::types::SectionV {
                title: t,
                content: c,
                selected: match acc.selected {
                    Some(b) => b,
                    None => true,
                },
            },
        ),
        _ => None,
    }
}

/// A whole section object at position `i`.
pub open spec fn parse_sec(s: Seq<char>, i: int) -> Option<(crate::types::SectionV, int)> {
    if !(0 <= i < s.len() && s[i] == '{') {
        None
    } else {
        let k = skip_ws(s, i + 1);
        if 0 <= k < s.len() && s[k] == '}' {
            None
        } else if 0 <= k <= s.len() {
            match parse_sec_fields(s, k, sec_acc0()) {
                Some((acc, j)) => match sec_finish(acc) {
                    Some(sec) => Some((sec, j)),
                    None => None,
                },
                None => None,
            }
        } else {
            None
        }
    }
}

#[verifier::rlimit(100)]
fn parse_sec_exec(s: &Vec<char>, i: usize) -> (r: Option<(crate::types::Section, usize)>)
    requires
        i <= s@.len(),
    ensures
        (match r {
            Some((sec, j)) => parse_sec(s@, i as int) == Some((sec@, j as int)) && i < j
                <= s@.len(),
            None => parse_sec(s@, i as int) is None,
        }),
{
    if !(i < s.len() && s[i] == '{') {
        return None;
    }
    let k0 = skip_ws_exec(s, i + 1);
    if k0 < s.len() && s[k0] == '}' {
        return None;
    }
    let mut title_o: Option<String> = None;
    let mut content_o: Option<String> = None;
    let mut sel_o: Option<bool> = None;
    let ghost acc0 = sec_acc0();
    let mut pos = k0;
    let ghost mut accv = acc0;
    let end: usize;
    loop
        invariant_except_break
            parse_sec_fields(s@, k0 as int, acc0) == parse_sec_fields(s@, pos as int, accv),
        invariant
            k0 <= pos <= s@.len(),
            i < k0 <= s@.len(),
            i < s@.len(),
            s@[i as int] == '{',
            k0 as int == skip_ws(s@, i as int + 1),
            !(k0 < s@.len() && s@[k0 as int] == '}'),
            acc0 == sec_acc0(),
            accv.title == (match title_o {
                Some(ref v) => Some(v@),
                None => None::<Seq<char>>,
            }),
            accv.content == (match content_o {
                Some(ref v) => Some(v@),
                None => None::<Seq<char>>,
            }),
            accv.selected == sel_o,
        ensures
            i < end <= s@.len(),
            parse_sec_fields(s@, k0 as int, acc0) == Some((accv, end as int)),
            accv.title == (match title_o {
                Some(ref v) => Some(v@),
                None => None::<Seq<char>>,
            }),
            accv.content == (match content_o {
                Some(ref v) => Some(v@),
                None => None::<Seq<char>>,
            }),
            accv.selected == sel_o,
        decreases s@.len() - pos,
    {
        let ghost acc_in = accv;
        let (key, j) = match parse_string_exec(s, pos) {
            Some(x) => x,
            None => {
                proof {
                    assert(parse_sec_field(s@, pos as int, accv) is None);
                    assert(parse_sec_fields(s@, pos as int, accv) is None);
                }
                return None;
            },
        };
        let k = skip_ws_exec(s, j);
        if !(k < s.len() && s[k] == ':') {
            proof {
                assert(parse_sec_field(s@, pos as int, accv) is None);
                assert(parse_sec_fields(s@, pos as int, accv) is None);
            }
            return None;
        }
        let m = skip_ws_exec(s, k + 1);
        let pos2: usize;
        if crate::text::str_eq(&key, "title") {
            if title_o.is_some() {
                return None;
            }
            let (v, j2) = match parse_string_exec(s, m) {
                Some(x) => x,
                None => {
                    return None;
                },
            };
            proof {
                accv = SecAcc { title: Some(v@), ..acc_in };
            }
            title_o = Some(v);
            pos2 = j2;
        } else if crate::text::str_eq(&key, "content") {
            if content_o.is_some() {
                return None;
            }
            let (v, j2) = match parse_string_exec(s, m) {
                Some(x) => x,
                None => {
                    return None;
                },
            };
            proof {
                accv = SecAcc { content: Some(v@), ..acc_in };
            }
            content_o = Some(v);
            pos2 = j2;
        } else if crate::text::str_eq(&key, "selected") {
            if sel_o.is_some() {
                return None;
            }
            let (v, j2) = match parse_bool_exec(s, m) {
                Some(x) => x,
                None => {
                    return None;
                },
            };
            proof {
                accv = SecAcc { selected: Some(v), ..acc_in };
            }
            sel_o = Some(v);
            pos2 = j2;
        } else {
            let j2 = match skip_value_exec(s, m, SKIP_DEPTH) {
                Some(j2) => j2,
                None => {
                    proof {
                        assert(parse_sec_field(s@, pos as int, acc_in) is None);
                        assert(parse_sec_fields(s@, pos as int, acc_in) is None);
                    }
                    return None;
                },
            };
            pos2 = j2;
        }
        proof {
            assert(parse_sec_field(s@, pos as int, acc_in) == Some((accv, pos2 as int)));
        }
        let k3 = skip_ws_exec(s, pos2);
        if k3 < s.len() && s[k3] == '}' {
            end = k3 + 1;
            break ;
        } else if k3 < s.len() && s[k3] == ',' {
            let m2 = skip_ws_exec(s, k3 + 1);
            proof {
                assert(parse_sec_fields(s@, pos as int, acc_in) == parse_sec_fields(
                    s@,
                    m2 as int,
                    accv,
                ));
            }
            pos = m2;
        } else {
            return None;
        }
    }
    let title = match title_o {
        Some(v) => v,
        None => {
            return None;
        },
    };
    let content = match content_o {
        Some(v) => v,
        None => {
            return None;
        },
    };
    let sec = crate::types::Section {
        title,
        content,
        selected: match sel_o {
            Some(b) => b,
            None => true,
        },
    };
    proof {
        assert(sec_finish(accv) == Some(sec@));
    }
    Some((sec, end))
}

/// The elements of a section list, from the first element to the
/// closing bracket.
pub open spec fn parse_sec_elems(s: Seq<char>, i: int) -> Option<(Seq<crate::types::SectionV>, int)>
    decreases s.len() - i,
{
    match parse_sec(s, i) {
        None => None,
        Some((v, j)) => {
            let k = skip_ws(s, j);
            if 0 <= k < s.len() && s[k] == ']' {
                Some((seq![v], k + 1))
            } else if 0 <= k < s.len() && s[k] == ',' {
                let m = skip_ws(s, k + 1);
                if i < m <= s.len() {
                    match parse_sec_elems(s, m) {
                        Some((vs, e)) => Some((seq![v] + vs, e)),
                        None => None,
                    }
                } else {
                    None
                }
            } else {
                None
            }
        },
    }
}

/// A bracketed section list at position `i`.
pub open spec fn parse_sec_array(s: Seq<char>, i: int) -> Option<(Seq<crate::types::SectionV>, int)> {
    if 0 <= i < s.len() && s[i] == '[' {
        let k = skip_ws(s, i + 1);
        if 0 <= k < s.len() && s[k] == ']' {
            Some((Seq::empty(), k + 1))
        } else if 0 <= k <= s.len() {
            parse_sec_elems(s, k)
        } else {
            None
        }
    } else {
        None
    }
}

spec fn prepend_secs(
    p: Option<(Seq<crate::types::SectionV>, int)>,
    pre: Seq<crate::types::SectionV>,
) -> Option<(Seq<crate::types::SectionV>, int)> {
    match p {
        Some((t, j)) => Some((pre + t, j)),
        None => None,
    }
}

proof fn lemma_prepend_secs_compose(
    p: Option<(Seq<crate::types::SectionV>, int)>,
    a: Seq<crate::types::SectionV>,
    b: Seq<crate::types::SectionV>,
)
    ensures
        prepend_secs(prepend_secs(p, b), a) == prepend_secs(p, a + b),
{
    match p {
        Some((t, j)) => {
            assert(a + (b + t) =~= (a + b) + t);
        },
        None => {},
    }
}

fn parse_sec_array_exec(s: &Vec<char>, i: usize) -> (r: Option<
    (Vec<crate::types::Section>, usize),
>)
    requires
        i <= s@.len(),
    ensures
        (match r {
            Some((t, j)) => parse_sec_array(s@, i as int) == Some(
                (t@.map_values(|x: crate::types::Section| x@), j as int),
            ) && i < j <= s@.len(),
            None => parse_sec_array(s@, i as int) is None,
        }),
{
    if !(i < s.len() && s[i] == '[') {
        return None;
    }
    let k = skip_ws_exec(s, i + 1);
    if k < s.len() && s[k] == ']' {
        let empty: Vec<crate::types::Section> = Vec::new();
        proof {
            assert(empty@.map_values(|x: crate::types::Section| x@) =~= Seq::<
                crate::types::SectionV,
            >::empty());
        }
        return Some((empty, k + 1));
    }
    let mut acc: Vec<crate::types::Section> = Vec::new();
    let mut pos = k;
    loop
        invariant
            k <= pos <= s@.len(),
            i < k <= s@.len(),
            parse_sec_elems(s@, k as int) == prepend_secs(
                parse_sec_elems(s@, pos as int),
                acc@.map_values(|x: crate::types::Section| x@),
            ),
            parse_sec_array(s@, i as int) == parse_sec_elems(s@, k as int),
        decreases s@.len() - pos,
    {
        let ghost old_acc = acc@.map_values(|x: crate::types::Section| x@);
        let (v, j) = match parse_sec_exec(s, pos) {
            Some(x) => x,
            None => {
                return None;
            },
        };
        let ghost vv = v@;
        acc.push(v);
        proof {
            assert(acc@.map_values(|x: crate::types::Section| x@) =~= old_acc + seq![vv]);
        }
        let k2 = skip_ws_exec(s, j);
        if k2 < s.len() && s[k2] == ']' {
            proof {
                assert(parse_sec_elems(s@, pos as int) == Some((seq![vv], k2 + 1)));
            }
            return Some((acc, k2 + 1));
        } else if k2 < s.len() && s[k2] == ',' {
            let m = skip_ws_exec(s, k2 + 1);
            proof {
                assert(parse_sec_elems(s@, pos as int) == prepend_secs(
                    parse_sec_elems(s@, m as int),
                    seq![vv],
                ));
                lemma_prepend_secs_compose(parse_sec_elems(s@, m as int), old_acc, seq![vv]);
            }
            pos = m;
        } else {
            return None;
        }
    }
}

/// What has been gathered of a request document while its fields are
/// read.
pub struct PrAcc {
    pub id: Option<Seq<char>>,
    pub message: Option<Seq<char>>,
    pub sections: Option<Seq<crate::types::SectionV>>,
    pub is_markdown: Option<bool>,
    pub env_context: Option<Option<crate::types::EnvContextV>>,
}

/// Nothing gathered yet.
pub open spec fn pr_acc0() -> PrAcc {
    PrAcc { id: None, message: None, sections: None, is_markdown: None, env_context: None }
}

/// One `key: value` pair of a request document at position `i`.
pub open spec fn parse_pr_field(s: Seq<char>, i: int, acc: PrAcc) -> Option<(PrAcc, int)> {
    match parse_string(s, i) {
        None => None,
        Some((key, j)) => {
            let k = skip_ws(s, j);
            if !(0 <= k < s.len() && s[k] == ':') {
                None
            } else {
                let m = skip_ws(s, k + 1);
                if key == "id"@ {
                    if acc.id is Some {
                        None
                    } else {
                        match parse_string(s, m) {
                            Some((v, j2)) => Some((PrAcc { id: Some(v), ..acc }, j2)),
                            None => None,
                        }
                    }
                } else if key == "message"@ {
                    if acc.message is Some {
                        None
                    } else {
                        match parse_string(s, m) {
                            Some((v, j2)) => Some((PrAcc { message: Some(v), ..acc }, j2)),
                            None => None,
                        }
                    }
                } else if key == "sections"@ {
                    if acc.sections is Some {
                        None
                    } else {
                        match parse_sec_array(s, m) {
                            Some((v, j2)) => Some((PrAcc { sections: Some(v), ..acc }, j2)),
                            None => None,
                        }
                    }
                } else if key == "isMarkdown"@ {
                    if acc.is_markdown is Some {
                        None
                    } else {
                        match parse_bool(s, m) {
                            Some((v, j2)) => Some((PrAcc { is_markdown: Some(v), ..acc }, j2)),
                            None => None,
                        }
                    }
                } else if key == "envContext"@ {
                    if acc.env_context is Some {
                        None
                    } else {
                        match parse_null(s, m) {
                            Some(j2) => Some((PrAcc { env_context: Some(None), ..acc }, j2)),
                            None => match parse_env(s, m) {
                                Some((v, j2)) => Some(
                                    (PrAcc { env_context: Some(Some(v)), ..acc }, j2),
                                ),
                                None => None,
                            },
                        }
                    }
                } else {
                    match skip_value(s, m, SKIP_DEPTH as nat) {
                        Some(j2) => Some((acc, j2)),
                        None => None,
                    }
                }
            }
        },
    }
}

/// The fields of a request document from position `i` up to and past
/// the closing brace.
pub open spec fn parse_pr_fields(s: Seq<char>, i: int, acc: PrAcc) -> Option<(PrAcc, int)>
    decreases s.len() - i,
{
    match parse_pr_field(s, i, acc) {
        None => None,
        Some((acc2, j)) => {
            let k = skip_ws(s, j);
            if 0 <= k < s.len() && s[k] == '}' {
                Some((acc2, k + 1))
            } else if 0 <= k < s.len() && s[k] == ',' {
                let m = skip_ws(s, k + 1);
                if i < m <= s.len() {
                    parse_pr_fields(s, m, acc2)
                } else {
                    None
                }
            } else {
                None
            }
        },
    }
}

/// The request a field record denotes: `id` and `message` are required,
/// the sections default to none, the markdown flag to true, the context
/// to absent.
pub open spec fn pr_finish(acc: PrAcc) -> Option<crate::types::PopupRequestV> {
    match (acc.id, acc.message) {
        (Some(id), Some(message)) => Some(
            crate::types::PopupRequestV {
                id,
                message,
                sections: match acc.sections {
                    Some(v) => v,
                    None => Seq::empty(),
                },
                is_markdown: match acc.is_markdown {
                    Some(b) => b,
                    None => true,
                },
                env_context: match acc.env_context {
                    Some(v) => v,
                    None => None,
                },
            },
        ),
        _ => None,
    }
}

/// A whole request document at position `i`.
pub open spec fn parse_pr(s: Seq<char>, i: int) -> Option<(crate::types::PopupRequestV, int)> {
    if !(0 <= i < s.len() && s[i] == '{') {
        None
    } else {
        let k = skip_ws(s, i + 1);
        if 0 <= k < s.len() && s[k] == '}' {
            None
        } else if 0 <= k <= s.len() {
            match parse_pr_fields(s, k, pr_acc0()) {
                Some((acc, j)) => match pr_finish(acc) {
                    Some(p) => Some((p, j)),
                    None => None,
                },
                None => None,
            }
        } else {
            None
        }
    }
}

/// The request document as a whole: one object, surrounded by nothing
/// but whitespace.
pub open spec fn spec_decode_popup_request(s: Seq<char>) -> Option<crate::types::PopupRequestV> {
    let i = skip_ws(s, 0);
    match parse_pr(s, i) {
        Some((p, j)) => if skip_ws(s, j) == s.len() {
            Some(p)
        } else {
            None
        },
        None => None,
    }
}

#[verifier::rlimit(100)]
fn parse_pr_exec(s: &Vec<char>, i: usize) -> (r: Option<(crate::types::PopupRequest, usize)>)
    requires
        i <= s@.len(),
    ensures
        (match r {
            Some((p, j)) => parse_pr(s@, i as int) == Some((p@, j as int)) && j <= s@.len(),
            None => parse_pr(s@, i as int) is None,
        }),
{
    if !(i < s.len() && s[i] == '{') {
        return None;
    }
    let k0 = skip_ws_exec(s, i + 1);
    if k0 < s.len() && s[k0] == '}' {
        return None;
    }
    let mut id_o: Option<String> = None;
    let mut msg_o: Option<String> = None;
    let mut secs_o: Option<Vec<crate::types::Section>> = None;
    let mut md_o: Option<bool> = None;
    let mut env_o: Option<Option<crate::types::EnvContext>> = None;
    let ghost acc0 = pr_acc0();
    let mut pos = k0;
    let ghost mut accv = acc0;
    let end: usize;
    loop
        invariant_except_break
            parse_pr_fields(s@, k0 as int, acc0) == parse_pr_fields(s@, pos as int, accv),
        invariant
            k0 <= pos <= s@.len(),
            i < k0 <= s@.len(),
            i < s@.len(),
            s@[i as int] == '{',
            k0 as int == skip_ws(s@, i as int + 1),
            !(k0 < s@.len() && s@[k0 as int] == '}'),
            acc0 == pr_acc0(),
            accv.id == (match id_o {
                Some(ref v) => Some(v@),
                None => None::<Seq<char>>,
            }),
            accv.message == (match msg_o {
                Some(ref v) => Some(v@),
                None => None::<Seq<char>>,
            }),
            accv.sections == (match secs_o {
                Some(ref v) => Some(v@.map_values(|x: crate::types::Section| x@)),
                None => None::<Seq<crate::types::SectionV>>,
            }),
            accv.is_markdown == md_o,
            accv.env_context == (match env_o {
                Some(Some(ref e)) => Some(Some(e@)),
                Some(None) => Some(None::<crate::types::EnvContextV>),
                None => None::<Option<crate::types::EnvContextV>>,
            }),
        ensures
            end <= s@.len(),
            parse_pr_fields(s@, k0 as int, acc0) == Some((accv, end as int)),
            accv.id == (match id_o {
                Some(ref v) => Some(v@),
                None => None::<Seq<char>>,
            }),
            accv.message == (match msg_o {
                Some(ref v) => Some(v@),
                None => None::<Seq<char>>,
            }),
            accv.sections == (match secs_o {
                Some(ref v) => Some(v@.map_values(|x: crate::types::Section| x@)),
                None => None::<Seq<crate::types::SectionV>>,
            }),
            accv.is_markdown == md_o,
            accv.env_context == (match env_o {
                Some(Some(ref e)) => Some(Some(e@)),
                Some(None) => Some(None::<crate::types::EnvContextV>),
                None => None::<Option<crate::types::EnvContextV>>,
            }),
        decreases s@.len() - pos,
    {
        let ghost acc_in = accv;
        let (key, j) = match parse_string_exec(s, pos) {
            Some(x) => x,
            None => {
                proof {
                    assert(parse_pr_field(s@, pos as int, accv) is None);
                    assert(parse_pr_fields(s@, pos as int, accv) is None);
                }
                return None;
            },
        };
        let k = skip_ws_exec(s, j);
        if !(k < s.len() && s[k] == ':') {
            proof {
                assert(parse_pr_field(s@, pos as int, accv) is None);
                assert(parse_pr_fields(s@, pos as int, accv) is None);
            }
            return None;
        }
        let m = skip_ws_exec(s, k + 1);
        let pos2: usize;
        if crate::text::str_eq(&key, "id") {
            if id_o.is_some() {
                return None;
            }
            let (v, j2) = match parse_string_exec(s, m) {
                Some(x) => x,
                None => {
                    return None;
                },
            };
            proof {
                accv = PrAcc { id: Some(v@), ..acc_in };
            }
            id_o = Some(v);
            pos2 = j2;
        } else if crate::text::str_eq(&key, "message") {
            if msg_o.is_some() {
                return None;
            }
            let (v, j2) = match parse_string_exec(s, m) {
                Some(x) => x,
                None => {
                    return None;
                },
            };
            proof {
                accv = PrAcc { message: Some(v@), ..acc_in };
            }
            msg_o = Some(v);
            pos2 = j2;
        } else if crate::text::str_eq(&key, "sections") {
            if secs_o.is_some() {
                return None;
            }
            let (v, j2) = match parse_sec_array_exec(s, m) {
                Some(x) => x,
                None => {
                    return None;
                },
            };
            proof {
                accv = PrAcc {
                    sections: Some(v@.map_values(|x: crate::types::Section| x@)),
                    ..acc_in
                };
            }
            secs_o = Some(v);
            pos2 = j2;
        } else if crate::text::str_eq(&key, "isMarkdown") {
            if md_o.is_some() {
                return None;
            }
            let (v, j2) = match parse_bool_exec(s, m) {
                Some(x) => x,
                None => {
                    return None;
                },
            };
            proof {
                accv = PrAcc { is_markdown: Some(v), ..acc_in };
            }
            md_o = Some(v);
            pos2 = j2;
        } else if crate::text::str_eq(&key, "envContext") {
            if env_o.is_some() {
                return None;
            }
            match parse_null_exec(s, m) {
                Some(j2) => {
                    proof {
                        accv = PrAcc { env_context: Some(None), ..acc_in };
                    }
                    env_o = Some(None);
                    pos2 = j2;
                },
                None => {
                    let (v, j2) = match parse_env_exec(s, m) {
                        Some(x) => x,
                        None => {
                            return None;
                        },
                    };
                    proof {
                        accv = PrAcc { env_context: Some(Some(v@)), ..acc_in };
                    }
                    env_o = Some(Some(v));
                    pos2 = j2;
                },
            }
        } else {
            let j2 = match skip_value_exec(s, m, SKIP_DEPTH) {
                Some(j2) => j2,
                None => {
                    proof {
                        assert(parse_pr_field(s@, pos as int, acc_in) is None);
                        assert(parse_pr_fields(s@, pos as int, acc_in) is None);
                    }
                    return None;
                },
            };
            pos2 = j2;
        }
        proof {
            assert(parse_pr_field(s@, pos as int, acc_in) == Some((accv, pos2 as int)));
        }
        let k3 = skip_ws_exec(s, pos2);
        if k3 < s.len() && s[k3] == '}' {
            end = k3 + 1;
            break ;
        } else if k3 < s.len() && s[k3] == ',' {
            let m2 = skip_ws_exec(s, k3 + 1);
            proof {
                assert(parse_pr_fields(s@, pos as int, acc_in) == parse_pr_fields(
                    s@,
                    m2 as int,
                    accv,
                ));
            }
            pos = m2;
        } else {
            return None;
        }
    }
    let id = match id_o {
        Some(v) => v,
        None => {
            return None;
        },
    };
    let message = match msg_o {
        Some(v) => v,
        None => {
            return None;
        },
    };
    let p = crate::types::PopupRequest {
        id,
        message,
        sections: match secs_o {
            Some(v) => v,
            None => Vec::new(),
        },
        is_markdown: match md_o {
            Some(b) => b,
            None => true,
        },
        env_context: match env_o {
            Some(v) => v,
            None => None,
        },
    };
    proof {
        assert(p@.sections =~= pr_finish(accv).unwrap().sections);
        assert(pr_finish(accv) == Some(p@));
    }
    Some((p, end))
}

/// Reads one persisted request document, as the presentation process
/// does. Yields the canonical request exactly when the text is a
/// well-formed request object surrounded only by whitespace; yields
/// nothing otherwise — an empty or damaged artifact carries no request.
pub fn decode_popup_request(s: &str) -> (r: Option<crate::types::PopupRequest>)
    ensures
        (match r {
            Some(p) => spec_decode_popup_request(s@) == Some(p@),
            None => spec_decode_popup_request(s@) is None,
        }),
{
    let v = crate::text::chars_of(s);
    let i = skip_ws_exec(&v, 0);
    match parse_pr_exec(&v, i) {
        None => None,
        Some((p, j)) => {
            let e = skip_ws_exec(&v, j);
            if e == v.len() {
                Some(p)
            } else {
                None
            }
        },
    }
}

/// The first position at or after `i` holding no decimal digit, as a
/// runtime computation.
fn digits_end_exec(s: &Vec<char>, i: usize) -> (r: usize)
    requires
        i <= s@.len(),
    ensures
        r as int == digits_end(s@, i as int),
        i <= r <= s@.len(),
{
    let mut j = i;
    while j < s.len() && dec_digit_val(s[j]).is_some()
        invariant
            i <= j <= s@.len(),
            digits_end(s@, i as int) == digits_end(s@, j as int),
        decreases s@.len() - j,
    {
        j = j + 1;
    }
    j
}

/// The end of a fraction part at `j`, when one stands there; `j` itself
/// when none does; nothing when a bare dot stands without digits.
pub open spec fn skip_frac(s: Seq<char>, j: int) -> Option<int> {
    if 0 <= j < s.len() && s[j] == '.' {
        let f = digits_end(s, j + 1);
        if f == j + 1 {
            None
        } else {
            Some(f)
        }
    } else {
        Some(j)
    }
}

/// The end of an exponent part at `k`, when one stands there; `k`
/// itself when none does; nothing when the marker stands without digits.
pub open spec fn skip_exp(s: Seq<char>, k: int) -> Option<int> {
    if 0 <= k < s.len() && (s[k] == 'e' || s[k] == 'E') {
        let sg = if k + 1 < s.len() && (s[k + 1] == '+' || s[k + 1] == '-') {
            k + 2
        } else {
            k + 1
        };
        let f = digits_end(s, sg);
        if f == sg {
            None
        } else {
            Some(f)
        }
    } else {
        Some(k)
    }
}

/// The end of a number token at `i`: optional sign, digits, optional
/// fraction and exponent. The value itself is not kept — this serves
/// only to step over a field the document model does not know.
pub open spec fn skip_number(s: Seq<char>, i: int) -> Option<int> {
    let st = if 0 <= i < s.len() && s[i] == '-' {
        i + 1
    } else {
        i
    };
    let j = digits_end(s, st);
    if j == st {
        None
    } else {
        match skip_frac(s, j) {
            None => None,
            Some(k) => skip_exp(s, k),
        }
    }
}

fn skip_number_exec(s: &Vec<char>, i: usize) -> (r: Option<usize>)
    requires
        i <= s@.len(),
    ensures
        (match r {
            Some(j) => skip_number(s@, i as int) == Some(j as int) && i < j <= s@.len(),
            None => skip_number(s@, i as int) is None,
        }),
{
    let st = if i < s.len() && s[i] == '-' {
        i + 1
    } else {
        i
    };
    let j = digits_end_exec(s, st);
    if j == st {
        return None;
    }
    let k = if j < s.len() && s[j] == '.' {
        let f = digits_end_exec(s, j + 1);
        if f == j + 1 {
            return None;
        }
        f
    } else {
        j
    };
    if k < s.len() && (s[k] == 'e' || s[k] == 'E') {
        let sg = if k + 1 < s.len() && (s[k + 1] == '+' || s[k + 1] == '-') {
            k + 2
        } else {
            k + 1
        };
        let f = digits_end_exec(s, sg);
        if f == sg {
            return None;
        }
        Some(f)
    } else {
        Some(k)
    }
}

/// How deeply nested a value of an unknown field may be before the
/// decoder gives up on skipping it.
pub const SKIP_DEPTH: u32 = 128;

/// The end of any value at `i`, up to `depth` levels of nesting: a
/// string, a number, a boolean, null, or a bracketed structure whose
/// contents are stepped over without being kept.
pub open spec fn skip_value(s: Seq<char>, i: int, depth: nat) -> Option<int>
    decreases depth, s.len() - i, 0int,
{
    if depth == 0 {
        None
    } else if !(0 <= i < s.len()) {
        None
    } else if s[i] == '"' {
        match parse_string(s, i) {
            Some((v, j)) => Some(j),
            None => None,
        }
    } else if s[i] == '{' {
        let k = skip_ws(s, i + 1);
        if 0 <= k < s.len() && s[k] == '}' {
            Some(k + 1)
        } else if i < k <= s.len() {
            skip_members(s, k, (depth - 1) as nat)
        } else {
            None
        }
    } else if s[i] == '[' {
        let k = skip_ws(s, i + 1);
        if 0 <= k < s.len() && s[k] == ']' {
            Some(k + 1)
        } else if i < k <= s.len() {
            skip_elems(s, k, (depth - 1) as nat)
        } else {
            None
        }
    } else if s[i] == 't' || s[i] == 'f' {
        match parse_bool(s, i) {
            Some((b, j)) => Some(j),
            None => None,
        }
    } else if s[i] == 'n' {
        parse_null(s, i)
    } else {
        skip_number(s, i)
    }
}

/// The members of an unknown object from the first key to past the
/// closing brace, stepped over without being kept.
pub open spec fn skip_members(s: Seq<char>, i: int, depth: nat) -> Option<int>
    decreases depth, s.len() - i, 1int,
{
    match parse_string(s, i) {
        None => None,
        Some((key, j)) => {
            let k = skip_ws(s, j);
            if !(0 <= k < s.len() && s[k] == ':') {
                None
            } else {
                let m = skip_ws(s, k + 1);
                if !(i < m <= s.len()) {
                    None
                } else {
                    match skip_value(s, m, depth) {
                        None => None,
                        Some(j2) => {
                            let k2 = skip_ws(s, j2);
                            if 0 <= k2 < s.len() && s[k2] == '}' {
                                Some(k2 + 1)
                            } else if 0 <= k2 < s.len() && s[k2] == ',' {
                                let m2 = skip_ws(s, k2 + 1);
                                if i < m2 <= s.len() {
                                    skip_members(s, m2, depth)
                                } else {
                                    None
                                }
                            } else {
                                None
                            }
                        },
                    }
                }
            }
        },
    }
}

/// The elements of an unknown list from the first element to past the
/// closing bracket, stepped over without being kept.
pub open spec fn skip_elems(s: Seq<char>, i: int, depth: nat) -> Option<int>
    decreases depth, s.len() - i, 1int,
{
    match skip_value(s, i, depth) {
        None => None,
        Some(j) => {
            let k = skip_ws(s, j);
            if 0 <= k < s.len() && s[k] == ']' {
                Some(k + 1)
            } else if 0 <= k < s.len() && s[k] == ',' {
                let m = skip_ws(s, k + 1);
                if i < m <= s.len() {
                    skip_elems(s, m, depth)
                } else {
                    None
                }
            } else {
                None
            }
        },
    }
}

fn skip_value_exec(s: &Vec<char>, i: usize, depth: u32) -> (r: Option<usize>)
    requires
        i <= s@.len(),
    ensures
        (match r {
            Some(j) => skip_value(s@, i as int, depth as nat) == Some(j as int) && i < j
                <= s@.len(),
            None => skip_value(s@, i as int, depth as nat) is None,
        }),
    decreases depth as int, s@.len() - i, 0int,
{
    if depth == 0 {
        return None;
    }
    if i >= s.len() {
        return None;
    }
    let c = s[i];
    if c == '"' {
        match parse_string_exec(s, i) {
            Some((v, j)) => Some(j),
            None => None,
        }
    } else if c == '{' {
        let k = skip_ws_exec(s, i + 1);
        if k < s.len() && s[k] == '}' {
            Some(k + 1)
        } else {
            skip_members_exec(s, k, depth - 1)
        }
    } else if c == '[' {
        let k = skip_ws_exec(s, i + 1);
        if k < s.len() && s[k] == ']' {
            Some(k + 1)
        } else {
            skip_elems_exec(s, k, depth - 1)
        }
    } else if c == 't' || c == 'f' {
        match parse_bool_exec(s, i) {
            Some((b, j)) => Some(j),
            None => None,
        }
    } else if c == 'n' {
        parse_null_exec(s, i)
    } else {
        skip_number_exec(s, i)
    }
}

fn skip_members_exec(s: &Vec<char>, i: usize, depth: u32) -> (r: Option<usize>)
    requires
        i <= s@.len(),
    ensures
        (match r {
            Some(j) => skip_members(s@, i as int, depth as nat) == Some(j as int) && i < j
                <= s@.len(),
            None => skip_members(s@, i as int, depth as nat) is None,
        }),
    decreases depth as int, s@.len() - i, 1int,
{
    let (key, j) = match parse_string_exec(s, i) {
        Some(x) => x,
        None => {
            return None;
        },
    };
    let k = skip_ws_exec(s, j);
    if !(k < s.len() && s[k] == ':') {
        return None;
    }
    let m = skip_ws_exec(s, k + 1);
    let j2 = match skip_value_exec(s, m, depth) {
        Some(x) => x,
        None => {
            return None;
        },
    };
    let k2 = skip_ws_exec(s, j2);
    if k2 < s.len() && s[k2] == '}' {
        Some(k2 + 1)
    } else if k2 < s.len() && s[k2] == ',' {
        let m2 = skip_ws_exec(s, k2 + 1);
        skip_members_exec(s, m2, depth)
    } else {
        None
    }
}

fn skip_elems_exec(s: &Vec<char>, i: usize, depth: u32) -> (r: Option<usize>)
    requires
        i <= s@.len(),
    ensures
        (match r {
            Some(j) => skip_elems(s@, i as int, depth as nat) == Some(j as int) && i < j
                <= s@.len(),
            None => skip_elems(s@, i as int, depth as nat) is None,
        }),
    decreases depth as int, s@.len() - i, 1int,
{
    let j = match skip_value_exec(s, i, depth) {
        Some(x) => x,
        None => {
            return None;
        },
    };
    let k = skip_ws_exec(s, j);
    if k < s.len() && s[k] == ']' {
        Some(k + 1)
    } else if k < s.len() && s[k] == ',' {
        let m = skip_ws_exec(s, k + 1);
        skip_elems_exec(s, m, depth)
    } else {
        None
    }
}

} // verus!
