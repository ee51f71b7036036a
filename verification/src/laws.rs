//! Round-trip laws: a value written by the encoder is read back
//! unchanged by the decoder.

use vstd::prelude::*;
use crate::text::{
    spec_dec, dec_char, dec_val, is_dec_digit, spec_hex_val, hex_char, spec_hex2,
    lemma_dec_digits, lemma_hex_char_val,
};
use crate::encode::{esc_char, esc, quoted, join_comma, json_bool, json_null};
use crate::decode::{
    is_ws, skip_ws, match_lit, parse_bool, parse_null, digits_end, digits_val, parse_usize,
    unesc_char, parse_str_body, parse_string, lemma_skip_ws_noop,
};

verus! {

/// A character that stands for itself inside a quoted string.
pub open spec fn plain_char(c: char) -> bool {
    c != '"' && c != '\\' && (c as u32) >= 0x20
}

/// Escaping a text of plain characters changes nothing.
pub proof fn lemma_esc_plain(x: Seq<char>)
    requires
        forall|k: int| 0 <= k < x.len() ==> plain_char(#[trigger] x[k]),
    ensures
        esc(x) == x,
    decreases x.len(),
{
    if x.len() == 0 {
        assert(esc(x) =~= x);
    } else {
        assert(plain_char(x[0]));
        assert(esc_char(x[0]) == seq![x[0]]);
        lemma_esc_plain(x.skip(1));
        assert(esc(x) =~= x);
    }
}

/// The boolean words parse back to their value: whatever follows them.
pub proof fn lemma_bool_round_trip(s: Seq<char>, i: int, b: bool, suffix: Seq<char>)
    requires
        0 <= i <= s.len(),
        s.subrange(i, s.len() as int) == json_bool(b) + suffix,
    ensures
        parse_bool(s, i) == Some((b, i + json_bool(b).len())),
{
    let tail = s.subrange(i, s.len() as int);
    assert(tail.len() == json_bool(b).len() + suffix.len());
    assert(s.len() - i >= json_bool(b).len());
    if b {
        assert(s.subrange(i, i + 4) =~= seq!['t', 'r', 'u', 'e']) by {
            assert forall|k: int| 0 <= k < 4 implies s.subrange(i, i + 4)[k] == seq![
                't',
                'r',
                'u',
                'e',
            ][k] by {
                assert(tail[k] == (json_bool(b) + suffix)[k]);
            }
        }
        assert(match_lit(s, i, seq!['t', 'r', 'u', 'e']));
    } else {
        assert(s.subrange(i, i + 5) =~= seq!['f', 'a', 'l', 's', 'e']) by {
            assert forall|k: int| 0 <= k < 5 implies s.subrange(i, i + 5)[k] == seq![
                'f',
                'a',
                'l',
                's',
                'e',
            ][k] by {
                assert(tail[k] == (json_bool(b) + suffix)[k]);
            }
        }
        if match_lit(s, i, seq!['t', 'r', 'u', 'e']) {
            assert(s.subrange(i, i + 4)[0] == 't');
            assert(tail[0] == 'f');
            assert(false);
        }
        assert(match_lit(s, i, seq!['f', 'a', 'l', 's', 'e']));
    }
}

/// The null word parses back: whatever follows it.
pub proof fn lemma_null_round_trip(s: Seq<char>, i: int, suffix: Seq<char>)
    requires
        0 <= i <= s.len(),
        s.subrange(i, s.len() as int) == json_null() + suffix,
    ensures
        parse_null(s, i) == Some(i + 4),
{
    let tail = s.subrange(i, s.len() as int);
    assert(tail.len() == json_null().len() + suffix.len());
    assert(s.len() - i >= 4);
    assert(s.subrange(i, i + 4) =~= seq!['n', 'u', 'l', 'l']) by {
        assert forall|k: int| 0 <= k < 4 implies s.subrange(i, i + 4)[k] == seq![
            'n',
            'u',
            'l',
            'l',
        ][k] by {
            assert(tail[k] == (json_null() + suffix)[k]);
        }
    }
    assert(match_lit(s, i, seq!['n', 'u', 'l', 'l']));
}

proof fn lemma_digits_end_of_dec(s: Seq<char>, i: int, n: nat, suffix: Seq<char>)
    requires
        0 <= i <= s.len(),
        s.subrange(i, s.len() as int) == spec_dec(n) + suffix,
        suffix.len() == 0 || !is_dec_digit(suffix[0]),
    ensures
        digits_end(s, i) == i + spec_dec(n).len(),
        i + spec_dec(n).len() <= s.len(),
    decreases s.len() - i, spec_dec(n).len(),
{
    let tail = s.subrange(i, s.len() as int);
    let d = spec_dec(n);
    lemma_dec_digits(n);
    assert(tail.len() == d.len() + suffix.len());
    assert(s.len() - i >= d.len());
    assert forall|k: int| i <= k < i + d.len() implies is_dec_digit(s[k]) by {
        assert(tail[k - i] == (d + suffix)[k - i]);
        assert((d + suffix)[k - i] == d[k - i]);
    }
    crate::decode::lemma_digits_end_step(s, i, i + d.len());
    if i + d.len() < s.len() {
        assert(tail[d.len() as int] == suffix[0]);
        assert(!is_dec_digit(s[i + d.len()]));
    }
}

proof fn lemma_digits_val_of_dec(s: Seq<char>, i: int, j: int, n: nat)
    requires
        0 <= i <= j <= s.len(),
        s.subrange(i, j) == spec_dec(n),
    ensures
        digits_val(s, i, j) == n,
    decreases n,
{
    lemma_dec_digits(n);
    if n < 10 {
        assert(j == i + 1);
        assert(s[i] == spec_dec(n)[0]);
        assert(digits_val(s, i, j) == digits_val(s, i, i) * 10 + dec_val(s[i]));
        assert(dec_val(dec_char(n)) == n);
    } else {
        let d = spec_dec(n);
        assert(d == spec_dec(n / 10).push(dec_char(n % 10)));
        assert(s.subrange(i, j - 1) =~= spec_dec(n / 10)) by {
            assert forall|k: int| 0 <= k < j - 1 - i implies #[trigger] (s.subrange(i, j - 1)[k])
                == spec_dec(n / 10)[k] by {
                assert(s.subrange(i, j)[k] == d[k]);
                assert(d[k] == spec_dec(n / 10)[k]);
            }
        }
        lemma_digits_val_of_dec(s, i, j - 1, n / 10);
        assert(s[j - 1] == d[j - 1 - i]);
        assert(d[d.len() - 1] == dec_char(n % 10));
        assert(dec_val(dec_char(n % 10)) == n % 10);
        assert(digits_val(s, i, j) == (n / 10) * 10 + n % 10);
        assert((n / 10) * 10 + n % 10 == n) by (nonlinear_arith);
    }
}

/// A decimal rendering parses back to its value, when what follows
/// begins with no digit.
pub proof fn lemma_usize_round_trip(s: Seq<char>, i: int, v: usize, suffix: Seq<char>)
    requires
        0 <= i <= s.len(),
        s.subrange(i, s.len() as int) == spec_dec(v as nat) + suffix,
        suffix.len() == 0 || !is_dec_digit(suffix[0]),
    ensures
        parse_usize(s, i) == Some((v, i + spec_dec(v as nat).len())),
{
    lemma_digits_end_of_dec(s, i, v as nat, suffix);
    let j = i + spec_dec(v as nat).len();
    assert(s.subrange(i, j) =~= spec_dec(v as nat)) by {
        let tail = s.subrange(i, s.len() as int);
        assert forall|k: int| 0 <= k < j - i implies s.subrange(i, j)[k] == spec_dec(
            v as nat,
        )[k] by {
            assert(tail[k] == (spec_dec(v as nat) + suffix)[k]);
        }
    }
    lemma_digits_val_of_dec(s, i, j, v as nat);
    lemma_dec_digits(v as nat);
}

/// A decimal rendering of a wide count parses back to its value, when
/// what follows begins with no digit.
pub proof fn lemma_u64_round_trip(s: Seq<char>, i: int, v: u64, suffix: Seq<char>)
    requires
        0 <= i <= s.len(),
        s.subrange(i, s.len() as int) == spec_dec(v as nat) + suffix,
        suffix.len() == 0 || !is_dec_digit(suffix[0]),
    ensures
        crate::decode::parse_u64(s, i) == Some((v, i + spec_dec(v as nat).len())),
{
    lemma_digits_end_of_dec(s, i, v as nat, suffix);
    let j = i + spec_dec(v as nat).len();
    assert(s.subrange(i, j) =~= spec_dec(v as nat)) by {
        let tail = s.subrange(i, s.len() as int);
        assert forall|k: int| 0 <= k < j - i implies s.subrange(i, j)[k] == spec_dec(
            v as nat,
        )[k] by {
            assert(tail[k] == (spec_dec(v as nat) + suffix)[k]);
        }
    }
    lemma_digits_val_of_dec(s, i, j, v as nat);
    lemma_dec_digits(v as nat);
}

/// A string body written by the escaper parses back to the original
/// text: whatever follows the closing quote.
pub proof fn lemma_str_body_round_trip(s: Seq<char>, i: int, x: Seq<char>, suffix: Seq<char>)
    requires
        0 <= i <= s.len(),
        s.subrange(i, s.len() as int) == esc(x) + seq!['"'] + suffix,
    ensures
        parse_str_body(s, i) == Some((x, i + esc(x).len() + 1)),
    decreases x.len(),
{
    let tail = s.subrange(i, s.len() as int);
    assert(tail.len() == esc(x).len() + 1 + suffix.len());
    if x.len() == 0 {
        assert(esc(x) =~= Seq::<char>::empty());
        assert(tail[0] == '"');
        assert(s[i] == '"');
        assert(parse_str_body(s, i) == Some((Seq::<char>::empty(), i + 1)));
        assert(x =~= Seq::<char>::empty());
    } else {
        let c = x[0];
        let x2 = x.skip(1);
        let ec = esc_char(c);
        assert(esc(x) == ec + esc(x2));
        let l = ec.len() as int;
        assert forall|k: int| 0 <= k < l implies s[i + k] == ec[k] by {
            assert(tail[k] == (esc(x) + seq!['"'] + suffix)[k]);
            assert((ec + esc(x2))[k] == ec[k]);
        }
        assert(s.subrange(i + l, s.len() as int) =~= esc(x2) + seq!['"'] + suffix) by {
            assert forall|k: int| 0 <= k < s.len() - i - l implies #[trigger] (s.subrange(
                i + l,
                s.len() as int,
            )[k]) == (esc(x2) + seq!['"'] + suffix)[k] by {
                assert(tail[k + l] == (esc(x) + seq!['"'] + suffix)[k + l]);
            }
        }
        lemma_str_body_round_trip(s, i + l, x2, suffix);
        assert(seq![c] + x2 =~= x);
        if c == '"' {
            assert(s[i] == '\\' && s[i + 1] == '"');
            assert(unesc_char('"') == Some('"'));
            assert(parse_str_body(s, i) == Some((x, i + esc(x).len() + 1)));
        } else if c == '\\' {
            assert(s[i] == '\\' && s[i + 1] == '\\');
            assert(parse_str_body(s, i) == Some((x, i + esc(x).len() + 1)));
        } else if c == '\n' {
            assert(s[i] == '\\' && s[i + 1] == 'n');
            assert(parse_str_body(s, i) == Some((x, i + esc(x).len() + 1)));
        } else if c == '\r' {
            assert(s[i] == '\\' && s[i + 1] == 'r');
            assert(parse_str_body(s, i) == Some((x, i + esc(x).len() + 1)));
        } else if c == '\t' {
            assert(s[i] == '\\' && s[i + 1] == 't');
            assert(parse_str_body(s, i) == Some((x, i + esc(x).len() + 1)));
        } else if (c as u32) < 0x20 {
            let u = c as u32;
            assert(ec == seq!['\\', 'u', '0', '0'] + spec_hex2(u as nat));
            assert(ec[0] == '\\' && ec[1] == 'u' && ec[2] == '0' && ec[3] == '0');
            assert(ec[4] == hex_char((u as nat) / 16) && ec[5] == hex_char((u as nat) % 16));
            assert(s[i + 0] == ec[0] && s[i + 1] == ec[1] && s[i + 2] == ec[2] && s[i + 3] == ec[3]
                && s[i + 4] == ec[4] && s[i + 5] == ec[5]);
            assert(s[i] == '\\' && s[i + 1] == 'u' && s[i + 2] == '0' && s[i + 3] == '0');
            assert(s[i + 4] == hex_char((u as nat) / 16) && s[i + 5] == hex_char(
                (u as nat) % 16,
            ));
            lemma_hex_char_val((u as nat) / 16);
            lemma_hex_char_val((u as nat) % 16);
            let v = spec_hex_val(s[i + 4]).unwrap() * 16 + spec_hex_val(s[i + 5]).unwrap();
            assert(v == ((u as nat) / 16) * 16 + (u as nat) % 16);
            assert(((u as nat) / 16) * 16 + (u as nat) % 16 == u as nat) by (nonlinear_arith);
            assert(v == u as nat);
            let c2 = (v as u8) as char;
            assert(c2 as u32 == u);
            vstd::utf8::char_u32_cast(c, u);
            vstd::utf8::char_u32_cast(c2, u);
            assert(c2 == c);
            assert(parse_str_body(s, i) == Some((seq![c2] + x2, i + l + esc(x2).len() + 1)));
            assert(seq![c2] + x2 =~= x);
            assert(parse_str_body(s, i) == Some((x, i + esc(x).len() + 1)));
        } else {
            assert(ec == seq![c]);
            assert(s[i] == c);
            assert(parse_str_body(s, i) == Some((x, i + esc(x).len() + 1)));
        }
    }
}

/// A quoted string parses back to the original text: whatever follows.
pub proof fn lemma_string_round_trip(s: Seq<char>, i: int, x: Seq<char>, suffix: Seq<char>)
    requires
        0 <= i <= s.len(),
        s.subrange(i, s.len() as int) == quoted(x) + suffix,
    ensures
        parse_string(s, i) == Some((x, i + quoted(x).len())),
{
    let tail = s.subrange(i, s.len() as int);
    assert(tail.len() == quoted(x).len() + suffix.len());
    assert(quoted(x).len() == esc(x).len() + 2);
    assert(tail[0] == (quoted(x) + suffix)[0]);
    assert(quoted(x)[0] == '"');
    assert(s[i] == '"');
    assert(s.subrange(i + 1, s.len() as int) =~= esc(x) + seq!['"'] + suffix) by {
        assert forall|k: int| 0 <= k < s.len() - i - 1 implies #[trigger] (s.subrange(
            i + 1,
            s.len() as int,
        )[k]) == (esc(x) + seq!['"'] + suffix)[k] by {
            assert(tail[k + 1] == (quoted(x) + suffix)[k + 1]);
            if k < esc(x).len() {
                assert(quoted(x)[k + 1] == esc(x)[k]);
            } else if k == esc(x).len() {
                assert(quoted(x)[k + 1] == '"');
            }
        }
    }
    lemma_str_body_round_trip(s, i + 1, x, suffix);
}

proof fn lemma_usize_elems_round_trip(s: Seq<char>, i: int, xs: Seq<usize>, suffix: Seq<char>)
    requires
        xs.len() > 0,
        0 <= i <= s.len(),
        s.subrange(i, s.len() as int) == join_comma(crate::encode::usize_items(xs)) + seq![']']
            + suffix,
    ensures
        crate::decode::parse_usize_elems(s, i) == Some(
            (xs, i + join_comma(crate::encode::usize_items(xs)).len() + 1),
        ),
    decreases xs.len(),
{
    let items = crate::encode::usize_items(xs);
    let v = xs[0];
    let dv = spec_dec(v as nat);
    assert(items[0] == dv);
    let tail = s.subrange(i, s.len() as int);
    assert(tail.len() == join_comma(items).len() + 1 + suffix.len());
    lemma_dec_digits(v as nat);
    if xs.len() == 1 {
        assert(join_comma(items) == dv);
        assert(tail =~= dv + (seq![']'] + suffix));
        lemma_usize_round_trip(s, i, v, seq![']'] + suffix);
        let j = i + dv.len();
        assert(s[j] == tail[dv.len() as int]);
        assert(tail[dv.len() as int] == ']');
        assert(!is_ws(']'));
        lemma_skip_ws_noop(s, j);
        assert(crate::decode::parse_usize_elems(s, i) == Some((seq![v], j + 1)));
        assert(seq![v] =~= xs);
    } else {
        let rest_items = crate::encode::usize_items(xs.skip(1));
        assert(items.skip(1) =~= rest_items);
        assert(join_comma(items) == items[0] + seq![','] + join_comma(items.skip(1)));
        let rest_join = join_comma(rest_items);
        let num_suffix = seq![','] + rest_join + seq![']'] + suffix;
        assert(tail =~= dv + num_suffix);
        assert(num_suffix[0] == ',');
        assert(!is_dec_digit(','));
        lemma_usize_round_trip(s, i, v, num_suffix);
        let j = i + dv.len();
        assert forall|k: int| 0 <= k < num_suffix.len() implies s[j + k] == num_suffix[k] by {
            assert(tail[dv.len() + k] == (dv + num_suffix)[dv.len() + k]);
        }
        assert(s[j + 0] == ',');
        assert(!is_ws(','));
        lemma_skip_ws_noop(s, j);
        // after the comma stands the next number's first digit
        let xs2 = xs.skip(1);
        lemma_dec_digits(xs2[0] as nat);
        assert(rest_items[0] == spec_dec(xs2[0] as nat));
        assert(rest_join.len() > 0) by {
            if rest_items.len() == 1 {
            } else {
            }
        }
        assert(rest_join[0] == spec_dec(xs2[0] as nat)[0]) by {
            if rest_items.len() == 1 {
            } else {
            }
        }
        assert(is_dec_digit(rest_join[0]));
        assert(s[j + 1] == num_suffix[1]);
        assert(num_suffix[1] == rest_join[0]);
        assert(!is_ws(s[j + 1]));
        lemma_skip_ws_noop(s, j + 1);
        let m = j + 1;
        assert(s.subrange(m, s.len() as int) =~= rest_join + seq![']'] + suffix) by {
            assert forall|k: int| 0 <= k < s.len() - m implies #[trigger] (s.subrange(
                m,
                s.len() as int,
            )[k]) == (rest_join + seq![']'] + suffix)[k] by {
                assert(s[m + k] == num_suffix[1 + k]);
            }
        }
        lemma_usize_elems_round_trip(s, m, xs2, suffix);
        assert(seq![v] + xs2 =~= xs);
        assert(crate::decode::parse_usize_elems(s, i) == Some(
            (xs, i + join_comma(items).len() + 1),
        ));
    }
}

/// An encoded index list parses back to the same indices: whatever
/// follows the closing bracket.
pub proof fn lemma_usize_array_round_trip(s: Seq<char>, i: int, xs: Seq<usize>, suffix: Seq<char>)
    requires
        0 <= i <= s.len(),
        s.subrange(i, s.len() as int) == crate::encode::encoded_usize_array(xs) + suffix,
    ensures
        crate::decode::parse_usize_array(s, i) == Some(
            (xs, i + crate::encode::encoded_usize_array(xs).len()),
        ),
{
    let items = crate::encode::usize_items(xs);
    let enc = crate::encode::encoded_usize_array(xs);
    let tail = s.subrange(i, s.len() as int);
    assert(tail.len() == enc.len() + suffix.len());
    assert(enc == seq!['['] + join_comma(items) + seq![']']);
    assert(tail[0] == enc[0]);
    assert(enc[0] == '[');
    assert(s[i] == '[');
    if xs.len() == 0 {
        assert(join_comma(items) =~= Seq::<char>::empty());
        assert(enc.len() == 2);
        assert(tail[1] == enc[1]);
        assert(enc[1] == ']');
        assert(s[i + 1] == ']');
        assert(!is_ws(']'));
        lemma_skip_ws_noop(s, i + 1);
        assert(crate::decode::parse_usize_array(s, i) == Some((Seq::<usize>::empty(), i + 2)));
        assert(Seq::<usize>::empty() =~= xs);
    } else {
        lemma_dec_digits(xs[0] as nat);
        assert(items[0] == spec_dec(xs[0] as nat));
        assert(join_comma(items).len() > 0 && join_comma(items)[0] == spec_dec(xs[0] as nat)[0])
            by {
            if items.len() == 1 {
            } else {
            }
        }
        assert(enc[1] == join_comma(items)[0]);
        assert(tail[1] == enc[1]);
        assert(s[i + 1] == enc[1]);
        assert(is_dec_digit(s[i + 1]));
        assert(!is_ws(s[i + 1]) && s[i + 1] != ']');
        lemma_skip_ws_noop(s, i + 1);
        assert(s.subrange(i + 1, s.len() as int) =~= join_comma(items) + seq![']'] + suffix) by {
            assert forall|k: int| 0 <= k < s.len() - i - 1 implies #[trigger] (s.subrange(
                i + 1,
                s.len() as int,
            )[k]) == (join_comma(items) + seq![']'] + suffix)[k] by {
                assert(tail[k + 1] == (enc + suffix)[k + 1]);
                if k + 1 < enc.len() {
                    assert(enc[k + 1] == (seq!['['] + join_comma(items) + seq![']'])[k + 1]);
                }
            }
        }
        lemma_usize_elems_round_trip(s, i + 1, xs, suffix);
    }
}

proof fn lemma_str_elems_round_trip(s: Seq<char>, i: int, xs: Seq<Seq<char>>, suffix: Seq<char>)
    requires
        xs.len() > 0,
        0 <= i <= s.len(),
        s.subrange(i, s.len() as int) == join_comma(crate::encode::str_items(xs)) + seq![']']
            + suffix,
    ensures
        crate::decode::parse_str_elems(s, i) == Some(
            (xs, i + join_comma(crate::encode::str_items(xs)).len() + 1),
        ),
    decreases xs.len(),
{
    let items = crate::encode::str_items(xs);
    let v = xs[0];
    let qv = quoted(v);
    assert(items[0] == qv);
    let tail = s.subrange(i, s.len() as int);
    assert(tail.len() == join_comma(items).len() + 1 + suffix.len());
    if xs.len() == 1 {
        assert(join_comma(items) == qv);
        assert(tail =~= qv + (seq![']'] + suffix));
        lemma_string_round_trip(s, i, v, seq![']'] + suffix);
        let j = i + qv.len();
        assert(s[j] == tail[qv.len() as int]);
        assert(tail[qv.len() as int] == ']');
        assert(!is_ws(']'));
        lemma_skip_ws_noop(s, j);
        assert(crate::decode::parse_str_elems(s, i) == Some((seq![v], j + 1)));
        assert(seq![v] =~= xs);
    } else {
        let rest_items = crate::encode::str_items(xs.skip(1));
        assert(items.skip(1) =~= rest_items);
        assert(join_comma(items) == items[0] + seq![','] + join_comma(items.skip(1)));
        let rest_join = join_comma(rest_items);
        let str_suffix = seq![','] + rest_join + seq![']'] + suffix;
        assert(tail =~= qv + str_suffix);
        lemma_string_round_trip(s, i, v, str_suffix);
        let j = i + qv.len();
        assert forall|k: int| 0 <= k < str_suffix.len() implies s[j + k] == str_suffix[k] by {
            assert(tail[qv.len() + k] == (qv + str_suffix)[qv.len() + k]);
        }
        assert(str_suffix[0] == ',');
        assert(s[j] == str_suffix[0]) by {
            assert(tail[qv.len() as int] == (qv + str_suffix)[qv.len() as int]);
        }
        assert(s[j + 0] == ',');
        assert(!is_ws(','));
        lemma_skip_ws_noop(s, j);
        let xs2 = xs.skip(1);
        assert(rest_items[0] == quoted(xs2[0]));
        assert(rest_join.len() > 0 && rest_join[0] == quoted(xs2[0])[0]) by {
            if rest_items.len() == 1 {
            } else {
            }
        }
        assert(quoted(xs2[0])[0] == '"');
        assert(s[j + 1] == str_suffix[1]);
        assert(str_suffix[1] == rest_join[0]);
        assert(!is_ws(s[j + 1]));
        lemma_skip_ws_noop(s, j + 1);
        let m = j + 1;
        assert(s.subrange(m, s.len() as int) =~= rest_join + seq![']'] + suffix) by {
            assert forall|k: int| 0 <= k < s.len() - m implies #[trigger] (s.subrange(
                m,
                s.len() as int,
            )[k]) == (rest_join + seq![']'] + suffix)[k] by {
                assert(s[m + k] == str_suffix[1 + k]);
            }
        }
        lemma_str_elems_round_trip(s, m, xs2, suffix);
        assert(seq![v] + xs2 =~= xs);
        assert(crate::decode::parse_str_elems(s, i) == Some(
            (xs, i + join_comma(items).len() + 1),
        ));
    }
}

/// An encoded string list parses back to the same strings: whatever
/// follows the closing bracket.
pub proof fn lemma_str_array_round_trip(s: Seq<char>, i: int, xs: Seq<Seq<char>>, suffix: Seq<char>)
    requires
        0 <= i <= s.len(),
        s.subrange(i, s.len() as int) == crate::encode::encoded_str_array(xs) + suffix,
    ensures
        crate::decode::parse_str_array(s, i) == Some(
            (xs, i + crate::encode::encoded_str_array(xs).len()),
        ),
{
    let items = crate::encode::str_items(xs);
    let enc = crate::encode::encoded_str_array(xs);
    let tail = s.subrange(i, s.len() as int);
    assert(tail.len() == enc.len() + suffix.len());
    assert(enc == seq!['['] + join_comma(items) + seq![']']);
    assert(tail[0] == enc[0]);
    assert(enc[0] == '[');
    assert(s[i] == '[');
    if xs.len() == 0 {
        assert(join_comma(items) =~= Seq::<char>::empty());
        assert(enc.len() == 2);
        assert(tail[1] == enc[1]);
        assert(enc[1] == ']');
        assert(s[i + 1] == ']');
        assert(!is_ws(']'));
        lemma_skip_ws_noop(s, i + 1);
        assert(crate::decode::parse_str_array(s, i) == Some(
            (Seq::<Seq<char>>::empty(), i + 2),
        ));
        assert(Seq::<Seq<char>>::empty() =~= xs);
    } else {
        assert(items[0] == quoted(xs[0]));
        assert(join_comma(items).len() > 0 && join_comma(items)[0] == quoted(xs[0])[0]) by {
            if items.len() == 1 {
            } else {
            }
        }
        assert(quoted(xs[0])[0] == '"');
        assert(enc[1] == join_comma(items)[0]);
        assert(tail[1] == enc[1]);
        assert(s[i + 1] == '"');
        assert(!is_ws(s[i + 1]) && s[i + 1] != ']');
        lemma_skip_ws_noop(s, i + 1);
        assert(s.subrange(i + 1, s.len() as int) =~= join_comma(items) + seq![']'] + suffix) by {
            assert forall|k: int| 0 <= k < s.len() - i - 1 implies #[trigger] (s.subrange(
                i + 1,
                s.len() as int,
            )[k]) == (join_comma(items) + seq![']'] + suffix)[k] by {
                assert(tail[k + 1] == (enc + suffix)[k + 1]);
                if k + 1 < enc.len() {
                    assert(enc[k + 1] == (seq!['['] + join_comma(items) + seq![']'])[k + 1]);
                }
            }
        }
        lemma_str_elems_round_trip(s, i + 1, xs, suffix);
    }
}

pub proof fn lemma_split(s: Seq<char>, q: int, part: Seq<char>, rest: Seq<char>)
    requires
        0 <= q <= s.len(),
        s.subrange(q, s.len() as int) == part + rest,
    ensures
        q + part.len() <= s.len(),
        s.subrange(q + part.len(), s.len() as int) == rest,
        forall|k: int| 0 <= k < part.len() ==> s[q + k] == part[k],
        part.len() > 0 ==> s[q] == part[0],
        rest.len() > 0 ==> s[q + part.len()] == rest[0],
{
    let tail = s.subrange(q, s.len() as int);
    assert(tail.len() == part.len() + rest.len());
    if part.len() > 0 {
        assert(tail[0] == (part + rest)[0]);
    }
    if rest.len() > 0 {
        assert(tail[part.len() as int] == (part + rest)[part.len() as int]);
    }
    assert forall|k: int| 0 <= k < part.len() implies s[q + k] == part[k] by {
        assert(tail[k] == (part + rest)[k]);
    }
    assert(s.subrange(q + part.len(), s.len() as int) =~= rest) by {
        assert forall|k: int| 0 <= k < rest.len() implies #[trigger] (s.subrange(
            q + part.len(),
            s.len() as int,
        )[k]) == rest[k] by {
            assert(tail[part.len() + k] == (part + rest)[part.len() + k]);
        }
    }
}

proof fn lemma_answer_keys()
    ensures
        "confirmed"@ =~= seq!['c', 'o', 'n', 'f', 'i', 'r', 'm', 'e', 'd'],
        "selectedSections"@ =~= seq![
            's', 'e', 'l', 'e', 'c', 't', 'e', 'd', 'S', 'e', 'c', 't', 'i', 'o', 'n', 's',
        ],
        "userInput"@ =~= seq!['u', 's', 'e', 'r', 'I', 'n', 'p', 'u', 't'],
        "images"@ =~= seq!['i', 'm', 'a', 'g', 'e', 's'],
        esc("confirmed"@) == "confirmed"@,
        esc("selectedSections"@) == "selectedSections"@,
        esc("userInput"@) == "userInput"@,
        esc("images"@) == "images"@,
        "selectedSections"@ != "confirmed"@,
        "userInput"@ != "confirmed"@,
        "userInput"@ != "selectedSections"@,
        "images"@ != "confirmed"@,
        "images"@ != "selectedSections"@,
        "images"@ != "userInput"@,
{
    reveal_strlit("confirmed");
    reveal_strlit("selectedSections");
    reveal_strlit("userInput");
    reveal_strlit("images");
    assert("confirmed"@ =~= seq!['c', 'o', 'n', 'f', 'i', 'r', 'm', 'e', 'd']);
    assert("selectedSections"@ =~= seq![
        's', 'e', 'l', 'e', 'c', 't', 'e', 'd', 'S', 'e', 'c', 't', 'i', 'o', 'n', 's',
    ]);
    assert("userInput"@ =~= seq!['u', 's', 'e', 'r', 'I', 'n', 'p', 'u', 't']);
    assert("images"@ =~= seq!['i', 'm', 'a', 'g', 'e', 's']);
    lemma_esc_plain("confirmed"@);
    lemma_esc_plain("selectedSections"@);
    lemma_esc_plain("userInput"@);
    lemma_esc_plain("images"@);
    assert("userInput"@[0] != "confirmed"@[0]);
    assert("images"@[0] != "confirmed"@[0]);
}

proof fn lemma_field_confirmed(s: Seq<char>, q: int, acc: crate::decode::UrAcc, c: bool, rest: Seq<char>)
    requires
        0 <= q <= s.len(),
        acc.confirmed is None,
        s.subrange(q, s.len() as int) == quoted("confirmed"@) + (seq![':'] + (json_bool(c)
            + rest)),
    ensures
        q < q + quoted("confirmed"@).len() + 1 + json_bool(c).len() <= s.len(),
        crate::decode::parse_ur_field(s, q, acc) == Some(
            (
                crate::decode::UrAcc { confirmed: Some(c), ..acc },
                q + quoted("confirmed"@).len() + 1 + json_bool(c).len(),
            ),
        ),
        s.subrange(
            q + quoted("confirmed"@).len() + 1 + json_bool(c).len(),
            s.len() as int,
        ) == rest,
{
    lemma_answer_keys();
    lemma_string_round_trip(s, q, "confirmed"@, seq![':'] + (json_bool(c) + rest));
    lemma_split(s, q, quoted("confirmed"@), seq![':'] + (json_bool(c) + rest));
    let q2 = q + quoted("confirmed"@).len() as int;
    lemma_split(s, q2, seq![':'], json_bool(c) + rest);
    assert(s[q2] == ':');
    lemma_skip_ws_noop(s, q2);
    lemma_split(s, q2 + 1, json_bool(c), rest);
    assert(s[q2 + 1] == json_bool(c)[0]);
    assert(!is_ws(s[q2 + 1]));
    lemma_skip_ws_noop(s, q2 + 1);
    lemma_bool_round_trip(s, q2 + 1, c, rest);
}

proof fn lemma_field_selected(
    s: Seq<char>,
    q: int,
    acc: crate::decode::UrAcc,
    xs: Seq<usize>,
    rest: Seq<char>,
)
    requires
        0 <= q <= s.len(),
        acc.selected is None,
        s.subrange(q, s.len() as int) == quoted("selectedSections"@) + (seq![':']
            + (crate::encode::encoded_usize_array(xs) + rest)),
    ensures
        q < q + quoted("selectedSections"@).len() + 1 + crate::encode::encoded_usize_array(
            xs,
        ).len() <= s.len(),
        crate::decode::parse_ur_field(s, q, acc) == Some(
            (
                crate::decode::UrAcc { selected: Some(xs), ..acc },
                q + quoted("selectedSections"@).len() + 1 + crate::encode::encoded_usize_array(
                    xs,
                ).len(),
            ),
        ),
        s.subrange(
            q + quoted("selectedSections"@).len() + 1 + crate::encode::encoded_usize_array(
                xs,
            ).len(),
            s.len() as int,
        ) == rest,
{
    lemma_answer_keys();
    let arr = crate::encode::encoded_usize_array(xs);
    lemma_string_round_trip(s, q, "selectedSections"@, seq![':'] + (arr + rest));
    lemma_split(s, q, quoted("selectedSections"@), seq![':'] + (arr + rest));
    let q2 = q + quoted("selectedSections"@).len() as int;
    lemma_split(s, q2, seq![':'], arr + rest);
    assert(s[q2] == ':');
    lemma_skip_ws_noop(s, q2);
    lemma_split(s, q2 + 1, arr, rest);
    assert(arr[0] == '[');
    assert(s[q2 + 1] == arr[0]);
    assert(!is_ws(s[q2 + 1]));
    lemma_skip_ws_noop(s, q2 + 1);
    lemma_usize_array_round_trip(s, q2 + 1, xs, rest);
}

proof fn lemma_field_input(
    s: Seq<char>,
    q: int,
    acc: crate::decode::UrAcc,
    inp: Seq<char>,
    rest: Seq<char>,
)
    requires
        0 <= q <= s.len(),
        acc.user_input is None,
        s.subrange(q, s.len() as int) == quoted("userInput"@) + (seq![':'] + (quoted(inp)
            + rest)),
    ensures
        q < q + quoted("userInput"@).len() + 1 + quoted(inp).len() <= s.len(),
        crate::decode::parse_ur_field(s, q, acc) == Some(
            (
                crate::decode::UrAcc { user_input: Some(inp), ..acc },
                q + quoted("userInput"@).len() + 1 + quoted(inp).len(),
            ),
        ),
        s.subrange(q + quoted("userInput"@).len() + 1 + quoted(inp).len(), s.len() as int)
            == rest,
{
    lemma_answer_keys();
    lemma_string_round_trip(s, q, "userInput"@, seq![':'] + (quoted(inp) + rest));
    lemma_split(s, q, quoted("userInput"@), seq![':'] + (quoted(inp) + rest));
    let q2 = q + quoted("userInput"@).len() as int;
    lemma_split(s, q2, seq![':'], quoted(inp) + rest);
    assert(s[q2] == ':');
    lemma_skip_ws_noop(s, q2);
    lemma_split(s, q2 + 1, quoted(inp), rest);
    assert(quoted(inp)[0] == '"');
    assert(s[q2 + 1] == quoted(inp)[0]);
    assert(!is_ws(s[q2 + 1]));
    lemma_skip_ws_noop(s, q2 + 1);
    lemma_string_round_trip(s, q2 + 1, inp, rest);
}

proof fn lemma_field_images(
    s: Seq<char>,
    q: int,
    acc: crate::decode::UrAcc,
    imgs: Seq<Seq<char>>,
    rest: Seq<char>,
)
    requires
        0 <= q <= s.len(),
        acc.images is None,
        s.subrange(q, s.len() as int) == quoted("images"@) + (seq![':']
            + (crate::encode::encoded_str_array(imgs) + rest)),
    ensures
        q < q + quoted("images"@).len() + 1 + crate::encode::encoded_str_array(imgs).len()
            <= s.len(),
        crate::decode::parse_ur_field(s, q, acc) == Some(
            (
                crate::decode::UrAcc { images: Some(imgs), ..acc },
                q + quoted("images"@).len() + 1 + crate::encode::encoded_str_array(imgs).len(),
            ),
        ),
        s.subrange(
            q + quoted("images"@).len() + 1 + crate::encode::encoded_str_array(imgs).len(),
            s.len() as int,
        ) == rest,
{
    lemma_answer_keys();
    let arr = crate::encode::encoded_str_array(imgs);
    lemma_string_round_trip(s, q, "images"@, seq![':'] + (arr + rest));
    lemma_split(s, q, quoted("images"@), seq![':'] + (arr + rest));
    let q2 = q + quoted("images"@).len() as int;
    lemma_split(s, q2, seq![':'], arr + rest);
    assert(s[q2] == ':');
    lemma_skip_ws_noop(s, q2);
    lemma_split(s, q2 + 1, arr, rest);
    assert(arr[0] == '[');
    assert(s[q2 + 1] == arr[0]);
    assert(!is_ws(s[q2 + 1]));
    lemma_skip_ws_noop(s, q2 + 1);
    lemma_str_array_round_trip(s, q2 + 1, imgs, rest);
}

pub proof fn lemma_comma_then_quote(s: Seq<char>, p: int, next: Seq<char>)
    requires
        0 <= p <= s.len(),
        s.subrange(p, s.len() as int) == seq![','] + next,
        next.len() > 0,
        next[0] == '"',
    ensures
        p + 1 <= s.len(),
        skip_ws(s, p) == p,
        s[p] == ',',
        skip_ws(s, p + 1) == p + 1,
        s.subrange(p + 1, s.len() as int) == next,
{
    lemma_split(s, p, seq![','], next);
    assert(s[p] == ',');
    lemma_skip_ws_noop(s, p);
    assert(s[p + 1] == next[0]);
    lemma_skip_ws_noop(s, p + 1);
}


#[verifier::rlimit(100)]
#[verifier::spinoff_prover]
proof fn lemma_answer_doc_shape(u: crate::types::UserResponseV)
    ensures
        crate::encode::spec_encode_user_response(u) == seq!['{'] + (quoted("confirmed"@) + (
        seq![':'] + (json_bool(u.confirmed) + (seq![','] + (quoted("selectedSections"@) + (
        seq![':'] + (crate::encode::encoded_usize_array(u.selected_sections) + (seq![','] + (
        quoted("userInput"@) + (seq![':'] + (quoted(u.user_input) + (seq![','] + (quoted(
            "images"@,
        ) + (seq![':'] + (crate::encode::encoded_str_array(u.images) + seq!['}']))))))))))))))),
{
    lemma_answer_keys();
    reveal_strlit("{\"confirmed\":");
    reveal_strlit(",\"selectedSections\":");
    reveal_strlit(",\"userInput\":");
    reveal_strlit(",\"images\":");
    assert("{\"confirmed\":"@ =~= seq!['{'] + quoted("confirmed"@) + seq![':']);
    assert(",\"selectedSections\":"@ =~= seq![','] + quoted("selectedSections"@) + seq![':']);
    assert(",\"userInput\":"@ =~= seq![','] + quoted("userInput"@) + seq![':']);
    assert(",\"images\":"@ =~= seq![','] + quoted("images"@) + seq![':']);
    assert(crate::encode::spec_encode_user_response(u) =~= seq!['{'] + (quoted("confirmed"@) + (
    seq![':'] + (json_bool(u.confirmed) + (seq![','] + (quoted("selectedSections"@) + (
    seq![':'] + (crate::encode::encoded_usize_array(u.selected_sections) + (seq![','] + (
    quoted("userInput"@) + (seq![':'] + (quoted(u.user_input) + (seq![','] + (quoted(
        "images"@,
    ) + (seq![':'] + (crate::encode::encoded_str_array(u.images) + seq!['}']))))))))))))))));
}

spec fn ur_acc2_of(u: crate::types::UserResponseV) -> crate::decode::UrAcc {
    crate::decode::UrAcc {
        confirmed: Some(u.confirmed),
        selected: Some(u.selected_sections),
        user_input: None,
        images: None,
    }
}

spec fn ur_acc4_of(u: crate::types::UserResponseV) -> crate::decode::UrAcc {
    crate::decode::UrAcc {
        confirmed: Some(u.confirmed),
        selected: Some(u.selected_sections),
        user_input: Some(u.user_input),
        images: Some(u.images),
    }
}

spec fn ur_p2_of(u: crate::types::UserResponseV) -> int {
    1 + quoted("confirmed"@).len() as int + 1 + json_bool(u.confirmed).len() as int + 1 + quoted(
        "selectedSections"@,
    ).len() as int + 1 + crate::encode::encoded_usize_array(u.selected_sections).len() as int
}

spec fn ur_rest4_of(u: crate::types::UserResponseV) -> Seq<char> {
    quoted("images"@) + (seq![':'] + (crate::encode::encoded_str_array(u.images) + seq!['}']))
}

spec fn ur_rest3_of(u: crate::types::UserResponseV) -> Seq<char> {
    quoted("userInput"@) + (seq![':'] + (quoted(u.user_input) + (seq![','] + ur_rest4_of(u))))
}

spec fn ur_acc1_of(u: crate::types::UserResponseV) -> crate::decode::UrAcc {
    crate::decode::UrAcc {
        confirmed: Some(u.confirmed),
        selected: None,
        user_input: None,
        images: None,
    }
}

spec fn ur_p1_of(u: crate::types::UserResponseV) -> int {
    1 + quoted("confirmed"@).len() as int + 1 + json_bool(u.confirmed).len() as int
}

spec fn ur_rest2_of(u: crate::types::UserResponseV) -> Seq<char> {
    quoted("selectedSections"@) + (seq![':'] + (crate::encode::encoded_usize_array(
        u.selected_sections,
    ) + (seq![','] + ur_rest3_of(u))))
}

#[verifier::rlimit(100)]
#[verifier::spinoff_prover]
proof fn lemma_answer_first_field(u: crate::types::UserResponseV)
    ensures
        ({
            let s = crate::encode::spec_encode_user_response(u);
            &&& 1 <= ur_p1_of(u) + 1 <= s.len()
            &&& s.subrange(ur_p1_of(u) + 1, s.len() as int) == ur_rest2_of(u)
            &&& crate::decode::parse_ur_fields(s, 1, crate::decode::ur_acc0())
                == crate::decode::parse_ur_fields(s, ur_p1_of(u) + 1, ur_acc1_of(u))
        }),
{
    let s = crate::encode::spec_encode_user_response(u);
    let key1 = "confirmed"@;
    let c = u.confirmed;
    lemma_answer_keys();
    lemma_answer_doc_shape(u);
    let rest2 = ur_rest2_of(u);
    let rest1 = quoted(key1) + (seq![':'] + (json_bool(c) + (seq![','] + rest2)));
    assert(s == seq!['{'] + rest1);
    assert(s.subrange(0, s.len() as int) =~= s);
    lemma_split(s, 0, seq!['{'], rest1);
    let acc0 = crate::decode::ur_acc0();
    lemma_field_confirmed(s, 1, acc0, c, seq![','] + rest2);
    let acc1 = crate::decode::UrAcc { confirmed: Some(c), ..acc0 };
    assert(acc1 == ur_acc1_of(u));
    let p1 = 1 + quoted(key1).len() as int + 1 + json_bool(c).len() as int;
    assert(p1 == ur_p1_of(u));
    assert(quoted("selectedSections"@)[0] == '"');
    assert(rest2[0] == '"');
    lemma_comma_then_quote(s, p1, rest2);
    assert(crate::decode::parse_ur_fields(s, 1, acc0) == crate::decode::parse_ur_fields(
        s,
        p1 + 1,
        acc1,
    ));
}

#[verifier::rlimit(100)]
#[verifier::spinoff_prover]
proof fn lemma_answer_fields_front(u: crate::types::UserResponseV)
    ensures
        ({
            let s = crate::encode::spec_encode_user_response(u);
            &&& 1 <= ur_p2_of(u) + 1 <= s.len()
            &&& s.subrange(ur_p2_of(u) + 1, s.len() as int) == ur_rest3_of(u)
            &&& crate::decode::parse_ur_fields(s, 1, crate::decode::ur_acc0())
                == crate::decode::parse_ur_fields(s, ur_p2_of(u) + 1, ur_acc2_of(u))
        }),
{
    let s = crate::encode::spec_encode_user_response(u);
    let key2 = "selectedSections"@;
    let arr = crate::encode::encoded_usize_array(u.selected_sections);
    lemma_answer_keys();
    lemma_answer_first_field(u);
    let p1 = ur_p1_of(u);
    let acc1 = ur_acc1_of(u);
    let rest3 = ur_rest3_of(u);
    lemma_field_selected(s, p1 + 1, acc1, u.selected_sections, seq![','] + rest3);
    let acc2 = crate::decode::UrAcc { selected: Some(u.selected_sections), ..acc1 };
    let p2 = p1 + 1 + quoted(key2).len() as int + 1 + arr.len() as int;
    assert(p2 == ur_p2_of(u));
    assert(acc2 == ur_acc2_of(u));
    assert(quoted("userInput"@)[0] == '"');
    assert(rest3[0] == '"');
    lemma_comma_then_quote(s, p2, rest3);
    assert(crate::decode::parse_ur_fields(s, p1 + 1, acc1) == crate::decode::parse_ur_fields(
        s,
        p2 + 1,
        acc2,
    ));
}

#[verifier::rlimit(100)]
#[verifier::spinoff_prover]
proof fn lemma_answer_fields_back(u: crate::types::UserResponseV, q: int)
    requires
        ({
            let s = crate::encode::spec_encode_user_response(u);
            &&& 0 <= q <= s.len()
            &&& s.subrange(q, s.len() as int) == ur_rest3_of(u)
        }),
    ensures
        ({
            let s = crate::encode::spec_encode_user_response(u);
            crate::decode::parse_ur_fields(s, q, ur_acc2_of(u)) == Some(
                (ur_acc4_of(u), s.len() as int),
            )
        }),
{
    let s = crate::encode::spec_encode_user_response(u);
    let key3 = "userInput"@;
    let key4 = "images"@;
    let qinp = quoted(u.user_input);
    let strarr = crate::encode::encoded_str_array(u.images);
    lemma_answer_keys();
    let rest4 = ur_rest4_of(u);
    let acc2 = ur_acc2_of(u);
    lemma_field_input(s, q, acc2, u.user_input, seq![','] + rest4);
    let acc3 = crate::decode::UrAcc { user_input: Some(u.user_input), ..acc2 };
    let p3 = q + quoted(key3).len() as int + 1 + qinp.len() as int;
    assert(quoted(key4)[0] == '"');
    assert(rest4[0] == '"');
    lemma_comma_then_quote(s, p3, rest4);
    lemma_field_images(s, p3 + 1, acc3, u.images, seq!['}']);
    let acc4 = crate::decode::UrAcc { images: Some(u.images), ..acc3 };
    assert(acc4 == ur_acc4_of(u));
    let p4 = p3 + 1 + quoted(key4).len() as int + 1 + strarr.len() as int;
    lemma_split(s, p4, seq!['}'], Seq::<char>::empty());
    assert(s[p4] == '}');
    lemma_skip_ws_noop(s, p4);
    assert(p4 + 1 == s.len());
    assert(crate::decode::parse_ur_fields(s, p3 + 1, acc3) == Some((acc4, p4 + 1)));
    assert(crate::decode::parse_ur_fields(s, q, acc2) == Some((acc4, p4 + 1)));
}

/// An encoded answer decodes back to the same value, for every answer —
/// any selection, input and image list, including the empty ones.
#[verifier::rlimit(100)]
#[verifier::spinoff_prover]
pub proof fn lemma_user_response_round_trip(u: crate::types::UserResponseV)
    ensures
        crate::decode::spec_decode_user_response(crate::encode::spec_encode_user_response(u))
            == Some(u),
{
    let s = crate::encode::spec_encode_user_response(u);
    lemma_answer_keys();
    lemma_answer_doc_shape(u);
    lemma_answer_fields_front(u);
    lemma_answer_fields_back(u, ur_p2_of(u) + 1);
    let acc0 = crate::decode::ur_acc0();
    let acc4 = ur_acc4_of(u);
    assert(crate::decode::parse_ur_fields(s, 1, acc0) == Some((acc4, s.len() as int)));
    assert(s.subrange(0, s.len() as int) =~= s);
    lemma_split(
        s,
        0,
        seq!['{'],
        quoted("confirmed"@) + (seq![':'] + (json_bool(u.confirmed) + (seq![','] + (quoted(
            "selectedSections"@,
        ) + (seq![':'] + (crate::encode::encoded_usize_array(u.selected_sections) + (seq![',']
            + ur_rest3_of(u)))))))),
    );
    assert(s[0] == '{');
    assert(s[1] == quoted("confirmed"@)[0]);
    assert(quoted("confirmed"@)[0] == '"');
    lemma_skip_ws_noop(s, 1);
    assert(crate::decode::ur_finish(acc4) == Some(u));
    assert(crate::decode::parse_ur(s, 0) == Some((u, s.len() as int)));
    assert(!is_ws('{'));
    lemma_skip_ws_noop(s, 0);
    lemma_skip_ws_noop(s, s.len() as int);
    assert(crate::decode::spec_decode_user_response(s) == Some(u));
}

} // verus!
