//! Round-trip laws for the persisted request document: a request
//! written by the encoder is read back unchanged by the decoder.

use vstd::prelude::*;
use crate::text::{spec_dec, is_dec_digit, lemma_dec_digits};
use crate::encode::{esc, quoted, json_bool};
use crate::decode::{is_ws, skip_ws, parse_string, lemma_skip_ws_noop};
use crate::laws::{
    lemma_split, lemma_comma_then_quote, lemma_esc_plain, lemma_bool_round_trip,
    lemma_null_round_trip, lemma_u64_round_trip, lemma_string_round_trip,
};

verus! {

/// An optional string value parses back: whatever follows.
proof fn lemma_opt_str_round_trip(s: Seq<char>, i: int, o: Option<Seq<char>>, suffix: Seq<char>)
    requires
        0 <= i <= s.len(),
        s.subrange(i, s.len() as int) == crate::encode::encoded_opt_str(o) + suffix,
    ensures
        crate::decode::parse_opt_string(s, i) == Some(
            (o, i + crate::encode::encoded_opt_str(o).len()),
        ),
        crate::encode::encoded_opt_str(o).len() > 0,
        s[i] == crate::encode::encoded_opt_str(o)[0],
        !is_ws(s[i]),
{
    lemma_split(s, i, crate::encode::encoded_opt_str(o), suffix);
    match o {
        None => {
            lemma_null_round_trip(s, i, suffix);
        },
        Some(x) => {
            assert(quoted(x)[0] == '"');
            assert(s[i] == '"');
            if crate::decode::match_lit(s, i, seq!['n', 'u', 'l', 'l']) {
                assert(s.subrange(i, i + 4)[0] == s[i]);
                assert(false);
            }
            lemma_string_round_trip(s, i, x, suffix);
        },
    }
}

/// An optional number value parses back, when what follows begins with
/// no digit and the value fits the machine.
proof fn lemma_opt_u64_round_trip(s: Seq<char>, i: int, o: Option<u64>, suffix: Seq<char>)
    requires
        0 <= i <= s.len(),
        s.subrange(i, s.len() as int) == crate::encode::encoded_opt_u64(o) + suffix,
        suffix.len() == 0 || !is_dec_digit(suffix[0]),
    ensures
        crate::decode::parse_opt_u64(s, i) == Some(
            (o, i + crate::encode::encoded_opt_u64(o).len()),
        ),
        crate::encode::encoded_opt_u64(o).len() > 0,
        s[i] == crate::encode::encoded_opt_u64(o)[0],
        !is_ws(s[i]),
{
    lemma_split(s, i, crate::encode::encoded_opt_u64(o), suffix);
    match o {
        None => {
            lemma_null_round_trip(s, i, suffix);
        },
        Some(v) => {
            lemma_dec_digits(v as nat);
            assert(s[i] == spec_dec(v as nat)[0]);
            assert(is_dec_digit(s[i]));
            if crate::decode::match_lit(s, i, seq!['n', 'u', 'l', 'l']) {
                assert(s.subrange(i, i + 4)[0] == s[i]);
                assert(false);
            }
            lemma_u64_round_trip(s, i, v, suffix);
        },
    }
}

proof fn lemma_env_keys()
    ensures
        "cwd"@ =~= seq!['c', 'w', 'd'],
        "projectName"@ =~= seq!['p', 'r', 'o', 'j', 'e', 'c', 't', 'N', 'a', 'm', 'e'],
        "terminal"@ =~= seq!['t', 'e', 'r', 'm', 'i', 'n', 'a', 'l'],
        "pid"@ =~= seq!['p', 'i', 'd'],
        esc("cwd"@) == "cwd"@,
        esc("projectName"@) == "projectName"@,
        esc("terminal"@) == "terminal"@,
        esc("pid"@) == "pid"@,
        "cwd"@.len() == 3 && "projectName"@.len() == 11 && "terminal"@.len() == 8 && "pid"@.len()
            == 3,
        "projectName"@ != "cwd"@,
        "terminal"@ != "cwd"@ && "terminal"@ != "projectName"@,
        "pid"@ != "cwd"@ && "pid"@ != "projectName"@ && "pid"@ != "terminal"@,
{
    reveal_strlit("cwd");
    reveal_strlit("projectName");
    reveal_strlit("terminal");
    reveal_strlit("pid");
    assert("cwd"@ =~= seq!['c', 'w', 'd']);
    assert("projectName"@ =~= seq!['p', 'r', 'o', 'j', 'e', 'c', 't', 'N', 'a', 'm', 'e']);
    assert("terminal"@ =~= seq!['t', 'e', 'r', 'm', 'i', 'n', 'a', 'l']);
    assert("pid"@ =~= seq!['p', 'i', 'd']);
    lemma_esc_plain("cwd"@);
    lemma_esc_plain("projectName"@);
    lemma_esc_plain("terminal"@);
    lemma_esc_plain("pid"@);
    assert("pid"@[0] != "cwd"@[0]);
}

#[verifier::rlimit(100)]
#[verifier::spinoff_prover]
proof fn lemma_env_doc_shape(e: crate::types::EnvContextV)
    ensures
        crate::encode::encoded_env(e) == seq!['{'] + (quoted("cwd"@) + (seq![':'] + (
        crate::encode::encoded_opt_str(e.cwd) + (seq![','] + (quoted("projectName"@) + (
        seq![':'] + (crate::encode::encoded_opt_str(e.project_name) + (seq![','] + (quoted(
            "terminal"@,
        ) + (seq![':'] + (crate::encode::encoded_opt_str(e.terminal) + (seq![','] + (quoted(
            "pid"@,
        ) + (seq![':'] + (crate::encode::encoded_opt_u64(e.pid) + seq!['}']))))))))))))))),
{
    lemma_env_keys();
    reveal_strlit("{\"cwd\":");
    reveal_strlit(",\"projectName\":");
    reveal_strlit(",\"terminal\":");
    reveal_strlit(",\"pid\":");
    assert("{\"cwd\":"@ =~= seq!['{'] + quoted("cwd"@) + seq![':']);
    assert(",\"projectName\":"@ =~= seq![','] + quoted("projectName"@) + seq![':']);
    assert(",\"terminal\":"@ =~= seq![','] + quoted("terminal"@) + seq![':']);
    assert(",\"pid\":"@ =~= seq![','] + quoted("pid"@) + seq![':']);
    assert(crate::encode::encoded_env(e) =~= seq!['{'] + (quoted("cwd"@) + (seq![':'] + (
    crate::encode::encoded_opt_str(e.cwd) + (seq![','] + (quoted("projectName"@) + (
    seq![':'] + (crate::encode::encoded_opt_str(e.project_name) + (seq![','] + (quoted(
        "terminal"@,
    ) + (seq![':'] + (crate::encode::encoded_opt_str(e.terminal) + (seq![','] + (quoted(
        "pid"@,
    ) + (seq![':'] + (crate::encode::encoded_opt_u64(e.pid) + seq!['}']))))))))))))))));
}

/// One string-valued context field at position `q`: its key parses, the
/// colon follows, and the optional value parses back.
proof fn lemma_env_field_str(
    s: Seq<char>,
    q: int,
    key: Seq<char>,
    v: Option<Seq<char>>,
    rest: Seq<char>,
)
    requires
        0 <= q <= s.len(),
        s.subrange(q, s.len() as int) == quoted(key) + (seq![':'] + (
        crate::encode::encoded_opt_str(v) + rest)),
    ensures
        ({
            let p = q + quoted(key).len() + 1 + crate::encode::encoded_opt_str(v).len();
            &&& q < p <= s.len()
            &&& crate::decode::parse_string(s, q) == Some((key, q + quoted(key).len()))
            &&& skip_ws(s, q + quoted(key).len()) == q + quoted(key).len()
            &&& s[q + quoted(key).len()] == ':'
            &&& skip_ws(s, q + quoted(key).len() + 1) == q + quoted(key).len() + 1
            &&& crate::decode::parse_opt_string(s, q + quoted(key).len() + 1) == Some(
                (v, p),
            )
            &&& s.subrange(p, s.len() as int) == rest
        }),
{
    lemma_string_round_trip(s, q, key, seq![':'] + (crate::encode::encoded_opt_str(v) + rest));
    lemma_split(s, q, quoted(key), seq![':'] + (crate::encode::encoded_opt_str(v) + rest));
    let q2 = q + quoted(key).len() as int;
    lemma_split(s, q2, seq![':'], crate::encode::encoded_opt_str(v) + rest);
    assert(s[q2] == ':');
    lemma_skip_ws_noop(s, q2);
    lemma_opt_str_round_trip(s, q2 + 1, v, rest);
    lemma_skip_ws_noop(s, q2 + 1);
    lemma_split(s, q2 + 1, crate::encode::encoded_opt_str(v), rest);
}

/// The number-valued context field, in the same shape.
proof fn lemma_env_field_u64(s: Seq<char>, q: int, key: Seq<char>, v: Option<u64>, rest: Seq<char>)
    requires
        0 <= q <= s.len(),
        s.subrange(q, s.len() as int) == quoted(key) + (seq![':'] + (
        crate::encode::encoded_opt_u64(v) + rest)),
        rest.len() == 0 || !is_dec_digit(rest[0]),
    ensures
        ({
            let p = q + quoted(key).len() + 1 + crate::encode::encoded_opt_u64(v).len();
            &&& q < p <= s.len()
            &&& crate::decode::parse_string(s, q) == Some((key, q + quoted(key).len()))
            &&& skip_ws(s, q + quoted(key).len()) == q + quoted(key).len()
            &&& s[q + quoted(key).len()] == ':'
            &&& skip_ws(s, q + quoted(key).len() + 1) == q + quoted(key).len() + 1
            &&& crate::decode::parse_opt_u64(s, q + quoted(key).len() + 1) == Some((v, p))
            &&& s.subrange(p, s.len() as int) == rest
        }),
{
    lemma_string_round_trip(s, q, key, seq![':'] + (crate::encode::encoded_opt_u64(v) + rest));
    lemma_split(s, q, quoted(key), seq![':'] + (crate::encode::encoded_opt_u64(v) + rest));
    let q2 = q + quoted(key).len() as int;
    lemma_split(s, q2, seq![':'], crate::encode::encoded_opt_u64(v) + rest);
    assert(s[q2] == ':');
    lemma_skip_ws_noop(s, q2);
    lemma_opt_u64_round_trip(s, q2 + 1, v, rest);
    lemma_skip_ws_noop(s, q2 + 1);
    lemma_split(s, q2 + 1, crate::encode::encoded_opt_u64(v), rest);
}

spec fn env_acc2_of(e: crate::types::EnvContextV) -> crate::decode::EnvAcc {
    crate::decode::EnvAcc {
        cwd: Some(e.cwd),
        project_name: Some(e.project_name),
        terminal: None,
        pid: None,
    }
}

spec fn env_acc4_of(e: crate::types::EnvContextV) -> crate::decode::EnvAcc {
    crate::decode::EnvAcc {
        cwd: Some(e.cwd),
        project_name: Some(e.project_name),
        terminal: Some(e.terminal),
        pid: Some(e.pid),
    }
}

spec fn env_front_len(e: crate::types::EnvContextV) -> int {
    quoted("cwd"@).len() as int + 1 + crate::encode::encoded_opt_str(e.cwd).len() as int + 1
        + quoted("projectName"@).len() as int + 1 + crate::encode::encoded_opt_str(
        e.project_name,
    ).len() as int + 1
}

spec fn env_rest3_of(e: crate::types::EnvContextV, suffix: Seq<char>) -> Seq<char> {
    quoted("terminal"@) + (seq![':'] + (crate::encode::encoded_opt_str(e.terminal) + (seq![','] + (
    quoted("pid"@) + (seq![':'] + (crate::encode::encoded_opt_u64(e.pid) + (seq!['}']
        + suffix)))))))
}

spec fn env_acc1_of(e: crate::types::EnvContextV) -> crate::decode::EnvAcc {
    crate::decode::EnvAcc { cwd: Some(e.cwd), project_name: None, terminal: None, pid: None }
}

spec fn env_rest2_of(e: crate::types::EnvContextV, suffix: Seq<char>) -> Seq<char> {
    quoted("projectName"@) + (seq![':'] + (crate::encode::encoded_opt_str(e.project_name) + (
    seq![','] + env_rest3_of(e, suffix))))
}

spec fn env_len1(e: crate::types::EnvContextV) -> int {
    quoted("cwd"@).len() as int + 1 + crate::encode::encoded_opt_str(e.cwd).len() as int
}

#[verifier::rlimit(100)]
#[verifier::spinoff_prover]
proof fn lemma_env_doc_shape_suffix(e: crate::types::EnvContextV, suffix: Seq<char>)
    ensures
        crate::encode::encoded_env(e) + suffix == seq!['{'] + (quoted("cwd"@) + (seq![':'] + (
        crate::encode::encoded_opt_str(e.cwd) + (seq![','] + env_rest2_of(e, suffix))))),
{
    lemma_env_doc_shape(e);
    assert(crate::encode::encoded_env(e) + suffix =~= seq!['{'] + (quoted("cwd"@) + (seq![':'] + (
    crate::encode::encoded_opt_str(e.cwd) + (seq![','] + env_rest2_of(e, suffix))))));
}

#[verifier::rlimit(100)]
#[verifier::spinoff_prover]
proof fn lemma_env_field1(s: Seq<char>, i: int, e: crate::types::EnvContextV, suffix: Seq<char>)
    requires
        0 <= i <= s.len(),
        s.subrange(i, s.len() as int) == crate::encode::encoded_env(e) + suffix,
    ensures
        ({
            let p1 = i + 1 + env_len1(e);
            &&& i < i + 1 <= p1 + 1 <= s.len()
            &&& s[i] == '{'
            &&& s[i + 1] == '"'
            &&& skip_ws(s, i + 1) == i + 1
            &&& s.subrange(p1 + 1, s.len() as int) == env_rest2_of(e, suffix)
            &&& crate::decode::parse_env_fields(s, i + 1, crate::decode::env_acc0())
                == crate::decode::parse_env_fields(s, p1 + 1, env_acc1_of(e))
        }),
{
    lemma_env_keys();
    lemma_env_doc_shape_suffix(e, suffix);
    let rest2 = env_rest2_of(e, suffix);
    let rest1 = quoted("cwd"@) + (seq![':'] + (crate::encode::encoded_opt_str(e.cwd) + (seq![',']
        + rest2)));
    assert(s.subrange(i, s.len() as int) == seq!['{'] + rest1);
    lemma_split(s, i, seq!['{'], rest1);
    assert(s[i] == '{');
    assert(s[i + 1] == rest1[0]);
    assert(quoted("cwd"@)[0] == '"');
    lemma_skip_ws_noop(s, i + 1);
    let acc0 = crate::decode::env_acc0();
    lemma_env_field_str(s, i + 1, "cwd"@, e.cwd, seq![','] + rest2);
    let acc1 = crate::decode::EnvAcc { cwd: Some(e.cwd), ..acc0 };
    assert(acc1 == env_acc1_of(e));
    let p1 = i + 1 + env_len1(e);
    assert(crate::decode::parse_env_field(s, i + 1, acc0) == Some((acc1, p1)));
    assert(quoted("projectName"@)[0] == '"');
    assert(rest2[0] == '"');
    lemma_comma_then_quote(s, p1, rest2);
    assert(crate::decode::parse_env_fields(s, i + 1, acc0) == crate::decode::parse_env_fields(
        s,
        p1 + 1,
        acc1,
    ));
}

#[verifier::rlimit(100)]
#[verifier::spinoff_prover]
proof fn lemma_env_walk_front(
    s: Seq<char>,
    i: int,
    e: crate::types::EnvContextV,
    suffix: Seq<char>,
)
    requires
        0 <= i <= s.len(),
        s.subrange(i, s.len() as int) == crate::encode::encoded_env(e) + suffix,
    ensures
        ({
            let q3 = i + 1 + env_front_len(e);
            &&& i < i + 1 <= q3 <= s.len()
            &&& s[i] == '{'
            &&& s[i + 1] == '"'
            &&& skip_ws(s, i + 1) == i + 1
            &&& s.subrange(q3, s.len() as int) == env_rest3_of(e, suffix)
            &&& crate::decode::parse_env_fields(s, i + 1, crate::decode::env_acc0())
                == crate::decode::parse_env_fields(s, q3, env_acc2_of(e))
        }),
{
    lemma_env_keys();
    lemma_env_field1(s, i, e, suffix);
    let p1 = i + 1 + env_len1(e);
    let acc1 = env_acc1_of(e);
    let rest3 = env_rest3_of(e, suffix);
    lemma_env_field_str(s, p1 + 1, "projectName"@, e.project_name, seq![','] + rest3);
    let acc2 = crate::decode::EnvAcc { project_name: Some(e.project_name), ..acc1 };
    assert(acc2 == env_acc2_of(e));
    let p2 = p1 + 1 + quoted("projectName"@).len() as int + 1 + crate::encode::encoded_opt_str(
        e.project_name,
    ).len() as int;
    assert(crate::decode::parse_env_field(s, p1 + 1, acc1) == Some((acc2, p2)));
    assert(quoted("terminal"@)[0] == '"');
    assert(rest3[0] == '"');
    lemma_comma_then_quote(s, p2, rest3);
    assert(p2 + 1 == i + 1 + env_front_len(e));
    assert(crate::decode::parse_env_fields(s, p1 + 1, acc1) == crate::decode::parse_env_fields(
        s,
        p2 + 1,
        acc2,
    ));
}

#[verifier::rlimit(100)]
#[verifier::spinoff_prover]
proof fn lemma_env_walk_back(
    s: Seq<char>,
    q: int,
    e: crate::types::EnvContextV,
    suffix: Seq<char>,
)
    requires
        0 <= q <= s.len(),
        s.subrange(q, s.len() as int) == env_rest3_of(e, suffix),
        suffix.len() == 0 || !is_ws(suffix[0]),
    ensures
        ({
            let p4 = q + quoted("terminal"@).len() + 1 + crate::encode::encoded_opt_str(
                e.terminal,
            ).len() + 1 + quoted("pid"@).len() + 1 + crate::encode::encoded_opt_u64(e.pid).len();
            &&& q <= p4 + 1 <= s.len()
            &&& crate::decode::parse_env_fields(s, q, env_acc2_of(e)) == Some(
                (env_acc4_of(e), p4 + 1),
            )
            &&& s.subrange(p4 + 1, s.len() as int) == suffix
        }),
{
    lemma_env_keys();
    let rest4 = quoted("pid"@) + (seq![':'] + (crate::encode::encoded_opt_u64(e.pid) + (seq!['}']
        + suffix)));
    let acc2 = env_acc2_of(e);
    lemma_env_field_str(s, q, "terminal"@, e.terminal, seq![','] + rest4);
    let acc3 = crate::decode::EnvAcc { terminal: Some(e.terminal), ..acc2 };
    let p3 = q + quoted("terminal"@).len() as int + 1 + crate::encode::encoded_opt_str(
        e.terminal,
    ).len() as int;
    assert(crate::decode::parse_env_field(s, q, acc2) == Some((acc3, p3)));
    assert(quoted("pid"@)[0] == '"');
    assert(rest4[0] == '"');
    lemma_comma_then_quote(s, p3, rest4);
    lemma_env_field_u64(s, p3 + 1, "pid"@, e.pid, seq!['}'] + suffix);
    let acc4 = crate::decode::EnvAcc { pid: Some(e.pid), ..acc3 };
    assert(acc4 == env_acc4_of(e));
    let p4 = p3 + 1 + quoted("pid"@).len() as int + 1 + crate::encode::encoded_opt_u64(
        e.pid,
    ).len() as int;
    assert(crate::decode::parse_env_field(s, p3 + 1, acc3) == Some((acc4, p4)));
    lemma_split(s, p4, seq!['}'] + suffix, Seq::<char>::empty());
    assert((seq!['}'] + suffix)[0] == '}');
    assert(s[p4] == '}');
    lemma_skip_ws_noop(s, p4);
    assert(s.subrange(p4 + 1, s.len() as int) =~= suffix) by {
        let tail = s.subrange(p4, s.len() as int);
        assert(tail =~= seq!['}'] + suffix + Seq::<char>::empty());
        assert forall|k: int| 0 <= k < suffix.len() implies #[trigger] (s.subrange(
            p4 + 1,
            s.len() as int,
        )[k]) == suffix[k] by {
            assert(tail[k + 1] == (seq!['}'] + suffix + Seq::<char>::empty())[k + 1]);
        }
    }
    assert(crate::decode::parse_env_fields(s, p3 + 1, acc3) == Some((acc4, p4 + 1)));
    assert(crate::decode::parse_env_fields(s, q, acc2) == Some((acc4, p4 + 1)));
}

/// An encoded context parses back to the same context: whatever follows
/// the closing brace, as long as it opens with no whitespace or digit.
#[verifier::rlimit(100)]
#[verifier::spinoff_prover]
proof fn lemma_env_round_trip(s: Seq<char>, i: int, e: crate::types::EnvContextV, suffix: Seq<char>)
    requires
        0 <= i <= s.len(),
        s.subrange(i, s.len() as int) == crate::encode::encoded_env(e) + suffix,
        suffix.len() == 0 || !is_ws(suffix[0]),
    ensures
        crate::decode::parse_env(s, i) == Some((e, i + crate::encode::encoded_env(e).len())),
        crate::encode::encoded_env(e).len() > 0,
        s[i] == '{',
{
    lemma_env_walk_front(s, i, e, suffix);
    lemma_env_walk_back(s, i + 1 + env_front_len(e), e, suffix);
    let acc4 = env_acc4_of(e);
    let p4 = i + 1 + env_front_len(e) + quoted("terminal"@).len() + 1
        + crate::encode::encoded_opt_str(e.terminal).len() + 1 + quoted("pid"@).len() + 1
        + crate::encode::encoded_opt_u64(e.pid).len();
    assert(crate::decode::parse_env_fields(s, i + 1, crate::decode::env_acc0()) == Some(
        (acc4, p4 + 1),
    ));
    assert(crate::decode::env_finish(acc4) == e);
    lemma_env_doc_shape(e);
    assert(p4 + 1 == i + crate::encode::encoded_env(e).len());
    assert(crate::decode::parse_env(s, i) == Some((e, i + crate::encode::encoded_env(e).len())));
}

proof fn lemma_sec_keys()
    ensures
        "title"@ =~= seq!['t', 'i', 't', 'l', 'e'],
        "content"@ =~= seq!['c', 'o', 'n', 't', 'e', 'n', 't'],
        "selected"@ =~= seq!['s', 'e', 'l', 'e', 'c', 't', 'e', 'd'],
        esc("title"@) == "title"@,
        esc("content"@) == "content"@,
        esc("selected"@) == "selected"@,
        "content"@ != "title"@,
        "selected"@ != "title"@ && "selected"@ != "content"@,
{
    reveal_strlit("title");
    reveal_strlit("content");
    reveal_strlit("selected");
    assert("title"@ =~= seq!['t', 'i', 't', 'l', 'e']);
    assert("content"@ =~= seq!['c', 'o', 'n', 't', 'e', 'n', 't']);
    assert("selected"@ =~= seq!['s', 'e', 'l', 'e', 'c', 't', 'e', 'd']);
    lemma_esc_plain("title"@);
    lemma_esc_plain("content"@);
    lemma_esc_plain("selected"@);
}

spec fn sec_rest2_of(sec: crate::types::SectionV, suffix: Seq<char>) -> Seq<char> {
    quoted("content"@) + (seq![':'] + (quoted(sec.content) + (seq![','] + (quoted("selected"@) + (
    seq![':'] + (json_bool(sec.selected) + (seq!['}'] + suffix)))))))
}

#[verifier::rlimit(100)]
#[verifier::spinoff_prover]
proof fn lemma_sec_doc_shape_suffix(sec: crate::types::SectionV, suffix: Seq<char>)
    ensures
        crate::encode::encoded_section(sec) + suffix == seq!['{'] + (quoted("title"@) + (seq![':']
            + (quoted(sec.title) + (seq![','] + sec_rest2_of(sec, suffix))))),
{
    lemma_sec_keys();
    reveal_strlit("{\"title\":");
    reveal_strlit(",\"content\":");
    reveal_strlit(",\"selected\":");
    assert("{\"title\":"@ =~= seq!['{'] + quoted("title"@) + seq![':']);
    assert(",\"content\":"@ =~= seq![','] + quoted("content"@) + seq![':']);
    assert(",\"selected\":"@ =~= seq![','] + quoted("selected"@) + seq![':']);
    assert(crate::encode::encoded_section(sec) + suffix =~= seq!['{'] + (quoted("title"@) + (
    seq![':'] + (quoted(sec.title) + (seq![','] + sec_rest2_of(sec, suffix))))));
}

/// One string-valued section field at position `q`.
proof fn lemma_sec_field_str(s: Seq<char>, q: int, key: Seq<char>, v: Seq<char>, rest: Seq<char>)
    requires
        0 <= q <= s.len(),
        s.subrange(q, s.len() as int) == quoted(key) + (seq![':'] + (quoted(v) + rest)),
    ensures
        ({
            let p = q + quoted(key).len() + 1 + quoted(v).len();
            &&& q < p <= s.len()
            &&& parse_string(s, q) == Some((key, q + quoted(key).len()))
            &&& skip_ws(s, q + quoted(key).len()) == q + quoted(key).len()
            &&& s[q + quoted(key).len()] == ':'
            &&& skip_ws(s, q + quoted(key).len() + 1) == q + quoted(key).len() + 1
            &&& parse_string(s, q + quoted(key).len() + 1) == Some((v, p))
            &&& s.subrange(p, s.len() as int) == rest
        }),
{
    lemma_string_round_trip(s, q, key, seq![':'] + (quoted(v) + rest));
    lemma_split(s, q, quoted(key), seq![':'] + (quoted(v) + rest));
    let q2 = q + quoted(key).len() as int;
    lemma_split(s, q2, seq![':'], quoted(v) + rest);
    assert(s[q2] == ':');
    lemma_skip_ws_noop(s, q2);
    lemma_string_round_trip(s, q2 + 1, v, rest);
    assert(quoted(v)[0] == '"');
    lemma_split(s, q2 + 1, quoted(v), rest);
    assert(s[q2 + 1] == '"');
    lemma_skip_ws_noop(s, q2 + 1);
}

spec fn sec_acc1_of(sec: crate::types::SectionV) -> crate::decode::SecAcc {
    crate::decode::SecAcc { title: Some(sec.title), content: None, selected: None }
}

spec fn sec_acc2_of(sec: crate::types::SectionV) -> crate::decode::SecAcc {
    crate::decode::SecAcc { title: Some(sec.title), content: Some(sec.content), selected: None }
}

spec fn sec_acc3_of(sec: crate::types::SectionV) -> crate::decode::SecAcc {
    crate::decode::SecAcc {
        title: Some(sec.title),
        content: Some(sec.content),
        selected: Some(sec.selected),
    }
}

spec fn sec_len1(sec: crate::types::SectionV) -> int {
    quoted("title"@).len() as int + 1 + quoted(sec.title).len() as int
}

#[verifier::rlimit(100)]
#[verifier::spinoff_prover]
proof fn lemma_sec_field1(s: Seq<char>, i: int, sec: crate::types::SectionV, suffix: Seq<char>)
    requires
        0 <= i <= s.len(),
        s.subrange(i, s.len() as int) == crate::encode::encoded_section(sec) + suffix,
    ensures
        ({
            let p1 = i + 1 + sec_len1(sec);
            &&& i < i + 1 <= p1 + 1 <= s.len()
            &&& s[i] == '{'
            &&& s[i + 1] == '"'
            &&& skip_ws(s, i + 1) == i + 1
            &&& s.subrange(p1 + 1, s.len() as int) == sec_rest2_of(sec, suffix)
            &&& crate::decode::parse_sec_fields(s, i + 1, crate::decode::sec_acc0())
                == crate::decode::parse_sec_fields(s, p1 + 1, sec_acc1_of(sec))
        }),
{
    lemma_sec_keys();
    lemma_sec_doc_shape_suffix(sec, suffix);
    let rest2 = sec_rest2_of(sec, suffix);
    let rest1 = quoted("title"@) + (seq![':'] + (quoted(sec.title) + (seq![','] + rest2)));
    assert(s.subrange(i, s.len() as int) == seq!['{'] + rest1);
    lemma_split(s, i, seq!['{'], rest1);
    assert(s[i] == '{');
    assert(s[i + 1] == rest1[0]);
    assert(quoted("title"@)[0] == '"');
    lemma_skip_ws_noop(s, i + 1);
    let acc0 = crate::decode::sec_acc0();
    lemma_sec_field_str(s, i + 1, "title"@, sec.title, seq![','] + rest2);
    let acc1 = crate::decode::SecAcc { title: Some(sec.title), ..acc0 };
    assert(acc1 == sec_acc1_of(sec));
    let p1 = i + 1 + sec_len1(sec);
    assert(crate::decode::parse_sec_field(s, i + 1, acc0) == Some((acc1, p1)));
    assert(quoted("content"@)[0] == '"');
    assert(rest2[0] == '"');
    lemma_comma_then_quote(s, p1, rest2);
    assert(crate::decode::parse_sec_fields(s, i + 1, acc0) == crate::decode::parse_sec_fields(
        s,
        p1 + 1,
        acc1,
    ));
}

/// An encoded section parses back to the same section: whatever follows
/// the closing brace, as long as it opens with no whitespace.
#[verifier::rlimit(100)]
#[verifier::spinoff_prover]
proof fn lemma_sec_round_trip(s: Seq<char>, i: int, sec: crate::types::SectionV, suffix: Seq<char>)
    requires
        0 <= i <= s.len(),
        s.subrange(i, s.len() as int) == crate::encode::encoded_section(sec) + suffix,
        suffix.len() == 0 || !is_ws(suffix[0]),
    ensures
        crate::decode::parse_sec(s, i) == Some(
            (sec, i + crate::encode::encoded_section(sec).len()),
        ),
        crate::encode::encoded_section(sec).len() > 0,
        s[i] == '{',
{
    lemma_sec_keys();
    lemma_sec_field1(s, i, sec, suffix);
    let p1 = i + 1 + sec_len1(sec);
    let acc1 = sec_acc1_of(sec);
    let rest3 = quoted("selected"@) + (seq![':'] + (json_bool(sec.selected) + (seq!['}']
        + suffix)));
    lemma_sec_field_str(s, p1 + 1, "content"@, sec.content, seq![','] + rest3);
    let acc2 = crate::decode::SecAcc { content: Some(sec.content), ..acc1 };
    assert(acc2 == sec_acc2_of(sec));
    let p2 = p1 + 1 + quoted("content"@).len() as int + 1 + quoted(sec.content).len() as int;
    assert(crate::decode::parse_sec_field(s, p1 + 1, acc1) == Some((acc2, p2)));
    assert(quoted("selected"@)[0] == '"');
    assert(rest3[0] == '"');
    lemma_comma_then_quote(s, p2, rest3);
    // third field: the selection flag
    lemma_string_round_trip(
        s,
        p2 + 1,
        "selected"@,
        seq![':'] + (json_bool(sec.selected) + (seq!['}'] + suffix)),
    );
    lemma_split(
        s,
        p2 + 1,
        quoted("selected"@),
        seq![':'] + (json_bool(sec.selected) + (seq!['}'] + suffix)),
    );
    let q2 = p2 + 1 + quoted("selected"@).len() as int;
    lemma_split(s, q2, seq![':'], json_bool(sec.selected) + (seq!['}'] + suffix));
    assert(s[q2] == ':');
    lemma_skip_ws_noop(s, q2);
    assert((seq!['}'] + suffix).len() == 0 || !is_dec_digit((seq!['}'] + suffix)[0]));
    lemma_bool_round_trip(s, q2 + 1, sec.selected, seq!['}'] + suffix);
    lemma_split(s, q2 + 1, json_bool(sec.selected), seq!['}'] + suffix);
    assert(s[q2 + 1] == json_bool(sec.selected)[0]);
    assert(!is_ws(s[q2 + 1]));
    lemma_skip_ws_noop(s, q2 + 1);
    let acc3 = crate::decode::SecAcc { selected: Some(sec.selected), ..acc2 };
    assert(acc3 == sec_acc3_of(sec));
    let p3 = q2 + 1 + json_bool(sec.selected).len() as int;
    assert(crate::decode::parse_sec_field(s, p2 + 1, acc2) == Some((acc3, p3)));
    lemma_split(s, p3, seq!['}'], suffix);
    assert(s[p3] == '}');
    lemma_skip_ws_noop(s, p3);
    assert(crate::decode::parse_sec_fields(s, p2 + 1, acc2) == Some((acc3, p3 + 1)));
    assert(crate::decode::parse_sec_fields(s, p1 + 1, acc1) == Some((acc3, p3 + 1)));
    assert(crate::decode::parse_sec_fields(s, i + 1, crate::decode::sec_acc0()) == Some(
        (acc3, p3 + 1),
    ));
    assert(crate::decode::sec_finish(acc3) == Some(sec));
    assert(s.subrange(i, s.len() as int).len() == crate::encode::encoded_section(sec).len()
        + suffix.len());
    assert(s.subrange(p3 + 1, s.len() as int).len() == suffix.len());
    assert(p3 + 1 == i + crate::encode::encoded_section(sec).len());
    assert(crate::decode::parse_sec(s, i) == Some(
        (sec, i + crate::encode::encoded_section(sec).len()),
    ));
}

proof fn lemma_sec_elems_round_trip(
    s: Seq<char>,
    i: int,
    xs: Seq<crate::types::SectionV>,
    suffix: Seq<char>,
)
    requires
        xs.len() > 0,
        0 <= i <= s.len(),
        s.subrange(i, s.len() as int) == crate::encode::join_comma(
            crate::encode::section_items(xs),
        ) + seq![']'] + suffix,
    ensures
        crate::decode::parse_sec_elems(s, i) == Some(
            (xs, i + crate::encode::join_comma(crate::encode::section_items(xs)).len() + 1),
        ),
    decreases xs.len(),
{
    let items = crate::encode::section_items(xs);
    let v = xs[0];
    let ev = crate::encode::encoded_section(v);
    assert(items[0] == ev);
    let tail = s.subrange(i, s.len() as int);
    assert(tail.len() == crate::encode::join_comma(items).len() + 1 + suffix.len());
    if xs.len() == 1 {
        assert(crate::encode::join_comma(items) == ev);
        assert(tail =~= ev + (seq![']'] + suffix));
        lemma_sec_round_trip(s, i, v, seq![']'] + suffix);
        let j = i + ev.len();
        assert(s[j] == tail[ev.len() as int]);
        assert(tail[ev.len() as int] == ']');
        assert(!is_ws(']'));
        lemma_skip_ws_noop(s, j);
        assert(crate::decode::parse_sec_elems(s, i) == Some((seq![v], j + 1)));
        assert(seq![v] =~= xs);
    } else {
        let rest_items = crate::encode::section_items(xs.skip(1));
        assert(items.skip(1) =~= rest_items);
        assert(crate::encode::join_comma(items) == items[0] + seq![',']
            + crate::encode::join_comma(items.skip(1)));
        let rest_join = crate::encode::join_comma(rest_items);
        let sec_suffix = seq![','] + rest_join + seq![']'] + suffix;
        assert(tail =~= ev + sec_suffix);
        lemma_sec_round_trip(s, i, v, sec_suffix);
        let j = i + ev.len();
        assert forall|k: int| 0 <= k < sec_suffix.len() implies s[j + k] == sec_suffix[k] by {
            assert(tail[ev.len() + k] == (ev + sec_suffix)[ev.len() + k]);
        }
        assert(sec_suffix[0] == ',');
        assert(s[j] == sec_suffix[0]) by {
            assert(tail[ev.len() as int] == (ev + sec_suffix)[ev.len() as int]);
        }
        assert(s[j + 0] == ',');
        assert(!is_ws(','));
        lemma_skip_ws_noop(s, j);
        let xs2 = xs.skip(1);
        assert(rest_items[0] == crate::encode::encoded_section(xs2[0]));
        assert(rest_join.len() > 0 && rest_join[0] == crate::encode::encoded_section(xs2[0])[0])
            by {
            if rest_items.len() == 1 {
            } else {
            }
        }
        lemma_sec_head(xs2[0]);
        assert(s[j + 1] == sec_suffix[1]);
        assert(sec_suffix[1] == rest_join[0]);
        assert(!is_ws(s[j + 1]));
        lemma_skip_ws_noop(s, j + 1);
        let m = j + 1;
        assert(s.subrange(m, s.len() as int) =~= rest_join + seq![']'] + suffix) by {
            assert forall|k: int| 0 <= k < s.len() - m implies #[trigger] (s.subrange(
                m,
                s.len() as int,
            )[k]) == (rest_join + seq![']'] + suffix)[k] by {
                assert(s[m + k] == sec_suffix[1 + k]);
            }
        }
        lemma_sec_elems_round_trip(s, m, xs2, suffix);
        assert(seq![v] + xs2 =~= xs);
        assert(crate::decode::parse_sec_elems(s, i) == Some(
            (xs, i + crate::encode::join_comma(items).len() + 1),
        ));
    }
}

proof fn lemma_sec_head(sec: crate::types::SectionV)
    ensures
        crate::encode::encoded_section(sec).len() > 0,
        crate::encode::encoded_section(sec)[0] == '{',
{
    reveal_strlit("{\"title\":");
    assert("{\"title\":"@.len() > 0 && "{\"title\":"@[0] == '{');
}

/// An encoded section list parses back to the same sections: whatever
/// follows the closing bracket.
proof fn lemma_sec_array_round_trip(
    s: Seq<char>,
    i: int,
    xs: Seq<crate::types::SectionV>,
    suffix: Seq<char>,
)
    requires
        0 <= i <= s.len(),
        s.subrange(i, s.len() as int) == crate::encode::encoded_section_array(xs) + suffix,
    ensures
        crate::decode::parse_sec_array(s, i) == Some(
            (xs, i + crate::encode::encoded_section_array(xs).len()),
        ),
        crate::encode::encoded_section_array(xs).len() > 0,
        s[i] == '[',
{
    let items = crate::encode::section_items(xs);
    let enc = crate::encode::encoded_section_array(xs);
    let tail = s.subrange(i, s.len() as int);
    assert(tail.len() == enc.len() + suffix.len());
    assert(enc == seq!['['] + crate::encode::join_comma(items) + seq![']']);
    assert(tail[0] == enc[0]);
    assert(enc[0] == '[');
    assert(s[i] == '[');
    if xs.len() == 0 {
        assert(crate::encode::join_comma(items) =~= Seq::<char>::empty());
        assert(enc.len() == 2);
        assert(tail[1] == enc[1]);
        assert(enc[1] == ']');
        assert(s[i + 1] == ']');
        assert(!is_ws(']'));
        lemma_skip_ws_noop(s, i + 1);
        assert(crate::decode::parse_sec_array(s, i) == Some(
            (Seq::<crate::types::SectionV>::empty(), i + 2),
        ));
        assert(Seq::<crate::types::SectionV>::empty() =~= xs);
    } else {
        assert(items[0] == crate::encode::encoded_section(xs[0]));
        assert(crate::encode::join_comma(items).len() > 0 && crate::encode::join_comma(items)[0]
            == crate::encode::encoded_section(xs[0])[0]) by {
            if items.len() == 1 {
            } else {
            }
        }
        lemma_sec_head(xs[0]);
        assert(enc[1] == crate::encode::join_comma(items)[0]);
        assert(tail[1] == enc[1]);
        assert(s[i + 1] == '{');
        assert(!is_ws(s[i + 1]) && s[i + 1] != ']');
        lemma_skip_ws_noop(s, i + 1);
        assert(s.subrange(i + 1, s.len() as int) =~= crate::encode::join_comma(items) + seq![']']
            + suffix) by {
            assert forall|k: int| 0 <= k < s.len() - i - 1 implies #[trigger] (s.subrange(
                i + 1,
                s.len() as int,
            )[k]) == (crate::encode::join_comma(items) + seq![']'] + suffix)[k] by {
                assert(tail[k + 1] == (enc + suffix)[k + 1]);
                if k + 1 < enc.len() {
                    assert(enc[k + 1] == (seq!['['] + crate::encode::join_comma(items)
                        + seq![']'])[k + 1]);
                }
            }
        }
        lemma_sec_elems_round_trip(s, i + 1, xs, suffix);
    }
}

proof fn lemma_pr_keys()
    ensures
        "id"@ =~= seq!['i', 'd'],
        "message"@ =~= seq!['m', 'e', 's', 's', 'a', 'g', 'e'],
        "sections"@ =~= seq!['s', 'e', 'c', 't', 'i', 'o', 'n', 's'],
        "isMarkdown"@ =~= seq!['i', 's', 'M', 'a', 'r', 'k', 'd', 'o', 'w', 'n'],
        "envContext"@ =~= seq!['e', 'n', 'v', 'C', 'o', 'n', 't', 'e', 'x', 't'],
        esc("id"@) == "id"@,
        esc("message"@) == "message"@,
        esc("sections"@) == "sections"@,
        esc("isMarkdown"@) == "isMarkdown"@,
        esc("envContext"@) == "envContext"@,
        "message"@ != "id"@,
        "sections"@ != "id"@ && "sections"@ != "message"@,
        "isMarkdown"@ != "id"@ && "isMarkdown"@ != "message"@ && "isMarkdown"@ != "sections"@,
        "envContext"@ != "id"@ && "envContext"@ != "message"@ && "envContext"@ != "sections"@
            && "envContext"@ != "isMarkdown"@,
{
    reveal_strlit("id");
    reveal_strlit("message");
    reveal_strlit("sections");
    reveal_strlit("isMarkdown");
    reveal_strlit("envContext");
    assert("id"@ =~= seq!['i', 'd']);
    assert("message"@ =~= seq!['m', 'e', 's', 's', 'a', 'g', 'e']);
    assert("sections"@ =~= seq!['s', 'e', 'c', 't', 'i', 'o', 'n', 's']);
    assert("isMarkdown"@ =~= seq!['i', 's', 'M', 'a', 'r', 'k', 'd', 'o', 'w', 'n']);
    assert("envContext"@ =~= seq!['e', 'n', 'v', 'C', 'o', 'n', 't', 'e', 'x', 't']);
    lemma_esc_plain("id"@);
    lemma_esc_plain("message"@);
    lemma_esc_plain("sections"@);
    lemma_esc_plain("isMarkdown"@);
    lemma_esc_plain("envContext"@);
    assert("envContext"@[0] != "isMarkdown"@[0]);
}

spec fn pr_rest5_of(p: crate::types::PopupRequestV) -> Seq<char> {
    quoted("envContext"@) + (seq![':'] + (crate::encode::encoded_opt_env(p.env_context)
        + seq!['}']))
}

spec fn pr_rest4_of(p: crate::types::PopupRequestV) -> Seq<char> {
    quoted("isMarkdown"@) + (seq![':'] + (json_bool(p.is_markdown) + (seq![','] + pr_rest5_of(
        p,
    ))))
}

spec fn pr_rest3_of(p: crate::types::PopupRequestV) -> Seq<char> {
    quoted("sections"@) + (seq![':'] + (crate::encode::encoded_section_array(p.sections) + (
    seq![','] + pr_rest4_of(p))))
}

spec fn pr_rest2_of(p: crate::types::PopupRequestV) -> Seq<char> {
    quoted("message"@) + (seq![':'] + (quoted(p.message) + (seq![','] + pr_rest3_of(p))))
}

spec fn pr_acc1_of(p: crate::types::PopupRequestV) -> crate::decode::PrAcc {
    crate::decode::PrAcc {
        id: Some(p.id),
        message: None,
        sections: None,
        is_markdown: None,
        env_context: None,
    }
}

spec fn pr_acc2_of(p: crate::types::PopupRequestV) -> crate::decode::PrAcc {
    crate::decode::PrAcc { message: Some(p.message), ..pr_acc1_of(p) }
}

spec fn pr_acc3_of(p: crate::types::PopupRequestV) -> crate::decode::PrAcc {
    crate::decode::PrAcc { sections: Some(p.sections), ..pr_acc2_of(p) }
}

spec fn pr_acc4_of(p: crate::types::PopupRequestV) -> crate::decode::PrAcc {
    crate::decode::PrAcc { is_markdown: Some(p.is_markdown), ..pr_acc3_of(p) }
}

spec fn pr_acc5_of(p: crate::types::PopupRequestV) -> crate::decode::PrAcc {
    crate::decode::PrAcc { env_context: Some(p.env_context), ..pr_acc4_of(p) }
}

spec fn pr_p1_of(p: crate::types::PopupRequestV) -> int {
    1 + quoted("id"@).len() as int + 1 + quoted(p.id).len() as int
}

spec fn pr_p2_of(p: crate::types::PopupRequestV) -> int {
    pr_p1_of(p) + 1 + quoted("message"@).len() as int + 1 + quoted(p.message).len() as int
}

spec fn pr_p3_of(p: crate::types::PopupRequestV) -> int {
    pr_p2_of(p) + 1 + quoted("sections"@).len() as int + 1
        + crate::encode::encoded_section_array(p.sections).len() as int
}

#[verifier::rlimit(100)]
#[verifier::spinoff_prover]
proof fn lemma_pr_doc_shape(p: crate::types::PopupRequestV)
    ensures
        crate::encode::spec_encode_popup(p) == seq!['{'] + (quoted("id"@) + (seq![':'] + (quoted(
            p.id,
        ) + (seq![','] + pr_rest2_of(p))))),
{
    lemma_pr_keys();
    reveal_strlit("{\"id\":");
    reveal_strlit(",\"message\":");
    reveal_strlit(",\"sections\":");
    reveal_strlit(",\"isMarkdown\":");
    reveal_strlit(",\"envContext\":");
    assert("{\"id\":"@ =~= seq!['{'] + quoted("id"@) + seq![':']);
    assert(",\"message\":"@ =~= seq![','] + quoted("message"@) + seq![':']);
    assert(",\"sections\":"@ =~= seq![','] + quoted("sections"@) + seq![':']);
    assert(",\"isMarkdown\":"@ =~= seq![','] + quoted("isMarkdown"@) + seq![':']);
    assert(",\"envContext\":"@ =~= seq![','] + quoted("envContext"@) + seq![':']);
    assert(crate::encode::spec_encode_popup(p) =~= seq!['{'] + (quoted("id"@) + (seq![':'] + (
    quoted(p.id) + (seq![','] + pr_rest2_of(p))))));
}

#[verifier::rlimit(100)]
#[verifier::spinoff_prover]
proof fn lemma_pr_front(s: Seq<char>, p: crate::types::PopupRequestV)
    requires
        s == crate::encode::spec_encode_popup(p),
    ensures
        ({
            &&& 1 <= pr_p2_of(p) + 1 <= s.len()
            &&& s[0] == '{'
            &&& s[1] == '"'
            &&& skip_ws(s, 1) == 1
            &&& s.subrange(pr_p2_of(p) + 1, s.len() as int) == pr_rest3_of(p)
            &&& crate::decode::parse_pr_fields(s, 1, crate::decode::pr_acc0())
                == crate::decode::parse_pr_fields(s, pr_p2_of(p) + 1, pr_acc2_of(p))
        }),
{
    lemma_pr_keys();
    lemma_pr_doc_shape(p);
    let rest2 = pr_rest2_of(p);
    let rest1 = quoted("id"@) + (seq![':'] + (quoted(p.id) + (seq![','] + rest2)));
    assert(s.subrange(0, s.len() as int) =~= s);
    lemma_split(s, 0, seq!['{'], rest1);
    assert(s[0] == '{');
    assert(s[1] == rest1[0]);
    assert(quoted("id"@)[0] == '"');
    lemma_skip_ws_noop(s, 1);
    let acc0 = crate::decode::pr_acc0();
    lemma_sec_field_str(s, 1, "id"@, p.id, seq![','] + rest2);
    let acc1 = crate::decode::PrAcc { id: Some(p.id), ..acc0 };
    assert(acc1 == pr_acc1_of(p));
    let p1 = pr_p1_of(p);
    assert(crate::decode::parse_pr_field(s, 1, acc0) == Some((acc1, p1)));
    assert(quoted("message"@)[0] == '"');
    assert(rest2[0] == '"');
    lemma_comma_then_quote(s, p1, rest2);
    let rest3 = pr_rest3_of(p);
    lemma_sec_field_str(s, p1 + 1, "message"@, p.message, seq![','] + rest3);
    let acc2 = crate::decode::PrAcc { message: Some(p.message), ..acc1 };
    assert(acc2 == pr_acc2_of(p));
    let p2 = pr_p2_of(p);
    assert(crate::decode::parse_pr_field(s, p1 + 1, acc1) == Some((acc2, p2)));
    assert(quoted("sections"@)[0] == '"');
    assert(rest3[0] == '"');
    lemma_comma_then_quote(s, p2, rest3);
    assert(crate::decode::parse_pr_fields(s, 1, acc0) == crate::decode::parse_pr_fields(
        s,
        p1 + 1,
        acc1,
    ));
    assert(crate::decode::parse_pr_fields(s, p1 + 1, acc1) == crate::decode::parse_pr_fields(
        s,
        p2 + 1,
        acc2,
    ));
}

#[verifier::rlimit(100)]
#[verifier::spinoff_prover]
proof fn lemma_pr_mid(s: Seq<char>, q: int, p: crate::types::PopupRequestV)
    requires
        0 <= q <= s.len(),
        s.subrange(q, s.len() as int) == pr_rest3_of(p),
    ensures
        ({
            let p3 = q + quoted("sections"@).len() + 1 + crate::encode::encoded_section_array(
                p.sections,
            ).len();
            &&& q < p3 + 1 <= s.len()
            &&& crate::decode::parse_pr_fields(s, q, pr_acc2_of(p))
                == crate::decode::parse_pr_fields(s, p3 + 1, pr_acc3_of(p))
            &&& s.subrange(p3 + 1, s.len() as int) == pr_rest4_of(p)
        }),
{
    lemma_pr_keys();
    let rest4 = pr_rest4_of(p);
    let arr = crate::encode::encoded_section_array(p.sections);
    let acc2 = pr_acc2_of(p);
    lemma_string_round_trip(s, q, "sections"@, seq![':'] + (arr + (seq![','] + rest4)));
    lemma_split(s, q, quoted("sections"@), seq![':'] + (arr + (seq![','] + rest4)));
    let q2 = q + quoted("sections"@).len() as int;
    lemma_split(s, q2, seq![':'], arr + (seq![','] + rest4));
    assert(s[q2] == ':');
    lemma_skip_ws_noop(s, q2);
    lemma_sec_array_round_trip(s, q2 + 1, p.sections, seq![','] + rest4);
    lemma_split(s, q2 + 1, arr, seq![','] + rest4);
    assert(s[q2 + 1] == '[');
    lemma_skip_ws_noop(s, q2 + 1);
    let acc3 = crate::decode::PrAcc { sections: Some(p.sections), ..acc2 };
    assert(acc3 == pr_acc3_of(p));
    let p3 = q2 + 1 + arr.len() as int;
    assert(crate::decode::parse_pr_field(s, q, acc2) == Some((acc3, p3)));
    assert(quoted("isMarkdown"@)[0] == '"');
    assert(rest4[0] == '"');
    lemma_comma_then_quote(s, p3, rest4);
    assert(crate::decode::parse_pr_fields(s, q, acc2) == crate::decode::parse_pr_fields(
        s,
        p3 + 1,
        acc3,
    ));
}

#[verifier::rlimit(100)]
#[verifier::spinoff_prover]
proof fn lemma_pr_back(s: Seq<char>, q: int, p: crate::types::PopupRequestV)
    requires
        0 <= q <= s.len(),
        s.subrange(q, s.len() as int) == pr_rest4_of(p),
    ensures
        ({
            let p5 = q + quoted("isMarkdown"@).len() + 1 + json_bool(p.is_markdown).len() + 1
                + quoted("envContext"@).len() + 1 + crate::encode::encoded_opt_env(
                p.env_context,
            ).len();
            &&& q < p5 + 1 <= s.len()
            &&& p5 + 1 == s.len()
            &&& crate::decode::parse_pr_fields(s, q, pr_acc3_of(p)) == Some(
                (pr_acc5_of(p), p5 + 1),
            )
        }),
{
    lemma_pr_keys();
    let rest5 = pr_rest5_of(p);
    let acc3 = pr_acc3_of(p);
    lemma_string_round_trip(
        s,
        q,
        "isMarkdown"@,
        seq![':'] + (json_bool(p.is_markdown) + (seq![','] + rest5)),
    );
    lemma_split(
        s,
        q,
        quoted("isMarkdown"@),
        seq![':'] + (json_bool(p.is_markdown) + (seq![','] + rest5)),
    );
    let q2 = q + quoted("isMarkdown"@).len() as int;
    lemma_split(s, q2, seq![':'], json_bool(p.is_markdown) + (seq![','] + rest5));
    assert(s[q2] == ':');
    lemma_skip_ws_noop(s, q2);
    lemma_bool_round_trip(s, q2 + 1, p.is_markdown, seq![','] + rest5);
    lemma_split(s, q2 + 1, json_bool(p.is_markdown), seq![','] + rest5);
    assert(s[q2 + 1] == json_bool(p.is_markdown)[0]);
    assert(!is_ws(s[q2 + 1]));
    lemma_skip_ws_noop(s, q2 + 1);
    let acc4 = crate::decode::PrAcc { is_markdown: Some(p.is_markdown), ..acc3 };
    assert(acc4 == pr_acc4_of(p));
    let p4 = q2 + 1 + json_bool(p.is_markdown).len() as int;
    assert(crate::decode::parse_pr_field(s, q, acc3) == Some((acc4, p4)));
    assert(quoted("envContext"@)[0] == '"');
    assert(rest5[0] == '"');
    lemma_comma_then_quote(s, p4, rest5);
    // last field: the optional context
    let env = crate::encode::encoded_opt_env(p.env_context);
    lemma_string_round_trip(s, p4 + 1, "envContext"@, seq![':'] + (env + seq!['}']));
    lemma_split(s, p4 + 1, quoted("envContext"@), seq![':'] + (env + seq!['}']));
    let q5 = p4 + 1 + quoted("envContext"@).len() as int;
    lemma_split(s, q5, seq![':'], env + seq!['}']);
    assert(s[q5] == ':');
    lemma_skip_ws_noop(s, q5);
    match p.env_context {
        None => {
            lemma_null_round_trip(s, q5 + 1, seq!['}']);
            lemma_split(s, q5 + 1, env, seq!['}']);
            assert(s[q5 + 1] == env[0]);
            assert(env[0] == 'n');
            lemma_skip_ws_noop(s, q5 + 1);
        },
        Some(e) => {
            lemma_env_round_trip(s, q5 + 1, e, seq!['}']);
            lemma_split(s, q5 + 1, env, seq!['}']);
            assert(s[q5 + 1] == '{');
            lemma_skip_ws_noop(s, q5 + 1);
            if crate::decode::match_lit(s, q5 + 1, seq!['n', 'u', 'l', 'l']) {
                assert(s.subrange(q5 + 1, q5 + 5)[0] == s[q5 + 1]);
                assert(false);
            }
        },
    }
    let acc5 = crate::decode::PrAcc { env_context: Some(p.env_context), ..acc4 };
    assert(acc5 == pr_acc5_of(p));
    let p5 = q5 + 1 + env.len() as int;
    assert(crate::decode::parse_pr_field(s, p4 + 1, acc4) == Some((acc5, p5)));
    lemma_split(s, p5, seq!['}'], Seq::<char>::empty());
    assert(s[p5] == '}');
    lemma_skip_ws_noop(s, p5);
    assert(p5 + 1 == s.len());
    assert(crate::decode::parse_pr_fields(s, p4 + 1, acc4) == Some((acc5, p5 + 1)));
    assert(crate::decode::parse_pr_fields(s, q, acc3) == Some((acc5, p5 + 1)));
}

/// An encoded request decodes back to the same value, for every request
/// — any sections, any context, including none.
#[verifier::rlimit(100)]
#[verifier::spinoff_prover]
pub proof fn lemma_popup_request_round_trip(p: crate::types::PopupRequestV)
    ensures
        crate::decode::spec_decode_popup_request(crate::encode::spec_encode_popup(p)) == Some(p),
{
    let s = crate::encode::spec_encode_popup(p);
    lemma_pr_keys();
    lemma_pr_front(s, p);
    lemma_pr_mid(s, pr_p2_of(p) + 1, p);
    lemma_pr_back(s, pr_p3_of(p) + 1, p);
    let acc5 = pr_acc5_of(p);
    assert(crate::decode::parse_pr_fields(s, 1, crate::decode::pr_acc0()) == Some(
        (acc5, s.len() as int),
    ));
    assert(crate::decode::pr_finish(acc5) == Some(p));
    assert(!is_ws('{'));
    lemma_skip_ws_noop(s, 0);
    assert(crate::decode::parse_pr(s, 0) == Some((p, s.len() as int)));
    lemma_skip_ws_noop(s, s.len() as int);
    assert(crate::decode::spec_decode_popup_request(s) == Some(p));
}

} // verus!
