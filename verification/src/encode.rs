//! Encoding of the canonical request and answer as self-describing
//! structured documents: the artifact the presentation process reads,
//! and the answer document it writes.
//!
//! Field names on the wire: `id`, `message`, `sections`, `isMarkdown`,
//! `envContext` for a request; `title`, `content`, `selected` for a
//! section; `cwd`, `projectName`, `terminal`, `pid` for a context;
//! `confirmed`, `selectedSections`, `userInput`, `images` for an answer.
//! Absent optional values are written as `null`.

use vstd::prelude::*;
use crate::types::{
    EnvContext, EnvContextV, PopupRequest, PopupRequestV, Section, SectionV, UserResponse,
    UserResponseV,
};
use crate::text::{push_char, spec_dec, spec_hex2, dec_string, hex2_chars};

verus! {

/// How one character is written inside a quoted string: the quote, the
/// backslash and the common control characters get two-character
/// escapes, the remaining control characters a four-digit escape, and
/// every other character stands as itself.
pub open spec fn esc_char(c: char) -> Seq<char> {
    if c == '"' {
        seq!['\\', '"']
    } else if c == '\\' {
        seq!['\\', '\\']
    } else if c == '\n' {
        seq!['\\', 'n']
    } else if c == '\r' {
        seq!['\\', 'r']
    } else if c == '\t' {
        seq!['\\', 't']
    } else if (c as u32) < 0x20 {
        seq!['\\', 'u', '0', '0'] + spec_hex2(c as u32 as nat)
    } else {
        seq![c]
    }
}

/// The body of a quoted string: each character escaped in turn.
pub open spec fn esc(s: Seq<char>) -> Seq<char>
    decreases s.len(),
{
    if s.len() == 0 {
        Seq::empty()
    } else {
        esc_char(s[0]) + esc(s.skip(1))
    }
}

/// Escaping distributes over appending one character.
pub proof fn lemma_esc_snoc(s: Seq<char>, c: char)
    ensures
        esc(s.push(c)) == esc(s) + esc_char(c),
    decreases s.len(),
{
    if s.len() == 0 {
        assert(s.push(c)[0] == c);
        assert(s.push(c).skip(1) =~= Seq::<char>::empty());
        assert(esc(s.push(c)) == esc_char(c) + esc(Seq::<char>::empty()));
        assert(esc(s.push(c)) =~= esc_char(c));
        assert(esc(s) + esc_char(c) =~= esc_char(c));
    } else {
        assert(s.push(c)[0] == s[0]);
        assert(s.push(c).skip(1) =~= s.skip(1).push(c));
        lemma_esc_snoc(s.skip(1), c);
        assert(esc(s.push(c)) =~= esc(s) + esc_char(c));
    }
}

/// A quoted string: the escaped body between two quotes.
pub open spec fn quoted(s: Seq<char>) -> Seq<char> {
    seq!['"'] + esc(s) + seq!['"']
}

/// List items joined by commas.
pub open spec fn join_comma(items: Seq<Seq<char>>) -> Seq<char>
    decreases items.len(),
{
    if items.len() == 0 {
        Seq::empty()
    } else if items.len() == 1 {
        items[0]
    } else {
        items[0] + seq![','] + join_comma(items.skip(1))
    }
}

/// Joining distributes over appending one item.
pub proof fn lemma_join_snoc(items: Seq<Seq<char>>, x: Seq<char>)
    ensures
        join_comma(items.push(x)) == if items.len() == 0 {
            x
        } else {
            join_comma(items) + seq![','] + x
        },
    decreases items.len(),
{
    if items.len() == 0 {
        assert(items.push(x)[0] == x);
        assert(join_comma(items.push(x)) =~= x);
    } else if items.len() == 1 {
        assert(items.push(x)[0] == items[0]);
        assert(items.push(x).skip(1) =~= seq![x]);
        assert(join_comma(seq![x]) == x);
        assert(join_comma(items.push(x)) =~= items[0] + seq![','] + x);
        assert(join_comma(items) + seq![','] + x =~= items[0] + seq![','] + x);
    } else {
        assert(items.push(x)[0] == items[0]);
        assert(items.push(x).skip(1) =~= items.skip(1).push(x));
        lemma_join_snoc(items.skip(1), x);
        assert(join_comma(items.push(x)) =~= join_comma(items) + seq![','] + x);
    }
}

/// A bracketed, comma-separated list.
pub open spec fn bracketed(items: Seq<Seq<char>>) -> Seq<char> {
    seq!['['] + join_comma(items) + seq![']']
}

/// The two boolean words.
pub open spec fn json_bool(b: bool) -> Seq<char> {
    if b {
        seq!['t', 'r', 'u', 'e']
    } else {
        seq!['f', 'a', 'l', 's', 'e']
    }
}

/// The word for an absent value.
pub open spec fn json_null() -> Seq<char> {
    seq!['n', 'u', 'l', 'l']
}

fn emit_bool(out: &mut String, b: bool)
    ensures
        final(out)@ == old(out)@ + json_bool(b),
{
    if b {
        out.append("true");
        proof {
            reveal_strlit("true");
            assert(old(out)@ + "true"@ =~= old(out)@ + json_bool(b));
        }
    } else {
        out.append("false");
        proof {
            reveal_strlit("false");
            assert(old(out)@ + "false"@ =~= old(out)@ + json_bool(b));
        }
    }
}

fn emit_null(out: &mut String)
    ensures
        final(out)@ == old(out)@ + json_null(),
{
    out.append("null");
    proof {
        reveal_strlit("null");
        assert(old(out)@ + "null"@ =~= old(out)@ + json_null());
    }
}

fn emit_esc_char(out: &mut String, c: char)
    ensures
        final(out)@ == old(out)@ + esc_char(c),
{
    if c == '"' {
        push_char(out, '\\');
        push_char(out, '"');
        proof {
            assert(out@ =~= old(out)@ + esc_char(c));
        }
    } else if c == '\\' {
        push_char(out, '\\');
        push_char(out, '\\');
        proof {
            assert(out@ =~= old(out)@ + esc_char(c));
        }
    } else if c == '\n' {
        push_char(out, '\\');
        push_char(out, 'n');
        proof {
            assert(out@ =~= old(out)@ + esc_char(c));
        }
    } else if c == '\r' {
        push_char(out, '\\');
        push_char(out, 'r');
        proof {
            assert(out@ =~= old(out)@ + esc_char(c));
        }
    } else if c == '\t' {
        push_char(out, '\\');
        push_char(out, 't');
        proof {
            assert(out@ =~= old(out)@ + esc_char(c));
        }
    } else if (c as u32) < 0x20 {
        let (h, l) = hex2_chars(c as u32);
        push_char(out, '\\');
        push_char(out, 'u');
        push_char(out, '0');
        push_char(out, '0');
        push_char(out, h);
        push_char(out, l);
        proof {
            assert(out@ =~= old(out)@ + esc_char(c));
        }
    } else {
        push_char(out, c);
        proof {
            assert(out@ =~= old(out)@ + esc_char(c));
        }
    }
}

fn emit_quoted(out: &mut String, s: &str)
    ensures
        final(out)@ == old(out)@ + quoted(s@),
{
    push_char(out, '"');
    let n = s.unicode_len();
    let mut i: usize = 0;
    while i < n
        invariant
            i <= n,
            n == s@.len(),
            out@ == old(out)@ + seq!['"'] + esc(s@.take(i as int)),
        decreases n - i,
    {
        let c = s.get_char(i);
        emit_esc_char(out, c);
        proof {
            lemma_esc_snoc(s@.take(i as int), c);
            assert(s@.take(i + 1) =~= s@.take(i as int).push(c));
            assert(out@ =~= old(out)@ + seq!['"'] + esc(s@.take(i + 1)));
        }
        i = i + 1;
    }
    push_char(out, '"');
    proof {
        assert(s@.take(n as int) =~= s@);
        assert(out@ =~= old(out)@ + quoted(s@));
    }
}

/// The encoded items of an index list.
pub open spec fn usize_items(xs: Seq<usize>) -> Seq<Seq<char>> {
    xs.map_values(|x: usize| spec_dec(x as nat))
}

/// An index list: decimal numbers, bracketed.
pub open spec fn encoded_usize_array(xs: Seq<usize>) -> Seq<char> {
    bracketed(usize_items(xs))
}

fn emit_usize_array(out: &mut String, xs: &Vec<usize>)
    ensures
        final(out)@ == old(out)@ + encoded_usize_array(xs@),
{
    push_char(out, '[');
    let mut i: usize = 0;
    while i < xs.len()
        invariant
            i <= xs@.len(),
            out@ == old(out)@ + seq!['['] + join_comma(usize_items(xs@.take(i as int))),
        decreases xs@.len() - i,
    {
        if i > 0 {
            push_char(out, ',');
        }
        let s = dec_string(xs[i] as u64);
        out.append(s.as_str());
        proof {
            lemma_join_snoc(usize_items(xs@.take(i as int)), spec_dec(xs@[i as int] as nat));
            assert(usize_items(xs@.take(i + 1)) =~= usize_items(xs@.take(i as int)).push(
                spec_dec(xs@[i as int] as nat),
            ));
            assert(out@ =~= old(out)@ + seq!['['] + join_comma(usize_items(xs@.take(i + 1))));
        }
        i = i + 1;
    }
    push_char(out, ']');
    proof {
        assert(xs@.take(xs@.len() as int) =~= xs@);
        assert(out@ =~= old(out)@ + encoded_usize_array(xs@));
    }
}

/// The encoded items of a string list.
pub open spec fn str_items(xs: Seq<Seq<char>>) -> Seq<Seq<char>> {
    xs.map_values(|x: Seq<char>| quoted(x))
}

/// A string list: quoted strings, bracketed.
pub open spec fn encoded_str_array(xs: Seq<Seq<char>>) -> Seq<char> {
    bracketed(str_items(xs))
}

fn emit_str_array(out: &mut String, xs: &Vec<String>)
    ensures
        final(out)@ == old(out)@ + encoded_str_array(xs@.map_values(|s: String| s@)),
{
    let ghost views = xs@.map_values(|s: String| s@);
    push_char(out, '[');
    let mut i: usize = 0;
    while i < xs.len()
        invariant
            i <= xs@.len(),
            views == xs@.map_values(|s: String| s@),
            out@ == old(out)@ + seq!['['] + join_comma(str_items(views.take(i as int))),
        decreases xs@.len() - i,
    {
        if i > 0 {
            push_char(out, ',');
        }
        emit_quoted(out, xs[i].as_str());
        proof {
            lemma_join_snoc(str_items(views.take(i as int)), quoted(views[i as int]));
            assert(str_items(views.take(i + 1)) =~= str_items(views.take(i as int)).push(
                quoted(views[i as int]),
            ));
            assert(out@ =~= old(out)@ + seq!['['] + join_comma(str_items(views.take(i + 1))));
        }
        i = i + 1;
    }
    push_char(out, ']');
    proof {
        assert(views.take(views.len() as int) =~= views);
        assert(out@ =~= old(out)@ + encoded_str_array(views));
    }
}

/// An optional string: `null` when absent.
pub open spec fn encoded_opt_str(o: Option<Seq<char>>) -> Seq<char> {
    match o {
        Some(s) => quoted(s),
        None => json_null(),
    }
}

fn emit_opt_str(out: &mut String, o: &Option<String>)
    ensures
        final(out)@ == old(out)@ + encoded_opt_str(
            match o {
                Some(s) => Some(s@),
                None => None,
            },
        ),
{
    match o {
        Some(s) => emit_quoted(out, s.as_str()),
        None => emit_null(out),
    }
}

/// An optional number: `null` when absent.
pub open spec fn encoded_opt_u64(o: Option<u64>) -> Seq<char> {
    match o {
        Some(v) => spec_dec(v as nat),
        None => json_null(),
    }
}

fn emit_opt_u64(out: &mut String, o: &Option<u64>)
    ensures
        final(out)@ == old(out)@ + encoded_opt_u64(*o),
{
    match o {
        Some(v) => {
            let s = dec_string(*v);
            out.append(s.as_str());
        },
        None => emit_null(out),
    }
}

/// An encoded environment context.
pub open spec fn encoded_env(e: EnvContextV) -> Seq<char> {
    "{\"cwd\":"@ + encoded_opt_str(e.cwd) + ",\"projectName\":"@ + encoded_opt_str(e.project_name)
        + ",\"terminal\":"@ + encoded_opt_str(e.terminal) + ",\"pid\":"@ + encoded_opt_u64(e.pid)
        + seq!['}']
}

fn emit_env(out: &mut String, e: &EnvContext)
    ensures
        final(out)@ == old(out)@ + encoded_env(e@),
{
    out.append("{\"cwd\":");
    emit_opt_str(out, &e.cwd);
    out.append(",\"projectName\":");
    emit_opt_str(out, &e.project_name);
    out.append(",\"terminal\":");
    emit_opt_str(out, &e.terminal);
    out.append(",\"pid\":");
    emit_opt_u64(out, &e.pid);
    push_char(out, '}');
    proof {
        assert(out@ =~= old(out)@ + encoded_env(e@));
    }
}

/// An optional context: `null` when absent.
pub open spec fn encoded_opt_env(o: Option<EnvContextV>) -> Seq<char> {
    match o {
        Some(e) => encoded_env(e),
        None => json_null(),
    }
}

/// An encoded section.
pub open spec fn encoded_section(s: SectionV) -> Seq<char> {
    "{\"title\":"@ + quoted(s.title) + ",\"content\":"@ + quoted(s.content) + ",\"selected\":"@
        + json_bool(s.selected) + seq!['}']
}

fn emit_section(out: &mut String, s: &Section)
    ensures
        final(out)@ == old(out)@ + encoded_section(s@),
{
    out.append("{\"title\":");
    emit_quoted(out, s.title.as_str());
    out.append(",\"content\":");
    emit_quoted(out, s.content.as_str());
    out.append(",\"selected\":");
    emit_bool(out, s.selected);
    push_char(out, '}');
    proof {
        assert(out@ =~= old(out)@ + encoded_section(s@));
    }
}

/// The encoded items of a section list.
pub open spec fn section_items(ss: Seq<SectionV>) -> Seq<Seq<char>> {
    ss.map_values(|s: SectionV| encoded_section(s))
}

/// A section list: encoded sections, bracketed.
pub open spec fn encoded_section_array(ss: Seq<SectionV>) -> Seq<char> {
    bracketed(section_items(ss))
}

fn emit_section_array(out: &mut String, ss: &Vec<Section>)
    ensures
        final(out)@ == old(out)@ + encoded_section_array(ss@.map_values(|s: Section| s@)),
{
    let ghost views = ss@.map_values(|s: Section| s@);
    push_char(out, '[');
    let mut i: usize = 0;
    while i < ss.len()
        invariant
            i <= ss@.len(),
            views == ss@.map_values(|s: Section| s@),
            out@ == old(out)@ + seq!['['] + join_comma(section_items(views.take(i as int))),
        decreases ss@.len() - i,
    {
        if i > 0 {
            push_char(out, ',');
        }
        emit_section(out, &ss[i]);
        proof {
            lemma_join_snoc(section_items(views.take(i as int)), encoded_section(views[i as int]));
            assert(section_items(views.take(i + 1)) =~= section_items(views.take(i as int)).push(
                encoded_section(views[i as int]),
            ));
            assert(out@ =~= old(out)@ + seq!['['] + join_comma(
                section_items(views.take(i + 1)),
            ));
        }
        i = i + 1;
    }
    push_char(out, ']');
    proof {
        assert(views.take(views.len() as int) =~= views);
        assert(out@ =~= old(out)@ + encoded_section_array(views));
    }
}

/// The document a canonical request is persisted as.
pub open spec fn spec_encode_popup(r: PopupRequestV) -> Seq<char> {
    "{\"id\":"@ + quoted(r.id) + ",\"message\":"@ + quoted(r.message) + ",\"sections\":"@
        + encoded_section_array(r.sections) + ",\"isMarkdown\":"@ + json_bool(r.is_markdown)
        + ",\"envContext\":"@ + encoded_opt_env(r.env_context) + seq!['}']
}

/// Writes the canonical request as the structured document the
/// presentation process reads. A pure function of the request's value.
pub fn encode_popup_request(r: &PopupRequest) -> (out: String)
    ensures
        out@ == spec_encode_popup(r@),
{
    let mut out = String::new();
    out.append("{\"id\":");
    emit_quoted(&mut out, r.id.as_str());
    out.append(",\"message\":");
    emit_quoted(&mut out, r.message.as_str());
    out.append(",\"sections\":");
    emit_section_array(&mut out, &r.sections);
    out.append(",\"isMarkdown\":");
    emit_bool(&mut out, r.is_markdown);
    out.append(",\"envContext\":");
    match &r.env_context {
        Some(e) => emit_env(&mut out, e),
        None => emit_null(&mut out),
    }
    push_char(&mut out, '}');
    proof {
        assert(out@ =~= spec_encode_popup(r@));
    }
    out
}

/// The document a canonical answer is written as.
pub open spec fn spec_encode_user_response(u: UserResponseV) -> Seq<char> {
    "{\"confirmed\":"@ + json_bool(u.confirmed) + ",\"selectedSections\":"@ + encoded_usize_array(
        u.selected_sections,
    ) + ",\"userInput\":"@ + quoted(u.user_input) + ",\"images\":"@ + encoded_str_array(u.images)
        + seq!['}']
}

/// Writes a canonical answer as the structured document the
/// presentation process emits. A pure function of the answer's value.
pub fn encode_user_response(u: &UserResponse) -> (out: String)
    ensures
        out@ == spec_encode_user_response(u@),
{
    let mut out = String::new();
    out.append("{\"confirmed\":");
    emit_bool(&mut out, u.confirmed);
    out.append(",\"selectedSections\":");
    emit_usize_array(&mut out, &u.selected_sections);
    out.append(",\"userInput\":");
    emit_quoted(&mut out, u.user_input.as_str());
    out.append(",\"images\":");
    emit_str_array(&mut out, &u.images);
    push_char(&mut out, '}');
    proof {
        assert(out@ =~= spec_encode_user_response(u@));
    }
    out
}

} // verus!
