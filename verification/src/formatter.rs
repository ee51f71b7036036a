//! The response formatter: turns a canonical answer plus the original
//! section list into the caller-visible text, expanding selected
//! indices into actionable task blocks.

use vstd::prelude::*;
use crate::types::{PopupRequest, PopupRequestV, Section, SectionV, UserResponse, UserResponseV};
use crate::text::{push_char, spec_dec, dec_string};

verus! {

/// List items joined by a separator.
pub open spec fn join_with(items: Seq<Seq<char>>, sep: Seq<char>) -> Seq<char>
    decreases items.len(),
{
    if items.len() == 0 {
        Seq::empty()
    } else if items.len() == 1 {
        items[0]
    } else {
        items[0] + sep + join_with(items.skip(1), sep)
    }
}

proof fn lemma_join_with_snoc(items: Seq<Seq<char>>, sep: Seq<char>, x: Seq<char>)
    ensures
        join_with(items.push(x), sep) == if items.len() == 0 {
            x
        } else {
            join_with(items, sep) + sep + x
        },
    decreases items.len(),
{
    if items.len() == 0 {
        assert(items.push(x)[0] == x);
        assert(join_with(items.push(x), sep) =~= x);
    } else if items.len() == 1 {
        assert(items.push(x)[0] == items[0]);
        assert(items.push(x).skip(1) =~= seq![x]);
        assert(join_with(seq![x], sep) == x);
        assert(join_with(items.push(x), sep) =~= items[0] + sep + x);
        assert(join_with(items, sep) + sep + x =~= items[0] + sep + x);
    } else {
        assert(items.push(x)[0] == items[0]);
        assert(items.push(x).skip(1) =~= items.skip(1).push(x));
        lemma_join_with_snoc(items.skip(1), sep, x);
        assert(join_with(items.push(x), sep) =~= join_with(items, sep) + sep + x);
    }
}

/// All items, one after the other.
pub open spec fn concat_strs(items: Seq<Seq<char>>) -> Seq<char>
    decreases items.len(),
{
    if items.len() == 0 {
        Seq::empty()
    } else {
        items[0] + concat_strs(items.skip(1))
    }
}

/// The sole output of a declined confirmation.
pub open spec fn cancel_marker() -> Seq<char> {
    "用戶取消操作\n"@
}

/// The output of a confirmation that selected nothing.
pub open spec fn confirm_marker() -> Seq<char> {
    "用戶確認操作\n"@
}

/// The directive heading a confirmation with selections: it tells the
/// reading agent to execute the listed tasks at once rather than
/// prompting the human again.
pub open spec fn directive_marker() -> Seq<char> {
    "⚠️ 用戶已確認並選擇了以下任務，請立即執行（不要再詢問確認）：\n"@
}

/// The rendering of one selected index.
pub open spec fn index_items(xs: Seq<usize>) -> Seq<Seq<char>> {
    xs.map_values(|x: usize| spec_dec(x as nat))
}

/// The raw index list, as the caller sees it.
pub open spec fn index_list(xs: Seq<usize>) -> Seq<char> {
    seq!['['] + join_with(index_items(xs), ", "@) + seq![']']
}

/// One actionable task block: the position among the selections, the
/// selected index, and the section it names.
pub open spec fn task_block(pos: int, idx: usize, sec: SectionV) -> Seq<char> {
    "\n✅ 任務 "@ + spec_dec((pos + 1) as nat) + " (索引 "@ + spec_dec(idx as nat) + ")："@
        + sec.title + "\n   詳細說明："@ + sec.content + "\n   ⚡ 行動：立即開始實作此任務\n"@
}

/// The task blocks for the selections from position `k` on: one for
/// each selected index that lies in range of the section list, in
/// selection order; out-of-range indices are skipped silently.
pub open spec fn task_blocks(sections: Seq<SectionV>, selected: Seq<usize>, k: int) -> Seq<
    Seq<char>,
>
    decreases selected.len() - k,
{
    if !(0 <= k < selected.len()) {
        Seq::empty()
    } else {
        let rest = task_blocks(sections, selected, k + 1);
        if (selected[k] as int) < sections.len() {
            seq![task_block(k, selected[k], sections[selected[k] as int])] + rest
        } else {
            rest
        }
    }
}

/// How many of the selections from position `k` on lie in range of a
/// section list of length `n`.
pub open spec fn in_range_count(selected: Seq<usize>, n: int, k: int) -> int
    decreases selected.len() - k,
{
    if !(0 <= k < selected.len()) {
        0
    } else {
        (if (selected[k] as int) < n {
            1int
        } else {
            0int
        }) + in_range_count(selected, n, k + 1)
    }
}

/// Out-of-range indices never raise an error and never alter the count
/// of emitted task blocks: exactly the in-range selections produce one
/// block each.
pub proof fn lemma_task_block_count(sections: Seq<SectionV>, selected: Seq<usize>, k: int)
    ensures
        task_blocks(sections, selected, k).len() == in_range_count(
            selected,
            sections.len() as int,
            k,
        ),
    decreases selected.len() - k,
{
    if 0 <= k < selected.len() {
        lemma_task_block_count(sections, selected, k + 1);
    }
}

/// The caller-visible text for one answer, given the request it
/// answers. A pure function of the two values.
pub open spec fn spec_format(req: PopupRequestV, resp: UserResponseV) -> Seq<char> {
    (if !resp.confirmed {
        cancel_marker()
    } else if resp.selected_sections.len() > 0 {
        directive_marker() + "\n選中的段落索引: "@ + index_list(resp.selected_sections)
            + "\n\n📋 需要立即執行的任務：\n"@ + concat_strs(
            task_blocks(req.sections, resp.selected_sections, 0),
        )
    } else {
        confirm_marker()
    }) + (if resp.user_input.len() > 0 {
        "\n\n💬 用戶額外要求：\n"@ + resp.user_input
    } else {
        Seq::empty()
    }) + (if resp.images.len() > 0 {
        "\n\n附加圖片: "@ + spec_dec(resp.images.len()) + " 張"@
    } else {
        Seq::empty()
    })
}

/// A declined confirmation that carries no input and no images formats
/// to the cancellation marker alone, whatever the request holds —
/// selections are ignored on the cancelled path.
pub proof fn lemma_cancelled_formats_to_marker(req: PopupRequestV, resp: UserResponseV)
    requires
        !resp.confirmed,
        resp.user_input.len() == 0,
        resp.images.len() == 0,
    ensures
        spec_format(req, resp) == cancel_marker(),
{
    assert(spec_format(req, resp) =~= cancel_marker());
}

fn emit_index_list(out: &mut String, xs: &Vec<usize>)
    ensures
        final(out)@ == old(out)@ + index_list(xs@),
{
    push_char(out, '[');
    let mut i: usize = 0;
    while i < xs.len()
        invariant
            i <= xs@.len(),
            out@ == old(out)@ + seq!['['] + join_with(index_items(xs@.take(i as int)), ", "@),
        decreases xs@.len() - i,
    {
        if i > 0 {
            out.append(", ");
        }
        let s = dec_string(xs[i] as u64);
        out.append(s.as_str());
        proof {
            lemma_join_with_snoc(
                index_items(xs@.take(i as int)),
                ", "@,
                spec_dec(xs@[i as int] as nat),
            );
            assert(index_items(xs@.take(i + 1)) =~= index_items(xs@.take(i as int)).push(
                spec_dec(xs@[i as int] as nat),
            ));
            assert(out@ =~= old(out)@ + seq!['['] + join_with(
                index_items(xs@.take(i + 1)),
                ", "@,
            ));
        }
        i = i + 1;
    }
    push_char(out, ']');
    proof {
        assert(xs@.take(xs@.len() as int) =~= xs@);
        assert(out@ =~= old(out)@ + index_list(xs@));
    }
}

fn emit_task_blocks(out: &mut String, sections: &Vec<Section>, selected: &Vec<usize>)
    ensures
        final(out)@ == old(out)@ + concat_strs(
            task_blocks(sections@.map_values(|s: Section| s@), selected@, 0),
        ),
{
    let ghost secs = sections@.map_values(|s: Section| s@);
    let mut k: usize = 0;
    while k < selected.len()
        invariant
            k <= selected@.len(),
            secs == sections@.map_values(|s: Section| s@),
            old(out)@ + concat_strs(task_blocks(secs, selected@, 0)) == out@ + concat_strs(
                task_blocks(secs, selected@, k as int),
            ),
        decreases selected@.len() - k,
    {
        let ghost out_before = out@;
        let idx = selected[k];
        if idx < sections.len() {
            let sec = &sections[idx];
            out.append("\n✅ 任務 ");
            let s1 = dec_string((k as u64) + 1);
            out.append(s1.as_str());
            out.append(" (索引 ");
            let s2 = dec_string(idx as u64);
            out.append(s2.as_str());
            out.append(")：");
            out.append(sec.title.as_str());
            out.append("\n   詳細說明：");
            out.append(sec.content.as_str());
            out.append("\n   ⚡ 行動：立即開始實作此任務\n");
            proof {
                assert(sec@ == secs[idx as int]);
                assert(out@ =~= out_before + task_block(k as int, idx, secs[idx as int]));
                let blocks_k = task_blocks(secs, selected@, k as int);
                let blocks_k1 = task_blocks(secs, selected@, k + 1);
                assert(blocks_k == seq![task_block(k as int, idx, secs[idx as int])] + blocks_k1);
                assert(blocks_k.skip(1) =~= blocks_k1);
                assert(blocks_k[0] == task_block(k as int, idx, secs[idx as int]));
                assert(concat_strs(blocks_k) == task_block(k as int, idx, secs[idx as int])
                    + concat_strs(blocks_k1));
                assert(out_before + concat_strs(blocks_k) =~= out@ + concat_strs(blocks_k1));
            }
        } else {
            proof {
                assert(task_blocks(secs, selected@, k as int) == task_blocks(
                    secs,
                    selected@,
                    k + 1,
                ));
            }
        }
        k = k + 1;
    }
    proof {
        assert(concat_strs(task_blocks(secs, selected@, selected@.len() as int))
            =~= Seq::<char>::empty());
        assert(out@ + Seq::<char>::empty() =~= out@);
        assert(old(out)@ + concat_strs(task_blocks(secs, selected@, 0)) =~= out@);
    }
}

/// Formats one answer against the request it answers. Deterministic
/// and pure: the result is a function of the two values alone, pinned
/// to [`spec_format`].
pub fn format_response(req: &PopupRequest, resp: &UserResponse) -> (out: String)
    ensures
        out@ == spec_format(req@, resp@),
{
    let mut out = String::new();
    if !resp.confirmed {
        out.append("用戶取消操作\n");
    } else if resp.selected_sections.len() > 0 {
        out.append("⚠️ 用戶已確認並選擇了以下任務，請立即執行（不要再詢問確認）：\n");
        out.append("\n選中的段落索引: ");
        emit_index_list(&mut out, &resp.selected_sections);
        out.append("\n\n📋 需要立即執行的任務：\n");
        emit_task_blocks(&mut out, &req.sections, &resp.selected_sections);
    } else {
        out.append("用戶確認操作\n");
    }
    let ghost head = out@;
    if !resp.user_input.as_str().is_empty() {
        out.append("\n\n💬 用戶額外要求：\n");
        out.append(resp.user_input.as_str());
    }
    let ghost mid = out@;
    if resp.images.len() > 0 {
        out.append("\n\n附加圖片: ");
        let s = dec_string(resp.images.len() as u64);
        out.append(s.as_str());
        out.append(" 張");
    }
    proof {
        assert(resp@.images.len() == resp.images@.len());
        assert(out@ =~= spec_format(req@, resp@));
    }
    out
}

} // verus!
