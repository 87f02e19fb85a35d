//! Seeding a session from a rollout journal: isolating the most recent
//! compaction-bounded segment and sanitizing it into a replay-safe
//! transcript.

use vstd::prelude::*;

use crate::items::HistoryItem;
use crate::items::HistoryItemView;
use crate::items::RolloutItem;
use crate::items::RolloutItemView;
use crate::items::RolloutLine;
use crate::items::RolloutLineView;
use crate::items::EventMsg;
use crate::items::EventMsgView;
use crate::items::ToolCallOutput;
use crate::items::ToolCallOutputView;
use crate::items::copy_bytes;

verus! {

/// The newline byte that separates lines of a textual payload.
pub const LINE_FEED: u8 = 10;

/// ASCII whitespace, as trimmed from the end of a retained line.
pub open spec fn is_ascii_whitespace_byte(b: u8) -> bool {
    b == 32 || b == 9 || b == 10 || b == 11 || b == 12 || b == 13
}

/// Index of the first line-feed byte, or the length when there is none.
pub open spec fn first_newline(s: Seq<u8>) -> nat
    decreases s.len(),
{
    if s.len() == 0 {
        0
    } else if s[0] == LINE_FEED {
        0
    } else {
        (1 + first_newline(s.drop_first())) as nat
    }
}

/// Split into lines at line-feed bytes; a trailing line feed does not open
/// a final empty line.
pub open spec fn split_lines_spec(s: Seq<u8>) -> Seq<Seq<u8>>
    decreases s.len(),
{
    if s.len() == 0 {
        Seq::empty()
    } else {
        let i = first_newline(s) as int;
        if i < s.len() {
            seq![s.take(i)] + split_lines_spec(s.skip(i + 1))
        } else {
            seq![s]
        }
    }
}

/// Drop trailing ASCII whitespace.
pub open spec fn trim_end_spec(line: Seq<u8>) -> Seq<u8>
    decreases line.len(),
{
    if line.len() > 0 && is_ascii_whitespace_byte(line.last()) {
        trim_end_spec(line.drop_last())
    } else {
        line
    }
}

/// `line` begins with `prefix`.
pub open spec fn starts_with_spec(line: Seq<u8>, prefix: Seq<u8>) -> bool {
    prefix.len() <= line.len() && line.subrange(0, prefix.len() as int) == prefix
}

/// The ephemeral-telemetry prefix announcing an execution identifier.
pub open spec fn prefix_chunk_id() -> Seq<u8> {
    seq![67u8, 104u8, 117u8, 110u8, 107u8, 32u8, 73u8, 68u8, 58u8]
}

/// The ephemeral-telemetry prefix announcing an elapsed-time report.
pub open spec fn prefix_wall_time() -> Seq<u8> {
    seq![87u8, 97u8, 108u8, 108u8, 32u8, 116u8, 105u8, 109u8, 101u8, 58u8]
}

/// The ephemeral-telemetry prefix announcing a token-count counter.
pub open spec fn prefix_token_count() -> Seq<u8> {
    seq![
        79u8, 114u8, 105u8, 103u8, 105u8, 110u8, 97u8, 108u8, 32u8, 116u8, 111u8, 107u8, 101u8,
        110u8, 32u8, 99u8, 111u8, 117u8, 110u8, 116u8, 58u8,
    ]
}

/// The ephemeral-telemetry prefix announcing an output-line counter.
pub open spec fn prefix_output_lines() -> Seq<u8> {
    seq![
        84u8, 111u8, 116u8, 97u8, 108u8, 32u8, 111u8, 117u8, 116u8, 112u8, 117u8, 116u8, 32u8,
        108u8, 105u8, 110u8, 101u8, 115u8, 58u8,
    ]
}

/// A trimmed line that carries only ephemeral telemetry and is dropped.
pub open spec fn is_telemetry_line(line: Seq<u8>) -> bool {
    ||| starts_with_spec(line, prefix_chunk_id())
    ||| starts_with_spec(line, prefix_wall_time())
    ||| starts_with_spec(line, prefix_token_count())
    ||| starts_with_spec(line, prefix_output_lines())
}

/// Trim each raw line and keep those that are not telemetry, in order.
pub open spec fn kept_lines(raw: Seq<Seq<u8>>) -> Seq<Seq<u8>>
    decreases raw.len(),
{
    if raw.len() == 0 {
        Seq::empty()
    } else {
        let prefix = kept_lines(raw.drop_last());
        let t = trim_end_spec(raw.last());
        if is_telemetry_line(t) {
            prefix
        } else {
            prefix.push(t)
        }
    }
}

/// Join lines with single line-feed separators.
pub open spec fn join_lines(ls: Seq<Seq<u8>>) -> Seq<u8>
    decreases ls.len(),
{
    if ls.len() == 0 {
        Seq::empty()
    } else if ls.len() == 1 {
        ls[0]
    } else {
        ls[0] + seq![LINE_FEED] + join_lines(ls.drop_first())
    }
}

/// What stripping telemetry from a tool output's text yields: split into
/// lines, trim each line's end, drop telemetry lines, join the rest.
pub open spec fn spec_strip_telemetry(s: Seq<u8>) -> Seq<u8> {
    join_lines(kept_lines(split_lines_spec(s)))
}

pub proof fn lemma_first_newline_at(s: Seq<u8>, k: int)
    requires
        0 <= k <= s.len(),
        forall|j: int| 0 <= j < k ==> s[j] != LINE_FEED,
        k == s.len() || s[k] == LINE_FEED,
    ensures
        first_newline(s) == k,
    decreases k,
{
    if k == 0 {
    } else {
        assert(s[0] != LINE_FEED);
        assert(forall|j: int| 0 <= j < k - 1 ==> s.drop_first()[j] != LINE_FEED);
        assert(k - 1 == s.drop_first().len() || s.drop_first()[k - 1] == LINE_FEED);
        lemma_first_newline_at(s.drop_first(), k - 1);
    }
}

/// Exec test for ASCII whitespace.
pub(crate) fn is_ws_byte(b: u8) -> (r: bool)
    ensures
        r == is_ascii_whitespace_byte(b),
{
    b == 32 || b == 9 || b == 10 || b == 11 || b == 12 || b == 13
}

/// Copy of the byte range `[from, to)`.
fn copy_range(s: &Vec<u8>, from: usize, to: usize) -> (r: Vec<u8>)
    requires
        from <= to <= s@.len(),
    ensures
        r@ == s@.subrange(from as int, to as int),
{
    let mut r: Vec<u8> = Vec::new();
    let mut i: usize = from;
    while i < to
        invariant
            from <= i <= to <= s@.len(),
            r@ == s@.subrange(from as int, i as int),
        decreases to - i,
    {
        r.push(s[i]);
        proof {
            assert(r@ =~= s@.subrange(from as int, i + 1 as int));
        }
        i = i + 1;
    }
    r
}

/// Drop trailing ASCII whitespace of one line.
fn trim_end_bytes(line: &Vec<u8>) -> (r: Vec<u8>)
    ensures
        r@ == trim_end_spec(line@),
{
    let mut end: usize = line.len();
    proof {
        assert(line@.take(line@.len() as int) =~= line@);
    }
    while end > 0 && is_ws_byte(line[end - 1])
        invariant
            end <= line@.len(),
            trim_end_spec(line@) == trim_end_spec(line@.take(end as int)),
        decreases end,
    {
        proof {
            assert(line@.take(end as int).drop_last() =~= line@.take(end as int - 1));
        }
        end = end - 1;
    }
    proof {
        assert(line@.take(line@.len() as int) =~= line@);
        if end > 0 {
            assert(!is_ascii_whitespace_byte(line@.take(end as int).last()));
        }
        assert(trim_end_spec(line@.take(end as int)) == line@.take(end as int));
    }
    copy_range(line, 0, end)
}

/// `line` begins with `prefix`.
fn starts_with_bytes(line: &Vec<u8>, prefix: &Vec<u8>) -> (r: bool)
    ensures
        r == starts_with_spec(line@, prefix@),
{
    if prefix.len() > line.len() {
        return false;
    }
    let mut i: usize = 0;
    while i < prefix.len()
        invariant
            i <= prefix@.len() <= line@.len(),
            forall|j: int| 0 <= j < i ==> line@[j] == prefix@[j],
        decreases prefix.len() - i,
    {
        if line[i] != prefix[i] {
            proof {
                assert(line@.subrange(0, prefix@.len() as int)[i as int] == line@[i as int]);
            }
            return false;
        }
        i = i + 1;
    }
    proof {
        assert(line@.subrange(0, prefix@.len() as int) =~= prefix@);
    }
    true
}

/// A trimmed line that carries only ephemeral telemetry.
fn is_telemetry_bytes(line: &Vec<u8>) -> (r: bool)
    ensures
        r == is_telemetry_line(line@),
{
    let chunk_id: Vec<u8> = vec![67u8, 104u8, 117u8, 110u8, 107u8, 32u8, 73u8, 68u8, 58u8];
    let wall_time: Vec<u8> = vec![87u8, 97u8, 108u8, 108u8, 32u8, 116u8, 105u8, 109u8, 101u8, 58u8];
    let token_count: Vec<u8> = vec![
        79u8, 114u8, 105u8, 103u8, 105u8, 110u8, 97u8, 108u8, 32u8, 116u8, 111u8, 107u8, 101u8,
        110u8, 32u8, 99u8, 111u8, 117u8, 110u8, 116u8, 58u8,
    ];
    let output_lines: Vec<u8> = vec![
        84u8, 111u8, 116u8, 97u8, 108u8, 32u8, 111u8, 117u8, 116u8, 112u8, 117u8, 116u8, 32u8,
        108u8, 105u8, 110u8, 101u8, 115u8, 58u8,
    ];
    proof {
        assert(chunk_id@ =~= prefix_chunk_id());
        assert(wall_time@ =~= prefix_wall_time());
        assert(token_count@ =~= prefix_token_count());
        assert(output_lines@ =~= prefix_output_lines());
    }
    starts_with_bytes(line, &chunk_id) || starts_with_bytes(line, &wall_time)
        || starts_with_bytes(line, &token_count) || starts_with_bytes(line, &output_lines)
}

/// Split a payload into its lines.
pub fn split_content_lines(s: &Vec<u8>) -> (r: Vec<Vec<u8>>)
    ensures
        r.deep_view() == split_lines_spec(s@),
{
    let mut r: Vec<Vec<u8>> = Vec::new();
    let mut start: usize = 0;
    let mut i: usize = 0;
    proof {
        assert(s@.skip(0) =~= s@);
        assert(r.deep_view() + split_lines_spec(s@) =~~= split_lines_spec(s@));
    }
    while i < s.len()
        invariant
            start <= i <= s@.len(),
            forall|j: int| start <= j < i ==> s@[j] != LINE_FEED,
            split_lines_spec(s@) == r.deep_view() + split_lines_spec(s@.skip(start as int)),
        decreases s.len() - i,
    {
        if s[i] == 10 {
            let seg = copy_range(s, start, i);
            let ghost segv = seg@;
            let ghost pre = r.deep_view();
            r.push(seg);
            proof {
                let rest = s@.skip(start as int);
                assert(forall|j: int| 0 <= j < i - start ==> rest[j] != LINE_FEED);
                assert(rest[i - start as int] == LINE_FEED);
                lemma_first_newline_at(rest, i - start as int);
                assert(rest.take(i - start as int) =~= s@.subrange(start as int, i as int));
                assert(rest.skip(i - start as int + 1) =~= s@.skip(i as int + 1));
                assert(split_lines_spec(rest) == seq![rest.take(i - start as int)]
                    + split_lines_spec(rest.skip(i - start as int + 1)));
                assert(r.deep_view() =~~= pre.push(segv));
                assert(split_lines_spec(rest) =~~= seq![segv] + split_lines_spec(
                    s@.skip(i as int + 1),
                ));
                assert(pre + split_lines_spec(rest) =~~= r.deep_view() + split_lines_spec(
                    s@.skip(i as int + 1),
                ));
            }
            start = i + 1;
        }
        i = i + 1;
    }
    if start < s.len() {
        let seg = copy_range(s, start, s.len());
        let ghost segv = seg@;
        let ghost pre = r.deep_view();
        r.push(seg);
        proof {
            let rest = s@.skip(start as int);
            assert(forall|j: int| 0 <= j < rest.len() ==> rest[j] != LINE_FEED);
            lemma_first_newline_at(rest, rest.len() as int);
            assert(segv =~= rest);
            assert(split_lines_spec(rest) == seq![rest]);
            assert(r.deep_view() =~~= pre.push(segv));
            assert(pre + split_lines_spec(rest) =~~= r.deep_view());
        }
    } else {
        proof {
            assert(s@.skip(start as int).len() == 0);
            assert(r.deep_view() + split_lines_spec(s@.skip(start as int)) =~~= r.deep_view());
        }
    }
    r
}

/// Append `src` to `out`.
pub fn push_bytes(out: &mut Vec<u8>, src: &Vec<u8>)
    ensures
        final(out)@ == old(out)@ + src@,
{
    let mut i: usize = 0;
    while i < src.len()
        invariant
            i <= src@.len(),
            out@ == old(out)@ + src@.take(i as int),
        decreases src.len() - i,
    {
        out.push(src[i]);
        proof {
            assert(old(out)@ + src@.take(i as int + 1) =~= (old(out)@ + src@.take(i as int)).push(
                src@[i as int],
            ));
        }
        i = i + 1;
    }
    proof {
        assert(src@.take(src@.len() as int) =~= src@);
    }
}

proof fn lemma_join_snoc(ls: Seq<Seq<u8>>, l: Seq<u8>)
    ensures
        ls.len() == 0 ==> join_lines(ls.push(l)) == l,
        ls.len() > 0 ==> join_lines(ls.push(l)) == join_lines(ls) + seq![LINE_FEED] + l,
    decreases ls.len(),
{
    if ls.len() == 0 {
        assert(ls.push(l)[0] == l);
    } else {
        assert(ls.push(l).drop_first() =~= ls.drop_first().push(l));
        lemma_join_snoc(ls.drop_first(), l);
        if ls.len() == 1 {
            assert(ls.push(l)[0] == ls[0]);
            assert(join_lines(ls.push(l)) == ls[0] + seq![LINE_FEED] + l);
        } else {
            assert(ls.push(l)[0] == ls[0]);
            assert(join_lines(ls.push(l)) == ls[0] + seq![LINE_FEED] + (join_lines(ls.drop_first())
                + seq![LINE_FEED] + l));
            assert(ls[0] + seq![LINE_FEED] + (join_lines(ls.drop_first()) + seq![LINE_FEED] + l)
                =~= (ls[0] + seq![LINE_FEED] + join_lines(ls.drop_first())) + seq![LINE_FEED] + l);
        }
    }
}

/// Rewrite a tool output's text: drop every line whose trimmed form begins
/// with an ephemeral-telemetry prefix, trim the rest, keep their order.
pub fn strip_tool_output_telemetry(output: &Vec<u8>) -> (r: Vec<u8>)
    ensures
        r@ == spec_strip_telemetry(output@),
{
    let raw = split_content_lines(output);
    let ghost rawv = raw.deep_view();
    let mut kept: Vec<Vec<u8>> = Vec::new();
    let mut i: usize = 0;
    proof {
        assert(kept.deep_view() =~~= kept_lines(rawv.take(0)));
    }
    while i < raw.len()
        invariant
            i <= raw@.len(),
            rawv == raw.deep_view(),
            rawv.len() == raw@.len(),
            kept.deep_view() == kept_lines(rawv.take(i as int)),
        decreases raw.len() - i,
    {
        let t = trim_end_bytes(&raw[i]);
        let ghost tv = t@;
        let ghost pre = kept.deep_view();
        let telemetry = is_telemetry_bytes(&t);
        if !telemetry {
            kept.push(t);
        }
        proof {
            assert(rawv[i as int] =~= raw@[i as int]@);
            assert(tv == trim_end_spec(rawv[i as int]));
            assert(rawv.take(i as int + 1).drop_last() =~= rawv.take(i as int));
            assert(rawv.take(i as int + 1).last() == rawv[i as int]);
            if !is_telemetry_line(tv) {
                assert(kept.deep_view() =~~= pre.push(tv));
            }
        }
        i = i + 1;
    }
    proof {
        assert(rawv.take(rawv.len() as int) =~= rawv);
    }
    let ghost keptv = kept.deep_view();
    let mut out: Vec<u8> = Vec::new();
    let mut k: usize = 0;
    proof {
        assert(out@ =~= join_lines(keptv.take(0)));
    }
    while k < kept.len()
        invariant
            k <= kept@.len(),
            keptv == kept.deep_view(),
            keptv.len() == kept@.len(),
            out@ == join_lines(keptv.take(k as int)),
        decreases kept.len() - k,
    {
        if k > 0 {
            out.push(10);
        }
        push_bytes(&mut out, &kept[k]);
        proof {
            assert(keptv[k as int] =~= kept@[k as int]@);
            lemma_join_snoc(keptv.take(k as int), keptv[k as int]);
            assert(keptv.take(k as int + 1) =~= keptv.take(k as int).push(keptv[k as int]));
            if k > 0 {
                assert(out@ =~= join_lines(keptv.take(k as int)) + seq![LINE_FEED] + keptv[
                    k as int
                ]);
            }
        }
        k = k + 1;
    }
    proof {
        assert(keptv.take(keptv.len() as int) =~= keptv);
    }
    out
}

/// A journal record that is a compaction checkpoint.
pub open spec fn is_checkpoint(line: RolloutLineView) -> bool {
    line.item matches RolloutItemView::EventMsg(EventMsgView::ContextCompacted)
}

/// Positions of the checkpoint records, in increasing order.
pub open spec fn checkpoint_positions(lines: Seq<RolloutLineView>) -> Seq<int>
    decreases lines.len(),
{
    if lines.len() == 0 {
        Seq::empty()
    } else {
        let prefix = checkpoint_positions(lines.drop_last());
        if is_checkpoint(lines.last()) {
            prefix.push(lines.len() - 1)
        } else {
            prefix
        }
    }
}

/// The most recent compaction-bounded segment of a journal: everything
/// before a sole checkpoint, or everything strictly between the last two
/// checkpoints, or nothing.
pub open spec fn spec_extract_seed_segment(lines: Seq<RolloutLineView>) -> Seq<RolloutLineView> {
    let ps = checkpoint_positions(lines);
    if ps.len() == 0 {
        Seq::empty()
    } else {
        let start: int = if ps.len() == 1 {
            0
        } else {
            ps[ps.len() - 2] + 1
        };
        let end: int = ps[ps.len() - 1];
        if start >= end || start >= lines.len() {
            Seq::empty()
        } else {
            lines.subrange(start, end)
        }
    }
}

/// Exec test for a checkpoint record.
fn is_checkpoint_line(line: &RolloutLine) -> (r: bool)
    ensures
        r == is_checkpoint(line.deep_view()),
{
    match &line.item {
        RolloutItem::EventMsg(EventMsg::ContextCompacted) => true,
        _ => false,
    }
}

/// Isolate the most recent compaction-bounded segment of the journal.
///
/// With no checkpoint the result is empty; with one checkpoint it is every
/// record before it; with two or more it is the records strictly between
/// the last two checkpoints.
pub fn extract_between_last_two_context_compactions(lines: &Vec<RolloutLine>) -> (result: Vec<
    RolloutLine,
>)
    ensures
        result.deep_view() == spec_extract_seed_segment(lines.deep_view()),
{
    let ghost lv = lines.deep_view();
    let mut positions: Vec<usize> = Vec::new();
    let mut i: usize = 0;
    proof {
        assert(positions@.map_values(|p: usize| p as int) =~= checkpoint_positions(lv.take(0)));
    }
    while i < lines.len()
        invariant
            i <= lines@.len(),
            lv == lines.deep_view(),
            lv.len() == lines@.len(),
            positions@.map_values(|p: usize| p as int) == checkpoint_positions(lv.take(i as int)),
            forall|j: int| 0 <= j < positions@.len() ==> (positions@[j] as int) < i,
        decreases lines.len() - i,
    {
        let ghost pre = positions@;
        if is_checkpoint_line(&lines[i]) {
            positions.push(i);
        }
        proof {
            assert(lv.take(i as int + 1).drop_last() =~= lv.take(i as int));
            assert(lv.take(i as int + 1).last() == lv[i as int]);
            if is_checkpoint(lv[i as int]) {
                assert(positions@.map_values(|p: usize| p as int) =~= pre.map_values(
                    |p: usize| p as int,
                ).push(i as int));
            }
        }
        i = i + 1;
    }
    proof {
        assert(lv.take(lv.len() as int) =~= lv);
    }
    let ghost ps = checkpoint_positions(lv);
    if positions.len() == 0 {
        proof {
            assert(ps.len() == 0);
        }
        return Vec::new();
    }
    let end = positions[positions.len() - 1];
    let start: usize = if positions.len() == 1 {
        0
    } else {
        positions[positions.len() - 2] + 1
    };
    proof {
        assert(ps[ps.len() - 1] == positions@.map_values(|p: usize| p as int)[ps.len() - 1]);
        if positions@.len() > 1 {
            assert(ps[ps.len() - 2] == positions@.map_values(|p: usize| p as int)[ps.len() - 2]);
        }
        assert(end as int == ps[ps.len() - 1]);
    }
    if start >= end || start >= lines.len() {
        return Vec::new();
    }
    let mut result: Vec<RolloutLine> = Vec::new();
    let mut j: usize = start;
    proof {
        assert(result.deep_view() =~~= lv.subrange(start as int, start as int));
    }
    while j < end
        invariant
            start <= j <= end,
            end < lines@.len(),
            lv == lines.deep_view(),
            lv.len() == lines@.len(),
            result.deep_view() == lv.subrange(start as int, j as int),
        decreases end - j,
    {
        let item = lines[j].duplicate();
        let ghost dv = item.deep_view();
        let ghost pre = result.deep_view();
        result.push(item);
        proof {
            assert(dv == lv[j as int]);
            assert(result.deep_view() =~~= pre.push(dv));
            assert(result.deep_view() =~~= lv.subrange(start as int, j as int + 1));
        }
        j = j + 1;
    }
    result
}

/// What sanitizing one history item yields: reasoning and compaction
/// markers are dropped; tool outputs have their telemetry stripped; every
/// other item kind — the forward-compatible catch-all included — passes
/// through unchanged.
pub open spec fn spec_sanitize_item(item: HistoryItemView) -> Option<HistoryItemView> {
    match item {
        HistoryItemView::Reasoning { .. } => Option::None,
        HistoryItemView::CompactionMarker { .. } => Option::None,
        HistoryItemView::FunctionCallOutput { call_id, output } => (Option::Some(
            HistoryItemView::FunctionCallOutput {
                call_id,
                output: ToolCallOutputView {
                    content: spec_strip_telemetry(output.content),
                    success: output.success,
                },
            },
        )),
        HistoryItemView::CustomToolCallOutput { call_id, output } => (Option::Some(
            HistoryItemView::CustomToolCallOutput {
                call_id,
                output: spec_strip_telemetry(output),
            },
        )),
        other => Option::Some(other),
    }
}

/// What sanitizing a segment yields: records that carry no history item
/// are dropped, the rest are rewritten item-wise, order is kept.
pub open spec fn spec_sanitize_segment(lines: Seq<RolloutLineView>) -> Seq<RolloutLineView>
    decreases lines.len(),
{
    if lines.len() == 0 {
        Seq::empty()
    } else {
        let prefix = spec_sanitize_segment(lines.drop_last());
        let l = lines.last();
        match l.item {
            RolloutItemView::ResponseItem(item) => match spec_sanitize_item(item) {
                Option::Some(clean) => prefix.push(
                    RolloutLineView {
                        timestamp: l.timestamp,
                        item: RolloutItemView::ResponseItem(clean),
                    },
                ),
                Option::None => prefix,
            },
            _ => prefix,
        }
    }
}

/// Sanitize one history item for replay.
pub fn sanitize_response_item(item: &HistoryItem) -> (r: Option<HistoryItem>)
    ensures
        r.deep_view() == spec_sanitize_item(item.deep_view()),
{
    match item {
        HistoryItem::Reasoning { .. } => Option::None,
        HistoryItem::CompactionMarker { .. } => Option::None,
        HistoryItem::FunctionCallOutput { call_id, output } => {
            let content = strip_tool_output_telemetry(&output.content);
            Option::Some(
                HistoryItem::FunctionCallOutput {
                    call_id: copy_bytes(call_id),
                    output: ToolCallOutput { content, success: output.success },
                },
            )
        },
        HistoryItem::CustomToolCallOutput { call_id, output } => Option::Some(
            HistoryItem::CustomToolCallOutput {
                call_id: copy_bytes(call_id),
                output: strip_tool_output_telemetry(output),
            },
        ),
        other => Option::Some(other.duplicate()),
    }
}

/// Reduce a candidate segment to a deterministic, replay-safe transcript.
pub fn sanitize_for_seed(lines: &Vec<RolloutLine>) -> (r: Vec<RolloutLine>)
    ensures
        r.deep_view() == spec_sanitize_segment(lines.deep_view()),
{
    let ghost lv = lines.deep_view();
    let mut cleaned: Vec<RolloutLine> = Vec::new();
    let mut i: usize = 0;
    proof {
        assert(cleaned.deep_view() =~~= spec_sanitize_segment(lv.take(0)));
    }
    while i < lines.len()
        invariant
            i <= lines@.len(),
            lv == lines.deep_view(),
            lv.len() == lines@.len(),
            cleaned.deep_view() == spec_sanitize_segment(lv.take(i as int)),
        decreases lines.len() - i,
    {
        let ghost pre = cleaned.deep_view();
        match &lines[i].item {
            RolloutItem::ResponseItem(item) => {
                match sanitize_response_item(item) {
                    Option::Some(clean) => {
                        let line = RolloutLine {
                            timestamp: copy_bytes(&lines[i].timestamp),
                            item: RolloutItem::ResponseItem(clean),
                        };
                        let ghost dv = line.deep_view();
                        cleaned.push(line);
                        proof {
                            assert(cleaned.deep_view() =~~= pre.push(dv));
                        }
                    },
                    Option::None => {},
                }
            },
            _ => {},
        }
        proof {
            assert(lv.take(i as int + 1).drop_last() =~= lv.take(i as int));
            assert(lv.take(i as int + 1).last() == lv[i as int]);
        }
        i = i + 1;
    }
    proof {
        assert(lv.take(lv.len() as int) =~= lv);
    }
    cleaned
}

proof fn lemma_checkpoint_positions_facts(lines: Seq<RolloutLineView>)
    ensures
        forall|j: int|
            0 <= j < checkpoint_positions(lines).len() ==> 0 <= #[trigger] checkpoint_positions(
                lines,
            )[j] < lines.len() && is_checkpoint(lines[checkpoint_positions(lines)[j]]),
        forall|j1: int, j2: int|
            #![trigger checkpoint_positions(lines)[j1], checkpoint_positions(lines)[j2]]
            0 <= j1 < j2 < checkpoint_positions(lines).len() ==> checkpoint_positions(lines)[j1]
                < checkpoint_positions(lines)[j2],
        forall|p: int|
            0 <= p < lines.len() && is_checkpoint(#[trigger] lines[p]) ==> checkpoint_positions(
                lines,
            ).contains(p),
    decreases lines.len(),
{
    if lines.len() == 0 {
    } else {
        let pre = lines.drop_last();
        let ps_pre = checkpoint_positions(pre);
        let ps = checkpoint_positions(lines);
        lemma_checkpoint_positions_facts(pre);
        assert(forall|j: int| 0 <= j < pre.len() ==> pre[j] == #[trigger] lines[j]);
        assert forall|p: int|
            0 <= p < lines.len() && is_checkpoint(#[trigger] lines[p]) implies ps.contains(p) by {
            if p == lines.len() - 1 {
                assert(is_checkpoint(lines.last()));
                assert(ps[ps.len() - 1] == p);
            } else {
                assert(ps_pre.contains(p));
                let w = choose|w: int| 0 <= w < ps_pre.len() && ps_pre[w] == p;
                assert(ps[w] == p);
            }
        }
    }
}

/// A journal with no compaction checkpoint seeds nothing.
pub proof fn lemma_extract_empty_without_checkpoint(lines: Seq<RolloutLineView>)
    requires
        forall|i: int| 0 <= i < lines.len() ==> !is_checkpoint(#[trigger] lines[i]),
    ensures
        spec_extract_seed_segment(lines) == Seq::<RolloutLineView>::empty(),
{
    lemma_checkpoint_positions_facts(lines);
    let ps = checkpoint_positions(lines);
    if ps.len() > 0 {
        assert(is_checkpoint(lines[ps[0]]));
    }
}

/// With exactly one checkpoint, at `p`, extraction yields the first `p`
/// records of the journal.
pub proof fn lemma_extract_single_checkpoint(lines: Seq<RolloutLineView>, p: int)
    requires
        0 <= p < lines.len(),
        is_checkpoint(lines[p]),
        forall|i: int| 0 <= i < lines.len() && i != p ==> !is_checkpoint(#[trigger] lines[i]),
    ensures
        spec_extract_seed_segment(lines) == lines.subrange(0, p),
{
    lemma_checkpoint_positions_facts(lines);
    let ps = checkpoint_positions(lines);
    assert(ps.contains(p));
    let w = choose|w: int| 0 <= w < ps.len() && ps[w] == p;
    assert forall|j: int| 0 <= j < ps.len() implies ps[j] == p by {
        assert(is_checkpoint(lines[ps[j]]));
    }
    if ps.len() >= 2 {
        assert(ps[0] < ps[1]);
        assert(false);
    }
    if p == 0 {
        assert(lines.subrange(0, 0) =~= Seq::<RolloutLineView>::empty());
    }
}

proof fn lemma_sorted_same_membership_equal(a: Seq<int>, b: Seq<int>)
    requires
        forall|j1: int, j2: int| #![trigger a[j1], a[j2]] 0 <= j1 < j2 < a.len() ==> a[j1] < a[j2],
        forall|j1: int, j2: int| #![trigger b[j1], b[j2]] 0 <= j1 < j2 < b.len() ==> b[j1] < b[j2],
        forall|x: int| a.contains(x) <==> b.contains(x),
    ensures
        a == b,
    decreases a.len(),
{
    if a.len() == 0 {
        if b.len() > 0 {
            assert(b.contains(b[0]));
            assert(a.contains(b[0]));
        }
        assert(a =~= b);
    } else {
        assert(a.contains(a.last()));
        assert(b.len() > 0) by {
            assert(b.contains(a.last()));
        }
        let wa = choose|w: int| 0 <= w < b.len() && b[w] == a.last();
        let wb = choose|w: int| 0 <= w < a.len() && a[w] == b.last();
        assert(b.contains(a.last()));
        assert(a.contains(b.last()));
        assert(a[wb] <= a.last());
        assert(b[wa] <= b.last());
        assert(a.last() == b.last());
        assert forall|x: int| a.drop_last().contains(x) <==> b.drop_last().contains(x) by {
            if a.drop_last().contains(x) {
                let w = choose|w: int| 0 <= w < a.drop_last().len() && a.drop_last()[w] == x;
                assert(a[w] == x);
                assert(x < a.last());
                assert(a.contains(x));
                assert(b.contains(x));
                let v = choose|v: int| 0 <= v < b.len() && b[v] == x;
                assert(v < b.len() - 1);
                assert(b.drop_last()[v] == x);
            }
            if b.drop_last().contains(x) {
                let w = choose|w: int| 0 <= w < b.drop_last().len() && b.drop_last()[w] == x;
                assert(b[w] == x);
                assert(x < b.last());
                assert(b.contains(x));
                assert(a.contains(x));
                let v = choose|v: int| 0 <= v < a.len() && a[v] == x;
                assert(v < a.len() - 1);
                assert(a.drop_last()[v] == x);
            }
        }
        lemma_sorted_same_membership_equal(a.drop_last(), b.drop_last());
        assert(a.drop_last().len() == b.drop_last().len());
        assert(a.len() == b.len());
        assert forall|i: int| 0 <= i < a.len() implies a[i] == b[i] by {
            if i < a.len() - 1 {
                assert(a.drop_last()[i] == b.drop_last()[i]);
            }
        }
        assert(a =~= b);
    }
}

/// With at least two checkpoints, exactly at the increasing positions `q`,
/// extraction yields the records strictly between the last two.
pub proof fn lemma_extract_between_last_two(lines: Seq<RolloutLineView>, q: Seq<int>)
    requires
        q.len() >= 2,
        forall|j: int| 0 <= j < q.len() ==> 0 <= #[trigger] q[j] < lines.len(),
        forall|j1: int, j2: int| #![trigger q[j1], q[j2]] 0 <= j1 < j2 < q.len() ==> q[j1] < q[j2],
        forall|i: int|
            0 <= i < lines.len() ==> (is_checkpoint(#[trigger] lines[i]) <==> q.contains(i)),
    ensures
        spec_extract_seed_segment(lines) == lines.subrange(q[q.len() - 2] + 1, q[q.len() - 1]),
{
    lemma_checkpoint_positions_facts(lines);
    let ps = checkpoint_positions(lines);
    assert forall|x: int| ps.contains(x) <==> q.contains(x) by {
        if ps.contains(x) {
            let w = choose|w: int| 0 <= w < ps.len() && ps[w] == x;
            assert(is_checkpoint(lines[x]));
        }
        if q.contains(x) {
            let w = choose|w: int| 0 <= w < q.len() && q[w] == x;
            assert(is_checkpoint(lines[x]));
        }
    }
    lemma_sorted_same_membership_equal(ps, q);
    let start = q[q.len() - 2] + 1;
    let end = q[q.len() - 1];
    assert(q[q.len() - 2] < q[q.len() - 1]);
    if start >= end {
        assert(lines.subrange(start, end) =~= Seq::<RolloutLineView>::empty());
    }
}

/// A record that the sanitizer retains: it carries a history item that
/// survives sanitization.
pub open spec fn line_retained(l: RolloutLineView) -> bool {
    match l.item {
        RolloutItemView::ResponseItem(item) => spec_sanitize_item(item) is Some,
        _ => false,
    }
}

/// The retained record after its item is rewritten.
pub open spec fn spec_sanitize_line(l: RolloutLineView) -> RolloutLineView
    recommends
        line_retained(l),
{
    match l.item {
        RolloutItemView::ResponseItem(item) => RolloutLineView {
            timestamp: l.timestamp,
            item: RolloutItemView::ResponseItem(spec_sanitize_item(item).unwrap()),
        },
        _ => l,
    }
}

/// A record that is safe to replay: it carries a history item, and that
/// item is neither reasoning nor a compaction marker.
pub open spec fn replay_safe_line(l: RolloutLineView) -> bool {
    match l.item {
        RolloutItemView::ResponseItem(item) => {
            &&& !(item matches HistoryItemView::Reasoning { .. })
            &&& !(item matches HistoryItemView::CompactionMarker { .. })
        },
        _ => false,
    }
}

/// The sanitizer never reorders retained records — it is exactly a filter
/// followed by an item-wise rewrite — and every record it yields carries a
/// history item that is neither reasoning nor a compaction marker.
pub proof fn lemma_sanitize_keeps_order_drops_internal(lines: Seq<RolloutLineView>)
    ensures
        spec_sanitize_segment(lines) == lines.filter(|l: RolloutLineView| line_retained(l))
            .map_values(|l: RolloutLineView| spec_sanitize_line(l)),
        forall|j: int|
            0 <= j < spec_sanitize_segment(lines).len() ==> replay_safe_line(
                #[trigger] spec_sanitize_segment(lines)[j],
            ),
    decreases lines.len(),
{
    reveal(Seq::filter);
    let pred = |l: RolloutLineView| line_retained(l);
    let rewrite = |l: RolloutLineView| spec_sanitize_line(l);
    if lines.len() == 0 {
        assert(spec_sanitize_segment(lines) =~~= lines.filter(pred).map_values(rewrite));
    } else {
        let pre = lines.drop_last();
        lemma_sanitize_keeps_order_drops_internal(pre);
        let l = lines.last();
        if pred(l) {
            assert(lines.filter(pred) == pre.filter(pred).push(l));
            assert(lines.filter(pred).map_values(rewrite) =~~= pre.filter(pred).map_values(
                rewrite,
            ).push(rewrite(l)));
            assert(spec_sanitize_segment(lines) == spec_sanitize_segment(pre).push(
                spec_sanitize_line(l),
            ));
        } else {
            assert(lines.filter(pred) == pre.filter(pred));
            assert(spec_sanitize_segment(lines) == spec_sanitize_segment(pre));
        }
    }
}

/// No line-feed byte anywhere in `l`.
pub open spec fn newline_free(l: Seq<u8>) -> bool {
    forall|k: int| 0 <= k < l.len() ==> l[k] != LINE_FEED
}

pub proof fn lemma_first_newline_prefix(s: Seq<u8>)
    ensures
        first_newline(s) <= s.len(),
        forall|j: int| 0 <= j < first_newline(s) ==> s[j] != LINE_FEED,
        first_newline(s) < s.len() ==> s[first_newline(s) as int] == LINE_FEED,
    decreases s.len(),
{
    if s.len() == 0 {
    } else if s[0] == LINE_FEED {
    } else {
        lemma_first_newline_prefix(s.drop_first());
        assert(forall|j: int| 1 <= j < s.len() ==> s[j] == s.drop_first()[j - 1]);
    }
}

proof fn lemma_split_segments_newline_free(s: Seq<u8>)
    ensures
        forall|j: int|
            0 <= j < split_lines_spec(s).len() ==> newline_free(#[trigger] split_lines_spec(s)[j]),
    decreases s.len(),
{
    if s.len() == 0 {
    } else {
        lemma_first_newline_prefix(s);
        let i = first_newline(s) as int;
        if i < s.len() {
            lemma_split_segments_newline_free(s.skip(i + 1));
            assert(newline_free(s.take(i)));
            assert(forall|j: int|
                1 <= j < split_lines_spec(s).len() ==> split_lines_spec(s)[j]
                    == split_lines_spec(s.skip(i + 1))[j - 1]);
            assert(split_lines_spec(s)[0] == s.take(i));
        } else {
            assert(newline_free(s));
            assert(split_lines_spec(s)[0] == s);
        }
    }
}

proof fn lemma_trim_is_prefix(l: Seq<u8>)
    ensures
        trim_end_spec(l).len() <= l.len(),
        trim_end_spec(l) == l.take(trim_end_spec(l).len() as int),
        trim_end_spec(l).len() == 0 || !is_ascii_whitespace_byte(trim_end_spec(l).last()),
    decreases l.len(),
{
    if l.len() > 0 && is_ascii_whitespace_byte(l.last()) {
        lemma_trim_is_prefix(l.drop_last());
        assert(l.drop_last().take(trim_end_spec(l).len() as int) =~= l.take(
            trim_end_spec(l).len() as int,
        ));
    } else {
        assert(l.take(l.len() as int) =~= l);
    }
}

proof fn lemma_trim_fixed(l: Seq<u8>)
    requires
        l.len() == 0 || !is_ascii_whitespace_byte(l.last()),
    ensures
        trim_end_spec(l) == l,
{
}

proof fn lemma_kept_lines_shape(raw: Seq<Seq<u8>>)
    requires
        forall|j: int| 0 <= j < raw.len() ==> newline_free(#[trigger] raw[j]),
    ensures
        forall|j: int|
            #![trigger kept_lines(raw)[j]]
            0 <= j < kept_lines(raw).len() ==> {
                &&& newline_free(kept_lines(raw)[j])
                &&& trim_end_spec(kept_lines(raw)[j]) == kept_lines(raw)[j]
                &&& !is_telemetry_line(kept_lines(raw)[j])
            },
    decreases raw.len(),
{
    if raw.len() == 0 {
    } else {
        let pre = raw.drop_last();
        assert(forall|j: int| 0 <= j < pre.len() ==> pre[j] == #[trigger] raw[j]);
        lemma_kept_lines_shape(pre);
        let t = trim_end_spec(raw.last());
        lemma_trim_is_prefix(raw.last());
        lemma_trim_fixed(t);
        assert(newline_free(t)) by {
            assert(forall|k: int|
                0 <= k < t.len() ==> t[k] == raw.last().take(t.len() as int)[k]);
        }
        if !is_telemetry_line(t) {
            let ks = kept_lines(raw);
            assert(ks == kept_lines(pre).push(t));
            assert(forall|j: int|
                0 <= j < ks.len() - 1 ==> ks[j] == #[trigger] kept_lines(pre)[j]);
            assert(ks.last() == t);
        }
    }
}

proof fn lemma_kept_of_fixed(ks: Seq<Seq<u8>>)
    requires
        forall|j: int|
            #![trigger ks[j]]
            0 <= j < ks.len() ==> trim_end_spec(ks[j]) == ks[j] && !is_telemetry_line(ks[j]),
    ensures
        kept_lines(ks) == ks,
    decreases ks.len(),
{
    if ks.len() == 0 {
        assert(kept_lines(ks) =~~= ks);
    } else {
        let pre = ks.drop_last();
        assert(forall|j: int| 0 <= j < pre.len() ==> pre[j] == #[trigger] ks[j]);
        lemma_kept_of_fixed(pre);
        assert(trim_end_spec(ks.last()) == ks.last());
        assert(kept_lines(ks) == pre.push(ks.last()));
        assert(pre.push(ks.last()) =~~= ks);
    }
}

proof fn lemma_split_of_join(ls: Seq<Seq<u8>>)
    requires
        ls.len() > 0,
        forall|j: int| 0 <= j < ls.len() ==> newline_free(#[trigger] ls[j]),
        ls.last().len() > 0,
    ensures
        split_lines_spec(join_lines(ls)) == ls,
    decreases ls.len(),
{
    if ls.len() == 1 {
        let s = join_lines(ls);
        assert(s == ls[0]);
        assert(newline_free(s));
        lemma_first_newline_at(s, s.len() as int);
        assert(split_lines_spec(s) =~~= ls);
    } else {
        let rest = ls.drop_first();
        let s = join_lines(ls);
        assert(s == ls[0] + seq![LINE_FEED] + join_lines(rest));
        assert(forall|j: int| 0 <= j < rest.len() ==> rest[j] == #[trigger] ls[j + 1]);
        assert(rest.last() == ls.last());
        lemma_split_of_join(rest);
        let h = ls[0].len() as int;
        assert(s.len() == h + 1 + join_lines(rest).len());
        assert(forall|k: int| 0 <= k < h ==> s[k] == ls[0][k]);
        assert(s[h] == LINE_FEED);
        lemma_first_newline_at(s, h);
        assert(h < s.len());
        assert(s.take(h) =~= ls[0]);
        assert(s.skip(h + 1) =~= join_lines(rest));
        assert(split_lines_spec(s) == seq![s.take(h)] + split_lines_spec(s.skip(h + 1)));
        assert(seq![s.take(h)] + split_lines_spec(s.skip(h + 1)) =~~= ls);
    }
}

/// Whether stripping `c` is stable under a second pass: its retained lines
/// do not end with an empty line.
pub open spec fn strip_stable(c: Seq<u8>) -> bool {
    let ks = kept_lines(split_lines_spec(c));
    ks.len() <= 1 || ks.last().len() > 0
}

/// Stripping telemetry twice is the same as stripping it once, provided the
/// retained lines do not end with an empty line (a trailing empty retained
/// line is absorbed by the final join and cannot survive a second pass).
pub proof fn lemma_strip_telemetry_idempotent(c: Seq<u8>)
    requires
        strip_stable(c),
    ensures
        spec_strip_telemetry(spec_strip_telemetry(c)) == spec_strip_telemetry(c),
{
    let raw = split_lines_spec(c);
    let ks = kept_lines(raw);
    lemma_split_segments_newline_free(c);
    lemma_kept_lines_shape(raw);
    if ks.len() == 0 {
        assert(spec_strip_telemetry(c) == Seq::<u8>::empty());
        assert(split_lines_spec(Seq::<u8>::empty()) =~~= Seq::<Seq<u8>>::empty());
        assert(kept_lines(Seq::<Seq<u8>>::empty()) =~~= Seq::<Seq<u8>>::empty());
    } else if ks.len() == 1 && ks.last().len() == 0 {
        assert(spec_strip_telemetry(c) == ks[0]);
        assert(ks[0].len() == 0);
        assert(spec_strip_telemetry(c) =~= Seq::<u8>::empty());
        assert(split_lines_spec(Seq::<u8>::empty()) =~~= Seq::<Seq<u8>>::empty());
        assert(kept_lines(Seq::<Seq<u8>>::empty()) =~~= Seq::<Seq<u8>>::empty());
        assert(spec_strip_telemetry(spec_strip_telemetry(c)) =~= spec_strip_telemetry(c));
    } else {
        assert(ks.last().len() > 0);
        lemma_split_of_join(ks);
        lemma_kept_of_fixed(ks);
    }
}

/// A history item whose textual payloads strip stably.
pub open spec fn item_strip_stable(item: HistoryItemView) -> bool {
    match item {
        HistoryItemView::FunctionCallOutput { output, .. } => strip_stable(output.content),
        HistoryItemView::CustomToolCallOutput { output, .. } => strip_stable(output),
        _ => true,
    }
}

/// A journal record whose history item, if any, strips stably.
pub open spec fn line_strip_stable(l: RolloutLineView) -> bool {
    match l.item {
        RolloutItemView::ResponseItem(item) => item_strip_stable(item),
        _ => true,
    }
}

proof fn lemma_sanitize_item_idempotent(item: HistoryItemView)
    requires
        item_strip_stable(item),
    ensures
        spec_sanitize_item(item) matches Option::Some(clean) ==> spec_sanitize_item(clean)
            == Option::Some(clean),
{
    match item {
        HistoryItemView::FunctionCallOutput { call_id, output } => {
            lemma_strip_telemetry_idempotent(output.content);
        },
        HistoryItemView::CustomToolCallOutput { call_id, output } => {
            lemma_strip_telemetry_idempotent(output);
        },
        _ => {},
    }
}

/// Sanitizing an already-sanitized segment yields an identical segment,
/// provided every tool output in it strips stably.
pub proof fn lemma_sanitize_idempotent(lines: Seq<RolloutLineView>)
    requires
        forall|i: int| 0 <= i < lines.len() ==> line_strip_stable(#[trigger] lines[i]),
    ensures
        spec_sanitize_segment(spec_sanitize_segment(lines)) == spec_sanitize_segment(lines),
    decreases lines.len(),
{
    if lines.len() == 0 {
    } else {
        let pre = lines.drop_last();
        assert(forall|j: int| 0 <= j < pre.len() ==> pre[j] == #[trigger] lines[j]);
        lemma_sanitize_idempotent(pre);
        let l = lines.last();
        assert(line_strip_stable(l));
        match l.item {
            RolloutItemView::ResponseItem(item) => {
                lemma_sanitize_item_idempotent(item);
                match spec_sanitize_item(item) {
                    Option::Some(clean) => {
                        let out = RolloutLineView {
                            timestamp: l.timestamp,
                            item: RolloutItemView::ResponseItem(clean),
                        };
                        assert(spec_sanitize_segment(lines) == spec_sanitize_segment(pre).push(
                            out,
                        ));
                        let once = spec_sanitize_segment(lines);
                        assert(once.drop_last() =~~= spec_sanitize_segment(pre));
                        assert(once.last() == out);
                        assert(spec_sanitize_item(clean) == Option::Some(clean));
                        assert(spec_sanitize_segment(once) == spec_sanitize_segment(
                            once.drop_last(),
                        ).push(out));
                    },
                    Option::None => {
                        assert(spec_sanitize_segment(lines) == spec_sanitize_segment(pre));
                    },
                }
            },
            _ => {
                assert(spec_sanitize_segment(lines) == spec_sanitize_segment(pre));
            },
        }
    }
}

} // verus!
