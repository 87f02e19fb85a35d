//! Rollout-journal framing: one self-contained serialized record per line,
//! append-only. Reading tolerates blank lines; writing terminates every
//! record with a line feed.

use vstd::prelude::*;

use crate::seed::LINE_FEED;
use crate::seed::split_lines_spec;
use crate::seed::trim_end_spec;
use crate::seed::newline_free;

verus! {

/// A line that holds only whitespace and is skipped on read.
pub open spec fn is_blank_line(l: Seq<u8>) -> bool {
    trim_end_spec(l).len() == 0
}

/// The raw lines that carry a record: every non-blank line, verbatim.
pub open spec fn nonblank_lines(raw: Seq<Seq<u8>>) -> Seq<Seq<u8>>
    decreases raw.len(),
{
    if raw.len() == 0 {
        Seq::empty()
    } else {
        let prefix = nonblank_lines(raw.drop_last());
        if is_blank_line(raw.last()) {
            prefix
        } else {
            prefix.push(raw.last())
        }
    }
}

/// Exec test for a blank line.
fn is_blank_bytes(line: &Vec<u8>) -> (r: bool)
    ensures
        r == is_blank_line(line@),
{
    let mut end: usize = line.len();
    proof {
        assert(line@.take(line@.len() as int) =~= line@);
    }
    while end > 0 && crate::seed::is_ws_byte(line[end - 1])
        invariant
            end <= line@.len(),
            trim_end_spec(line@) == trim_end_spec(line@.take(end as int)),
        decreases end,
    {
        proof {
            assert(line@.take(end as int).drop_last() =~= line@.take(end as int - 1));
        }
        end = end - 1;
    }
    proof {
        if end > 0 {
            assert(!crate::seed::is_ascii_whitespace_byte(line@.take(end as int).last()));
        }
        assert(trim_end_spec(line@.take(end as int)) == line@.take(end as int));
    }
    end == 0
}

/// Split a journal text into its record-bearing lines: blank lines are
/// skipped, every other line is kept verbatim so a single malformed record
/// can be dropped later without invalidating the rest.
pub fn split_journal_text(text: &Vec<u8>) -> (r: Vec<Vec<u8>>)
    ensures
        r.deep_view() == nonblank_lines(split_lines_spec(text@)),
{
    let raw = crate::seed::split_content_lines(text);
    let ghost rawv = raw.deep_view();
    let mut r: Vec<Vec<u8>> = Vec::new();
    let mut i: usize = 0;
    proof {
        assert(r.deep_view() =~~= nonblank_lines(rawv.take(0)));
    }
    while i < raw.len()
        invariant
            i <= raw@.len(),
            rawv == raw.deep_view(),
            rawv.len() == raw@.len(),
            r.deep_view() == nonblank_lines(rawv.take(i as int)),
        decreases raw.len() - i,
    {
        let ghost pre = r.deep_view();
        let blank = is_blank_bytes(&raw[i]);
        if !blank {
            let line = crate::items::copy_bytes(&raw[i]);
            let ghost dv = line@;
            r.push(line);
            proof {
                assert(r.deep_view() =~~= pre.push(dv));
            }
        }
        proof {
            assert(rawv[i as int] =~= raw@[i as int]@);
            assert(rawv.take(i as int + 1).drop_last() =~= rawv.take(i as int));
            assert(rawv.take(i as int + 1).last() == rawv[i as int]);
        }
        i = i + 1;
    }
    proof {
        assert(rawv.take(rawv.len() as int) =~= rawv);
    }
    r
}

/// What writing a batch of serialized records yields: each record's bytes,
/// each followed by one line feed.
pub open spec fn spec_frame_journal(records: Seq<Seq<u8>>) -> Seq<u8>
    decreases records.len(),
{
    if records.len() == 0 {
        Seq::empty()
    } else {
        spec_frame_journal(records.drop_last()) + records.last() + seq![LINE_FEED]
    }
}

/// Frame a batch of serialized records for one append: each record becomes
/// one self-contained, line-feed-terminated line. The whole batch is handed
/// to the backing store in a single buffer, so the append succeeds or fails
/// as a whole.
pub fn frame_journal_records(records: &Vec<Vec<u8>>) -> (r: Vec<u8>)
    ensures
        r@ == spec_frame_journal(records.deep_view()),
{
    let ghost rv = records.deep_view();
    let mut out: Vec<u8> = Vec::new();
    let mut i: usize = 0;
    proof {
        assert(out@ =~= spec_frame_journal(rv.take(0)));
    }
    while i < records.len()
        invariant
            i <= records@.len(),
            rv == records.deep_view(),
            rv.len() == records@.len(),
            out@ == spec_frame_journal(rv.take(i as int)),
        decreases records.len() - i,
    {
        let ghost pre = out@;
        crate::seed::push_bytes(&mut out, &records[i]);
        out.push(10);
        proof {
            assert(rv[i as int] =~= records@[i as int]@);
            assert(rv.take(i as int + 1).drop_last() =~= rv.take(i as int));
            assert(rv.take(i as int + 1).last() == rv[i as int]);
            assert(out@ =~= pre + rv[i as int] + seq![LINE_FEED]);
        }
        i = i + 1;
    }
    proof {
        assert(rv.take(rv.len() as int) =~= rv);
    }
    out
}

proof fn lemma_split_concat_newline(t: Seq<u8>, u: Seq<u8>)
    requires
        t.len() > 0,
        t.last() == LINE_FEED,
    ensures
        split_lines_spec(t + u) == split_lines_spec(t) + split_lines_spec(u),
    decreases t.len(),
{
    crate::seed::lemma_first_newline_prefix(t);
    let i = crate::seed::first_newline(t) as int;
    assert(i < t.len()) by {
        if i == t.len() {
            assert(t[t.len() - 1] != LINE_FEED);
        }
    }
    assert(forall|j: int| 0 <= j < i ==> (t + u)[j] == t[j]);
    assert((t + u)[i] == t[i]);
    crate::seed::lemma_first_newline_at(t + u, i);
    assert((t + u).take(i) =~= t.take(i));
    assert((t + u).skip(i + 1) =~= t.skip(i + 1) + u);
    if t.skip(i + 1).len() == 0 {
        assert(t.skip(i + 1) + u =~= u);
        assert(split_lines_spec(t.skip(i + 1)) =~~= Seq::<Seq<u8>>::empty());
        assert(split_lines_spec(t) == seq![t.take(i)] + split_lines_spec(t.skip(i + 1)));
        assert(split_lines_spec(t) =~~= seq![t.take(i)]);
        assert(split_lines_spec(t + u) == seq![t.take(i)] + split_lines_spec(u));
        assert(seq![t.take(i)] + split_lines_spec(u) =~~= split_lines_spec(t) + split_lines_spec(
            u,
        ));
    } else {
        assert(t.skip(i + 1).last() == t.last());
        lemma_split_concat_newline(t.skip(i + 1), u);
        assert(split_lines_spec(t + u) == seq![t.take(i)] + (split_lines_spec(t.skip(i + 1))
            + split_lines_spec(u)));
        assert(split_lines_spec(t) == seq![t.take(i)] + split_lines_spec(t.skip(i + 1)));
        assert(seq![t.take(i)] + (split_lines_spec(t.skip(i + 1)) + split_lines_spec(u))
            =~~= split_lines_spec(t) + split_lines_spec(u));
    }
}

proof fn lemma_split_framed_snoc(t: Seq<u8>, rec: Seq<u8>)
    requires
        t.len() == 0 || t.last() == LINE_FEED,
        newline_free(rec),
    ensures
        split_lines_spec(t + rec + seq![LINE_FEED]) == split_lines_spec(t).push(rec),
{
    let u = rec + seq![LINE_FEED];
    assert(forall|j: int| 0 <= j < rec.len() ==> u[j] == rec[j] && u[j] != LINE_FEED);
    assert(u[rec.len() as int] == LINE_FEED);
    crate::seed::lemma_first_newline_at(u, rec.len() as int);
    assert(u.take(rec.len() as int) =~= rec);
    assert(u.skip(rec.len() as int + 1) =~= Seq::<u8>::empty());
    assert(split_lines_spec(u) == seq![rec] + split_lines_spec(u.skip(rec.len() as int + 1)));
    assert(split_lines_spec(u) =~~= seq![rec]);
    if t.len() == 0 {
        assert(t + rec + seq![LINE_FEED] =~= u);
        assert(split_lines_spec(t).push(rec) =~~= seq![rec]);
    } else {
        lemma_split_concat_newline(t, u);
        assert(t + rec + seq![LINE_FEED] =~= t + u);
        assert(split_lines_spec(t) + seq![rec] =~~= split_lines_spec(t).push(rec));
    }
}

/// Reading back one framed batch yields exactly the framed records,
/// provided each record is newline-free and non-blank — which every
/// serialized journal record is.
pub proof fn lemma_frame_round_trip(records: Seq<Seq<u8>>)
    requires
        forall|j: int|
            #![trigger records[j]]
            0 <= j < records.len() ==> newline_free(records[j]) && !is_blank_line(records[j]),
    ensures
        nonblank_lines(split_lines_spec(spec_frame_journal(records))) == records,
    decreases records.len(),
{
    if records.len() == 0 {
        assert(nonblank_lines(split_lines_spec(spec_frame_journal(records)))
            =~~= Seq::<Seq<u8>>::empty());
    } else {
        let pre = records.drop_last();
        assert(forall|j: int| 0 <= j < pre.len() ==> pre[j] == #[trigger] records[j]);
        lemma_frame_round_trip(pre);
        lemma_split_framed_snoc(spec_frame_journal(pre), records.last());
        let raw_pre = split_lines_spec(spec_frame_journal(pre));
        let raw = split_lines_spec(spec_frame_journal(records));
        assert(raw == raw_pre.push(records.last()));
        assert(raw.drop_last() =~= raw_pre);
        assert(nonblank_lines(raw) == nonblank_lines(raw_pre).push(records.last()));
        assert(nonblank_lines(raw_pre).push(records.last()) =~~= records);
    }
}

} // verus!
