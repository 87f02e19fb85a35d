//! The remote compaction flow: projecting a point-in-time history copy for
//! the request, rebuilding the candidate history from the remote result,
//! and the failure-class specific fallback decision.

use vstd::prelude::*;

use crate::items::ContentItem;
use crate::items::ContentItemView;
use crate::items::HistoryItem;
use crate::items::HistoryItemView;
use crate::items::Role;
use crate::items::copy_bytes;

verus! {

/// A message spoken by the developer role.
pub open spec fn spec_is_developer_message(item: HistoryItemView) -> bool {
    item matches HistoryItemView::Message { role: Role::Developer, .. }
}

/// Exec test for a developer message.
pub fn is_developer_message(item: &HistoryItem) -> (r: bool)
    ensures
        r == spec_is_developer_message(item.deep_view()),
{
    match item {
        HistoryItem::Message { role: Role::Developer, .. } => true,
        _ => false,
    }
}

/// A user message that carries the resolved user instructions.
pub open spec fn spec_is_user_instructions_message(item: HistoryItemView) -> bool {
    match item {
        HistoryItemView::Message { role, content, .. } => role == Role::User && content.len() > 0
            && content[0] matches ContentItemView::UserInstructions { .. },
        _ => false,
    }
}

/// Exec test for a user-instructions message.
pub fn is_user_instructions_message(item: &HistoryItem) -> (r: bool)
    ensures
        r == spec_is_user_instructions_message(item.deep_view()),
{
    match item {
        HistoryItem::Message { role, content, .. } => {
            if !(*role == Role::User) {
                return false;
            }
            if content.len() == 0 {
                return false;
            }
            match &content[0] {
                ContentItem::UserInstructions { .. } => true,
                _ => false,
            }
        },
        _ => false,
    }
}

/// Number of leading developer messages.
pub open spec fn developer_prefix_len(items: Seq<HistoryItemView>) -> int
    decreases items.len(),
{
    if items.len() == 0 {
        0
    } else if spec_is_developer_message(items[0]) {
        1 + developer_prefix_len(items.drop_first())
    } else {
        0
    }
}

proof fn lemma_developer_prefix_at(items: Seq<HistoryItemView>, k: int)
    requires
        0 <= k <= items.len(),
        forall|j: int| 0 <= j < k ==> spec_is_developer_message(#[trigger] items[j]),
        k == items.len() || !spec_is_developer_message(items[k]),
    ensures
        developer_prefix_len(items) == k,
    decreases k,
{
    if k == 0 {
    } else {
        assert(spec_is_developer_message(items[0]));
        assert(forall|j: int|
            0 <= j < k - 1 ==> spec_is_developer_message(#[trigger] items.drop_first()[j]));
        assert(k - 1 == items.drop_first().len() || !spec_is_developer_message(
            items.drop_first()[k - 1],
        ));
        lemma_developer_prefix_at(items.drop_first(), k - 1);
    }
}

/// The records of the projection tail that survive the substitution:
/// everything but a legacy user-instructions message.
pub open spec fn retained_pred() -> spec_fn(HistoryItemView) -> bool {
    |it: HistoryItemView| !spec_is_user_instructions_message(it)
}

proof fn lemma_retained_pred_applied(it: HistoryItemView)
    ensures
        retained_pred()(it) == !spec_is_user_instructions_message(it),
{
}

/// What the instructions substitution yields: with no replacement, the
/// items unchanged; otherwise the leading developer messages verbatim, then
/// the replacement, then the remainder with every legacy user-instructions
/// message dropped.
pub open spec fn spec_replace_user_instructions(
    items: Seq<HistoryItemView>,
    replacement: Option<HistoryItemView>,
) -> Seq<HistoryItemView> {
    match replacement {
        Option::None => items,
        Option::Some(r) => {
            let p = developer_prefix_len(items);
            items.take(p) + seq![r] + items.skip(p).filter(retained_pred())
        },
    }
}

/// Substitute the resolved user instructions into a history projection:
/// keep leading developer messages, place the replacement right after them,
/// and drop any other user-instructions message from the remainder.
pub fn replace_user_instructions_items(
    items: Vec<HistoryItem>,
    replacement: Option<HistoryItem>,
) -> (r: Vec<HistoryItem>)
    ensures
        r.deep_view() == spec_replace_user_instructions(items.deep_view(), replacement.deep_view()),
{
    let replacement_item = match replacement {
        Option::None => {
            return items;
        },
        Option::Some(r) => r,
    };
    let ghost iv = items.deep_view();
    let mut prefix_len: usize = 0;
    while prefix_len < items.len() && is_developer_message(&items[prefix_len])
        invariant
            prefix_len <= items@.len(),
            iv == items.deep_view(),
            iv.len() == items@.len(),
            forall|j: int| 0 <= j < prefix_len ==> spec_is_developer_message(#[trigger] iv[j]),
        decreases items.len() - prefix_len,
    {
        prefix_len = prefix_len + 1;
    }
    proof {
        lemma_developer_prefix_at(iv, prefix_len as int);
    }
    let mut out: Vec<HistoryItem> = Vec::new();
    let mut i: usize = 0;
    proof {
        assert(out.deep_view() =~~= iv.subrange(0, 0));
    }
    while i < prefix_len
        invariant
            i <= prefix_len <= items@.len(),
            iv == items.deep_view(),
            iv.len() == items@.len(),
            out.deep_view() == iv.subrange(0, i as int),
        decreases prefix_len - i,
    {
        let item = items[i].duplicate();
        let ghost dv = item.deep_view();
        let ghost pre = out.deep_view();
        out.push(item);
        proof {
            assert(out.deep_view() =~~= pre.push(dv));
            assert(out.deep_view() =~~= iv.subrange(0, i as int + 1));
        }
        i = i + 1;
    }
    let ghost rv = replacement_item.deep_view();
    let ghost head = iv.take(prefix_len as int) + seq![rv];
    out.push(replacement_item);
    proof {
        reveal(Seq::filter);
        assert(out.deep_view() =~~= head);
        assert(iv.skip(prefix_len as int).take(0) =~~= Seq::<HistoryItemView>::empty());
        assert(out.deep_view() =~~= head + iv.skip(prefix_len as int).take(0).filter(retained_pred()));
    }
    let mut j: usize = prefix_len;
    while j < items.len()
        invariant
            prefix_len <= j <= items@.len(),
            iv == items.deep_view(),
            iv.len() == items@.len(),
            head == iv.take(prefix_len as int) + seq![rv],
            out.deep_view() == head + iv.skip(prefix_len as int).take(
                j - prefix_len as int,
            ).filter(retained_pred()),
        decreases items.len() - j,
    {
        let ghost sub = iv.skip(prefix_len as int);
        let ghost w = j - prefix_len as int;
        let keep = !is_user_instructions_message(&items[j]);
        let ghost pre = out.deep_view();
        if keep {
            let item = items[j].duplicate();
            let ghost dv = item.deep_view();
            out.push(item);
            proof {
                assert(dv == iv[j as int]);
                assert(out.deep_view() =~~= pre.push(dv));
            }
        }
        proof {
            reveal(Seq::filter);
            assert(sub.take(w + 1).len() == w + 1);
            assert(sub.take(w + 1).drop_last() =~= sub.take(w));
            assert(sub.take(w + 1).last() == iv[j as int]);
            assert(iv[j as int] == items@[j as int].deep_view());
            lemma_retained_pred_applied(iv[j as int]);
            assert(retained_pred()(iv[j as int]) == keep);
            if keep {
                assert(sub.take(w + 1).filter(retained_pred()) == sub.take(w + 1).drop_last().filter(
                    retained_pred(),
                ).push(sub.take(w + 1).last()));
                assert(sub.take(w + 1).filter(retained_pred()) == sub.take(w).filter(retained_pred()).push(
                    iv[j as int],
                ));
                assert(out.deep_view() =~~= head + sub.take(w + 1).filter(retained_pred()));
            } else {
                assert(sub.take(w + 1).filter(retained_pred()) == sub.take(w).filter(retained_pred()));
                assert(out.deep_view() =~~= head + sub.take(w + 1).filter(retained_pred()));
            }
        }
        j = j + 1;
    }
    proof {
        assert(iv.skip(prefix_len as int).take(iv.len() - prefix_len as int) =~= iv.skip(
            prefix_len as int,
        ));
        assert(iv.take(prefix_len as int) == iv.subrange(0, prefix_len as int));
    }
    out
}

/// A restorable point-in-time state marker.
pub open spec fn spec_is_ghost_snapshot(item: HistoryItemView) -> bool {
    item matches HistoryItemView::GhostSnapshot { .. }
}

/// The predicate selecting ghost snapshots.
pub open spec fn snapshot_pred() -> spec_fn(HistoryItemView) -> bool {
    |it: HistoryItemView| spec_is_ghost_snapshot(it)
}

proof fn lemma_snapshot_pred_applied(it: HistoryItemView)
    ensures
        snapshot_pred()(it) == spec_is_ghost_snapshot(it),
{
}

/// Every ghost snapshot of the pre-compaction history, in original order.
/// Snapshots are never summarized, only carried forward.
pub fn collect_ghost_snapshots(items: &Vec<HistoryItem>) -> (r: Vec<HistoryItem>)
    ensures
        r.deep_view() == items.deep_view().filter(snapshot_pred()),
{
    let ghost iv = items.deep_view();
    let mut r: Vec<HistoryItem> = Vec::new();
    let mut i: usize = 0;
    proof {
        reveal(Seq::filter);
        assert(r.deep_view() =~~= iv.take(0).filter(snapshot_pred()));
    }
    while i < items.len()
        invariant
            i <= items@.len(),
            iv == items.deep_view(),
            iv.len() == items@.len(),
            r.deep_view() == iv.take(i as int).filter(snapshot_pred()),
        decreases items.len() - i,
    {
        let keep = match &items[i] {
            HistoryItem::GhostSnapshot { .. } => true,
            _ => false,
        };
        let ghost pre = r.deep_view();
        if keep {
            let item = items[i].duplicate();
            let ghost dv = item.deep_view();
            r.push(item);
            proof {
                assert(dv == iv[i as int]);
                assert(r.deep_view() =~~= pre.push(dv));
            }
        }
        proof {
            reveal(Seq::filter);
            assert(iv.take(i as int + 1).drop_last() =~= iv.take(i as int));
            assert(iv.take(i as int + 1).last() == iv[i as int]);
            assert(iv[i as int] == items@[i as int].deep_view());
            lemma_snapshot_pred_applied(iv[i as int]);
            if keep {
                assert(iv.take(i as int + 1).filter(snapshot_pred()) == iv.take(i as int).filter(snapshot_pred()).push(
                    iv[i as int],
                ));
            } else {
                assert(iv.take(i as int + 1).filter(snapshot_pred()) == iv.take(i as int).filter(snapshot_pred()));
            }
            assert(r.deep_view() =~~= iv.take(i as int + 1).filter(snapshot_pred()));
        }
        i = i + 1;
    }
    proof {
        assert(iv.take(iv.len() as int) =~= iv);
    }
    r
}

/// The candidate post-compaction history: the remote result with the
/// instructions substitution applied, followed by every ghost snapshot of
/// the pre-compaction history, in their original relative order.
pub open spec fn spec_finalized_history(
    remote_result: Seq<HistoryItemView>,
    replacement: Option<HistoryItemView>,
    pre_compaction: Seq<HistoryItemView>,
) -> Seq<HistoryItemView> {
    spec_replace_user_instructions(remote_result, replacement) + pre_compaction.filter(
        snapshot_pred(),
    )
}

/// Build the candidate post-compaction history from the remote result.
pub fn finalize_compacted_history(
    remote_result: Vec<HistoryItem>,
    replacement: Option<HistoryItem>,
    pre_compaction: &Vec<HistoryItem>,
) -> (r: Vec<HistoryItem>)
    ensures
        r.deep_view() == spec_finalized_history(
            remote_result.deep_view(),
            replacement.deep_view(),
            pre_compaction.deep_view(),
        ),
{
    let ghost base_view = spec_replace_user_instructions(
        remote_result.deep_view(),
        replacement.deep_view(),
    );
    let mut out = replace_user_instructions_items(remote_result, replacement);
    let snapshots = collect_ghost_snapshots(pre_compaction);
    let ghost sv = snapshots.deep_view();
    let mut k: usize = 0;
    proof {
        assert(out.deep_view() =~~= base_view + sv.take(0));
    }
    while k < snapshots.len()
        invariant
            k <= snapshots@.len(),
            sv == snapshots.deep_view(),
            sv.len() == snapshots@.len(),
            out.deep_view() == base_view + sv.take(k as int),
        decreases snapshots.len() - k,
    {
        let item = snapshots[k].duplicate();
        let ghost dv = item.deep_view();
        let ghost pre = out.deep_view();
        out.push(item);
        proof {
            assert(dv == sv[k as int]);
            assert(out.deep_view() =~~= pre.push(dv));
            assert(out.deep_view() =~~= base_view + sv.take(k as int + 1));
        }
        k = k + 1;
    }
    proof {
        assert(sv.take(sv.len() as int) =~= sv);
    }
    out
}

/// Why a remote compaction attempt failed.
#[derive(Clone, PartialEq, Eq, Debug)]
pub enum RemoteFailure {
    /// The request was structurally invalid for the remote side.
    MalformedRequest { detail: Vec<u8> },
    /// The remote side answered with an HTTP status code.
    Status { code: u16, detail: Vec<u8> },
    /// Everything else: transport, authentication, throttling, server
    /// faults; treated opaquely.
    Other { detail: Vec<u8> },
}

/// Ghost mirror of `RemoteFailure`.
pub enum RemoteFailureView {
    MalformedRequest { detail: Seq<u8> },
    Status { code: u16, detail: Seq<u8> },
    Other { detail: Seq<u8> },
}

impl DeepView for RemoteFailure {
    type V = RemoteFailureView;

    open spec fn deep_view(&self) -> RemoteFailureView {
        match self {
            RemoteFailure::MalformedRequest { detail } => (RemoteFailureView::MalformedRequest {
                detail: detail@,
            }),
            RemoteFailure::Status { code, detail } => (RemoteFailureView::Status {
                code: *code,
                detail: detail@,
            }),
            RemoteFailure::Other { detail } => RemoteFailureView::Other { detail: detail@ },
        }
    }
}

/// The two failure classes the orchestrator branches on.
#[derive(Clone, Copy, PartialEq, Eq, Structural, Debug)]
pub enum FailureClass {
    /// The remote side cannot or will not process this request as shaped:
    /// a structurally invalid request, or a client-error status.
    RequestRejected,
    /// Any other failure; never auto-recovered.
    Other,
}

/// Classification: a malformed request or a client-error status (400-499)
/// is a rejection; everything else is opaque.
pub open spec fn spec_classify_failure(f: RemoteFailureView) -> FailureClass {
    match f {
        RemoteFailureView::MalformedRequest { .. } => FailureClass::RequestRejected,
        RemoteFailureView::Status { code, .. } => if 400 <= code < 500 {
            FailureClass::RequestRejected
        } else {
            FailureClass::Other
        },
        RemoteFailureView::Other { .. } => FailureClass::Other,
    }
}

/// Classify a remote failure for the fallback decision.
pub fn classify_remote_failure(f: &RemoteFailure) -> (c: FailureClass)
    ensures
        c == spec_classify_failure(f.deep_view()),
{
    match f {
        RemoteFailure::MalformedRequest { .. } => FailureClass::RequestRejected,
        RemoteFailure::Status { code, .. } => {
            if 400 <= *code && *code < 500 {
                FailureClass::RequestRejected
            } else {
                FailureClass::Other
            }
        },
        RemoteFailure::Other { .. } => FailureClass::Other,
    }
}

/// What the orchestrator does after the remote round trip.
#[derive(Clone, PartialEq, Eq, Debug)]
pub enum CompactionDecision {
    /// Atomically replace History with the carried sequence, persist one
    /// compacted audit record, then emit the checkpoint event.
    Commit { new_history: Vec<HistoryItem> },
    /// Emit a best-effort downgrade notification, then run the local
    /// compaction collaborator with the same instructions.
    FallBackToLocal,
    /// Emit a terminal error event; History and journal stay untouched.
    Fail,
}

/// Decide the outcome of the remote round trip: on success, commit the
/// finalized history; on a rejected request, fall back to local compaction;
/// on any other failure, fail without touching History or the journal.
pub fn decide_after_remote(
    outcome: Result<Vec<HistoryItem>, RemoteFailure>,
    replacement: Option<HistoryItem>,
    pre_compaction: &Vec<HistoryItem>,
) -> (d: CompactionDecision)
    ensures
        match outcome {
            Result::Ok(remote_result) => d matches CompactionDecision::Commit { new_history }
                && new_history.deep_view() == spec_finalized_history(
                remote_result.deep_view(),
                replacement.deep_view(),
                pre_compaction.deep_view(),
            ),
            Result::Err(f) => if spec_classify_failure(f.deep_view())
                == FailureClass::RequestRejected {
                d == CompactionDecision::FallBackToLocal
            } else {
                d == CompactionDecision::Fail
            },
        },
{
    match outcome {
        Result::Ok(remote_result) => {
            let new_history = finalize_compacted_history(
                remote_result,
                replacement,
                pre_compaction,
            );
            CompactionDecision::Commit { new_history }
        },
        Result::Err(f) => {
            match classify_remote_failure(&f) {
                FailureClass::RequestRejected => CompactionDecision::FallBackToLocal,
                FailureClass::Other => CompactionDecision::Fail,
            }
        },
    }
}

proof fn lemma_filter_keeps_no_snapshot(s: Seq<HistoryItemView>, pred: spec_fn(HistoryItemView) -> bool)
    requires
        forall|i: int| 0 <= i < s.len() ==> !spec_is_ghost_snapshot(#[trigger] s[i]),
    ensures
        forall|i: int|
            0 <= i < s.filter(pred).len() ==> !spec_is_ghost_snapshot(#[trigger] s.filter(pred)[i]),
    decreases s.len(),
{
    reveal(Seq::filter);
    if s.len() > 0 {
        let pre = s.drop_last();
        assert(forall|i: int| 0 <= i < pre.len() ==> pre[i] == #[trigger] s[i]);
        lemma_filter_keeps_no_snapshot(pre, pred);
        if pred(s.last()) {
            let out = s.filter(pred);
            assert(out == pre.filter(pred).push(s.last()));
            assert(forall|i: int|
                0 <= i < out.len() - 1 ==> out[i] == #[trigger] pre.filter(pred)[i]);
            assert(!spec_is_ghost_snapshot(out.last()));
        }
    }
}

proof fn lemma_single_snapshot_filter(pre: Seq<HistoryItemView>, k: int)
    requires
        0 <= k < pre.len(),
        spec_is_ghost_snapshot(pre[k]),
        forall|i: int|
            0 <= i < pre.len() && i != k ==> !spec_is_ghost_snapshot(#[trigger] pre[i]),
    ensures
        pre.filter(snapshot_pred()) == seq![pre[k]],
    decreases pre.len(),
{
    reveal(Seq::filter);
    let head = pre.drop_last();
    assert(forall|i: int| 0 <= i < head.len() ==> head[i] == #[trigger] pre[i]);
    lemma_snapshot_pred_applied(pre.last());
    if k == pre.len() - 1 {
        assert forall|i: int|
            0 <= i < head.len() implies !snapshot_pred()(#[trigger] head[i]) by {
            lemma_snapshot_pred_applied(head[i]);
        }
        lemma_filter_of_none(head, snapshot_pred());
        assert(pre.filter(snapshot_pred()) == head.filter(snapshot_pred()).push(pre[k]));
        assert(Seq::<HistoryItemView>::empty().push(pre[k]) =~~= seq![pre[k]]);
    } else {
        lemma_single_snapshot_filter(head, k);
        assert(head[k] == pre[k]);
        assert(!spec_is_ghost_snapshot(pre.last()));
        assert(pre.filter(snapshot_pred()) == head.filter(snapshot_pred()));
    }
}

proof fn lemma_filter_of_none(s: Seq<HistoryItemView>, pred: spec_fn(HistoryItemView) -> bool)
    requires
        forall|i: int| 0 <= i < s.len() ==> !pred(#[trigger] s[i]),
    ensures
        s.filter(pred) == Seq::<HistoryItemView>::empty(),
    decreases s.len(),
{
    reveal(Seq::filter);
    if s.len() > 0 {
        let head = s.drop_last();
        assert(forall|i: int| 0 <= i < head.len() ==> head[i] == #[trigger] s[i]);
        lemma_filter_of_none(head, pred);
        assert(!pred(s.last()));
    } else {
        assert(s.filter(pred) =~~= Seq::<HistoryItemView>::empty());
    }
}

/// When the remote result carries no ghost snapshot, the inserted
/// instructions item is none or no snapshot, and the pre-compaction history
/// holds exactly one ghost snapshot, the finalized history holds that
/// snapshot exactly once, after every item of the substituted remote result.
pub proof fn lemma_snapshot_carried_exactly_once(
    remote_result: Seq<HistoryItemView>,
    replacement: Option<HistoryItemView>,
    pre_compaction: Seq<HistoryItemView>,
    k: int,
)
    requires
        forall|i: int|
            0 <= i < remote_result.len() ==> !spec_is_ghost_snapshot(#[trigger] remote_result[i]),
        replacement matches Option::Some(r) ==> !spec_is_ghost_snapshot(r),
        0 <= k < pre_compaction.len(),
        spec_is_ghost_snapshot(pre_compaction[k]),
        forall|i: int|
            0 <= i < pre_compaction.len() && i != k ==> !spec_is_ghost_snapshot(
                #[trigger] pre_compaction[i],
            ),
    ensures
        spec_finalized_history(remote_result, replacement, pre_compaction).len()
            == spec_replace_user_instructions(remote_result, replacement).len() + 1,
        spec_finalized_history(remote_result, replacement, pre_compaction).last()
            == pre_compaction[k],
        forall|i: int|
            0 <= i < spec_finalized_history(remote_result, replacement, pre_compaction).len() - 1
                ==> !spec_is_ghost_snapshot(
                #[trigger] spec_finalized_history(remote_result, replacement, pre_compaction)[i],
            ),
{
    lemma_single_snapshot_filter(pre_compaction, k);
    let replaced = spec_replace_user_instructions(remote_result, replacement);
    let fin = spec_finalized_history(remote_result, replacement, pre_compaction);
    assert(fin == replaced + seq![pre_compaction[k]]);
    assert(fin.last() == pre_compaction[k]);
    assert forall|i: int|
        0 <= i < replaced.len() implies !spec_is_ghost_snapshot(#[trigger] replaced[i]) by {
        match replacement {
            Option::None => {
                assert(replaced[i] == remote_result[i]);
            },
            Option::Some(r) => {
                let p = developer_prefix_len(remote_result);
                lemma_developer_prefix_bounds(remote_result);
                let tail = remote_result.skip(p).filter(retained_pred());
                lemma_filter_keeps_no_snapshot(remote_result.skip(p), retained_pred());
                if i < p {
                    assert(replaced[i] == remote_result.take(p)[i]);
                } else if i == p {
                    assert(replaced[i] == r);
                } else {
                    assert(replaced[i] == tail[i - p - 1]);
                }
            },
        }
    }
    assert(forall|i: int| 0 <= i < fin.len() - 1 ==> fin[i] == #[trigger] replaced[i]);
}

proof fn lemma_developer_prefix_bounds(items: Seq<HistoryItemView>)
    ensures
        0 <= developer_prefix_len(items) <= items.len(),
    decreases items.len(),
{
    if items.len() > 0 && spec_is_developer_message(items[0]) {
        lemma_developer_prefix_bounds(items.drop_first());
    }
}

/// Lifecycle of one compaction task run.
#[derive(Clone, Copy, PartialEq, Eq, Structural, Debug)]
pub enum CompactionPhase {
    Idle,
    Running,
    Succeeded,
    FellBackToLocal,
    Failed,
}

/// One observation the state machine advances on.
#[derive(Clone, Copy, PartialEq, Eq, Structural, Debug)]
pub enum CompactionObservation {
    /// The scheduler dispatched the task.
    Started,
    /// The remote call returned a usable history.
    RemoteAccepted,
    /// The remote call failed and was classified a rejection.
    RemoteRejected,
    /// The remote call failed with any other class.
    RemoteFailedOther,
    /// The run's outcome was reported; the task returns to rest.
    Finished,
}

/// The compaction lifecycle: `Idle -> Running -> {Succeeded,
/// FellBackToLocal, Failed} -> Idle`, with exactly one fallback attempt and
/// no retry loop; any other observation leaves the phase unchanged.
pub open spec fn spec_phase_step(
    phase: CompactionPhase,
    observation: CompactionObservation,
) -> CompactionPhase {
    match (phase, observation) {
        (CompactionPhase::Idle, CompactionObservation::Started) => CompactionPhase::Running,
        (CompactionPhase::Running, CompactionObservation::RemoteAccepted) => (
        CompactionPhase::Succeeded),
        (CompactionPhase::Running, CompactionObservation::RemoteRejected) => (
        CompactionPhase::FellBackToLocal),
        (CompactionPhase::Running, CompactionObservation::RemoteFailedOther) => (
        CompactionPhase::Failed),
        (CompactionPhase::Succeeded, CompactionObservation::Finished) => CompactionPhase::Idle,
        (CompactionPhase::FellBackToLocal, CompactionObservation::Finished) => (
        CompactionPhase::Idle),
        (CompactionPhase::Failed, CompactionObservation::Finished) => CompactionPhase::Idle,
        _ => phase,
    }
}

/// Advance the compaction lifecycle by one observation.
pub fn compaction_phase_step(
    phase: CompactionPhase,
    observation: CompactionObservation,
) -> (next: CompactionPhase)
    ensures
        next == spec_phase_step(phase, observation),
{
    match (phase, observation) {
        (CompactionPhase::Idle, CompactionObservation::Started) => CompactionPhase::Running,
        (CompactionPhase::Running, CompactionObservation::RemoteAccepted) => (
        CompactionPhase::Succeeded),
        (CompactionPhase::Running, CompactionObservation::RemoteRejected) => (
        CompactionPhase::FellBackToLocal),
        (CompactionPhase::Running, CompactionObservation::RemoteFailedOther) => (
        CompactionPhase::Failed),
        (CompactionPhase::Succeeded, CompactionObservation::Finished) => CompactionPhase::Idle,
        (CompactionPhase::FellBackToLocal, CompactionObservation::Finished) => (
        CompactionPhase::Idle),
        (CompactionPhase::Failed, CompactionObservation::Finished) => CompactionPhase::Idle,
        _ => phase,
    }
}

/// The instructions that supersede the turn-start value for this compaction
/// only: the freshly re-resolved text when there is one, else the
/// turn-start text.
pub fn effective_user_instructions(
    refreshed: Option<Vec<u8>>,
    turn_start: Option<Vec<u8>>,
) -> (r: Option<Vec<u8>>)
    ensures
        refreshed is Some ==> r.deep_view() == refreshed.deep_view(),
        refreshed is None ==> r.deep_view() == turn_start.deep_view(),
{
    match refreshed {
        Option::Some(text) => Option::Some(text),
        Option::None => turn_start,
    }
}

/// The instructions the remote call is made with: the explicit text handed
/// to the task when there is one, else the turn's default compaction prompt.
pub fn resolve_compaction_instructions(
    explicit: Option<Vec<u8>>,
    turn_default: Option<Vec<u8>>,
) -> (r: Option<Vec<u8>>)
    ensures
        explicit is Some ==> r.deep_view() == explicit.deep_view(),
        explicit is None ==> r.deep_view() == turn_default.deep_view(),
{
    match explicit {
        Option::Some(text) => Option::Some(text),
        Option::None => turn_default,
    }
}

/// The user-instructions message for a working directory and text.
pub open spec fn spec_user_instructions_item(text: Seq<u8>, directory: Seq<u8>) -> HistoryItemView {
    HistoryItemView::Message {
        id: Option::None,
        role: Role::User,
        content: seq![ContentItemView::UserInstructions { directory, text }],
    }
}

/// Build the user-instructions message that the substitution pass inserts.
pub fn user_instructions_item(text: &Vec<u8>, directory: &Vec<u8>) -> (r: HistoryItem)
    ensures
        r.deep_view() == spec_user_instructions_item(text@, directory@),
{
    let mut content: Vec<ContentItem> = Vec::new();
    content.push(
        ContentItem::UserInstructions {
            directory: copy_bytes(directory),
            text: copy_bytes(text),
        },
    );
    let r = HistoryItem::Message { id: Option::None, role: Role::User, content };
    proof {
        assert(r.deep_view() matches HistoryItemView::Message { content: c, .. } ==> c
            =~= seq![ContentItemView::UserInstructions { directory: directory@, text: text@ }]);
    }
    r
}

} // verus!
