use codex_compaction::compact_remote::classify_remote_failure;
use codex_compaction::compact_remote::compaction_phase_step;
use codex_compaction::compact_remote::decide_after_remote;
use codex_compaction::compact_remote::effective_user_instructions;
use codex_compaction::compact_remote::is_developer_message;
use codex_compaction::compact_remote::is_user_instructions_message;
use codex_compaction::compact_remote::replace_user_instructions_items;
use codex_compaction::compact_remote::user_instructions_item;
use codex_compaction::compact_remote::CompactionDecision;
use codex_compaction::compact_remote::CompactionObservation;
use codex_compaction::compact_remote::CompactionPhase;
use codex_compaction::compact_remote::FailureClass;
use codex_compaction::compact_remote::RemoteFailure;
use codex_compaction::dispatch::first_text_input;
use codex_compaction::dispatch::CompactTask;
use codex_compaction::dispatch::CompactionStrategy;
use codex_compaction::dispatch::TaskInput;
use codex_compaction::dispatch::TaskKind;
use codex_compaction::history::History;
use codex_compaction::home::resolve_config_home;
use codex_compaction::home::HomeResolution;
use codex_compaction::items::ContentItem;
use codex_compaction::items::HistoryItem;
use codex_compaction::items::Role;
use codex_compaction::journal::frame_journal_records;
use codex_compaction::journal::split_journal_text;

fn text_of(s: &str) -> Vec<u8> {
    s.as_bytes().to_vec()
}

fn plain_message(role: Role, text: &str) -> HistoryItem {
    HistoryItem::Message {
        id: None,
        role,
        content: vec![ContentItem::InputText { text: text_of(text) }],
    }
}

#[test]
fn client_error_status_falls_back_to_local() {
    let pre = vec![plain_message(Role::User, "hi")];
    let d = decide_after_remote(
        Err(RemoteFailure::Status {
            code: 422,
            detail: text_of("unprocessable"),
        }),
        None,
        &pre,
    );
    assert_eq!(d, CompactionDecision::FallBackToLocal);

    let d = decide_after_remote(
        Err(RemoteFailure::MalformedRequest {
            detail: text_of("bad shape"),
        }),
        None,
        &pre,
    );
    assert_eq!(d, CompactionDecision::FallBackToLocal);
}

#[test]
fn other_failures_fail_without_fallback() {
    let pre = vec![plain_message(Role::User, "hi")];
    let d = decide_after_remote(
        Err(RemoteFailure::Status {
            code: 500,
            detail: text_of("server"),
        }),
        None,
        &pre,
    );
    assert_eq!(d, CompactionDecision::Fail);

    let d = decide_after_remote(
        Err(RemoteFailure::Other {
            detail: text_of("timeout"),
        }),
        None,
        &pre,
    );
    assert_eq!(d, CompactionDecision::Fail);
}

#[test]
fn failure_classification_boundaries() {
    let reject = |code: u16| {
        classify_remote_failure(&RemoteFailure::Status {
            code,
            detail: Vec::new(),
        })
    };
    assert_eq!(reject(400), FailureClass::RequestRejected);
    assert_eq!(reject(499), FailureClass::RequestRejected);
    assert_eq!(reject(399), FailureClass::Other);
    assert_eq!(reject(500), FailureClass::Other);
}

#[test]
fn ghost_snapshot_is_carried_forward_exactly_once() {
    let snapshot = HistoryItem::GhostSnapshot { id: text_of("g1") };
    let pre = vec![
        plain_message(Role::User, "old"),
        snapshot.clone(),
        plain_message(Role::Assistant, "reply"),
    ];
    let remote_result = vec![plain_message(Role::Assistant, "summary")];
    let d = decide_after_remote(Ok(remote_result), None, &pre);
    match d {
        CompactionDecision::Commit { new_history } => {
            assert_eq!(
                new_history,
                vec![plain_message(Role::Assistant, "summary"), snapshot.clone()]
            );
            let count = new_history
                .iter()
                .filter(|it| matches!(it, HistoryItem::GhostSnapshot { .. }))
                .count();
            assert_eq!(count, 1);
        }
        _ => panic!("expected a commit"),
    }
}

#[test]
fn refreshed_instructions_supersede_turn_start_text() {
    let refreshed = effective_user_instructions(Some(text_of("new text")), Some(text_of("old text")));
    assert_eq!(refreshed, Some(text_of("new text")));
    let kept = effective_user_instructions(None, Some(text_of("old text")));
    assert_eq!(kept, Some(text_of("old text")));

    let replacement = user_instructions_item(&text_of("new text"), &text_of("/work"));
    let items = vec![
        plain_message(Role::Developer, "dev-1"),
        plain_message(Role::Developer, "dev-2"),
        user_instructions_item(&text_of("old text"), &text_of("/work")),
        plain_message(Role::User, "question"),
        user_instructions_item(&text_of("legacy dup"), &text_of("/work")),
    ];
    let got = replace_user_instructions_items(items, Some(replacement.clone()));
    let expected = vec![
        plain_message(Role::Developer, "dev-1"),
        plain_message(Role::Developer, "dev-2"),
        replacement,
        plain_message(Role::User, "question"),
    ];
    assert_eq!(got, expected);
}

#[test]
fn replacement_absent_leaves_items_unchanged() {
    let items = vec![
        plain_message(Role::Developer, "dev"),
        plain_message(Role::User, "question"),
    ];
    let got = replace_user_instructions_items(items.clone(), None);
    assert_eq!(got, items);
}

#[test]
fn message_predicates_recognize_roles() {
    assert!(is_developer_message(&plain_message(Role::Developer, "d")));
    assert!(!is_developer_message(&plain_message(Role::User, "u")));
    let ui = user_instructions_item(&text_of("t"), &text_of("/w"));
    assert!(is_user_instructions_message(&ui));
    assert!(!is_user_instructions_message(&plain_message(Role::User, "u")));
}

#[test]
fn phase_machine_runs_one_fallback_and_returns_to_idle() {
    let p = compaction_phase_step(CompactionPhase::Idle, CompactionObservation::Started);
    assert_eq!(p, CompactionPhase::Running);
    let s = compaction_phase_step(p, CompactionObservation::RemoteAccepted);
    assert_eq!(s, CompactionPhase::Succeeded);
    let f = compaction_phase_step(p, CompactionObservation::RemoteRejected);
    assert_eq!(f, CompactionPhase::FellBackToLocal);
    let e = compaction_phase_step(p, CompactionObservation::RemoteFailedOther);
    assert_eq!(e, CompactionPhase::Failed);
    assert_eq!(
        compaction_phase_step(s, CompactionObservation::Finished),
        CompactionPhase::Idle
    );
    assert_eq!(
        compaction_phase_step(f, CompactionObservation::Finished),
        CompactionPhase::Idle
    );
    assert_eq!(
        compaction_phase_step(f, CompactionObservation::RemoteRejected),
        f
    );
}

#[test]
fn task_wrapper_picks_strategy_and_first_text() {
    let task = CompactTask;
    assert_eq!(task.kind(), TaskKind::Compact);
    assert_eq!(task.select_strategy(true), CompactionStrategy::Remote);
    assert_eq!(task.select_strategy(false), CompactionStrategy::Local);

    let inputs = vec![
        TaskInput::Image { url: text_of("img://x") },
        TaskInput::Other,
        TaskInput::Text { text: text_of("please compact") },
        TaskInput::Text { text: text_of("second") },
    ];
    assert_eq!(first_text_input(&inputs), Some(text_of("please compact")));
    let none = vec![TaskInput::Image { url: text_of("img://x") }];
    assert_eq!(first_text_input(&none), None);
    assert_eq!(first_text_input(&Vec::new()), None);
}

#[test]
fn history_snapshot_and_atomic_replace() {
    let mut history = History::new();
    assert_eq!(history.len(), 0);
    history.append(plain_message(Role::User, "one"));
    history.append(plain_message(Role::Assistant, "two"));
    let snap = history.snapshot();
    assert_eq!(snap.len(), 2);
    history.replace_all(vec![plain_message(Role::Assistant, "summary")]);
    assert_eq!(history.len(), 1);
    assert_eq!(snap[0], plain_message(Role::User, "one"));
    assert_eq!(
        history.raw_items()[0],
        plain_message(Role::Assistant, "summary")
    );
}

#[test]
fn config_home_resolution_order() {
    let got = resolve_config_home(Some(text_of("/a")), Some(text_of("/b")), Some(text_of("/home/u")));
    assert_eq!(got, HomeResolution::Canonicalize { path: text_of("/a") });
    let got = resolve_config_home(Some(Vec::new()), Some(text_of("/b")), None);
    assert_eq!(got, HomeResolution::Canonicalize { path: text_of("/b") });
    let got = resolve_config_home(None, None, Some(text_of("/home/u")));
    assert_eq!(got, HomeResolution::Default { path: text_of("/home/u/.codexx") });
    let got = resolve_config_home(None, Some(Vec::new()), None);
    assert_eq!(got, HomeResolution::NotFound);
}

#[test]
fn journal_framing_round_trips_records() {
    let records = vec![text_of("{\"a\":1}"), text_of("{\"b\":2}")];
    let framed = frame_journal_records(&records);
    assert_eq!(framed, text_of("{\"a\":1}\n{\"b\":2}\n"));
    let back = split_journal_text(&framed);
    assert_eq!(back, records);
}

#[test]
fn journal_read_skips_blank_lines() {
    let text = text_of("\n{\"a\":1}\n   \n\t\n{\"b\":2}\n\n");
    let got = split_journal_text(&text);
    assert_eq!(got, vec![text_of("{\"a\":1}"), text_of("{\"b\":2}")]);
}
