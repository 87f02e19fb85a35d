use codex_compaction::items::ContentItem;
use codex_compaction::items::EventMsg;
use codex_compaction::items::HistoryItem;
use codex_compaction::items::Role;
use codex_compaction::items::RolloutItem;
use codex_compaction::items::RolloutLine;
use codex_compaction::items::ToolCallOutput;
use codex_compaction::seed::extract_between_last_two_context_compactions;
use codex_compaction::seed::sanitize_for_seed;
use codex_compaction::seed::strip_tool_output_telemetry;

fn bytes(s: &str) -> Vec<u8> {
    s.as_bytes().to_vec()
}

fn contains_sub(hay: &[u8], needle: &str) -> bool {
    let n = needle.as_bytes();
    if n.is_empty() {
        return true;
    }
    hay.windows(n.len()).any(|w| w == n)
}

fn user_message(text: &str) -> HistoryItem {
    HistoryItem::Message {
        id: None,
        role: Role::User,
        content: vec![ContentItem::InputText { text: bytes(text) }],
    }
}

fn response_line(ts: &str, item: HistoryItem) -> RolloutLine {
    RolloutLine {
        timestamp: bytes(ts),
        item: RolloutItem::ResponseItem(item),
    }
}

fn checkpoint_line(ts: &str) -> RolloutLine {
    RolloutLine {
        timestamp: bytes(ts),
        item: RolloutItem::EventMsg(EventMsg::ContextCompacted),
    }
}

#[test]
fn extracts_last_segment_between_context_compactions() {
    let lines = vec![
        response_line("t0", user_message("before")),
        checkpoint_line("t1"),
        response_line("t2", user_message("keep-1")),
        response_line("t3", user_message("keep-2")),
        checkpoint_line("t4"),
        response_line("t5", user_message("after")),
    ];

    let got = extract_between_last_two_context_compactions(&lines);
    let got_items: Vec<_> = got.into_iter().map(|l| l.item).collect();
    let expected = vec![
        RolloutItem::ResponseItem(user_message("keep-1")),
        RolloutItem::ResponseItem(user_message("keep-2")),
    ];
    assert_eq!(got_items, expected);
}

#[test]
fn strips_tool_output_telemetry_but_keeps_exit_code() {
    let raw = bytes(
        "Chunk ID: abc\nWall time: 1.2 seconds\nProcess exited with code 7\nOriginal token count: 123\nOutput:\nhello\nTotal output lines: 5\n",
    );
    let cleaned = strip_tool_output_telemetry(&raw);
    assert!(!contains_sub(&cleaned, "Chunk ID:"));
    assert!(!contains_sub(&cleaned, "Wall time:"));
    assert!(!contains_sub(&cleaned, "Original token count:"));
    assert!(!contains_sub(&cleaned, "Total output lines:"));
    assert!(contains_sub(&cleaned, "Process exited with code 7"));
    assert!(contains_sub(&cleaned, "hello"));
    assert_eq!(cleaned, bytes("Process exited with code 7\nOutput:\nhello"));
}

#[test]
fn sanitize_for_seed_drops_reasoning_and_sanitizes_tool_output() {
    let tool_output = ToolCallOutput {
        content: bytes("Chunk ID: a\nProcess exited with code 0\nWall time: 0.1 seconds\nOutput:\nok\n"),
        success: None,
    };
    let segment = vec![
        response_line(
            "t1",
            HistoryItem::Reasoning {
                id: bytes("r"),
                summary: Vec::new(),
                content: None,
                encrypted_content: None,
            },
        ),
        response_line(
            "t2",
            HistoryItem::FunctionCallOutput {
                call_id: bytes("c1"),
                output: tool_output,
            },
        ),
    ];

    let got = sanitize_for_seed(&segment);
    let got_items: Vec<_> = got.into_iter().map(|l| l.item).collect();

    let expected = vec![RolloutItem::ResponseItem(HistoryItem::FunctionCallOutput {
        call_id: bytes("c1"),
        output: ToolCallOutput {
            content: bytes("Process exited with code 0\nOutput:\nok"),
            success: None,
        },
    })];
    assert_eq!(got_items, expected);
}

#[test]
fn extraction_of_journal_without_checkpoints_is_empty() {
    let lines = vec![
        response_line("t0", user_message("a")),
        response_line("t1", user_message("b")),
    ];
    assert!(extract_between_last_two_context_compactions(&lines).is_empty());
    let empty: Vec<RolloutLine> = Vec::new();
    assert!(extract_between_last_two_context_compactions(&empty).is_empty());
}

#[test]
fn extraction_with_single_checkpoint_returns_prefix() {
    let lines = vec![
        response_line("t0", user_message("a")),
        response_line("t1", user_message("b")),
        checkpoint_line("t2"),
        response_line("t3", user_message("c")),
    ];
    let got = extract_between_last_two_context_compactions(&lines);
    assert_eq!(got, vec![lines[0].clone(), lines[1].clone()]);
}

#[test]
fn extraction_with_leading_checkpoint_is_empty() {
    let lines = vec![checkpoint_line("t0"), response_line("t1", user_message("a"))];
    assert!(extract_between_last_two_context_compactions(&lines).is_empty());
}

#[test]
fn extraction_with_adjacent_checkpoints_is_empty() {
    let lines = vec![
        response_line("t0", user_message("a")),
        checkpoint_line("t1"),
        checkpoint_line("t2"),
    ];
    assert!(extract_between_last_two_context_compactions(&lines).is_empty());
}

#[test]
fn sanitize_drops_event_compacted_and_marker_records() {
    let segment = vec![
        checkpoint_line("t0"),
        RolloutLine {
            timestamp: bytes("t1"),
            item: RolloutItem::Compacted(codex_compaction::items::CompactedItem {
                message: bytes("m"),
                replacement_history: None,
            }),
        },
        response_line("t2", HistoryItem::CompactionMarker { message: bytes("x") }),
        response_line("t3", HistoryItem::Other),
        response_line("t4", user_message("kept")),
        response_line("t5", HistoryItem::GhostSnapshot { id: bytes("g") }),
    ];
    let got = sanitize_for_seed(&segment);
    let got_items: Vec<_> = got.into_iter().map(|l| l.item).collect();
    let expected = vec![
        RolloutItem::ResponseItem(HistoryItem::Other),
        RolloutItem::ResponseItem(user_message("kept")),
        RolloutItem::ResponseItem(HistoryItem::GhostSnapshot { id: bytes("g") }),
    ];
    assert_eq!(got_items, expected);
}

#[test]
fn sanitize_twice_equals_sanitize_once() {
    let segment = vec![
        response_line(
            "t1",
            HistoryItem::FunctionCallOutput {
                call_id: bytes("c"),
                output: ToolCallOutput {
                    content: bytes("Wall time: 3 seconds\nline one  \nline two\n"),
                    success: Some(true),
                },
            },
        ),
        response_line("t2", user_message("hello")),
        response_line(
            "t3",
            HistoryItem::CustomToolCallOutput {
                call_id: bytes("c2"),
                output: bytes("Total output lines: 9\nok"),
            },
        ),
        response_line("t4", HistoryItem::Other),
    ];
    let once = sanitize_for_seed(&segment);
    let twice = sanitize_for_seed(&once);
    assert_eq!(twice, once);
}

#[test]
fn custom_tool_output_telemetry_is_stripped() {
    let segment = vec![response_line(
        "t1",
        HistoryItem::CustomToolCallOutput {
            call_id: bytes("c2"),
            output: bytes("Chunk ID: z\nreal output"),
        },
    )];
    let got = sanitize_for_seed(&segment);
    assert_eq!(
        got[0].item,
        RolloutItem::ResponseItem(HistoryItem::CustomToolCallOutput {
            call_id: bytes("c2"),
            output: bytes("real output"),
        })
    );
}

#[test]
fn strip_trims_line_ends_and_keeps_blank_interior_lines() {
    let raw = bytes("first  \r\n\nsecond\n");
    let cleaned = strip_tool_output_telemetry(&raw);
    assert_eq!(cleaned, bytes("first\n\nsecond"));
}
