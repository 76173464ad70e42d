use swiftcast::context::ResponseBuilder;
use swiftcast::sse::{apply_event, chunk_text, ends_turn, scan_chunk, scan_line, LineBuffer, SseEvent, StreamAction};
use swiftcast::step_tracker::{is_test_command, tool_to_step_type, StepTracker, StepType};

#[test]
fn sse_usage_extraction_scenario() {
    let mut buf = LineBuffer::new();
    let chunks: Vec<&[u8]> = vec![
        b"event: message_start\ndata: {\"type\":\"message_start\",\"message\":{\"id\":\"m\"}}\n\n",
        b"event: content_block_delta\ndata: {\"type\":\"content_block_delta\",\"delta\":{\"text\":\"Hello\"}}\n\n",
        b"event: message_delta\ndata: {\"type\":\"message_delta\",\"delta\":{\"stop_reason\":\"end_turn\"},\"usage\":{\"input_tokens\":12,\"output_tokens\":1}}\n\n",
    ];
    let mut texts = Vec::new();
    let mut usages = Vec::new();
    for c in chunks {
        for e in scan_chunk(&mut buf, c) {
            match e {
                SseEvent::TextDelta(t) => texts.push(t),
                SseEvent::Usage { input_tokens, output_tokens, stop_reason } => {
                    usages.push((input_tokens, output_tokens, stop_reason))
                }
                _ => {}
            }
        }
    }
    assert_eq!(texts, vec!["Hello".to_string()]);
    assert_eq!(usages, vec![(12, 1, Some("end_turn".to_string()))]);
}

#[test]
fn lines_split_across_chunks_are_joined() {
    let mut buf = LineBuffer::new();
    let first = scan_chunk(&mut buf, b"data: {\"type\":\"content_block_delta\",\"del");
    assert!(first.is_empty());
    let second = scan_chunk(&mut buf, b"ta\":{\"text\":\"Hi\"}}\n");
    assert_eq!(second.len(), 1);
    assert!(matches!(&second[0], SseEvent::TextDelta(t) if t == "Hi"));
}

#[test]
fn tool_use_and_noise() {
    let e = scan_line(br#"data: {"type":"content_block_start","content_block":{"type":"tool_use","name":"Bash","input":{"command":"cargo test"}}}"#);
    match e {
        SseEvent::ToolUse { name, command } => {
            assert_eq!(name, "Bash");
            assert_eq!(command.as_deref(), Some("cargo test"));
        }
        other => panic!("unexpected {:?}", other),
    }
    assert!(matches!(scan_line(b"event: ping"), SseEvent::Other));
    assert!(matches!(scan_line(b"data: {not json"), SseEvent::Other));
    assert!(matches!(scan_line(&[b'd', b'a', b't', b'a', b':', b' ', 0xff, 0xfe]), SseEvent::Other));
    let stop = scan_line(br#"data: {"type":"message_stop","message":{"stop_reason":"max_tokens","usage":{"input_tokens":3,"output_tokens":4}}}"#);
    assert!(matches!(stop, SseEvent::Usage { input_tokens: 3, output_tokens: 4, stop_reason: Some(ref s) } if s == "max_tokens"));
    let only_reason = scan_line(br#"data: {"type":"message_delta","delta":{"stop_reason":"tool_use"}}"#);
    assert!(matches!(only_reason, SseEvent::Usage { input_tokens: 0, output_tokens: 0, stop_reason: Some(ref s) } if s == "tool_use"));
}

#[test]
fn tools_map_to_phases() {
    assert_eq!(tool_to_step_type("Read", None), Some(StepType::Analysis));
    assert_eq!(tool_to_step_type("TaskCreate", None), Some(StepType::Design));
    assert_eq!(tool_to_step_type("Edit", None), Some(StepType::Implementation));
    assert_eq!(tool_to_step_type("Bash", Some("ls -la")), Some(StepType::Implementation));
    assert_eq!(tool_to_step_type("Bash", Some("Cargo Test --all")), Some(StepType::Verification));
    assert_eq!(tool_to_step_type("Bash", Some("npx jest")), Some(StepType::Verification));
    assert_eq!(tool_to_step_type("AskUserQuestion", None), None);
    assert!(!is_test_command(None));
}

#[test]
fn phase_changes_complete_the_previous_phase() {
    let mut t = StepTracker::new();
    let (done, now) = t.process_tool_use("s", "Read", None);
    assert!(done.is_none());
    let now = now.unwrap();
    assert_eq!(now.step_type, "ANALYSIS");
    assert_eq!(now.status, "IN_PROGRESS");
    assert_eq!(now.message.as_deref(), Some("Started analysis with Read"));
    let (done, now) = t.process_tool_use("s", "Grep", None);
    assert!(done.is_none());
    assert_eq!(now.unwrap().message.as_deref(), Some("Using Grep"));
    let (done, now) = t.process_tool_use("s", "Edit", None);
    let done = done.unwrap();
    assert_eq!(done.step_type, "ANALYSIS");
    assert_eq!(done.status, "COMPLETED");
    assert_eq!(done.progress, Some(100));
    assert_eq!(now.unwrap().step_type, "IMPLEMENTATION");
    assert_eq!(t.get_completed_steps("s"), vec![StepType::Analysis]);
    let end = t.complete_current_step("s").unwrap();
    assert_eq!(end.step_type, "IMPLEMENTATION");
    assert_eq!(t.get_completed_steps("s"), vec![StepType::Analysis, StepType::Implementation]);
    assert!(t.complete_current_step("s").is_none());
    assert!(t.get_completed_steps("other").is_empty());
    t.clear_session("s");
    assert!(t.get_completed_steps("s").is_empty());
    let (a, b) = t.process_tool_use("s", "Skill", None);
    assert!(a.is_none() && b.is_none());
}

#[test]
fn stream_steps_keep_the_last_stop_reason() {
    let mut b = ResponseBuilder::new(200, 0);
    assert!(matches!(apply_event(&mut b, SseEvent::TextDelta("Hi".to_string())), StreamAction::Text(t) if t == "Hi"));
    apply_event(&mut b, SseEvent::Usage { input_tokens: 12, output_tokens: 1, stop_reason: Some("end_turn".to_string()) });
    apply_event(&mut b, SseEvent::Usage { input_tokens: 12, output_tokens: 2, stop_reason: None });
    assert!(ends_turn(&b));
    assert_eq!((b.input_tokens, b.output_tokens), (12, 2));
    assert_eq!(b.response_text, "Hi");
}

#[test]
fn chunk_text_joins_the_deltas_of_a_chunk() {
    let mut buf = LineBuffer::new();
    let chunk = b"event: message_start\ndata: {\"type\":\"message_start\"}\n\ndata: {\"type\":\"content_block_delta\",\"delta\":{\"text\":\"He\"}}\ndata: {\"type\":\"content_block_start\",\"delta\":{\"text\":\"no\"}}\ndata: {\"type\":\"content_block_delta\",\"delta\":{\"text\":\"llo\"}}\n";
    let events = scan_chunk(&mut buf, chunk);
    assert_eq!(chunk_text(&events), Some("Hello".to_string()));
    assert!(!events.iter().any(|e| matches!(e, SseEvent::Usage { .. })));
    let mut buf = LineBuffer::new();
    assert_eq!(chunk_text(&scan_chunk(&mut buf, b"event: ping\n\n")), None);
}
