use kuku::handoff::HandoffDetector;

#[test]
fn handoff_tag_detection_simple() {
    let mut state = HandoffDetector::new();
    assert_eq!(state.process("Hello "), Some("Hello ".to_string()));
    assert_eq!(state.process("<kuku_handoff>"), None);
    assert_eq!(state.process("## Goal\nDo stuff"), None);
    assert_eq!(state.process("</kuku_handoff>"), None);
    assert_eq!(state.finish(), Some("## Goal\nDo stuff".to_string()));
}

#[test]
fn handoff_tag_split_across_chunks() {
    let mut state = HandoffDetector::new();
    assert_eq!(
        state.process("reply text<kuku_"),
        Some("reply text".to_string())
    );
    assert_eq!(state.process("handoff>summary</kuku_handoff>"), None);
    assert_eq!(state.finish(), Some("summary".to_string()));
}

#[test]
fn visible_text_before_handoff_tag_in_same_chunk_is_returned() {
    let mut state = HandoffDetector::new();
    assert_eq!(
        state.process("reply text\n\n<kuku_handoff>summary</kuku_handoff>"),
        Some("reply text".to_string())
    );
    assert_eq!(state.finish(), Some("summary".to_string()));
}

#[test]
fn incomplete_handoff_start_tag_is_suppressed_on_finish() {
    let mut state = HandoffDetector::new();
    assert_eq!(
        state.process("reply text\n\n<kuku_handoff"),
        Some("reply text".to_string())
    );
    assert_eq!(state.finish(), None);
}

#[test]
fn no_handoff_tag_returns_none_on_finish() {
    let mut state = HandoffDetector::new();
    assert_eq!(
        state.process("just normal text"),
        Some("just normal text".to_string())
    );
    assert_eq!(state.finish(), None);
}

#[test]
fn handoff_close_tag_split_across_chunks() {
    let mut state = HandoffDetector::new();
    assert_eq!(
        state.process("text<kuku_handoff>body"),
        Some("text".to_string())
    );
    assert_eq!(state.process("more</kuku_hand"), None);
    assert_eq!(state.process("off>rest"), None);
    assert_eq!(state.finish(), Some("bodymore".to_string()));
}

#[test]
fn false_start_tag_recovered() {
    let mut state = HandoffDetector::new();
    assert_eq!(state.process("hello <not"), Some("hello <not".to_string()));
    assert_eq!(state.finish(), None);
}

#[test]
fn chunking_does_not_change_the_summary() {
    let text = "intro <kuku_handoff>the summary</kuku_handoff> tail";
    let mut whole = HandoffDetector::new();
    let _ = whole.process(text);
    let mut parts = HandoffDetector::new();
    for ch in text.chars() {
        let _ = parts.process(&ch.to_string());
    }
    assert_eq!(whole.finish(), parts.finish());
}

#[test]
fn detector_is_done_after_close_tag() {
    let mut state = HandoffDetector::new();
    assert!(!state.is_done());
    let _ = state.process("<kuku_handoff>x</kuku_handoff>");
    assert!(state.is_done());
    assert_eq!(state.process("ignored"), None);
    assert_eq!(state.finish(), Some("x".to_string()));
}
