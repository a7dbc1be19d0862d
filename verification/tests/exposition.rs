use llama_adapter::exposition::exposition_text;

#[test]
fn reserved_prefix_is_normalized() {
    assert_eq!(
        exposition_text("llamacpp:a 1\n# TYPE llamacpp:b gauge\n").as_deref(),
        Some("llamacpp_a 1\n# TYPE llamacpp_b gauge\n")
    );
    assert_eq!(exposition_text("llamacpp:llamacpp:").as_deref(), Some("llamacpp_llamacpp_"));
    assert_eq!(exposition_text("lamacpp:x llamacpp :").as_deref(), Some("lamacpp:x llamacpp :"));
    assert_eq!(exposition_text("é:llamacpp:é").as_deref(), Some("é:llamacpp_é"));
    assert_eq!(exposition_text("").as_deref(), Some(""));
    assert_eq!(exposition_text(":").as_deref(), Some(":"));
}

#[test]
fn a_json_error_is_no_exposition_text() {
    assert_eq!(exposition_text("{\"error\":{\"code\":501}}"), None);
    assert_eq!(exposition_text(" \r\n\t{}"), None);
    assert_eq!(exposition_text("a{b=\"c\"} 1").as_deref(), Some("a{b=\"c\"} 1"));
}
