use beam_agent::clipboard_sync::{
    build_clipboard_payload, classify_clipboard_read_result, ClipboardSyncDispatch,
    MAX_CLIPBOARD_BYTES,
};

#[test]
fn build_payload_normal_text() {
    let payload = build_clipboard_payload("hello world").expect("payload");
    // The JSON wraps the text in a fixed envelope; assert both shape and content.
    let parsed: serde_json::Value = serde_json::from_str(&payload).unwrap();
    assert_eq!(parsed["t"], "c");
    assert_eq!(parsed["text"], "hello world");
}

#[test]
fn build_payload_empty_returns_none() {
    // Empty clipboard contents must never be sent; the browser treats a
    // missing payload as "nothing changed".
    assert_eq!(build_clipboard_payload(""), None);
}

#[test]
fn build_payload_exact_max_size_is_accepted() {
    let text: String = "a".repeat(MAX_CLIPBOARD_BYTES);
    let payload = build_clipboard_payload(&text);
    assert!(
        payload.is_some(),
        "Payload at the exact size limit must pass"
    );
}

#[test]
fn build_payload_oversize_returns_none() {
    // 1 byte over the limit must be silently dropped to prevent the
    // browser from receiving a frame it would reject.
    let text: String = "a".repeat(MAX_CLIPBOARD_BYTES + 1);
    assert_eq!(build_clipboard_payload(&text), None);
}

#[test]
fn build_payload_unicode_is_preserved() {
    let text = "Hei verden! \u{1F600} \u{00E6}\u{00F8}\u{00E5}";
    let payload = build_clipboard_payload(text).expect("payload");
    let parsed: serde_json::Value = serde_json::from_str(&payload).unwrap();
    assert_eq!(parsed["text"].as_str().unwrap(), text);
}

#[test]
fn build_payload_embedded_quotes_are_escaped() {
    // serde_json escapes quotes — verify the round trip preserves the
    // exact bytes so the browser receives the canonical text.
    let text = r#"He said "hello""#;
    let payload = build_clipboard_payload(text).expect("payload");
    let parsed: serde_json::Value = serde_json::from_str(&payload).unwrap();
    assert_eq!(parsed["text"].as_str().unwrap(), text);
}

#[test]
fn build_payload_newlines_round_trip() {
    let text = "line one\nline two\r\nline three";
    let payload = build_clipboard_payload(text).expect("payload");
    let parsed: serde_json::Value = serde_json::from_str(&payload).unwrap();
    assert_eq!(parsed["text"].as_str().unwrap(), text);
}

#[test]
fn build_payload_envelope_shape_is_stable() {
    // Lock the wire envelope: t=c, text=<contents>, no other fields.
    // The browser parses by exact key name, so the shape MUST NOT drift.
    let payload = build_clipboard_payload("x").expect("payload");
    let parsed: serde_json::Value = serde_json::from_str(&payload).unwrap();
    let obj = parsed.as_object().expect("payload is JSON object");
    let mut keys: Vec<&String> = obj.keys().collect();
    keys.sort();
    assert_eq!(keys, vec![&"t".to_string(), &"text".to_string()]);
}

#[test]
fn build_payload_single_char_is_accepted() {
    // A single character is the smallest non-empty payload.
    let payload = build_clipboard_payload("x").expect("payload");
    let parsed: serde_json::Value = serde_json::from_str(&payload).unwrap();
    assert_eq!(parsed["text"], "x");
}

#[test]
fn build_payload_just_under_max_size_accepted() {
    // MAX-1 bytes is still inside the window.
    let text: String = "a".repeat(MAX_CLIPBOARD_BYTES - 1);
    assert!(build_clipboard_payload(&text).is_some());
}

#[test]
fn max_clipboard_bytes_constant() {
    // Lock the limit at 1 MiB. Browser-side enforces the same value.
    assert_eq!(MAX_CLIPBOARD_BYTES, 1_048_576);
}

#[test]
fn classify_clipboard_read_some_text_returns_send() {
    let r = classify_clipboard_read_result(Ok(Some("hello".into())));
    match r {
        ClipboardSyncDispatch::Send { payload, len } => {
            assert_eq!(len, 5);
            assert!(payload.contains("hello"));
            // Payload is JSON with {"t":"c","text":"..."}.
            let parsed: serde_json::Value = serde_json::from_str(&payload).unwrap();
            assert_eq!(parsed["t"], "c");
            assert_eq!(parsed["text"], "hello");
        }
        other => panic!("expected Send, got {other:?}"),
    }
}

#[test]
fn classify_clipboard_read_empty_string_returns_empty() {
    let r = classify_clipboard_read_result(Ok(Some(String::new())));
    assert_eq!(r, ClipboardSyncDispatch::Empty);
}

#[test]
fn classify_clipboard_read_none_returns_empty() {
    let r = classify_clipboard_read_result(Ok(None));
    assert_eq!(r, ClipboardSyncDispatch::Empty);
}

#[test]
fn classify_clipboard_read_error_returns_read_error() {
    let r = classify_clipboard_read_result(Err("xclip blew up".to_string()));
    match r {
        ClipboardSyncDispatch::ReadError(e) => assert!(e.contains("xclip blew up")),
        other => panic!("expected ReadError, got {other:?}"),
    }
}

#[test]
fn classify_clipboard_read_oversize_returns_oversize() {
    let huge = "x".repeat(MAX_CLIPBOARD_BYTES + 1);
    let r = classify_clipboard_read_result(Ok(Some(huge)));
    assert_eq!(r, ClipboardSyncDispatch::Oversize);
}

#[test]
fn classify_clipboard_read_exactly_at_limit_returns_send() {
    let at_limit = "x".repeat(MAX_CLIPBOARD_BYTES);
    let r = classify_clipboard_read_result(Ok(Some(at_limit)));
    match r {
        ClipboardSyncDispatch::Send { len, .. } => {
            assert_eq!(len, MAX_CLIPBOARD_BYTES);
        }
        other => panic!("expected Send, got {other:?}"),
    }
}

#[test]
fn clipboard_sync_dispatch_equality() {
    assert_eq!(ClipboardSyncDispatch::Empty, ClipboardSyncDispatch::Empty);
    assert_eq!(
        ClipboardSyncDispatch::Oversize,
        ClipboardSyncDispatch::Oversize
    );
    assert_eq!(
        ClipboardSyncDispatch::ReadError("e".into()),
        ClipboardSyncDispatch::ReadError("e".into())
    );
    assert_ne!(
        ClipboardSyncDispatch::Empty,
        ClipboardSyncDispatch::Oversize
    );
}

#[test]
fn payload_is_the_exact_message() {
    assert_eq!(
        build_clipboard_payload("say \"hi\"\n\u{1}").as_deref(),
        Some("{\"t\":\"c\",\"text\":\"say \\\"hi\\\"\\n\\u0001\"}")
    );
}

#[test]
fn size_is_counted_in_bytes() {
    // Two bytes each in UTF-8.
    let text = "\u{00E5}".repeat(MAX_CLIPBOARD_BYTES / 2);
    match classify_clipboard_read_result(Ok(Some(text.clone()))) {
        ClipboardSyncDispatch::Send { len, .. } => assert_eq!(len, MAX_CLIPBOARD_BYTES),
        other => panic!("expected Send, got {other:?}"),
    }
    assert_eq!(build_clipboard_payload(&(text + "x")), None);
}

#[test]
fn different_texts_make_different_messages() {
    let texts = ["\\n", "\n", "\"", "\\\"", "\u{8}", "\\b"];
    for a in texts {
        for b in texts {
            assert_eq!(
                a == b,
                build_clipboard_payload(a) == build_clipboard_payload(b)
            );
        }
    }
}
