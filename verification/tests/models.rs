use codex_mcp::models::format_timestamp;
use codex_mcp::models::generate_timestamp;
use codex_mcp::models::should_serialize_reasoning_content;
use codex_mcp::models::ContentItem;
use codex_mcp::models::FunctionCallOutputPayload;
use codex_mcp::models::InputItem;
use codex_mcp::models::ReasoningItemContent;
use codex_mcp::models::ResponseInputItem;
use codex_mcp::models::ResponseItem;
use codex_mcp::models::UtcParts;

#[test]
fn generate_timestamp_format() {
    let timestamp = generate_timestamp();

    // Should be valid ISO 8601 format: YYYY-MM-DDTHH:MM:SS.sssZ
    let parts: Vec<&str> = timestamp.split('T').collect();
    assert_eq!(parts.len(), 2);

    let date_part = parts[0];
    let time_part = parts[1];

    // Date should be YYYY-MM-DD format
    assert_eq!(date_part.len(), 10);
    assert!(date_part.contains('-'));

    // Time should end with Z and have milliseconds
    assert!(time_part.ends_with('Z'));
    assert!(time_part.contains('.'));

    // Should be able to parse as a valid timestamp
    assert!(timestamp.len() >= 20); // Minimum ISO format length
    assert!(timestamp.len() <= 30); // Maximum reasonable length
}

#[test]
fn user_message_from_input_items_has_timestamp() {
    let input = vec![InputItem::Text {
        text: "Hello, world!".to_string(),
    }];

    let response_input_item = ResponseInputItem::from_input_items(input);

    if let ResponseInputItem::Message {
        role,
        content,
        timestamp,
    } = response_input_item
    {
        assert_eq!(role, "user");
        assert_eq!(content.len(), 1);
        assert!(timestamp.is_some());

        // Verify timestamp format
        let ts = timestamp.unwrap();
        assert!(ts.ends_with('Z'));
        assert!(ts.contains('T'));
        assert!(ts.len() >= 20);
    } else {
        panic!("Expected ResponseInputItem::Message");
    }
}

#[test]
fn user_message_timestamp_preserved_in_conversion() {
    let input = vec![InputItem::Text {
        text: "Test message".to_string(),
    }];

    let response_input_item = ResponseInputItem::from_input_items(input);
    let response_item = ResponseItem::from_input(response_input_item);

    if let ResponseItem::Message {
        role,
        content,
        timestamp,
        token_usage,
        ..
    } = response_item
    {
        assert_eq!(role, "user");
        assert_eq!(content.len(), 1);
        assert!(timestamp.is_some());
        assert!(token_usage.is_none());

        // Verify timestamp format is preserved
        let ts = timestamp.unwrap();
        assert!(ts.ends_with('Z'));
        assert!(ts.contains('T'));
    } else {
        panic!("Expected ResponseItem::Message");
    }
}

#[test]
fn timestamp_fields_are_zero_padded() {
    let p = UtcParts { year: 2025, month: 7, day: 5, hour: 9, minute: 3, second: 4, millisecond: 7 };
    assert_eq!(format_timestamp(&p), "2025-07-05T09:03:04.007Z");
    let p = UtcParts { year: 33, month: 12, day: 31, hour: 23, minute: 59, second: 59, millisecond: 999 };
    assert_eq!(format_timestamp(&p), "0033-12-31T23:59:59.999Z");
    let p = UtcParts { year: -44, month: 3, day: 15, hour: 0, minute: 0, second: 0, millisecond: 0 };
    assert_eq!(format_timestamp(&p), "-0044-03-15T00:00:00.000Z");
    let p = UtcParts { year: 12345, month: 1, day: 1, hour: 0, minute: 0, second: 0, millisecond: 0 };
    assert_eq!(format_timestamp(&p), "+12345-01-01T00:00:00.000Z");
}

#[test]
fn message_from_items_keeps_order_and_embeds_images() {
    let items = vec![
        InputItem::Text { text: "look".to_string() },
        InputItem::LocalImage { path: "shot.png".to_string(), contents: Some(b"Man".to_vec()) },
        InputItem::LocalImage { path: "missing.png".to_string(), contents: None },
        InputItem::LocalImage { path: "blob.unknownext".to_string(), contents: Some(vec![0xff]) },
        InputItem::Image { image_url: "https://x/y.jpg".to_string() },
    ];
    let msg = ResponseInputItem::message_from_input_items(items, "T0".to_string());
    match msg {
        ResponseInputItem::Message { role, content, timestamp } => {
            assert_eq!(role, "user");
            assert_eq!(timestamp.as_deref(), Some("T0"));
            assert_eq!(content.len(), 4);
            assert!(matches!(&content[0], ContentItem::InputText { text } if text == "look"));
            assert!(matches!(&content[1], ContentItem::InputImage { image_url } if image_url == "data:image/png;base64,TWFu"));
            assert!(matches!(&content[2], ContentItem::InputImage { image_url } if image_url == "data:application/octet-stream;base64,/w=="));
            assert!(matches!(&content[3], ContentItem::InputImage { image_url } if image_url == "https://x/y.jpg"));
        }
        other => panic!("unexpected {other:?}"),
    }
}

#[test]
fn base64_padding_cases() {
    let cases: [(&[u8], &str); 4] = [(b"", ""), (b"M", "TQ=="), (b"Ma", "TWE="), (b"hello world", "aGVsbG8gd29ybGQ=")];
    for (bytes, enc) in cases {
        let items = vec![InputItem::LocalImage { path: "a.gif".to_string(), contents: Some(bytes.to_vec()) }];
        match ResponseInputItem::message_from_input_items(items, String::new()) {
            ResponseInputItem::Message { content, .. } => match &content[0] {
                ContentItem::InputImage { image_url } => assert_eq!(image_url, &format!("data:image/gif;base64,{enc}")),
                other => panic!("unexpected {other:?}"),
            },
            other => panic!("unexpected {other:?}"),
        }
    }
}

#[test]
fn mcp_tool_output_becomes_function_call_output() {
    let ok = ResponseItem::from_input(ResponseInputItem::McpToolCallOutput {
        call_id: "c1".to_string(),
        result: Ok("{\"content\":[]}".to_string()),
    });
    match ok {
        ResponseItem::FunctionCallOutput { call_id, output } => {
            assert_eq!(call_id, "c1");
            assert_eq!(output.content, "{\"content\":[]}");
            assert_eq!(output.success, Some(true));
        }
        other => panic!("unexpected {other:?}"),
    }
    let err = ResponseItem::from_input(ResponseInputItem::McpToolCallOutput {
        call_id: "c2".to_string(),
        result: Err("bad \"thing\"".to_string()),
    });
    match err {
        ResponseItem::FunctionCallOutput { call_id, output } => {
            assert_eq!(call_id, "c2");
            assert_eq!(output.content, "err: \"bad \\\"thing\\\"\"");
            assert_eq!(output.success, Some(false));
        }
        other => panic!("unexpected {other:?}"),
    }
}

#[test]
fn other_inputs_convert_field_for_field() {
    let r = ResponseItem::from_input(ResponseInputItem::CustomToolCallOutput {
        call_id: "x".to_string(),
        output: "out".to_string(),
    });
    assert!(matches!(r, ResponseItem::CustomToolCallOutput { ref call_id, ref output } if call_id == "x" && output == "out"));
    let r = ResponseItem::from_input(ResponseInputItem::FunctionCallOutput {
        call_id: "y".to_string(),
        output: FunctionCallOutputPayload { content: "c".to_string(), success: Some(false) },
    });
    assert!(matches!(r, ResponseItem::FunctionCallOutput { ref call_id, ref output }
        if call_id == "y" && output.content == "c" && output.success == Some(false)));
    let r = ResponseItem::from_input(ResponseInputItem::Message {
        role: "assistant".to_string(),
        content: vec![ContentItem::OutputText { text: "hi".to_string() }],
        timestamp: None,
    });
    assert!(matches!(r, ResponseItem::Message { id: None, ref role, token_usage: None, timestamp: None, .. } if role == "assistant"));
}

#[test]
fn serializes_success_as_plain_string() {
    let item = ResponseInputItem::FunctionCallOutput {
        call_id: "call1".into(),
        output: FunctionCallOutputPayload { content: "ok".into(), success: None },
    };
    match &item {
        ResponseInputItem::FunctionCallOutput { output, .. } => assert_eq!(output.wire_text(), "ok"),
        _ => panic!("expected FunctionCallOutput"),
    }
}

#[test]
fn serializes_failure_as_string() {
    let item = ResponseInputItem::FunctionCallOutput {
        call_id: "call1".into(),
        output: FunctionCallOutputPayload { content: "bad".into(), success: Some(false) },
    };
    match &item {
        ResponseInputItem::FunctionCallOutput { output, .. } => assert_eq!(output.wire_text(), "bad"),
        _ => panic!("expected FunctionCallOutput"),
    }
}

#[test]
fn payload_read_back_from_wire_text() {
    let bad = FunctionCallOutputPayload { content: "bad".to_string(), success: Some(false) };
    let back = FunctionCallOutputPayload::from_wire(bad.wire_text().to_string());
    assert_eq!(back.content, "bad");
    assert_eq!(back.success, None);
    assert_eq!(back.as_str(), "bad");
}

#[test]
fn reasoning_content_serialization_rule() {
    assert!(!should_serialize_reasoning_content(&None));
    assert!(should_serialize_reasoning_content(&Some(vec![])));
    assert!(should_serialize_reasoning_content(&Some(vec![ReasoningItemContent::Text { text: "a".into() }])));
    assert!(!should_serialize_reasoning_content(&Some(vec![
        ReasoningItemContent::Text { text: "a".into() },
        ReasoningItemContent::ReasoningText { text: "b".into() },
    ])));
}
