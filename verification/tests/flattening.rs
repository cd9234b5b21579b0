use ocr_server::messages::{
    convert_messages, flatten_content, ensure_grounding_enabled, ApiMessage, MessageContent,
    MessagePart, ImagePayload,
};

fn user_text(text: &str) -> ApiMessage {
    ApiMessage { role: "user".to_string(), content: MessageContent::Text(text.to_string()) }
}

#[test]
fn free_ocr_prompt_has_no_placeholder_and_no_directive() {
    let messages = vec![user_text("Free OCR")];
    let (prompt, images) = convert_messages(&messages).unwrap();
    assert_eq!(prompt, "<|User|>\nFree OCR\n<|Assistant|>\n");
    assert_eq!(images.len(), 0);
    assert!(!prompt.contains("<image>"));
    assert!(!prompt.contains("<|grounding|>"));
}

#[test]
fn two_images_get_two_contiguous_placeholders_and_a_directive() {
    let parts = vec![
        MessagePart::ImageUrl { image_url: ImagePayload::Simple("https://a/b.png".to_string()) },
        MessagePart::InputImage {
            image_url: ImagePayload::Detailed { url: "https://a/c.png".to_string() },
        },
        MessagePart::Text { text: "Describe the page".to_string() },
    ];
    let messages =
        vec![ApiMessage { role: "user".to_string(), content: MessageContent::Parts(parts) }];
    let (prompt, images) = convert_messages(&messages).unwrap();
    assert_eq!(
        prompt,
        "<|User|>\n<image><image>\n<|grounding|>Describe the page\n<|Assistant|>\n"
    );
    assert_eq!(images.len(), 2);
    assert_eq!(images[0].url(), "https://a/b.png");
    assert_eq!(images[1].url(), "https://a/c.png");
}

#[test]
fn recognized_instruction_suppresses_directive_with_images() {
    let parts = vec![
        MessagePart::ImageUrl { image_url: ImagePayload::Simple("https://a/b.png".to_string()) },
        MessagePart::Text { text: "Free OCR".to_string() },
    ];
    let messages =
        vec![ApiMessage { role: "user".to_string(), content: MessageContent::Parts(parts) }];
    let (prompt, _) = convert_messages(&messages).unwrap();
    assert_eq!(prompt, "<|User|>\n<image>\nFree OCR\n<|Assistant|>\n");
}

#[test]
fn image_with_no_text_gets_default_directive() {
    let parts = vec![MessagePart::ImageUrl {
        image_url: ImagePayload::Simple("https://a/b.png".to_string()),
    }];
    let messages =
        vec![ApiMessage { role: "user".to_string(), content: MessageContent::Parts(parts) }];
    let (prompt, images) = convert_messages(&messages).unwrap();
    assert_eq!(
        prompt,
        "<|User|>\n<image>\n<|grounding|>Convert the document to markdown.\n<|Assistant|>\n"
    );
    assert_eq!(images.len(), 1);
}

#[test]
fn missing_user_message_is_rejected() {
    let messages = vec![ApiMessage {
        role: "system".to_string(),
        content: MessageContent::Text("hello".to_string()),
    }];
    let err = convert_messages(&messages).unwrap_err();
    assert_eq!(err.message(), "request must include at least one user message");
    assert_eq!(err.status_code(), 400);
}

#[test]
fn empty_user_content_is_rejected() {
    let messages = vec![user_text("   ")];
    let err = convert_messages(&messages).unwrap_err();
    assert_eq!(err.message(), "user content must include text or images");
}

#[test]
fn system_sections_join_with_blank_line_and_only_latest_user_turn_counts() {
    let messages = vec![
        ApiMessage {
            role: "system".to_string(),
            content: MessageContent::Text("Be terse.".to_string()),
        },
        user_text("first question"),
        ApiMessage {
            role: "assistant".to_string(),
            content: MessageContent::Text("old answer".to_string()),
        },
        user_text("second question"),
    ];
    let (prompt, _) = convert_messages(&messages).unwrap();
    assert_eq!(prompt, "<|User|>\nBe terse.\n\nsecond question\n<|Assistant|>\n");
}

#[test]
fn literal_placeholders_in_text_are_stripped() {
    let parts = vec![
        MessagePart::ImageUrl { image_url: ImagePayload::Simple("https://a/b.png".to_string()) },
        MessagePart::Text { text: "<image> look at this <image>".to_string() },
    ];
    let messages =
        vec![ApiMessage { role: "user".to_string(), content: MessageContent::Parts(parts) }];
    let (prompt, _) = convert_messages(&messages).unwrap();
    assert_eq!(prompt, "<|User|>\n<image>\n<|grounding|>look at this\n<|Assistant|>\n");
}

#[test]
fn role_comparison_ignores_ascii_case() {
    let messages = vec![ApiMessage {
        role: "USER".to_string(),
        content: MessageContent::Text("hi".to_string()),
    }];
    let (prompt, _) = convert_messages(&messages).unwrap();
    assert_eq!(prompt, "<|User|>\nhi\n<|Assistant|>\n");
}

#[test]
fn flatten_parts_joins_nonempty_texts_with_newline() {
    let content = MessageContent::Parts(vec![
        MessagePart::Text { text: " a ".to_string() },
        MessagePart::InputText { text: "".to_string() },
        MessagePart::InputText { text: "b".to_string() },
    ]);
    let (text, images) = flatten_content(&content);
    assert_eq!(text, "a\nb");
    assert_eq!(images.len(), 0);
}

#[test]
fn ensure_grounding_enabled_returns_text_unchanged() {
    assert_eq!(ensure_grounding_enabled("Locate the title"), "Locate the title");
    assert_eq!(ensure_grounding_enabled(""), "");
    assert_eq!(ensure_grounding_enabled("plain request"), "plain request");
}

#[test]
fn image_payload_url_reads_both_shapes() {
    let simple = ImagePayload::Simple("data:image/png;base64,AAAA".to_string());
    let detailed = ImagePayload::Detailed { url: "https://h/i.jpg".to_string() };
    assert_eq!(simple.url(), "data:image/png;base64,AAAA");
    assert_eq!(detailed.url(), "https://h/i.jpg");
}
