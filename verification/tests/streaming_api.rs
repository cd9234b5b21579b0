use ocr_server::stream::{StreamController, StreamKind, StreamEvent};
use ocr_server::api::{
    ensure_model, list_models, Usage, ApiError, build_responses_response, build_chat_response,
};
use ocr_server::generation::{
    finish_generation, wants_annotation, attach_annotation, filter_token_ids, effective_max_tokens,
};
use ocr_server::images::{load_image, ImageFetch, decode_remote_image};
use ocr_server::messages::ImagePayload;
use ocr_server::health;

fn chat_kind() -> StreamKind {
    StreamKind::Chat { completion_id: "chatcmpl-1".to_string(), model: "m".to_string(), created: 7 }
}

fn responses_kind() -> StreamKind {
    StreamKind::Responses {
        response_id: "resp-1".to_string(),
        output_id: "msg-1".to_string(),
        model: "m".to_string(),
        created: 7,
    }
}

#[test]
fn chat_stream_sends_role_once() {
    let mut s = StreamController::new(chat_kind());
    let first = s.send_initial();
    assert!(matches!(first, StreamEvent::ChatChunkRole { .. }));
    // the role went out with the opening chunk, so deltas no longer carry it
    let plan = s.handle_progress(3).unwrap();
    assert!(!plan.include_role);
}

#[test]
fn progress_below_consumed_count_never_yields_a_delta() {
    let mut s = StreamController::new(chat_kind());
    let plan = s.handle_progress(5).unwrap();
    assert_eq!(plan.start, 0);
    assert_eq!(plan.end, 5);
    assert!(plan.include_role);
    assert!(s.handle_progress(5).is_none());
    assert!(s.handle_progress(3).is_none());
    assert!(s.handle_progress(0).is_none());
    let next = s.handle_progress(9).unwrap();
    assert_eq!(next.start, 5);
    assert_eq!(next.end, 9);
    assert!(!next.include_role);
}

#[test]
fn flush_remaining_covers_the_tail_once() {
    let mut s = StreamController::new(responses_kind());
    s.handle_progress(4);
    let tail = s.flush_remaining(6).unwrap();
    assert_eq!(tail.start, 4);
    assert_eq!(tail.end, 6);
    assert!(s.flush_remaining(6).is_none());
    assert!(s.flush_remaining(0).is_none());
}

#[test]
fn finalize_emits_terminal_payload_exactly_once() {
    let mut s = StreamController::new(responses_kind());
    let first = s.finalize("hello", 10, 3);
    let (completed, done) = first.unwrap();
    match completed {
        StreamEvent::ResponseCompleted { response_id, text, usage, .. } => {
            assert_eq!(response_id, "resp-1");
            assert_eq!(text, "hello");
            assert_eq!(usage.prompt_tokens, 10);
            assert_eq!(usage.completion_tokens, 3);
            assert_eq!(usage.total_tokens, 13);
        },
        _ => panic!("expected a completion event"),
    }
    assert!(matches!(done, StreamEvent::Done));
    assert!(s.finalize("hello", 10, 3).is_none());
    assert!(s.finalize("other", 1, 1).is_none());
}

#[test]
fn chat_finalize_reports_usage_and_done() {
    let mut s = StreamController::new(chat_kind());
    let (last, done) = s.finalize("ignored", 2, 5).unwrap();
    match last {
        StreamEvent::ChatChunkFinal { completion_id, usage, .. } => {
            assert_eq!(completion_id, "chatcmpl-1");
            assert_eq!(usage.total_tokens, 7);
        },
        _ => panic!("expected a final chunk"),
    }
    assert!(matches!(done, StreamEvent::Done));
}

#[test]
fn send_error_carries_message_and_sentinel() {
    let s = StreamController::new(chat_kind());
    let (event, done) = s.send_error("boom");
    match event {
        StreamEvent::ChatChunkError { message, .. } => assert_eq!(message, "boom"),
        _ => panic!("expected an error chunk"),
    }
    assert!(matches!(done, StreamEvent::Done));

    let r = StreamController::new(responses_kind());
    let (event, _) = r.send_error("bad");
    assert!(matches!(event, StreamEvent::ResponseError { .. }));
}

#[test]
fn delta_events_carry_the_decoded_text() {
    let s = StreamController::new(responses_kind());
    match s.emit_delta("chunk".to_string(), false) {
        StreamEvent::OutputTextDelta { delta, output_id, .. } => {
            assert_eq!(delta, "chunk");
            assert_eq!(output_id, "msg-1");
        },
        _ => panic!("expected a text delta"),
    }
    let c = StreamController::new(chat_kind());
    match c.emit_delta("word".to_string(), true) {
        StreamEvent::ChatChunkDelta { content, include_role, .. } => {
            assert_eq!(content, "word");
            assert!(include_role);
        },
        _ => panic!("expected a chat delta"),
    }
}

#[test]
fn ensure_model_accepts_only_the_served_id() {
    assert!(ensure_model("deepseek-ocr", "deepseek-ocr").is_ok());
    let err = ensure_model("gpt-4", "deepseek-ocr").unwrap_err();
    assert_eq!(err.message(), "model 'gpt-4' is not available (expected 'deepseek-ocr')");
    assert_eq!(err.status_code(), 400);
}

#[test]
fn error_bodies_map_to_wire_taxonomy() {
    let bad = ApiError::BadRequest("nope".to_string());
    let body = bad.body();
    assert_eq!(body.message, "nope");
    assert_eq!(body.error_type, "invalid_request_error");
    assert_eq!(bad.status_code(), 400);

    let internal = ApiError::Internal("broken".to_string());
    let body = internal.body();
    assert_eq!(body.error_type, "internal_error");
    assert_eq!(internal.status_code(), 500);
}

#[test]
fn model_catalogue_lists_the_served_model() {
    let r = list_models("deepseek-ocr", 42);
    assert_eq!(r.object, "list");
    assert_eq!(r.data.len(), 1);
    assert_eq!(r.data[0].id, "deepseek-ocr");
    assert_eq!(r.data[0].object, "model");
    assert_eq!(r.data[0].created, 42);
    assert_eq!(r.data[0].owned_by, "deepseek");
}

#[test]
fn usage_totals_are_exact_sums() {
    let u = Usage::new(11, 31);
    assert_eq!(u.total_tokens, 42);
}

#[test]
fn health_answers_ok() {
    assert_eq!(health(), "ok");
}

#[test]
fn finish_generation_extracts_boxes_non_fatally() {
    let r = finish_generation("before <|det|>[[1,2,3,4]]<|/det|> after".to_string(), 8, 2);
    assert_eq!(r.prompt_tokens, 8);
    assert_eq!(r.response_tokens, 2);
    assert_eq!(r.bounding_boxes.len(), 1);
    assert_eq!(r.bounding_boxes[0].x1, 1);
    assert!(r.annotated_image.is_none());

    // an oversized coordinate degrades to an empty box list, not a failure
    let degraded = finish_generation("<|det|>[[99999999999,2,3,4]]<|/det|>".to_string(), 1, 1);
    assert_eq!(degraded.bounding_boxes.len(), 0);
    assert_eq!(degraded.text, "<|det|>[[99999999999,2,3,4]]<|/det|>");
}

#[test]
fn annotation_is_rendered_only_with_boxes_and_an_image() {
    let with_boxes = finish_generation("<|det|>[[1,2,3,4]]<|/det|>".to_string(), 1, 1);
    assert!(wants_annotation(&with_boxes, 1));
    assert!(!wants_annotation(&with_boxes, 0));
    let plain = finish_generation("no tags".to_string(), 1, 1);
    assert!(!wants_annotation(&plain, 1));

    let mut r = with_boxes;
    attach_annotation(&mut r, "BASE64".to_string());
    assert_eq!(r.annotated_image, Some("BASE64".to_string()));
    assert_eq!(r.bounding_boxes.len(), 1);
}

#[test]
fn token_ids_outside_u32_are_dropped() {
    let ids: Vec<i64> = vec![0, -1, 5, 4294967296, 4294967295, 7];
    let kept = filter_token_ids(&ids);
    assert_eq!(kept, vec![0u32, 5, 4294967295, 7]);
}

#[test]
fn max_token_precedence_follows_the_request() {
    assert_eq!(effective_max_tokens(Some(9), Some(4), 512), 9);
    assert_eq!(effective_max_tokens(None, Some(4), 512), 4);
    assert_eq!(effective_max_tokens(None, None, 512), 512);
}

#[test]
fn responses_reply_shape() {
    let gen = finish_generation("text <|det|>[[1,2,3,4]]<|/det|>".to_string(), 3, 4);
    let r = build_responses_response(
        "resp-9".to_string(),
        "msg-9".to_string(),
        77,
        "deepseek-ocr".to_string(),
        gen,
    );
    assert_eq!(r.object, "response");
    assert_eq!(r.output.len(), 1);
    assert_eq!(r.output[0].kind, "message");
    assert_eq!(r.output[0].role, "assistant");
    assert_eq!(r.output[0].content[0].kind, "output_text");
    assert_eq!(r.output[0].content[0].text, "text <|det|>[[1,2,3,4]]<|/det|>");
    assert!(r.output[0].content[0].bounding_boxes.is_some());
    assert_eq!(r.usage.total_tokens, 7);
}

#[test]
fn chat_reply_omits_empty_box_list() {
    let gen = finish_generation("plain".to_string(), 3, 4);
    let r = build_chat_response("chatcmpl-9".to_string(), 77, "deepseek-ocr".to_string(), gen);
    assert_eq!(r.object, "chat.completion");
    assert_eq!(r.choices.len(), 1);
    assert_eq!(r.choices[0].index, 0);
    assert_eq!(r.choices[0].message.role, "assistant");
    assert_eq!(r.choices[0].message.content, "plain");
    assert!(r.choices[0].message.bounding_boxes.is_none());
    assert_eq!(r.choices[0].finish_reason, "stop");
}

#[test]
fn load_image_rejects_unsupported_schemes() {
    let payload = ImagePayload::Simple("ftp://host/file.png".to_string());
    let err = load_image(&payload).unwrap_err();
    assert_eq!(err.message(), "only data: URIs or http(s) image URLs are supported");
}

#[test]
fn load_image_passes_remote_urls_through() {
    let payload = ImagePayload::Detailed { url: "https://host/pic.jpg".to_string() };
    match load_image(&payload).unwrap() {
        ImageFetch::Remote(url) => assert_eq!(url, "https://host/pic.jpg"),
        _ => panic!("expected a remote fetch"),
    }
}

#[test]
fn load_image_rejects_malformed_data_urls() {
    let no_comma = ImagePayload::Simple("data:image/png;base64".to_string());
    assert_eq!(load_image(&no_comma).unwrap_err().message(), "invalid data URL");

    let not_base64 = ImagePayload::Simple("data:image/png,rawbytes".to_string());
    assert_eq!(
        load_image(&not_base64).unwrap_err().message(),
        "data URLs must specify base64 encoding"
    );

    let bad_payload = ImagePayload::Simple("data:image/png;base64,!!!".to_string());
    let err = load_image(&bad_payload).unwrap_err();
    assert!(err.message().starts_with("invalid base64 image payload: "));
}

#[test]
fn load_image_decodes_an_inline_png() {
    let url = "data:image/png;base64,iVBORw0KGgoAAAANSUhEUgAAAAEAAAABCAIAAACQd1PeAAAADElEQVR4nGP4z8AAAAMBAQDJ/pLvAAAAAElFTkSuQmCC";
    let payload = ImagePayload::Simple(url.to_string());
    match load_image(&payload).unwrap() {
        ImageFetch::Ready(img) => {
            assert_eq!(img.width(), 1);
            assert_eq!(img.height(), 1);
        },
        _ => panic!("expected a decoded image"),
    }
}

#[test]
fn remote_bytes_that_are_not_an_image_are_rejected() {
    let err = decode_remote_image(b"not an image").unwrap_err();
    assert!(err.message().starts_with("failed to decode remote image: "));
    assert_eq!(err.status_code(), 400);
}
