use ocr_server::bbox::{extract_bounding_boxes, strip_bbox_tags, plan_annotations, BoundingBox};

#[test]
fn test_extract_boxes_grounding_format() {
    let text = "Some text <|ref|>Title<|/ref|><|det|>[[100, 200, 300, 400]]<|/det|> more text <|det|>[[50, 60, 150, 160]]<|/det|>";
    let boxes = extract_bounding_boxes(text).unwrap();

    assert_eq!(boxes.len(), 2);
    assert_eq!(boxes[0].x1, 100);
    assert_eq!(boxes[0].y1, 200);
    assert_eq!(boxes[0].x2, 300);
    assert_eq!(boxes[0].y2, 400);
    assert_eq!(boxes[0].text, Some("Title".to_string()));

    assert_eq!(boxes[1].x1, 50);
    assert_eq!(boxes[1].y1, 60);
    assert_eq!(boxes[1].text, None);
}

#[test]
fn test_extract_boxes_legacy_format() {
    let text = "Some text <ref>Title</ref><box>[[100,200],[300,400]]</box> more text <box>[[50,60],[150,160]]</box>";
    let boxes = extract_bounding_boxes(text).unwrap();

    assert_eq!(boxes.len(), 2);
    assert_eq!(boxes[0].x1, 100);
    assert_eq!(boxes[0].y1, 200);
    assert_eq!(boxes[0].text, Some("Title".to_string()));

    assert_eq!(boxes[1].x1, 50);
    assert_eq!(boxes[1].text, None);
}

#[test]
fn test_extract_boxes_mixed_formats() {
    let text = "Start <|ref|>New Format<|/ref|><|det|>[[10, 20, 30, 40]]<|/det|> middle <ref>Old Format</ref><box>[[50,60],[70,80]]</box> end";
    let boxes = extract_bounding_boxes(text).unwrap();

    assert_eq!(boxes.len(), 2);

    assert_eq!(boxes[0].x1, 10);
    assert_eq!(boxes[0].y1, 20);
    assert_eq!(boxes[0].x2, 30);
    assert_eq!(boxes[0].y2, 40);
    assert_eq!(boxes[0].text, Some("New Format".to_string()));

    assert_eq!(boxes[1].x1, 50);
    assert_eq!(boxes[1].y1, 60);
    assert_eq!(boxes[1].x2, 70);
    assert_eq!(boxes[1].y2, 80);
    assert_eq!(boxes[1].text, Some("Old Format".to_string()));
}

#[test]
fn test_extract_boxes_grounding_standalone() {
    let text = "Text before <|det|>[[100, 200, 300, 400]]<|/det|> text after";
    let boxes = extract_bounding_boxes(text).unwrap();

    assert_eq!(boxes.len(), 1);
    assert_eq!(boxes[0].x1, 100);
    assert_eq!(boxes[0].y1, 200);
    assert_eq!(boxes[0].x2, 300);
    assert_eq!(boxes[0].y2, 400);
    assert_eq!(boxes[0].text, None);
}

#[test]
fn test_extract_boxes_legacy_standalone() {
    let text = "Text before <box>[[100,200],[300,400]]</box> text after";
    let boxes = extract_bounding_boxes(text).unwrap();

    assert_eq!(boxes.len(), 1);
    assert_eq!(boxes[0].x1, 100);
    assert_eq!(boxes[0].y1, 200);
    assert_eq!(boxes[0].x2, 300);
    assert_eq!(boxes[0].y2, 400);
    assert_eq!(boxes[0].text, None);
}

#[test]
fn test_extract_boxes_no_boxes() {
    let text = "Just some plain text without any boxes";
    let boxes = extract_bounding_boxes(text).unwrap();

    assert_eq!(boxes.len(), 0);
}

#[test]
fn test_extract_boxes_with_spaces() {
    let text = "<|det|>[[  100  ,  200  ,  300  ,  400  ]]<|/det|>";
    let boxes = extract_bounding_boxes(text).unwrap();

    assert_eq!(boxes.len(), 1);
    assert_eq!(boxes[0].x1, 100);
    assert_eq!(boxes[0].y1, 200);
    assert_eq!(boxes[0].x2, 300);
    assert_eq!(boxes[0].y2, 400);
}

#[test]
fn test_bounding_box_to_pixels() {
    let bbox = BoundingBox { x1: 100, y1: 200, x2: 300, y2: 400, text: None };

    let (x1, y1, x2, y2) = bbox.to_pixels(1000, 1000);
    assert_eq!(x1, 100);
    assert_eq!(y1, 200);
    assert_eq!(x2, 300);
    assert_eq!(y2, 400);

    let (x1, y1, x2, y2) = bbox.to_pixels(2000, 2000);
    assert_eq!(x1, 200);
    assert_eq!(y1, 400);
    assert_eq!(x2, 600);
    assert_eq!(y2, 800);

    let (x1, y1, x2, y2) = bbox.to_pixels(500, 500);
    assert_eq!(x1, 50);
    assert_eq!(y1, 100);
    assert_eq!(x2, 150);
    assert_eq!(y2, 200);
}

#[test]
fn extract_boxes_tolerates_unicode_whitespace() {
    // a no-break space between the reference and its box, and inside fields
    let text = "<ref>Title</ref>\u{a0}<box>[[\u{2003}7,8],[9,10]]</box>";
    let boxes = extract_bounding_boxes(text).unwrap();
    assert_eq!(boxes.len(), 1);
    assert_eq!(boxes[0].x1, 7);
    assert_eq!(boxes[0].y1, 8);
    assert_eq!(boxes[0].x2, 9);
    assert_eq!(boxes[0].y2, 10);
    assert_eq!(boxes[0].text, Some("Title".to_string()));
}

#[test]
fn to_pixels_rounds_to_nearest() {
    let bbox = BoundingBox { x1: 1, y1: 999, x2: 0, y2: 1000, text: None };
    let (x1, y1, x2, y2) = bbox.to_pixels(500, 500);
    // 1/1000 of 500 is 0.5 and rounds up; 999/1000 of 500 is 499.5
    assert_eq!(x1, 1);
    assert_eq!(y1, 500);
    assert_eq!(x2, 0);
    assert_eq!(y2, 500);
}

#[test]
fn test_strip_tags_grounding() {
    let text = "Text <|ref|>Label<|/ref|><|det|>[[1, 2, 3, 4]]<|/det|> and <|det|>[[5, 6, 7, 8]]<|/det|> end";
    let stripped = strip_bbox_tags(text);
    assert_eq!(stripped, "Text Label and  end");
}

#[test]
fn test_strip_tags_legacy() {
    let text = "Text <ref>Label</ref><box>[[1,2],[3,4]]</box> and <box>[[5,6],[7,8]]</box> end";
    let stripped = strip_bbox_tags(text);
    assert_eq!(stripped, "Text Label and  end");
}

#[test]
fn test_strip_tags_mixed() {
    let text = "Start <|ref|>New<|/ref|><|det|>[[1,2,3,4]]<|/det|> and <ref>Old</ref><box>[[5,6],[7,8]]</box> end";
    let stripped = strip_bbox_tags(text);
    assert_eq!(stripped, "Start New and Old end");
}

#[test]
fn test_strip_tags_no_tags() {
    let text = "Just plain text without any tags";
    let stripped = strip_bbox_tags(text);
    assert_eq!(stripped, "Just plain text without any tags");
}

#[test]
fn extract_grounding_pair_then_standalone_grouped() {
    let text =
        "<|ref|>Title<|/ref|><|det|>[[100, 200, 300, 400]]<|/det|> <|det|>[[50,60,150,160]]<|/det|>";
    let boxes = extract_bounding_boxes(text).unwrap();
    assert_eq!(boxes.len(), 2);
    assert_eq!(boxes[0].x1, 100);
    assert_eq!(boxes[0].y1, 200);
    assert_eq!(boxes[0].x2, 300);
    assert_eq!(boxes[0].y2, 400);
    assert_eq!(boxes[0].text, Some("Title".to_string()));
    assert_eq!(boxes[1].x1, 50);
    assert_eq!(boxes[1].y1, 60);
    assert_eq!(boxes[1].x2, 150);
    assert_eq!(boxes[1].y2, 160);
    assert_eq!(boxes[1].text, None);
}

#[test]
fn strip_legacy_pair_keeps_label() {
    let text = "Text <ref>Label</ref><box>[[1,2],[3,4]]</box> end";
    assert_eq!(strip_bbox_tags(text), "Text Label end");
}

#[test]
fn strip_is_idempotent_on_ordinary_output() {
    let text = "Intro <|ref|>A<|/ref|><|det|>[[1,2,3,4]]<|/det|> mid <box>[[5,6],[7,8]]</box> end";
    let once = strip_bbox_tags(text);
    let twice = strip_bbox_tags(&once);
    assert_eq!(once, "Intro A mid  end");
    assert_eq!(twice, once);
}

#[test]
fn extract_rejects_oversized_coordinate() {
    let text = "<|det|>[[99999999999, 2, 3, 4]]<|/det|>";
    assert!(extract_bounding_boxes(text).is_err());
    let err = extract_bounding_boxes(text).unwrap_err();
    assert_eq!(err.message(), "bounding box coordinate exceeds the supported range");
}

#[test]
fn plan_annotations_geometry_and_labels() {
    let boxes = vec![
        BoundingBox { x1: 100, y1: 100, x2: 300, y2: 200, text: Some("Test Box".to_string()) },
        BoundingBox { x1: 0, y1: 0, x2: 150, y2: 150, text: None },
    ];
    let ops = plan_annotations(&boxes, 800, 600);
    assert_eq!(ops.len(), 2);

    // round((100/1000)*800) = 80, round((100/1000)*600) = 60
    assert_eq!(ops[0].rect.x, 80);
    assert_eq!(ops[0].rect.y, 60);
    assert_eq!(ops[0].rect.w, 240 - 80);
    assert_eq!(ops[0].rect.h, 120 - 60);
    assert_eq!(ops[0].color_index, 0);
    assert_eq!(ops[0].label, "1: Test Box");
    assert_eq!(ops[0].label_x, 80);
    assert_eq!(ops[0].label_y, 40);
    let second = ops[0].second.as_ref().unwrap();
    assert_eq!(second.x, 79);
    assert_eq!(second.y, 59);
    assert_eq!(second.w, 162);
    assert_eq!(second.h, 62);

    // a box at the origin gets no second rectangle and a clamped label
    assert_eq!(ops[1].rect.x, 0);
    assert_eq!(ops[1].rect.y, 0);
    assert!(ops[1].second.is_none());
    assert_eq!(ops[1].color_index, 1);
    assert_eq!(ops[1].label, "2");
    assert_eq!(ops[1].label_y, 0);
}

#[test]
fn plan_annotations_clamps_out_of_range_boxes() {
    let boxes = vec![BoundingBox { x1: 900, y1: 900, x2: 5000, y2: 5000, text: None }];
    let ops = plan_annotations(&boxes, 100, 100);
    assert_eq!(ops.len(), 1);
    // round((900/1000)*100) = 90; the bottom-right coordinate clamps to the dimension
    assert_eq!(ops[0].rect.x, 90);
    assert_eq!(ops[0].rect.y, 90);
    assert_eq!(ops[0].rect.w, 10);
    assert_eq!(ops[0].rect.h, 10);
}
