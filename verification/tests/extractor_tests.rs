use axon::extract_spec;
use axon::spec_extractor::{SpecExtractor, SpecKind};

#[test]
fn test_axon_spec_detection() {
    let input = "Some text\n<!-- AXON:SPEC:COMPONENTS\n{\"components\": []} -->";
    let result = SpecExtractor::extract(input);
    assert!(result.is_some());
    assert_eq!(result.unwrap().kind, SpecKind::AxonSpec);
}

#[test]
fn test_markdown_detection() {
    let input = "# Architecture\n## Components\n- File: test.c";
    let result = SpecExtractor::extract(input);
    assert!(result.is_some());
}

#[test]
fn test_case_insensitive() {
    let input = "# Architecture\n# AXON:SPEC\n{ components: [] }";
    let result = SpecExtractor::extract(input);
    assert!(result.is_some());
}

#[test]
fn test_spec_extraction() {
    let input = "# Architecture\n## Components\n- File: test.c";
    let spec = extract_spec(input);
    assert!(spec.is_some());
}

#[test]
fn comment_block_is_taken_whole() {
    let input = "Some text\n<!-- AXON:SPEC:COMPONENTS\n{\"components\": []} -->\ntail";
    let spec = SpecExtractor::extract(input).unwrap();
    assert_eq!(spec.content, "<!-- AXON:SPEC:COMPONENTS\n{\"components\": []} -->");
    assert_eq!(spec.confidence, 100);
    assert_eq!(spec.line_offset, 1);
    assert!(spec.is_valid());
}

#[test]
fn sentinel_tags_give_their_inside() {
    let input = "intro\n\n<AXON_SPEC>\n  body here  \n</axon_spec> trailing";
    let spec = SpecExtractor::extract(input).unwrap();
    assert_eq!(spec.kind, SpecKind::AxonSpec);
    assert_eq!(spec.content, "body here");
    assert_eq!(spec.line_offset, 2);
}

#[test]
fn unclosed_sentinel_takes_a_chunk() {
    let input = "x <axon-spec> open only";
    let spec = SpecExtractor::extract(input).unwrap();
    assert_eq!(spec.kind, SpecKind::AxonSpec);
    assert_eq!(spec.content, "<axon-spec> open only");
    assert_eq!(spec.confidence, 70);
}

#[test]
fn fenced_block_is_taken_with_its_fences() {
    let input = "before\n```spec\na: 1\n```\nafter";
    let spec = SpecExtractor::extract(input).unwrap();
    assert_eq!(spec.content, "```spec\na: 1\n```");
    assert_eq!(spec.confidence, 100);
    assert_eq!(spec.line_offset, 1);
}

#[test]
fn bare_marker_is_found_in_any_case() {
    let input = "# Architecture\n# AXON:SPEC\n{ components: [] }";
    let spec = SpecExtractor::extract(input).unwrap();
    assert_eq!(spec.kind, SpecKind::AxonSpec);
    assert_eq!(spec.content, "AXON:SPEC\n{ components: [] }");
    assert_eq!(spec.confidence, 70);
    assert_eq!(spec.line_offset, 1);
}

#[test]
fn json_document_is_recognised() {
    let input = "Here:\n{\"components\": [{\"path\": \"a.c\"}]}\nthanks";
    let spec = SpecExtractor::extract(input).unwrap();
    assert_eq!(spec.kind, SpecKind::JsonStructured);
    assert_eq!(spec.content, "{\"components\": [{\"path\": \"a.c\"}]}");
    assert_eq!(spec.confidence, 95);
    assert_eq!(spec.line_offset, 1);
}

#[test]
fn markdown_section_stops_at_the_next_heading() {
    let input = "# Architecture\n- file: a.c\n# Other\nrest";
    let spec = SpecExtractor::extract(input).unwrap();
    assert_eq!(spec.kind, SpecKind::MarkdownSpec);
    assert_eq!(spec.content, "# Architecture\n- file: a.c\n");
    assert_eq!(spec.confidence, 80);
    assert_eq!(spec.line_offset, 0);
}

#[test]
fn markdown_section_without_components_is_passed_over() {
    let input = "# Design\nnothing to see";
    assert!(SpecExtractor::extract(input).is_none());
}

#[test]
fn generic_marker_takes_the_rest() {
    let input = "intro\nSpec: build a thing";
    let spec = SpecExtractor::extract(input).unwrap();
    assert_eq!(spec.kind, SpecKind::GenericSpec);
    assert_eq!(spec.content, "Spec: build a thing");
    assert_eq!(spec.confidence, 60);
    assert_eq!(spec.line_offset, 1);
}

#[test]
fn long_structured_text_is_the_last_resort() {
    let mut input = String::new();
    for i in 0..8 {
        input.push_str(&format!("item {} - something useful here\n", i));
    }
    let spec = SpecExtractor::extract(&input).unwrap();
    assert_eq!(spec.kind, SpecKind::GenericSpec);
    assert_eq!(spec.confidence, 30);
    assert_eq!(spec.content, input);
    assert_eq!(spec.line_offset, 0);
    assert!(!spec.is_valid());
}

#[test]
fn short_plain_text_yields_nothing() {
    assert!(SpecExtractor::extract("hello there").is_none());
    assert!(SpecExtractor::extract("").is_none());
}

#[test]
fn kind_confidences() {
    assert_eq!(SpecKind::AxonSpec.confidence(), 100);
    assert_eq!(SpecKind::JsonStructured.confidence(), 95);
    assert_eq!(SpecKind::MarkdownSpec.confidence(), 80);
    assert_eq!(SpecKind::GenericSpec.confidence(), 60);
    assert_eq!(SpecKind::Unknown.confidence(), 0);
}

#[test]
fn json_passage_out_of_order_cannot_be_extracted() {
    assert!(!SpecExtractor::can_extract("x } \"components\" {"));
    assert!(SpecExtractor::can_extract("x { \"components\" }"));
    assert!(SpecExtractor::can_extract("<!-- AXON:SPEC } \"components\" { -->"));
}

#[test]
fn spec_block_beats_every_other_form() {
    let input = "# Architecture\n- file: a.c\n{\"components\": []}\n```spec\nx\n```";
    let spec = SpecExtractor::extract(input).unwrap();
    assert_eq!(spec.kind, SpecKind::AxonSpec);
    assert_eq!(spec.content, "```spec\nx\n```");
    assert_eq!(spec.confidence, 100);
}
