use content_tag::locate::{ContentTagKind, Occurrence};
use content_tag::position::{Range, Span};
use content_tag::source::{ParsedModule, TagContent, TagPosition, TemplateTag};
use content_tag::Preprocessor;

/// The tag that starts at byte `at` of `src`, as the parser reports it.
fn tag_at(src: &str, at: usize, position: TagPosition) -> TemplateTag {
    let open_end = at + "<template>".len();
    let close = open_end + src[open_end..].find("</template>").unwrap();
    let end = close + "</template>".len();
    TemplateTag {
        position,
        span: Span { lo: at, hi: end },
        opening: Span { lo: at, hi: open_end },
        contents: TagContent { span: Span { lo: open_end, hi: close }, value: src[open_end..close].to_string() },
        closing: Span { lo: close, hi: end },
    }
}

fn module(src: &str, tags: Vec<TemplateTag>) -> ParsedModule {
    ParsedModule {
        src: src.to_string(),
        tags,
        imports: vec![],
        identifiers: vec![],
        sites: vec![],
    }
}

fn range(start_byte: usize, end_byte: usize, start_cp: usize, end_cp: usize) -> Range {
    range_units(start_byte, end_byte, start_cp, end_cp, start_cp, end_cp)
}

fn range_units(
    start_byte: usize,
    end_byte: usize,
    start_cp: usize,
    end_cp: usize,
    start_unit: usize,
    end_unit: usize,
) -> Range {
    Range {
        start_byte,
        end_byte,
        start_utf16_codepoint: start_cp,
        end_utf16_codepoint: end_cp,
        start_utf16_unit: start_unit,
        end_utf16_unit: end_unit,
    }
}

#[test]
fn test_basic_example() {
    let src = "<template>Hello!</template>";
    let p = Preprocessor::new();
    let output = p.parse(&module(src, vec![tag_at(src, 0, TagPosition::Statement)]));
    let expected = Occurrence {
        kind: ContentTagKind::Expression,
        tag_name: "template".into(),
        contents: "Hello!".into(),
        range: range(0, 27, 0, 27),
        start_range: range(0, 10, 0, 10),
        content_range: range(10, 16, 10, 16),
        end_range: range(16, 27, 16, 27),
    };
    assert_eq!(output, vec![expected]);
}

#[test]
fn test_expression_position() {
    let src = "const tpl = <template>Hello!</template>";
    let p = Preprocessor::new();
    let output = p.parse(&module(src, vec![tag_at(src, 12, TagPosition::Expression)]));
    let expected = vec![Occurrence {
        kind: ContentTagKind::Expression,
        tag_name: "template".into(),
        contents: "Hello!".into(),
        range: range(12, 39, 12, 39),
        start_range: range(12, 22, 12, 22),
        content_range: range(22, 28, 22, 28),
        end_range: range(28, 39, 28, 39),
    }];
    assert_eq!(output, expected);
}

#[test]
fn test_inside_class_body() {
    let src = r#"
                  class A {
                    <template>Hello!</template>
                  }
                "#;
    let p = Preprocessor::new();
    let output = p.parse(&module(src, vec![tag_at(src, 49, TagPosition::ClassMember)]));
    let expected = vec![Occurrence {
        kind: ContentTagKind::ClassMember,
        tag_name: "template".into(),
        contents: "Hello!".into(),
        range: range(49, 76, 49, 76),
        start_range: range(49, 59, 49, 59),
        content_range: range(59, 65, 59, 65),
        end_range: range(65, 76, 65, 76),
    }];
    assert_eq!(output, expected);
}

#[test]
fn test_multibyte_character_inside_template() {
    let src = r#"
                  class A {
                    <template>Hell😀!</template>
                  }
                "#;
    let p = Preprocessor::new();
    let output = p.parse(&module(src, vec![tag_at(src, 49, TagPosition::ClassMember)]));
    let expected = vec![Occurrence {
        kind: ContentTagKind::ClassMember,
        tag_name: "template".into(),
        contents: "Hell😀!".into(),
        range: range_units(49, 79, 49, 76, 49, 77),
        start_range: range(49, 59, 49, 59),
        content_range: range_units(59, 68, 59, 65, 59, 66),
        end_range: range_units(68, 79, 65, 76, 66, 77),
    }];
    assert_eq!(output, expected);
}

#[test]
fn test_preceded_by_a_slash_character() {
    let src = r#"
                  const divide = () => 4 / 2;
                  <template>Hello!</template>
                "#;
    let p = Preprocessor::new();
    let output = p.parse(&module(src, vec![tag_at(src, 65, TagPosition::Statement)]));
    let expected = vec![Occurrence {
        kind: ContentTagKind::Expression,
        tag_name: "template".into(),
        contents: "Hello!".into(),
        range: range(65, 92, 65, 92),
        start_range: range(65, 75, 65, 75),
        content_range: range(75, 81, 75, 81),
        end_range: range(81, 92, 81, 92),
    }];
    assert_eq!(output, expected);
}

#[test]
fn test_template_inside_a_regexp() {
    let src = r#"
                  const myregex = /<template>/;
                  <template>Hello!</template>
                "#;
    let p = Preprocessor::new();
    let output = p.parse(&module(src, vec![tag_at(src, 67, TagPosition::Statement)]));
    let expected = vec![Occurrence {
        kind: ContentTagKind::Expression,
        tag_name: "template".into(),
        contents: "Hello!".into(),
        range: range(67, 94, 67, 94),
        start_range: range(67, 77, 67, 77),
        content_range: range(77, 83, 77, 83),
        end_range: range(83, 94, 83, 94),
    }];
    assert_eq!(output, expected);
}

#[test]
fn test_no_match() {
    let p = Preprocessor::new();
    let output = p.parse(&module("console.log('Hello world');", vec![]));
    assert_eq!(output, vec![]);
}

#[test]
fn test_inner_expression() {
    let src = r#"let x = doIt(<template>Hello</template>)"#;
    let p = Preprocessor::new();
    let output = p.parse(&module(src, vec![tag_at(src, 13, TagPosition::Expression)]));
    assert_eq!(
        output,
        vec![Occurrence {
            range: range(13, 39, 13, 39),
            content_range: range(23, 28, 23, 28),
            contents: "Hello".into(),
            end_range: range(28, 39, 28, 39),
            start_range: range(13, 23, 13, 23),
            tag_name: "template".into(),
            kind: ContentTagKind::Expression,
        }]
    );
}

#[test]
fn two_tags_in_document_order() {
    let src = "let a = <template>A</template>; let b = <template>B</template>;";
    let p = Preprocessor::new();
    let output = p.parse(&module(
        src,
        vec![tag_at(src, 8, TagPosition::Expression), tag_at(src, 40, TagPosition::Expression)],
    ));
    assert_eq!(output.len(), 2);
    assert_eq!(output[0].contents, "A");
    assert_eq!(output[1].contents, "B");
    assert_eq!(output[1].range, range(40, 62, 40, 62));
    // The ranges of each record fit together.
    for o in &output {
        assert_eq!(o.start_range.start_byte, o.range.start_byte);
        assert_eq!(o.start_range.end_byte, o.content_range.start_byte);
        assert_eq!(o.content_range.end_byte, o.end_range.start_byte);
        assert_eq!(o.end_range.end_byte, o.range.end_byte);
    }
}
