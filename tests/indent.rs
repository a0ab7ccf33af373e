use content_tag::indent::{is_whitespace, strip_indent};

#[test]
fn strips_common_indentation_and_blank_lines() {
    assert_eq!(
        strip_indent("\n  <div>\n    <span>Hello</span>\n  </div>\n"),
        "<div>\n  <span>Hello</span>\n</div>"
    );
}

#[test]
fn strips_leading_trailing_whitespace() {
    assert_eq!(strip_indent("\n  <span>Hello</span>\n"), "<span>Hello</span>");
}

#[test]
fn strips_indentation_with_indented_closing_tag() {
    assert_eq!(
        strip_indent("\n    <div>\n      <span>Hello</span>\n    </div>\n  "),
        "<div>\n  <span>Hello</span>\n</div>"
    );
}

#[test]
fn strips_indentation_multiline() {
    assert_eq!(
        strip_indent("\n  Hello\n  <span>there</span>.\n  <p>\n    <span>how are you</span>\n  </p>\n"),
        "Hello\n<span>there</span>.\n<p>\n  <span>how are you</span>\n</p>"
    );
}

#[test]
fn preserves_internal_indentation() {
    assert_eq!(
        strip_indent(
            "\n  <div>\n    <pre>\n      some code\n        with indentation\n    </pre>\n  </div>\n"
        ),
        "<div>\n  <pre>\n    some code\n      with indentation\n  </pre>\n</div>"
    );
}

#[test]
fn opt_out_with_comment() {
    assert_eq!(
        strip_indent("\n{{!-- prevent automatic de-indent --}}\n    <pre>\n      content here\n    </pre>\n  "),
        "{{!-- prevent automatic de-indent --}}\n    <pre>\n      content here\n    </pre>"
    );
}

#[test]
fn mixed_tabs_and_spaces_are_left_alone() {
    assert_eq!(strip_indent("\n  a\n\tb\n\n"), "  a\n\tb");
}

#[test]
fn blank_lines_inside_become_empty_when_stripping() {
    assert_eq!(strip_indent("  a\n   \n  b"), "a\n\nb");
}

#[test]
fn blank_lines_inside_are_kept_without_common_indent() {
    assert_eq!(strip_indent("a\n   \n  b"), "a\n   \n  b");
}

#[test]
fn empty_and_blank_input() {
    assert_eq!(strip_indent(""), "");
    assert_eq!(strip_indent("   \n\t\n"), "");
}

#[test]
fn carriage_returns_before_newlines_are_dropped() {
    assert_eq!(strip_indent("\r\n  a\r\n  b\r\n"), "a\nb");
}

#[test]
fn single_line_keeps_its_text() {
    assert_eq!(strip_indent("hello"), "hello");
    assert_eq!(strip_indent("  hello  "), "hello  ");
}

#[test]
fn unicode_whitespace() {
    assert!(is_whitespace('\u{3000}'));
    assert!(is_whitespace('\u{85}'));
    assert!(!is_whitespace('x'));
    assert!(!is_whitespace('\u{200B}'));
}
