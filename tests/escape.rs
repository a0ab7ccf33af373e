use content_tag::escape::escape_template_literal;

#[test]
fn escapes_backtick() {
    assert_eq!(escape_template_literal("He`llo"), "He\\`llo");
}

#[test]
fn escapes_dollar() {
    assert_eq!(escape_template_literal("He${ll}o"), "He\\${ll}o");
}

#[test]
fn escapes_backslash_and_leaves_other_escapes_alone() {
    assert_eq!(escape_template_literal(r"Hello\nWorld\u1234"), r"Hello\\nWorld\\u1234");
}

#[test]
fn plain_text_is_unchanged() {
    assert_eq!(escape_template_literal("<div>{{this.x}}</div>"), "<div>{{this.x}}</div>");
    assert_eq!(escape_template_literal(""), "");
}

#[test]
fn escaped_text_reads_back() {
    let original = "a`b$c\\d";
    let escaped = escape_template_literal(original);
    let mut read = String::new();
    let mut chars = escaped.chars();
    while let Some(c) = chars.next() {
        if c == '\\' {
            read.push(chars.next().unwrap());
        } else {
            read.push(c);
        }
    }
    assert_eq!(read, original);
}
