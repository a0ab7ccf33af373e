use content_tag::importer::{fresh_ident, find_existing_import, Importer};
use content_tag::position::Span;
use content_tag::source::{
    ExportName, ImportDecl, ImportSpecifier, NameSite, ParsedModule, TagContent, TagPosition,
    TemplateTag,
};
use content_tag::{Options, Preprocessor};

const SCOPE: &str = "{ eval() { return eval(arguments[0]); } }";
const SCOPE_THIS: &str = "{ component: this, eval() { return eval(arguments[0]); } }";

/// The first tag of `src` that starts at or after byte `from`.
fn tag_from(src: &str, from: usize, position: TagPosition) -> TemplateTag {
    let at = from + src[from..].find("<template>").unwrap();
    let open_end = at + "<template>".len();
    let close = open_end + src[open_end..].find("</template>").unwrap();
    let end = close + "</template>".len();
    TemplateTag {
        position,
        span: Span { lo: at, hi: end },
        opening: Span { lo: at, hi: open_end },
        contents: TagContent { span: Span { lo: open_end, hi: close }, value: src[open_end..close].to_string() },
        closing: Span { lo: close, hi: end },
    }
}

/// A use of a nested binding named `name`, where `before` ends in `src`.
fn binding_after(src: &str, before: &str, name: &str) -> NameSite {
    let at = src.find(before).unwrap() + before.len();
    assert_eq!(&src[at..at + name.len()], name);
    NameSite::Binding { name: name.to_string(), span: Span { lo: at, hi: at + name.len() } }
}

/// The import specifier that starts with `text` in `src`.
fn specifier(src: &str, text: &str, imported: &str, local: &str) -> NameSite {
    let at = src.find(text).unwrap();
    NameSite::Specifier {
        imported: imported.to_string(),
        local: local.to_string(),
        span: Span { lo: at, hi: at + text.len() },
    }
}

fn strings(names: &[&str]) -> Vec<String> {
    names.iter().map(|n| n.to_string()).collect()
}

fn module(
    src: &str,
    tags: Vec<TemplateTag>,
    imports: Vec<ImportDecl>,
    identifiers: &[&str],
    sites: Vec<NameSite>,
) -> ParsedModule {
    ParsedModule {
        src: src.to_string(),
        tags,
        imports,
        identifiers: strings(identifiers),
        sites,
    }
}

fn import_of(local: &str, imported: Option<&str>) -> ImportDecl {
    ImportDecl {
        src: "@ember/template-compiler".to_string(),
        specifiers: vec![ImportSpecifier::Named {
            local: local.to_string(),
            imported: imported.map(|i| ExportName::Ident(i.to_string())),
        }],
    }
}

#[test]
fn no_preexisting_import() {
    let src = "let x = <template>hello</template>";
    let m = module(src, vec![tag_from(src, 0, TagPosition::Expression)], vec![], &["x"], vec![]);
    let r = Preprocessor::new().process(&m);
    let import = "import { template } from \"@ember/template-compiler\";\n";
    assert_eq!(r.code, format!("{import}let x = template(`hello`, {SCOPE})"));
    assert!(r.imported);
    assert_eq!(r.helper, "template");
    // The call maps back to the opening tag, the literal to the content and
    // the scope object to the closing tag.
    let call = r.code.find("template(`").unwrap();
    assert!(r.mappings.iter().any(|m| m.generated == call && m.original == 8));
    let lit = r.code.find("hello").unwrap();
    assert!(r.mappings.iter().any(|m| m.generated == lit && m.original == 18));
    let scope = r.code.find(SCOPE).unwrap();
    assert!(r.mappings.iter().any(|m| m.generated == scope && m.original == 23));
    assert_eq!(r.mappings[0].generated, 0);
    assert_eq!(r.mappings[1].generated, import.len());
    assert_eq!(r.mappings[1].original, 0);
}

#[test]
fn no_template_tags() {
    let src = "console.log('hello')";
    let m = module(src, vec![], vec![], &["console", "log"], vec![]);
    let p = Preprocessor::new();
    let r = p.process(&m);
    assert_eq!(r.code, src);
    assert!(!r.imported);
    assert_eq!(r.mappings.len(), 1);
    assert_eq!((r.mappings[0].generated, r.mappings[0].original), (0, 0));
    assert!(p.parse(&m).is_empty());
}

#[test]
fn preexisting_import_is_reused() {
    let src = "import { template } from \"@ember/template-compiler\";\nlet x = <template>hello</template>";
    let m = module(
        src,
        vec![tag_from(src, 0, TagPosition::Expression)],
        vec![import_of("template", None)],
        &["template", "x"],
        vec![],
    );
    let r = Preprocessor::new().process(&m);
    assert!(!r.imported);
    assert_eq!(
        r.code,
        format!("import {{ template }} from \"@ember/template-compiler\";\nlet x = template(`hello`, {SCOPE})")
    );
}

#[test]
fn preexisting_renamed_import_is_reused() {
    let src = "import { template as t } from \"@ember/template-compiler\";\nlet x = <template>hello</template>";
    let m = module(
        src,
        vec![tag_from(src, 0, TagPosition::Expression)],
        vec![import_of("t", Some("template"))],
        &["t", "x"],
        vec![],
    );
    let r = Preprocessor::new().process(&m);
    assert!(!r.imported);
    assert_eq!(r.helper, "t");
    assert_eq!(
        r.code,
        format!("import {{ template as t }} from \"@ember/template-compiler\";\nlet x = t(`hello`, {SCOPE})")
    );
}

#[test]
fn import_from_another_module_is_not_reused() {
    let src = "import { template } from \"elsewhere\";\nlet x = <template>hi</template>";
    let mut other = import_of("template", None);
    other.src = "elsewhere".to_string();
    let m = module(src, vec![tag_from(src, 0, TagPosition::Expression)], vec![other], &["template", "x"], vec![]);
    let r = Preprocessor::new().process(&m);
    assert!(r.imported);
    assert_eq!(r.helper, "template1");
    assert!(r.code.starts_with("import { template as template1 } from \"@ember/template-compiler\";\n"));
}

#[test]
fn shadowing_binding_is_renamed() {
    let src = "import { template as t } from \"@ember/template-compiler\";\nfunction f(t) { return [t, <template>X</template>]; }";
    let m = module(
        src,
        vec![tag_from(src, 0, TagPosition::Expression)],
        vec![import_of("t", Some("template"))],
        &["t", "f"],
        vec![
            specifier(src, "template as t", "template", "t"),
            binding_after(src, "f(", "t"),
            binding_after(src, "return [", "t"),
        ],
    );
    let r = Preprocessor::new().process(&m);
    assert!(!r.imported);
    assert_eq!(r.helper, "t");
    assert_eq!(r.renamed, "t1");
    assert_eq!(
        r.code,
        format!(
            "import {{ template as t }} from \"@ember/template-compiler\";\nfunction f(t1) {{ return [t1, t(`X`, {SCOPE})]; }}"
        )
    );
}

#[test]
fn reused_import_as_itself_is_simplified() {
    let src = "import { template as template } from \"@ember/template-compiler\";\nlet x = <template>hi</template>";
    let m = module(
        src,
        vec![tag_from(src, 0, TagPosition::Expression)],
        vec![import_of("template", Some("template"))],
        &["template", "x"],
        vec![specifier(src, "template as template", "template", "template")],
    );
    let r = Preprocessor::new().process(&m);
    assert!(!r.imported);
    assert_eq!(
        r.code,
        format!("import {{ template }} from \"@ember/template-compiler\";\nlet x = template(`hi`, {SCOPE})")
    );
}

#[test]
fn module_without_tags_keeps_its_names() {
    let src = "import { a as a } from \"m\";\nfunction f(template) { return template; }";
    let m = module(
        src,
        vec![],
        vec![],
        &["a", "f", "template"],
        vec![
            specifier(src, "a as a", "a", "a"),
            binding_after(src, "f(", "template"),
            binding_after(src, "return ", "template"),
        ],
    );
    let r = Preprocessor::new().process(&m);
    assert_eq!(r.code, src);
}

#[test]
fn avoids_top_level_collision() {
    let src = "function template() {};\nconsole.log(template());\nexport default <template>Hi</template>";
    let m = module(
        src,
        vec![tag_from(src, 0, TagPosition::Expression)],
        vec![],
        &["template", "console", "log"],
        vec![],
    );
    let r = Preprocessor::new().process(&m);
    assert_eq!(r.helper, "template1");
    assert_eq!(
        r.code,
        format!(
            "import {{ template as template1 }} from \"@ember/template-compiler\";\nfunction template() {{}};\nconsole.log(template());\nexport default template1(`Hi`, {SCOPE})"
        )
    );
}

#[test]
fn avoids_local_collision() {
    let src = "export default function (template) {\n  console.log(template);\n  return <template>X</template>;\n};";
    let m = module(
        src,
        vec![tag_from(src, 0, TagPosition::Expression)],
        vec![],
        &["template", "console", "log"],
        vec![binding_after(src, "function (", "template"), binding_after(src, "log(", "template")],
    );
    let r = Preprocessor::new().process(&m);
    assert_eq!(
        r.code,
        format!(
            "import {{ template as template1 }} from \"@ember/template-compiler\";\nexport default function (template) {{\n  console.log(template);\n  return template1(`X`, {SCOPE});\n}};"
        )
    );
}

#[test]
fn class_member_becomes_static_block() {
    let src = "class X { <template>Hello</template> }";
    let m = module(src, vec![tag_from(src, 0, TagPosition::ClassMember)], vec![], &["X"], vec![]);
    let r = Preprocessor::new().process(&m);
    assert_eq!(
        r.code,
        format!("import {{ template }} from \"@ember/template-compiler\";\nclass X {{ static {{ template(`Hello`, {SCOPE_THIS}); }} }}")
    );
}

#[test]
fn bare_statement_becomes_default_export() {
    let src = "<template>Hello</template>";
    let m = module(src, vec![tag_from(src, 0, TagPosition::Statement)], vec![], &[], vec![]);
    let r = Preprocessor::new().process(&m);
    assert_eq!(
        r.code,
        format!("import {{ template }} from \"@ember/template-compiler\";\nexport default template(`Hello`, {SCOPE})")
    );
}

#[test]
fn satisfies_statement_keeps_its_type() {
    let src = "<template>Hello</template> satisfies TOC<Sig>;";
    let m = module(src, vec![tag_from(src, 0, TagPosition::Statement)], vec![], &["TOC", "Sig"], vec![]);
    let r = Preprocessor::new().process(&m);
    assert_eq!(
        r.code,
        format!("import {{ template }} from \"@ember/template-compiler\";\nexport default template(`Hello`, {SCOPE}) satisfies TOC<Sig>;")
    );
}

#[test]
fn content_is_stripped_and_escaped() {
    let src = "let x = <template>\n    <div>\n      He`llo ${name}\n    </div>\n  </template>;";
    let m = module(src, vec![tag_from(src, 0, TagPosition::Expression)], vec![], &["x"], vec![]);
    let r = Preprocessor::new().process(&m);
    assert_eq!(
        r.code,
        format!("import {{ template }} from \"@ember/template-compiler\";\nlet x = template(`<div>\n  He\\`llo \\${{name}}\n</div>`, {SCOPE});")
    );
}

#[test]
fn several_tags_and_multibyte_text_between() {
    let src = "let a = <template>A</template>; // 😀\nlet b = [<template>B</template>];";
    let first = tag_from(src, 0, TagPosition::Expression);
    let second = tag_from(src, first.span.hi, TagPosition::Expression);
    let m = module(src, vec![first, second], vec![], &["a", "b"], vec![]);
    let r = Preprocessor::new().process(&m);
    assert_eq!(
        r.code,
        format!("import {{ template }} from \"@ember/template-compiler\";\nlet a = template(`A`, {SCOPE}); // 😀\nlet b = [template(`B`, {SCOPE})];")
    );
}

#[test]
fn print_appends_inline_source_map() {
    let src = "let x = <template>hi</template>";
    let m = module(src, vec![tag_from(src, 0, TagPosition::Expression)], vec![], &["x"], vec![]);
    let p = Preprocessor::new();
    let r = p.process(&m);
    let map = "{}".to_string();
    let inline = Options { filename: None, inline_source_map: true };
    let pair = p.print(&r, map.clone(), &inline);
    assert_eq!(pair.map, "{}");
    assert_eq!(pair.code, format!("{}//# sourceMappingURL=data:application/json;base64,e30", r.code));
    let longer = p.print(&r, "{\"version\":3}".to_string(), &inline);
    assert!(longer.code.ends_with("base64,eyJ2ZXJzaW9uIjozfQ"));
    let plain = p.print(&r, map, &Options::default());
    assert_eq!(plain.code, r.code);
}

#[test]
fn fresh_names() {
    assert_eq!(fresh_ident("template", &strings(&["x"])), "template");
    assert_eq!(fresh_ident("template", &strings(&["template"])), "template1");
    assert_eq!(fresh_ident("template", &strings(&["template1", "template", "template2"])), "template3");
}

#[test]
fn finds_existing_import_by_string_name() {
    let decl = ImportDecl {
        src: "@ember/template-compiler".to_string(),
        specifiers: vec![
            ImportSpecifier::Default { local: "d".to_string() },
            ImportSpecifier::Named { local: "other".to_string(), imported: None },
            ImportSpecifier::Named {
                local: "tpl".to_string(),
                imported: Some(ExportName::Str("template".to_string())),
            },
        ],
    };
    let m = module("", vec![], vec![decl], &["d", "other", "tpl"], vec![]);
    assert_eq!(find_existing_import(&m, "@ember/template-compiler", "template"), Some("tpl".to_string()));
    assert_eq!(find_existing_import(&m, "@ember/other", "template"), None);
    let importer = Importer::prepare(&m, "@ember/template-compiler", "template");
    assert_eq!(importer.id(), "tpl");
    assert!(!importer.need_insert);
    assert_eq!(importer.insert(true), "");
}

#[test]
fn import_text_quotes_module_name() {
    let m = module("", vec![], vec![], &[], vec![]);
    let importer = Importer::prepare(&m, "we\"ird", "helper");
    assert_eq!(importer.insert(true), "import { helper } from \"we\\\"ird\";\n");
    assert_eq!(importer.insert(false), "");
}
