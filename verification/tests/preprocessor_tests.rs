//! End-to-end tests of the preprocessor: template registration and runs.

use mdbook_tera::context::ContextSource;
use mdbook_tera::context::ContextValue;
use mdbook_tera::BookItem;
use mdbook_tera::Chapter;
use mdbook_tera::ErrorKind;
use mdbook_tera::StaticContextSource;
use mdbook_tera::TeraPreprocessor;
use mdbook_tera::WatchedContextSource;

fn chapter(path: Option<&str>, content: &str, sub_items: Vec<BookItem>) -> BookItem {
    BookItem::Chapter(Chapter {
        path: path.map(|p| p.as_bytes().to_vec()),
        content: content.to_string(),
        sub_items,
    })
}

fn content_of(item: &BookItem) -> &str {
    match item {
        BookItem::Chapter(c) => c.content.as_str(),
        _ => panic!("expected a chapter"),
    }
}

#[test]
fn hello_world_end_to_end() {
    // Host metadata {name: "World"} inserted under the key `ctx`,
    // context-source empty, chapter content "Hello, {{ ctx.name }}!".
    let pre = TeraPreprocessor::new(StaticContextSource::default());
    let book = vec![chapter(Some("hello.md"), "Hello, {{ ctx.name }}!", Vec::new())];
    let out = pre.run(r#"{ "name": "World" }"#, book).unwrap();
    assert_eq!(content_of(&out[0]), "Hello, World!");
}

#[test]
fn source_keys_win_over_host_metadata() {
    let source = StaticContextSource::from_json_str(r#"{ "ctx": { "name": "Source" } }"#).unwrap();
    let pre = TeraPreprocessor::new(source);
    let book = vec![chapter(Some("hello.md"), "Hello, {{ ctx.name }}!", Vec::new())];
    let out = pre.run(r#"{ "name": "Metadata" }"#, book).unwrap();
    assert_eq!(content_of(&out[0]), "Hello, Source!");
}

#[test]
fn chapter_without_path_is_left_unchanged() {
    let book = vec![
        chapter(None, "{{ this.would.fail }}", Vec::new()),
        chapter(Some("real.md"), "n = {{ n }}", Vec::new()),
    ];
    let source = StaticContextSource::from_json_str(r#"{ "n": 7 }"#).unwrap();
    let pre = TeraPreprocessor::new(source);
    let out = pre.run("{}", book).unwrap();
    assert_eq!(content_of(&out[0]), "{{ this.would.fail }}");
    assert_eq!(content_of(&out[1]), "n = 7");
}

#[test]
fn part_titles_and_separators_pass_through() {
    let pre = TeraPreprocessor::new(StaticContextSource::default());
    let book = vec![
        BookItem::PartTitle(String::from("Part One")),
        BookItem::Separator,
        chapter(Some("a.md"), "plain", Vec::new()),
    ];
    let out = pre.run("{}", book).unwrap();
    assert!(matches!(&out[0], BookItem::PartTitle(t) if t == "Part One"));
    assert!(matches!(&out[1], BookItem::Separator));
    assert_eq!(content_of(&out[2]), "plain");
}

#[test]
fn nested_chapters_render_against_the_same_context() {
    let source = StaticContextSource::from_toml_str("greeting = \"hi\"\n").unwrap();
    let pre = TeraPreprocessor::new(source);
    let book = vec![chapter(
        Some("top.md"),
        "top: {{ greeting }}",
        vec![chapter(Some("sub.md"), "sub: {{ greeting }}", Vec::new())],
    )];
    let out = pre.run("{}", book).unwrap();
    assert_eq!(content_of(&out[0]), "top: hi");
    match &out[0] {
        BookItem::Chapter(c) => assert_eq!(content_of(&c.sub_items[0]), "sub: hi"),
        _ => panic!("expected a chapter"),
    }
}

#[test]
fn registering_a_child_without_its_parent_fails_for_the_whole_batch() {
    let mut pre = TeraPreprocessor::new(StaticContextSource::default());
    let child_alone = vec![(
        String::from("child.tera"),
        String::from("{% extends \"base.tera\" %}"),
    )];
    let err = pre.include_templates(&child_alone).unwrap_err();
    assert_eq!(err.kind, ErrorKind::Inheritance);
}

#[test]
fn a_failed_batch_leaves_the_library_unchanged() {
    let mut pre = TeraPreprocessor::new(StaticContextSource::default());
    let good = vec![(String::from("base.tera"), String::from("BASE"))];
    pre.include_templates(&good).unwrap();
    let bad = vec![
        (String::from("other.tera"), String::from("OTHER")),
        (
            String::from("child.tera"),
            String::from("{% extends \"missing.tera\" %}"),
        ),
    ];
    let err = pre.include_templates(&bad).unwrap_err();
    assert_eq!(err.kind, ErrorKind::Inheritance);
    // The earlier template is still there; nothing of the failed batch is.
    let ctx = ContextValue::empty();
    assert_eq!(pre.render_template("base.tera", &ctx).unwrap(), "BASE");
    let other = pre.render_template("other.tera", &ctx).unwrap_err();
    assert_eq!(other.kind, ErrorKind::NotFound);
}

#[test]
fn registering_child_and_parent_in_one_batch_succeeds() {
    let mut pre = TeraPreprocessor::new(StaticContextSource::default());
    let batch = vec![
        (
            String::from("child.tera"),
            String::from("{% extends \"base.tera\" %}{% block b %}X{% endblock %}"),
        ),
        (
            String::from("base.tera"),
            String::from("A{% block b %}{% endblock %}B"),
        ),
    ];
    pre.include_templates(&batch).unwrap();
}

#[test]
fn chapter_inherits_from_an_included_template() {
    let mut pre = TeraPreprocessor::new(StaticContextSource::default());
    let batch = vec![(
        String::from("base.tera"),
        String::from("A{% block b %}{% endblock %}B"),
    )];
    pre.include_templates(&batch).unwrap();
    let book = vec![chapter(
        Some("c.md"),
        "{% extends \"base.tera\" %}{% block b %}X{% endblock %}",
        Vec::new(),
    )];
    let out = pre.run("{}", book).unwrap();
    assert_eq!(content_of(&out[0]), "AXB");
}

#[test]
fn chapter_includes_an_included_template() {
    let mut pre = TeraPreprocessor::new(StaticContextSource::default());
    let batch = vec![(String::from("inc.tera"), String::from("INC"))];
    pre.include_templates(&batch).unwrap();
    let book = vec![chapter(Some("c.md"), "[{% include \"inc.tera\" %}]", Vec::new())];
    let out = pre.run("{}", book).unwrap();
    assert_eq!(content_of(&out[0]), "[INC]");
}

#[test]
fn chapter_extending_a_missing_parent_aborts_the_run() {
    let pre = TeraPreprocessor::new(StaticContextSource::default());
    let book = vec![chapter(
        Some("c.md"),
        "{% extends \"missing.tera\" %}",
        Vec::new(),
    )];
    let err = pre.run("{}", book).unwrap_err();
    assert_eq!(err.kind, ErrorKind::Inheritance);
}

#[test]
fn including_a_missing_template_fails_the_chapter() {
    let pre = TeraPreprocessor::new(StaticContextSource::default());
    let book = vec![chapter(
        Some("c.md"),
        "{% include \"missing.tera\" %}",
        Vec::new(),
    )];
    let err = pre.run("{}", book).unwrap_err();
    assert_eq!(err.kind, ErrorKind::Eval);
    assert_eq!(err.chapter.as_deref(), Some("c.md"));
}

#[test]
fn rendering_an_unregistered_template_is_not_found() {
    let pre = TeraPreprocessor::new(StaticContextSource::default());
    let ctx = ContextValue::empty();
    let err = pre.render_template("missing.tera", &ctx).unwrap_err();
    assert_eq!(err.kind, ErrorKind::NotFound);
}

#[test]
fn rendering_a_registered_template_succeeds() {
    let mut pre = TeraPreprocessor::new(StaticContextSource::default());
    let batch = vec![(String::from("t.tera"), String::from("v={{ v }}"))];
    pre.include_templates(&batch).unwrap();
    let mut ctx = ContextValue::empty();
    ctx.insert_json("v", "5").unwrap();
    let text = pre.render_template("t.tera", &ctx).unwrap();
    assert_eq!(text, "v=5");
}

#[test]
fn an_undefined_variable_is_an_eval_error_with_the_chapter_path() {
    let pre = TeraPreprocessor::new(StaticContextSource::default());
    let book = vec![
        chapter(Some("fine.md"), "no directives", Vec::new()),
        chapter(Some("bad.md"), "{{ undefined_variable }}", Vec::new()),
    ];
    let err = pre.run("{}", book).unwrap_err();
    assert_eq!(err.kind, ErrorKind::Eval);
    assert_eq!(err.chapter.as_deref(), Some("bad.md"));
}

#[test]
fn invalid_chapter_path_aborts_the_run() {
    let pre = TeraPreprocessor::new(StaticContextSource::default());
    let book = vec![BookItem::Chapter(Chapter {
        path: Some(vec![0xc3, 0x28]),
        content: String::from("body"),
        sub_items: Vec::new(),
    })];
    let err = pre.run("{}", book).unwrap_err();
    assert_eq!(err.kind, ErrorKind::InvalidPath);
}

#[test]
fn malformed_host_metadata_is_a_parse_error() {
    let pre = TeraPreprocessor::new(StaticContextSource::default());
    let book = vec![chapter(Some("a.md"), "x", Vec::new())];
    let err = pre.run("{ not json", book).unwrap_err();
    assert_eq!(err.kind, ErrorKind::Parse);
}

#[test]
fn empty_book_runs_to_an_empty_book() {
    let pre = TeraPreprocessor::new(StaticContextSource::default());
    let out = pre.run("{}", Vec::new()).unwrap();
    assert!(out.is_empty());
}

#[test]
fn run_reflects_a_watched_reload() {
    let initial = StaticContextSource::from_json_str(r#"{ "v": "old" }"#)
        .unwrap()
        .context();
    let watched = WatchedContextSource::new(initial);
    let pre = TeraPreprocessor::new(watched);
    let book = vec![chapter(Some("a.md"), "v = {{ v }}", Vec::new())];
    let out = pre.run("{}", book).unwrap();
    assert_eq!(content_of(&out[0]), "v = old");

    let initial = StaticContextSource::from_json_str(r#"{ "v": "old" }"#)
        .unwrap()
        .context();
    let mut watched = WatchedContextSource::new(initial);
    assert!(watched.reload_from_json_str(r#"{ "v": "new" }"#));
    let pre = TeraPreprocessor::new(watched);
    let book = vec![chapter(Some("a.md"), "v = {{ v }}", Vec::new())];
    let out = pre.run("{}", book).unwrap();
    assert_eq!(content_of(&out[0]), "v = new");
}

#[test]
fn default_preprocessor_renders_plain_text() {
    let pre: TeraPreprocessor = TeraPreprocessor::default();
    let book = vec![chapter(Some("a.md"), "plain text", Vec::new())];
    let out = pre.run("{}", book).unwrap();
    assert_eq!(content_of(&out[0]), "plain text");
}
