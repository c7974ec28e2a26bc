use mdpdf_desktop::assets::{EmbeddedTheme, ThemeCatalog};
use mdpdf_desktop::markdown::finish_body;
use mdpdf_desktop::mermaid::extract_mermaid_blocks;
use mdpdf_desktop::preview::{
    combined_style, default_filename, default_page_size, render, render_cover, theme_assets,
    validate_page_size, RenderInput,
};

fn catalog() -> ThemeCatalog {
    let theme = |name: &str| EmbeddedTheme {
        template: "<html><head><title>{{title}}</title><style>{{style}}</style><style>{{print_style}}</style></head><body>{{body}}</body></html>".to_string(),
        style: format!("/*{name}*/"),
        print: "@page{size:{{page_size}};margin:{{page_margin_top}} {{page_margin_right}} {{page_margin_bottom}} {{page_margin_left}}}".to_string(),
        config: String::new(),
    };
    ThemeCatalog {
        modern_tech: theme("modern"),
        jp_standard: theme("jp"),
        prism_css: ".token{}".to_string(),
    }
}

fn input(markdown: &str) -> RenderInput {
    RenderInput {
        markdown: markdown.to_string(),
        filename: "test.md".to_string(),
        theme: "jp-standard".to_string(),
        render_mermaid: false,
        compare_markdown: None,
        cover_enabled: false,
        toc_enabled: false,
        chapter_page_break: false,
        page_size: "A4".to_string(),
    }
}

fn render_options() -> comrak::Options<'static> {
    let mut options = comrak::Options::default();
    options.extension.table = true;
    options.extension.autolink = true;
    options.extension.strikethrough = true;
    options.extension.tasklist = true;
    options.extension.header_id_prefix = Some("h-".to_string());
    options
}

#[test]
fn renders_safe_document_with_toc_and_mermaid_placeholder() {
    let output = render(
        &RenderInput {
            markdown: "# Title\n\n## Part\n\n<script>x</script>\n\n```mermaid\ngraph TD; A-->B\n```"
                .into(),
            filename: "test.md".into(),
            theme: "jp-standard".into(),
            render_mermaid: true,
            compare_markdown: None,
            cover_enabled: false,
            toc_enabled: true,
            chapter_page_break: false,
            page_size: "A4".into(),
        },
        &catalog(),
    )
    .unwrap()
    .unwrap();
    assert!(output.html.contains("class=\"doc-toc\""), "{}", output.html);
    assert!(output.html.contains("class=\"mermaid\""));
    assert!(!output.html.contains("<script>x</script>"));
}

#[test]
fn extracts_multiple_mermaid_blocks_with_crlf() {
    let markdown = "before\r\n```mermaid\r\ngraph TD; A-->B\r\n```\r\nmiddle\n```mermaid\nsequenceDiagram\nA->>B: hi\n```\nafter";
    let (without, blocks) = extract_mermaid_blocks(markdown);
    assert_eq!(blocks.len(), 2);
    assert_eq!(
        &markdown[blocks[0].source_start..blocks[0].source_end],
        "graph TD; A-->B"
    );
    assert_eq!(
        &markdown[blocks[1].source_start..blocks[1].source_end],
        "sequenceDiagram\nA->>B: hi"
    );
    assert!(without.contains("@@MERMAID_BLOCK_0@@"));
    assert!(without.contains("@@MERMAID_BLOCK_1@@"));
    let rendered = comrak::markdown_to_html(&without, &render_options());
    let html = finish_body(&rendered, markdown, &blocks, true, None, None).unwrap().unwrap();
    assert_eq!(html.matches("class=\"mermaid\"").count(), 2);
    assert!(!html.contains("@@MERMAID_BLOCK_"));
}

#[test]
fn preview_page_layout() {
    let mut i = input("# Heading\n\n## Two\n\ntext");
    i.cover_enabled = true;
    i.toc_enabled = true;
    i.chapter_page_break = true;
    i.page_size = "Letter".to_string();
    let html = render(&i, &catalog()).unwrap().unwrap().html;
    assert!(html.starts_with("<html><head><title>Heading</title><style>/*jp*/\n.token{}</style><style>@page{size:Letter;margin:20mm 18mm 18mm 18mm}</style></head><body><section class=\"doc-cover\"><div class=\"doc-cover-main\"><h1>Heading</h1></div><dl class=\"doc-cover-meta\"></dl></section><nav class=\"doc-toc\">"));
    assert!(html.contains("</nav><section class=\"chapter-breaks\"><h1>"));
    assert!(html.ends_with("</section></body></html>"));
}

#[test]
fn preview_errors() {
    let c = catalog();
    let mut i = input("x");
    i.theme = "nope".to_string();
    assert_eq!(render(&i, &c).unwrap().unwrap_err(), "unknown theme: nope");
    let mut i = input("x");
    i.page_size = "B5".to_string();
    assert_eq!(render(&i, &c).unwrap().unwrap_err(), "invalid page size: B5");
    let big = input(&"a".repeat(10 * 1024 * 1024 + 1));
    assert_eq!(render(&big, &c).unwrap().unwrap_err(), "markdown exceeds the 10 MiB preview limit");
    let mut no_body = catalog();
    no_body.jp_standard.template = "<html></html>".to_string();
    assert_eq!(render(&input("x"), &no_body).unwrap().unwrap_err(), "theme template is missing {{body}}");
}

#[test]
fn preview_marks_diff_runs() {
    let mut i = input("a\nb\n");
    i.compare_markdown = Some("a\nc\n".to_string());
    let html = render(&i, &catalog()).unwrap().unwrap().html;
    assert!(html.contains("<div class=\"diff-del\">\n<p>c</p>\n</div>"));
    assert!(html.contains("<div class=\"diff-add\">\n<p>b</p>\n</div>"));
    assert!(!html.contains("@@MDPDF_WASM_DIFF_"));
}

#[test]
fn preview_helpers() {
    assert_eq!(default_filename(), "document.md");
    assert_eq!(default_page_size(), "A4");
    assert_eq!(validate_page_size("A3").unwrap(), "A3");
    assert_eq!(validate_page_size("a4").unwrap_err(), "invalid page size: a4");
    assert_eq!(combined_style("s", ""), "s\n");
    assert_eq!(
        render_cover("T&C"),
        "<section class=\"doc-cover\"><div class=\"doc-cover-main\"><h1>T&amp;C</h1></div><dl class=\"doc-cover-meta\"></dl></section>"
    );
    let c = catalog();
    assert_eq!(theme_assets("modern-tech", &c).unwrap().style, "/*modern*/");
    assert_eq!(theme_assets("x", &c).unwrap_err(), "unknown theme: x");
}

#[test]
fn renders_do_not_depend_on_earlier_renders() {
    let c = catalog();
    let mut b = input("# B\n\n```mermaid\ngraph TD; X-->Y\n```\n");
    b.render_mermaid = true;
    b.compare_markdown = Some("# B\n".to_string());
    let first = render(&b, &c).unwrap().unwrap();
    let mut a = input("# A\n\n```mermaid\ngraph LR; P-->Q\n```\n");
    a.render_mermaid = true;
    let _ = render(&a, &c).unwrap().unwrap();
    let second = render(&b, &c).unwrap().unwrap();
    assert_eq!(first.html, second.html);
    assert_eq!(first.warnings, second.warnings);
    assert_eq!(first.logs, second.logs);
}
