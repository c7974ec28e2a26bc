use mdpdf_desktop::assets::{embedded_theme, EmbeddedTheme, ThemeCatalog};
use mdpdf_desktop::diff::{apply_diff_markers, diff_markdown, diff_markdown_with, DiffMarkers};
use mdpdf_desktop::error::AppError;
use mdpdf_desktop::markdown::{
    apply_template, collect_toc_items, decorate_body, extract_markdown_title, finish_body,
    render_body, render_cover, render_markdown_file, render_toc, select_theme,
    validate_document_metadata, validate_theme_name,
};
use mdpdf_desktop::mermaid::{extract_mermaid_blocks, replace_mermaid_placeholders, MermaidBlock};
use mdpdf_desktop::theme::{
    DocumentOptions, LayoutConfig, PageConfig, PdfFormatOverride, RenderRequest, ThemeConfig,
};

fn request(theme: &str) -> RenderRequest {
    RenderRequest {
        source_path: None,
        markdown_content: None,
        compare_markdown_content: None,
        filename: None,
        theme: theme.to_string(),
        render_mermaid: false,
        strict_mermaid: false,
        format: None,
    }
}

fn theme(name: &str) -> EmbeddedTheme {
    EmbeddedTheme {
        template: format!(
            "<html data-theme=\"{name}\"><head><title>{{{{title}}}}</title><style>{{{{style}}}}</style><style>{{{{print_style}}}}</style></head><body>{{{{body}}}}</body></html>"
        ),
        style: format!("body{{font:{name}}}"),
        print: "@page{size:{{page_size}};margin:{{page_margin_top}} {{page_margin_right}} {{page_margin_bottom}} {{page_margin_left}}}".to_string(),
        config: String::new(),
    }
}

fn catalog() -> ThemeCatalog {
    ThemeCatalog {
        modern_tech: theme("modern"),
        jp_standard: theme("jp"),
        prism_css: ".token{}".to_string(),
    }
}

fn config() -> ThemeConfig {
    ThemeConfig {
        page: PageConfig::default(),
        layout: LayoutConfig { page_number: None, toc: None, chapter_page_break: None },
        pdf: None,
    }
}

fn options(cover: bool, toc: bool, breaks: bool) -> DocumentOptions {
    DocumentOptions {
        cover_enabled: cover,
        toc_enabled: toc,
        chapter_page_break: breaks,
        doc_code: String::new(),
        version: String::new(),
        owner: String::new(),
    }
}

#[test]
fn diff_render_keeps_user_html_escaped() {
    let old = "safe\n";
    let new = "safe\n<script>alert(1)</script>\n";
    let diffed = diff_markdown(old, new);
    let req = RenderRequest {
        source_path: None,
        markdown_content: Some(new.to_string()),
        compare_markdown_content: Some(old.to_string()),
        filename: Some("document.md".to_string()),
        theme: "jp-standard".to_string(),
        render_mermaid: false,
        strict_mermaid: false,
        format: None,
    };

    let rendered = render_body(&diffed.markdown, &req, Some(&diffed.markers))
        .expect("the placeholder pass slices cleanly")
        .expect("diff render should succeed");

    assert!(rendered.html.contains("diff-add"));
    assert!(!rendered.html.contains("<script>alert(1)</script>"));
    assert!(!diffed.markers.contains_any(&rendered.html));
}

#[test]
fn toc_reads_comrak_anchor_ids() {
    let html = r##"<h2><a inert href="#part" aria-hidden="true" class="anchor" id="h-part"></a>Part</h2>"##;
    let items = collect_toc_items(html);
    assert_eq!(items.len(), 1);
    assert_eq!(items[0].id, "h-part");
    assert_eq!(items[0].title_html, "Part");
}

#[test]
fn optimized_mermaid_pass_handles_multiple_blocks() {
    let markdown = "before\n```mermaid\ngraph TD; A-->B\n```\nmiddle\n```mermaid\ngraph LR; C-->D\n```\nafter";
    let (without, blocks) = extract_mermaid_blocks(markdown);
    let rendered = comrak::markdown_to_html(&without, &comrak::Options::default());
    let html = replace_mermaid_placeholders(&rendered, markdown, &blocks, true, true).unwrap();
    assert_eq!(html.matches("class=\"mermaid\"").count(), 2);
    assert!(html.contains("data-strict=\"true\""));
    assert!(!html.contains("@@MERMAID_BLOCK_"));
}

#[test]
fn toc_lists_level_two_and_three_headings_with_ids() {
    let html = "<h1><a id=\"h-top\"></a>Top</h1><h2 class=\"x\"><a id=\"h-a\"></a>A &amp; B</h2><h3><a class=\"anchor\" id=\"h-c\"></a>C</h3><h2 id=\"h-outside\">No id inside</h2>";
    let items = collect_toc_items(html);
    assert_eq!(items.len(), 2);
    assert_eq!(items[0].level, 2);
    assert_eq!(items[0].title_html, "A &amp; B");
    assert_eq!(items[1].level, 3);
    assert_eq!(items[1].id, "h-c");
    assert_eq!(
        render_toc(html),
        "<nav class=\"doc-toc\"><h2>目录</h2><ol><li class=\"toc-level-2\"><a href=\"#h-a\">A &amp; B</a></li><li class=\"toc-level-3\"><a href=\"#h-c\">C</a></li></ol></nav>"
    );
    assert_eq!(render_toc("<p>none</p>"), "");
}

#[test]
fn title_is_the_first_level_one_heading() {
    assert_eq!(extract_markdown_title("intro\n  # Title  \n# Other").as_deref(), Some("Title"));
    assert_eq!(extract_markdown_title("## Sub\n#NoSpace\n# \n# Real\r\n").as_deref(), Some("Real"));
    assert_eq!(extract_markdown_title("no heading"), None);
}

#[test]
fn cover_fields_are_limited_to_eighty_bytes() {
    let mut o = options(true, false, false);
    assert!(validate_document_metadata(&o).is_ok());
    o.version = "v".repeat(81);
    match validate_document_metadata(&o) {
        Err(AppError::BadRequest(m)) => assert_eq!(m, "version exceeds 80 bytes"),
        _ => panic!("expected a bad request"),
    }
    o.doc_code = "é".repeat(41);
    match validate_document_metadata(&o) {
        Err(AppError::BadRequest(m)) => assert_eq!(m, "doc_code exceeds 80 bytes"),
        _ => panic!("expected a bad request"),
    }
}

#[test]
fn cover_shows_escaped_title_and_set_fields() {
    let mut o = options(true, false, false);
    o.version = "1.0".to_string();
    assert_eq!(
        render_cover("A<B", "jp-standard", &o),
        "<section class=\"doc-cover\"><div class=\"doc-cover-main\"><h1>A&lt;B</h1></div><dl class=\"doc-cover-meta\"><div><dt>版本</dt><dd>1.0</dd></div></dl></section>"
    );
}

#[test]
fn body_is_decorated_with_cover_toc_and_sections() {
    let html = "<h2><a id=\"h-x\"></a>X</h2>";
    let out = decorate_body(html, "# Doc", "f.md", "jp-standard", &options(true, true, true)).unwrap();
    assert!(out.starts_with("<section class=\"doc-cover\"><div class=\"doc-cover-main\"><h1>Doc</h1>"));
    assert!(out.contains("<nav class=\"doc-toc\"><h2>目录</h2><ol><li class=\"toc-level-2\"><a href=\"#h-x\">X</a></li></ol></nav>"));
    assert!(out.ends_with("<section class=\"mdpdf-editable\"><section class=\"chapter-breaks\"><h2><a id=\"h-x\"></a>X</h2></section></section>"));
    let plain = decorate_body("<p>x</p>", "no title", "f.md", "jp-standard", &options(false, false, false)).unwrap();
    assert_eq!(plain, "<section class=\"mdpdf-editable\"><p>x</p></section>");
}

#[test]
fn template_is_filled() {
    let t = theme("t");
    let page = apply_template(&t, ".p{}", "a<b", "<p>B</p>", "@page{}").unwrap();
    assert_eq!(
        page,
        "<html data-theme=\"t\"><head><title>a&lt;b</title><style>body{font:t}\n/* Prism CSS */\n.p{}</style><style>@page{}</style></head><body><p>B</p></body></html>"
    );
    let no_prism = apply_template(&t, "", "x", "", "").unwrap();
    assert!(no_prism.contains("<style>body{font:t}</style>"));
}

#[test]
fn theme_names_are_checked_and_looked_up() {
    assert!(validate_theme_name("jp-standard").is_ok());
    assert!(validate_theme_name("my_theme2").is_ok());
    assert!(validate_theme_name("").is_err());
    match validate_theme_name("../x") {
        Err(AppError::BadRequest(m)) => assert_eq!(m, "invalid theme name"),
        _ => panic!("expected a bad request"),
    }
    let c = catalog();
    assert!(embedded_theme("modern-tech", &c).unwrap().style.contains("modern"));
    assert!(embedded_theme("jp-standard", &c).unwrap().style.contains("jp"));
    assert!(embedded_theme("other", &c).is_none());
    match select_theme("other", &c) {
        Err(AppError::BadRequest(m)) => assert_eq!(m, "unknown theme: other"),
        _ => panic!("expected a bad request"),
    }
    assert!(select_theme("jp-standard", &c).is_ok());
}

#[test]
fn placeholder_errors_are_reported() {
    let blocks = vec![MermaidBlock { source_start: 0, source_end: 1 }];
    let check = |html: &str, message: &str| match finish_body(html, "g", &blocks, true, None, None) {
        Some(Err(AppError::Conversion(m))) => assert_eq!(m, message),
        _ => panic!("expected a conversion error for {html}"),
    };
    check("<p>@@MERMAID_BLOCK_0</p>", "invalid Mermaid placeholder");
    check("<p>@@MERMAID_BLOCK_x@@</p>", "invalid Mermaid placeholder index");
    check("<p>@@MERMAID_BLOCK_7@@</p>", "Mermaid placeholder index is out of range");
    let ok = finish_body("<p>@@MERMAID_BLOCK_0@@</p>", "g<", &[MermaidBlock { source_start: 0, source_end: 2 }], false, None, None);
    assert_eq!(ok.unwrap().unwrap(), "<pre class=\"mermaid-source\"><code>g&lt;</code></pre>");
    assert!(finish_body("€a@@MERMAID_BLOCK_0@@", "g", &blocks, true, None, None).is_none());
}

#[test]
fn extracted_blocks_come_back_in_place() {
    let markdown = "x\n```mermaid\na<b\n```\ny";
    let (without, blocks) = extract_mermaid_blocks(markdown);
    assert_eq!(without, "x\n\n\n@@MERMAID_BLOCK_0@@\n\ny");
    assert_eq!(&markdown[blocks[0].source_start..blocks[0].source_end], "a<b");
    let html = finish_body("<p>x</p>\n<p>@@MERMAID_BLOCK_0@@</p>\n<p>y</p>", markdown, &blocks, true, Some(false), None)
        .unwrap()
        .unwrap();
    assert_eq!(
        html,
        "<p>x</p>\n<figure class=\"mermaid-diagram\"><div class=\"mermaid\" data-strict=\"false\">a&lt;b</div></figure>\n<p>y</p>"
    );
}

#[test]
fn diff_markers_become_blocks() {
    let markers = DiffMarkers::default();
    let marked = diff_markdown_with("a\n", "a\nb\n", &markers);
    assert_eq!(marked, "a\n\n\n@@MDPDF_WASM_DIFF_ADD_START@@\n\nb\n\n\n@@MDPDF_WASM_DIFF_ADD_END@@\n\n");
    let html = "<p>a</p>\n<p>@@MDPDF_WASM_DIFF_ADD_START@@</p>\n<p>b</p>\n<p>@@MDPDF_WASM_DIFF_ADD_END@@</p>".to_string();
    assert_eq!(
        apply_diff_markers(html, &markers).unwrap(),
        "<p>a</p>\n<div class=\"diff-add\">\n<p>b</p>\n</div>"
    );
    match apply_diff_markers("<h1>@@MDPDF_WASM_DIFF_DEL_END@@</h1>".to_string(), &markers) {
        Err(AppError::Conversion(m)) => assert_eq!(m, "internal diff marker leaked into rendered HTML"),
        _ => panic!("expected a conversion error"),
    }
}

#[test]
fn fresh_diff_markers_use_a_hex_identifier() {
    let d = diff_markdown("x\n", "y\n");
    let id = d.markers.add_start.trim_start_matches("@@MDPDF_DIFF_").trim_end_matches("_ADD_START@@");
    assert_eq!(id.len(), 32);
    assert!(id.chars().all(|c| c.is_ascii_hexdigit() && !c.is_ascii_uppercase()));
    assert_eq!(d.markers.del_end, format!("@@MDPDF_DIFF_{id}_DEL_END@@"));
    assert!(d.markdown.contains(&d.markers.del_start));
    assert!(d.markdown.contains(&d.markers.add_start));
}

#[test]
fn markdown_file_renders_into_the_theme() {
    let c = catalog();
    let mut req = request("modern-tech");
    req.render_mermaid = true;
    req.strict_mermaid = true;
    let markdown = "# Title\n\n## Part\n\n<b>raw</b>\n\n```mermaid\ngraph TD; A-->B\n```\n";
    let doc = render_markdown_file(markdown, "file.md", &req, &c, config()).unwrap().unwrap();
    assert!(doc.html.starts_with("<html data-theme=\"modern\"><head><title>file.md</title>"));
    assert!(doc.html.contains("@page{size:A4;margin:20mm 18mm 18mm 18mm}"));
    assert!(doc.html.contains("<div class=\"mermaid\" data-strict=\"true\">graph TD; A--&gt;B</div>"));
    assert!(!doc.html.contains("<b>raw</b>"));
    assert!(doc.warnings.is_empty() && doc.logs.is_empty());
    assert!(doc.print_options.display_header_footer);
}

#[test]
fn markdown_file_reports_request_errors() {
    let c = catalog();
    match render_markdown_file("x", "f.md", &request("bad/name"), &c, config()) {
        Some(Err(AppError::BadRequest(m))) => assert_eq!(m, "invalid theme name"),
        _ => panic!("expected a bad request"),
    }
    let mut req = request("jp-standard");
    req.format = Some(PdfFormatOverride {
        cover_enabled: Some(true),
        toc_enabled: None,
        chapter_page_break: None,
        doc_code: None,
        version: None,
        owner: None,
        page_size: Some("A4;x".to_string()),
        margin_top: None,
        margin_right: None,
        margin_bottom: None,
        margin_left: None,
        page_numbers: None,
        footer_format: None,
        footer_align: None,
        header_enabled: None,
        header_format: None,
        header_align: None,
        custom_css: None,
    });
    match render_markdown_file("x", "f.md", &req, &c, config()) {
        Some(Err(AppError::Conversion(m))) => assert!(m.contains("page.size")),
        _ => panic!("expected a conversion error"),
    }
}

#[test]
fn markdown_file_diff_marks_changes() {
    let c = catalog();
    let mut req = request("jp-standard");
    req.compare_markdown_content = Some("a\n".to_string());
    let doc = render_markdown_file("a\nb\n", "f.md", &req, &c, config()).unwrap().unwrap();
    assert!(doc.html.contains("<div class=\"diff-add\">\n<p>b</p>\n</div>"));
    assert!(!doc.html.contains("@@MDPDF_DIFF_"));
}

#[test]
fn theme_names_cannot_name_directories() {
    for bad in ["a.b", "a/b", "a\\b", "..", "jp standard"] {
        assert!(validate_theme_name(bad).is_err(), "{bad}");
    }
}

#[test]
fn unchanged_diff_has_no_markers() {
    let text = "a\nb\r\nc";
    let d = diff_markdown(text, text);
    assert_eq!(d.markdown, text);
    let markers = DiffMarkers::default();
    assert_eq!(diff_markdown_with("x\n", "x\n", &markers), "x\n");
}
