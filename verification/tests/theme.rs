use mdpdf_desktop::error::AppError;
use mdpdf_desktop::theme::{
    apply_request_format, build_document_options, build_print_options, build_template,
    clean_optional, default_align, default_footer_color, default_footer_font_size,
    default_margin_bottom, default_margin_left, default_margin_right, default_margin_top,
    default_page_format, default_page_size, default_theme, default_true, horizontal_padding_css,
    load_theme_render_options, page_number_markup, render_print_css, validate_align,
    validate_config, validate_css_color, validate_css_ident, validate_css_length,
    validate_footer_format, HeaderFooterConfig, LayoutConfig, PageConfig, PdfConfig,
    PdfFormatOverride, PrintOptions, RenderRequest, ThemeConfig,
};

fn config() -> ThemeConfig {
    ThemeConfig {
        page: PageConfig::default(),
        layout: LayoutConfig { page_number: None, toc: Some(true), chapter_page_break: None },
        pdf: None,
    }
}

fn format() -> PdfFormatOverride {
    PdfFormatOverride {
        cover_enabled: None,
        toc_enabled: None,
        chapter_page_break: None,
        doc_code: None,
        version: None,
        owner: None,
        page_size: None,
        margin_top: None,
        margin_right: None,
        margin_bottom: None,
        margin_left: None,
        page_numbers: None,
        footer_format: None,
        footer_align: None,
        header_enabled: None,
        header_format: None,
        header_align: None,
        custom_css: None,
    }
}

fn request(format: Option<PdfFormatOverride>) -> RenderRequest {
    RenderRequest {
        source_path: None,
        markdown_content: None,
        compare_markdown_content: None,
        filename: None,
        theme: default_theme(),
        render_mermaid: default_true(),
        strict_mermaid: false,
        format,
    }
}

fn conversion(r: Result<(), AppError>) -> String {
    match r {
        Err(AppError::Conversion(m)) => m,
        _ => panic!("expected a conversion error"),
    }
}

#[test]
fn defaults() {
    assert_eq!(default_theme(), "jp-standard");
    assert!(default_true());
    assert_eq!(default_page_size(), "A4");
    assert_eq!(default_margin_top(), "20mm");
    assert_eq!(default_margin_right(), "18mm");
    assert_eq!(default_margin_bottom(), "18mm");
    assert_eq!(default_margin_left(), "18mm");
    assert_eq!(default_page_format(), "{page} / {total}");
    assert_eq!(default_align(), "right");
    assert_eq!(default_footer_font_size(), "11px");
    assert_eq!(default_footer_color(), "#666");
    let footer = HeaderFooterConfig::default_footer(true);
    assert!(footer.enabled && footer.page_numbers);
    assert!(!HeaderFooterConfig::default().enabled);
    assert!(PdfConfig::default().footer.enabled);
    assert!(!PdfConfig::with_page_numbers(false).footer.enabled);
    let p = PrintOptions::default();
    assert!(p.print_background && p.prefer_css_page_size && p.display_header_footer);
    assert_eq!(p.header_template, "<div></div>");
}

#[test]
fn default_configuration_is_valid() {
    assert!(validate_config(&config()).is_ok());
    let mut c = config();
    c.layout.page_number = Some(false);
    assert!(validate_config(&c).is_ok());
}

#[test]
fn values_are_validated() {
    assert!(validate_css_ident("page.size", "A4 landscape").is_ok());
    assert_eq!(conversion(validate_css_ident("page.size", "")), "invalid page.size: ");
    assert_eq!(conversion(validate_css_length("m", "1in;")), "invalid m: 1in;");
    assert!(validate_css_length("m", "12.5%").is_ok());
    assert!(validate_css_color("c", "rgb(1, 2, 3)").is_ok());
    assert_eq!(conversion(validate_css_color("c", "red;x")), "invalid c: red;x");
    assert!(validate_align("a", "center").is_ok());
    assert_eq!(conversion(validate_align("a", "justify")), "invalid a: justify");
    assert!(validate_footer_format("{page}/{total}").is_ok());
    assert_eq!(conversion(validate_footer_format("no page")), "invalid footer_format: missing {page}");
    assert_eq!(
        conversion(validate_footer_format(&format!("{{page}}{}", "x".repeat(80)))),
        "invalid footer_format: maximum length is 80 bytes"
    );
    let mut c = config();
    c.page.margin.left = "1in;x".to_string();
    assert_eq!(conversion(validate_config(&c)), "invalid page.margin.left: 1in;x");
}

#[test]
fn request_format_overrides_theme() {
    let mut c = config();
    let mut f = format();
    f.page_size = Some("  A3 ".to_string());
    f.margin_top = Some("   ".to_string());
    f.footer_format = Some("第{page}页".to_string());
    f.header_format = Some("Confidential".to_string());
    f.header_align = Some("left".to_string());
    assert!(apply_request_format(&mut c, Some(&f)).is_ok());
    assert_eq!(c.page.size, "A3");
    assert_eq!(c.page.margin.top, "20mm");
    let pdf = c.pdf.as_ref().unwrap();
    assert!(pdf.footer.enabled && pdf.footer.page_numbers);
    assert_eq!(pdf.footer.format, "第{page}页");
    assert!(pdf.header.enabled && !pdf.header.page_numbers);
    assert_eq!(pdf.header.text, "Confidential");
    assert_eq!(pdf.header.align, "left");
    let mut c = config();
    let mut f = format();
    f.footer_format = Some("missing".to_string());
    assert_eq!(conversion(apply_request_format(&mut c, Some(&f))), "invalid footer_format: missing {page}");
    assert!(c.pdf.is_some());
    let mut c = config();
    assert!(apply_request_format(&mut c, None).is_ok());
    assert!(c.pdf.is_none());
}

#[test]
fn print_and_document_options() {
    let mut f = format();
    f.cover_enabled = Some(true);
    f.doc_code = Some(" D-1 ".to_string());
    let req = request(Some(f));
    let d = build_document_options(&config(), &req);
    assert!(d.cover_enabled && d.toc_enabled && !d.chapter_page_break);
    assert_eq!(d.doc_code, "D-1");
    assert_eq!(d.version, "");
    let p = build_print_options(&config(), &req);
    assert!(p.display_header_footer);
    assert_eq!(p.header_template, "<div></div>");
    assert_eq!(
        p.footer_template,
        "<div style=\"width:100%; font-size:11px; color:#666; padding:0 18mm 0 18mm; text-align:right;\"><span class=\"pageNumber\"></span> / <span class=\"totalPages\"></span></div>"
    );
    let css = render_print_css("{{page_size}}|{{page_margin_top}}|{{page_margin_left}}", &config());
    assert_eq!(css, "A4|20mm|18mm");
    let o = load_theme_render_options("@page{size:{{page_size}}}", config(), &req).unwrap();
    assert_eq!(o.print_css, "@page{size:A4}");
    assert!(o.document_options.cover_enabled);
}

#[test]
fn theme_name_lands_in_footer_text() {
    let mut c = config();
    let mut footer = HeaderFooterConfig::default_footer(false);
    footer.enabled = true;
    footer.text = "{theme} <b>".to_string();
    c.pdf = Some(PdfConfig {
        print_background: false,
        prefer_css_page_size: true,
        header: HeaderFooterConfig::default(),
        footer,
    });
    let mut req = request(None);
    req.theme = "a&b".to_string();
    let p = build_print_options(&c, &req);
    assert!(!p.print_background);
    assert!(p.footer_template.contains(">a&amp;b &lt;b&gt;</div>"));
}

#[test]
fn template_pieces() {
    assert_eq!(
        page_number_markup("<{page}/{total}>"),
        "&lt;<span class=\"pageNumber\"></span>/<span class=\"totalPages\"></span>&gt;"
    );
    let mut h = HeaderFooterConfig::default();
    h.padding_left = "1mm".to_string();
    h.padding_right = "2mm".to_string();
    assert_eq!(horizontal_padding_css(&h), "2mm 0 1mm");
    h.text = "x".to_string();
    assert_eq!(
        build_template(&h),
        "<div style=\"width:100%; font-size:11px; color:#666; padding:0 2mm 0 1mm; text-align:right;\">x</div>"
    );
    assert_eq!(clean_optional(&Some("  a ".to_string())).as_deref(), Some("a"));
    assert_eq!(clean_optional(&Some("   ".to_string())), None);
    assert_eq!(clean_optional(&None), None);
}

#[test]
fn validated_css_values_are_plain() {
    for bad in ["A4;color:red", "A4}", "A4{", "A4\"", "<A4>"] {
        let mut c = config();
        c.page.size = bad.to_string();
        assert!(validate_config(&c).is_err(), "{bad}");
    }
    let mut c = config();
    c.page.size = "A4 landscape".to_string();
    c.page.margin.top = "12.5mm".to_string();
    assert!(validate_config(&c).is_ok());
}
