//! The in-page preview renderer: a lighter document pipeline with fixed diff markers, a
//! cover without metadata rows, and the page size as the only print setting.
use vstd::prelude::*;
use crate::assets::{EmbeddedTheme, ThemeCatalog};
use crate::diff::{
    diff_markdown_with, lemma_mark_runs_by_marker_text, line_diff, mark_runs, preview_markers,
    DiffMarkers,
};
use crate::error::AppError;
use crate::escape::{encode_text, html_text_escape};
use crate::markdown::{
    body_outcome, document_html, document_title, extract_markdown_title, finish_body,
    markdown_render_options, render_toc, toc_html, toc_items,
};
use crate::mermaid::{
    block_ranges, extract_mermaid_blocks, extracted_byte_ranges, extracted_markdown,
};
use crate::pattern::markdown_to_html;
use crate::text::{
    byte_len, chars_of, find_from, find_from_exec, push_range, replace_all, replace_all_exec,
    utf8_len,
};
use crate::theme::str_eq;

verus! {

/// What the preview is asked to render.
pub struct RenderInput {
    pub markdown: String,
    pub filename: String,
    pub theme: String,
    pub render_mermaid: bool,
    pub compare_markdown: Option<String>,
    pub cover_enabled: bool,
    pub toc_enabled: bool,
    pub chapter_page_break: bool,
    pub page_size: String,
}

/// The rendered preview page, with its warnings and log lines.
#[derive(Debug)]
pub struct RenderOutput {
    pub html: String,
    pub warnings: Vec<String>,
    pub logs: Vec<String>,
}

/// The file name a preview request uses when it gives none.
pub fn default_filename() -> (s: String)
    ensures
        s@ == "document.md"@,
{
    String::from_str("document.md")
}

/// The page size a preview request uses when it gives none.
pub fn default_page_size() -> (s: String)
    ensures
        s@ == "A4"@,
{
    String::from_str("A4")
}

/// The page sizes the preview accepts.
pub open spec fn page_size_ok(v: Seq<char>) -> bool {
    v == "A3"@ || v == "A4"@ || v == "Letter"@
}

/// Accepts `A3`, `A4` or `Letter`.
pub fn validate_page_size(value: &str) -> (r: Result<String, String>)
    ensures
        r is Ok <==> page_size_ok(value@),
        r matches Ok(v) ==> v@ == value@,
        r matches Err(m) ==> m@ == "invalid page size: "@ + value@,
{
    if str_eq(value, "A3") || str_eq(value, "A4") || str_eq(value, "Letter") {
        Ok(String::from_str(value))
    } else {
        let mut m = String::from_str("invalid page size: ");
        m.push_str(value);
        Err(m)
    }
}

/// The bundled theme of a name, for the preview.
pub open spec fn preview_theme(name: Seq<char>, catalog: ThemeCatalog) -> Option<EmbeddedTheme> {
    if name == "modern-tech"@ {
        Some(catalog.modern_tech)
    } else if name == "jp-standard"@ {
        Some(catalog.jp_standard)
    } else {
        None
    }
}

/// The bundled theme of a name; refused when unknown.
pub fn theme_assets<'a>(name: &str, catalog: &'a ThemeCatalog) -> (r: Result<&'a EmbeddedTheme, String>)
    ensures
        match preview_theme(name@, *catalog) {
            Some(t) => r matches Ok(x) && *x == t,
            None => r matches Err(m) && m@ == "unknown theme: "@ + name@,
        },
{
    match crate::assets::embedded_theme(name, catalog) {
        Some(t) => Ok(t),
        None => {
            let mut m = String::from_str("unknown theme: ");
            m.push_str(name);
            Err(m)
        },
    }
}

/// The theme's stylesheet, a line break, then the Prism stylesheet.
pub open spec fn preview_style(style: Seq<char>, prism: Seq<char>) -> Seq<char> {
    style + "\n"@ + prism
}

/// Joins the theme's stylesheet and the Prism stylesheet.
pub fn combined_style(style: &str, prism: &str) -> (r: String)
    ensures
        r@ == preview_style(style@, prism@),
{
    let mut r = String::from_str(style);
    r.push_str("\n");
    r.push_str(prism);
    r
}

/// The preview's cover: the escaped title and an empty metadata list.
pub open spec fn preview_cover(title: Seq<char>) -> Seq<char> {
    "<section class=\"doc-cover\"><div class=\"doc-cover-main\"><h1>"@ + html_text_escape(title)
        + "</h1></div><dl class=\"doc-cover-meta\"></dl></section>"@
}

/// The cover of a preview.
pub fn render_cover(title: &str) -> (r: String)
    ensures
        r@ == preview_cover(title@),
{
    let mut r = String::from_str(
        "<section class=\"doc-cover\"><div class=\"doc-cover-main\"><h1>",
    );
    r.push_str(encode_text(title).as_str());
    r.push_str("</h1></div><dl class=\"doc-cover-meta\"></dl></section>");
    r
}

/// The print stylesheet with the page size and the preview's fixed margins.
pub open spec fn preview_print(print: Seq<char>, size: Seq<char>) -> Seq<char> {
    replace_all(
        replace_all(
            replace_all(
                replace_all(
                    replace_all(print, "{{page_size}}"@, size),
                    "{{page_margin_top}}"@,
                    "20mm"@,
                ),
                "{{page_margin_right}}"@,
                "18mm"@,
            ),
            "{{page_margin_bottom}}"@,
            "18mm"@,
        ),
        "{{page_margin_left}}"@,
        "18mm"@,
    )
}

/// The template with title, style and print style filled in.
pub open spec fn preview_shell(theme: EmbeddedTheme, prism: Seq<char>, title: Seq<char>, print: Seq<char>) -> Seq<
    char,
> {
    replace_all(
        replace_all(
            replace_all(theme.template@, "{{title}}"@, html_text_escape(title)),
            "{{style}}"@,
            preview_style(theme.style@, prism),
        ),
        "{{print_style}}"@,
        print,
    )
}

/// The page: the shell with the cover, table of contents and body put in place of its
/// first `{{body}}`; refused when the shell has none.
pub open spec fn preview_page(
    shell: Seq<char>,
    cover: Option<Seq<char>>,
    toc: Option<Seq<char>>,
    chapter_page_break: bool,
    body: Seq<char>,
) -> Result<Seq<char>, Seq<char>> {
    match find_from(shell, "{{body}}"@, 0) {
        None => Err("theme template is missing {{body}}"@),
        Some(k) => Ok(
            shell.take(k) + (match cover {
                Some(c) => c,
                None => seq![],
            }) + (match toc {
                Some(t) => t,
                None => seq![],
            }) + (if chapter_page_break {
                "<section class=\"chapter-breaks\">"@ + body + "</section>"@
            } else {
                body
            }) + shell.skip(k + 8),
        ),
    }
}

/// The preview of `i`, with the fixed markers `m` bracketing diff runs: refused when the
/// Markdown is over 10 MiB, the theme unknown, a placeholder or marker wrong, the page size
/// not accepted or the template without `{{body}}`. None where the placeholder pass would
/// slice a character apart.
pub open spec fn preview_outcome(i: RenderInput, catalog: ThemeCatalog, m: DiffMarkers) -> Option<
    Result<Seq<char>, Seq<char>>,
> {
    if utf8_len(i.markdown@) > 10485760 {
        Some(Err("markdown exceeds the 10 MiB preview limit"@))
    } else {
        match preview_theme(i.theme@, catalog) {
            None => Some(Err("unknown theme: "@ + i.theme@)),
            Some(theme) => {
                let title = document_title(i.markdown@, i.filename@);
                let md = match i.compare_markdown {
                    Some(old) => mark_runs(line_diff(old@, i.markdown@), m, None),
                    None => i.markdown@,
                };
                let markers = if i.compare_markdown is Some {
                    Some(m)
                } else {
                    None
                };
                match body_outcome(
                    document_html(extracted_markdown(md)),
                    md,
                    extracted_byte_ranges(md),
                    i.render_mermaid,
                    None,
                    markers,
                ) {
                    None => None,
                    Some(Err(e)) => Some(Err(e.1)),
                    Some(Ok(body)) => if !page_size_ok(i.page_size@) {
                        Some(Err("invalid page size: "@ + i.page_size@))
                    } else {
                        Some(
                            preview_page(
                                preview_shell(
                                    theme,
                                    catalog.prism_css@,
                                    title,
                                    preview_print(theme.print@, i.page_size@),
                                ),
                                if i.cover_enabled {
                                    Some(preview_cover(title))
                                } else {
                                    None
                                },
                                if i.toc_enabled {
                                    Some(toc_html(toc_items(body)))
                                } else {
                                    None
                                },
                                i.chapter_page_break,
                                body,
                            ),
                        )
                    },
                }
            },
        }
    }
}

/// The page of a preview outcome.
pub open spec fn output_view(r: Option<Result<RenderOutput, String>>) -> Option<
    Result<Seq<char>, Seq<char>>,
> {
    match r {
        Some(Ok(o)) => Some(Ok(o.html@)),
        Some(Err(e)) => Some(Err(e@)),
        None => None,
    }
}

/// Puts the cover, table of contents and body in place of the shell's first `{{body}}`.
fn fill_page(
    shell: &str,
    cover: Option<String>,
    toc: Option<String>,
    chapter_page_break: bool,
    body: &str,
) -> (r: Result<String, String>)
    ensures
        match preview_page(
            shell@,
            match cover {
                Some(c) => Some(c@),
                None => None,
            },
            match toc {
                Some(t) => Some(t@),
                None => None,
            },
            chapter_page_break,
            body@,
        ) {
            Ok(p) => r matches Ok(h) && h@ == p,
            Err(e) => r matches Err(m) && m@ == e,
        },
{
    let v = chars_of(shell);
    let marker = chars_of("{{body}}");
    proof {
        reveal_strlit("{{body}}");
        crate::text::lemma_find_from_contains(v@, marker@, 0);
    }
    let k = match find_from_exec(&v, &marker, 0) {
        None => {
            return Err(String::from_str("theme template is missing {{body}}"));
        },
        Some(k) => k,
    };
    assert(crate::text::matches_at(v@, marker@, k as int));
    assert(marker@.len() == 8);
    let n = v.len();
    assert(k + 8 <= n);
    let end: usize = k + 8;
    let mut html = String::new();
    push_range(&mut html, &v, 0, k);
    match &cover {
        Some(c) => html.push_str(c.as_str()),
        None => {},
    }
    match &toc {
        Some(t) => html.push_str(t.as_str()),
        None => {},
    }
    if chapter_page_break {
        html.push_str("<section class=\"chapter-breaks\">");
        html.push_str(body);
        html.push_str("</section>");
    } else {
        html.push_str(body);
    }
    push_range(&mut html, &v, end, n);
    proof {
        assert(v@.subrange(0, k as int) =~= v@.take(k as int));
        assert(v@.subrange(k + 8, v@.len() as int) =~= v@.skip(k + 8));
    }
    assert(html@ =~= preview_page(
        shell@,
        match cover {
            Some(c) => Some(c@),
            None => None,
        },
        match toc {
            Some(t) => Some(t@),
            None => None,
        },
        chapter_page_break,
        body@,
    )->Ok_0);
    Ok(html)
}

/// Renders the preview page of a request (see `preview_outcome`); no warnings or log
/// lines.
pub fn render(input: &RenderInput, catalog: &ThemeCatalog) -> (r: Option<Result<RenderOutput, String>>)
    ensures
        rendered_preview(r, *input, *catalog),
{
    let markers = DiffMarkers::default();
    if byte_len(input.markdown.as_str()) > 10485760 {
        return Some(Err(String::from_str("markdown exceeds the 10 MiB preview limit")));
    }
    let theme = match theme_assets(input.theme.as_str(), catalog) {
        Err(e) => {
            return Some(Err(e));
        },
        Ok(t) => t,
    };
    let title = match extract_markdown_title(input.markdown.as_str()) {
        Some(t) => t,
        None => String::from_str(input.filename.as_str()),
    };
    let has_diff = input.compare_markdown.is_some();
    let markdown = match &input.compare_markdown {
        Some(old) => diff_markdown_with(old.as_str(), input.markdown.as_str(), &markers),
        None => String::from_str(input.markdown.as_str()),
    };
    let (without, blocks) = extract_mermaid_blocks(markdown.as_str());
    let options = markdown_render_options();
    let rendered = markdown_to_html(without.as_str(), &options);
    assert(block_ranges(blocks@) =~= extracted_byte_ranges(markdown@));
    let body = match finish_body(
        rendered.as_str(),
        markdown.as_str(),
        blocks.as_slice(),
        input.render_mermaid,
        None,
        if has_diff {
            Some(&markers)
        } else {
            None
        },
    ) {
        None => {
            return None;
        },
        Some(Err(e)) => {
            return Some(Err(e.message()));
        },
        Some(Ok(b)) => b,
    };
    let cover = if input.cover_enabled {
        Some(render_cover(title.as_str()))
    } else {
        None
    };
    let toc = if input.toc_enabled {
        Some(render_toc(body.as_str()))
    } else {
        None
    };
    let size = match validate_page_size(input.page_size.as_str()) {
        Err(e) => {
            return Some(Err(e));
        },
        Ok(s) => s,
    };
    let a = replace_all_exec(&chars_of(theme.print.as_str()), &chars_of("{{page_size}}"), size.as_str());
    let b = replace_all_exec(&chars_of(a.as_str()), &chars_of("{{page_margin_top}}"), "20mm");
    let c = replace_all_exec(&chars_of(b.as_str()), &chars_of("{{page_margin_right}}"), "18mm");
    let d = replace_all_exec(&chars_of(c.as_str()), &chars_of("{{page_margin_bottom}}"), "18mm");
    let print = replace_all_exec(&chars_of(d.as_str()), &chars_of("{{page_margin_left}}"), "18mm");
    let style = combined_style(theme.style.as_str(), catalog.prism_css.as_str());
    let escaped = encode_text(title.as_str());
    let s1 = replace_all_exec(&chars_of(theme.template.as_str()), &chars_of("{{title}}"), escaped.as_str());
    let s2 = replace_all_exec(&chars_of(s1.as_str()), &chars_of("{{style}}"), style.as_str());
    let shell = replace_all_exec(&chars_of(s2.as_str()), &chars_of("{{print_style}}"), print.as_str());
    let r = match fill_page(shell.as_str(), cover, toc, input.chapter_page_break, body.as_str()) {
        Err(e) => Some(Err(e)),
        Ok(html) => Some(Ok(RenderOutput { html, warnings: Vec::new(), logs: Vec::new() })),
    };
    assert(preview_markers(markers));
    r
}

/// The preview depends on its diff markers only through their text, so every choice of
/// the fixed preview markers gives the same outcome.
pub proof fn lemma_preview_outcome_is_fixed(
    i: RenderInput,
    catalog: ThemeCatalog,
    m1: DiffMarkers,
    m2: DiffMarkers,
)
    requires
        preview_markers(m1),
        preview_markers(m2),
    ensures
        preview_outcome(i, catalog, m1) == preview_outcome(i, catalog, m2),
{
    match i.compare_markdown {
        Some(old) => {
            lemma_mark_runs_by_marker_text(line_diff(old@, i.markdown@), m1, m2, None);
        },
        None => {},
    }
}

/// What `render` promises of one input `i` and catalog: the outcome for the fixed preview
/// markers, with no warnings or log lines.
pub open spec fn rendered_preview(
    r: Option<Result<RenderOutput, String>>,
    i: RenderInput,
    catalog: ThemeCatalog,
) -> bool {
    &&& exists|m: DiffMarkers| #[trigger] preview_markers(m) && output_view(r) == preview_outcome(i, catalog, m)
    &&& r matches Some(Ok(o)) ==> o.warnings@.len() == 0 && o.logs@.len() == 0
}

/// Two renders of the same input with the same themes give the same result: the same
/// error, or pages with equal HTML, warnings and log lines. Nothing earlier renders
/// change it.
pub proof fn lemma_render_is_deterministic(
    i: RenderInput,
    catalog: ThemeCatalog,
    r1: Option<Result<RenderOutput, String>>,
    r2: Option<Result<RenderOutput, String>>,
)
    requires
        rendered_preview(r1, i, catalog),
        rendered_preview(r2, i, catalog),
    ensures
        output_view(r1) == output_view(r2),
        r1 matches Some(Ok(o1)) ==> (r2 matches Some(Ok(o2)) && o1.warnings@ == o2.warnings@
            && o1.logs@ == o2.logs@),
{
    let m1 = choose|m: DiffMarkers| #[trigger] preview_markers(m) && output_view(r1) == preview_outcome(i, catalog, m);
    let m2 = choose|m: DiffMarkers| #[trigger] preview_markers(m) && output_view(r2) == preview_outcome(i, catalog, m);
    lemma_preview_outcome_is_fixed(i, catalog, m1, m2);
    match (r1, r2) {
        (Some(Ok(o1)), Some(Ok(o2))) => {
            assert(o1.warnings@ =~= o2.warnings@);
            assert(o1.logs@ =~= o2.logs@);
        },
        _ => {},
    }
}

} // verus!
