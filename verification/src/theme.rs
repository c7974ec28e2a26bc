//! Theme configuration: page setup, header and footer templates, request overrides,
//! validation, and the print and document options derived from them.
use vstd::prelude::*;
use crate::error::AppError;
use crate::escape::{encode_text, html_text_escape};
use crate::text::{
    chars_of, contains, contains_exec, replace_all, replace_all_exec, trim, trim_exec, utf8_len,
    utf8_len_bound,
};

verus! {

/// Overrides of the theme's PDF format that a render request may carry.
pub struct PdfFormatOverride {
    pub cover_enabled: Option<bool>,
    pub toc_enabled: Option<bool>,
    pub chapter_page_break: Option<bool>,
    pub doc_code: Option<String>,
    pub version: Option<String>,
    pub owner: Option<String>,
    pub page_size: Option<String>,
    pub margin_top: Option<String>,
    pub margin_right: Option<String>,
    pub margin_bottom: Option<String>,
    pub margin_left: Option<String>,
    pub page_numbers: Option<bool>,
    pub footer_format: Option<String>,
    pub footer_align: Option<String>,
    pub header_enabled: Option<bool>,
    pub header_format: Option<String>,
    pub header_align: Option<String>,
    pub custom_css: Option<String>,
}

/// A request to render a Markdown document.
pub struct RenderRequest {
    pub source_path: Option<String>,
    pub markdown_content: Option<String>,
    pub compare_markdown_content: Option<String>,
    pub filename: Option<String>,
    pub theme: String,
    pub render_mermaid: bool,
    pub strict_mermaid: bool,
    pub format: Option<PdfFormatOverride>,
}

/// The theme a request names when it names none.
pub fn default_theme() -> (s: String)
    ensures
        s@ == "jp-standard"@,
{
    String::from_str("jp-standard")
}

/// The default of flags that are on unless a request turns them off.
pub fn default_true() -> (b: bool)
    ensures
        b,
{
    true
}

/// A header or footer line of the PDF pages.
pub struct HeaderFooterConfig {
    pub enabled: bool,
    pub text: String,
    pub page_numbers: bool,
    pub format: String,
    pub align: String,
    pub font_size: String,
    pub color: String,
    pub padding_left: String,
    pub padding_right: String,
}

/// The PDF settings of a theme (margins outside the page box are kept by the caller).
pub struct PdfConfig {
    pub print_background: bool,
    pub prefer_css_page_size: bool,
    pub header: HeaderFooterConfig,
    pub footer: HeaderFooterConfig,
}

/// Page size and CSS page margins.
pub struct PageConfig {
    pub size: String,
    pub margin: PageMargin,
}

/// The CSS page margins.
pub struct PageMargin {
    pub top: String,
    pub right: String,
    pub bottom: String,
    pub left: String,
}

/// Layout switches of a theme.
pub struct LayoutConfig {
    pub page_number: Option<bool>,
    pub toc: Option<bool>,
    pub chapter_page_break: Option<bool>,
}

/// A theme's configuration.
pub struct ThemeConfig {
    pub page: PageConfig,
    pub layout: LayoutConfig,
    pub pdf: Option<PdfConfig>,
}

/// The model of a header or footer configuration.
pub struct HeaderFooterSpec {
    pub enabled: bool,
    pub text: Seq<char>,
    pub page_numbers: bool,
    pub format: Seq<char>,
    pub align: Seq<char>,
    pub font_size: Seq<char>,
    pub color: Seq<char>,
    pub padding_left: Seq<char>,
    pub padding_right: Seq<char>,
}

/// The model of the PDF settings.
pub struct PdfSpec {
    pub print_background: bool,
    pub prefer_css_page_size: bool,
    pub header: HeaderFooterSpec,
    pub footer: HeaderFooterSpec,
}

/// The model of a theme configuration.
pub struct ThemeConfigSpec {
    pub size: Seq<char>,
    pub margin_top: Seq<char>,
    pub margin_right: Seq<char>,
    pub margin_bottom: Seq<char>,
    pub margin_left: Seq<char>,
    pub page_number: Option<bool>,
    pub toc: Option<bool>,
    pub chapter_page_break: Option<bool>,
    pub pdf: Option<PdfSpec>,
}

/// The model of the format overrides.
pub struct FormatSpec {
    pub cover_enabled: Option<bool>,
    pub toc_enabled: Option<bool>,
    pub chapter_page_break: Option<bool>,
    pub doc_code: Option<Seq<char>>,
    pub version: Option<Seq<char>>,
    pub owner: Option<Seq<char>>,
    pub page_size: Option<Seq<char>>,
    pub margin_top: Option<Seq<char>>,
    pub margin_right: Option<Seq<char>>,
    pub margin_bottom: Option<Seq<char>>,
    pub margin_left: Option<Seq<char>>,
    pub page_numbers: Option<bool>,
    pub footer_format: Option<Seq<char>>,
    pub footer_align: Option<Seq<char>>,
    pub header_enabled: Option<bool>,
    pub header_format: Option<Seq<char>>,
    pub header_align: Option<Seq<char>>,
}

/// The characters of an optional string.
pub open spec fn opt_view(o: Option<String>) -> Option<Seq<char>> {
    match o {
        Some(s) => Some(s@),
        None => None,
    }
}

impl View for HeaderFooterConfig {
    type V = HeaderFooterSpec;

    open spec fn view(&self) -> HeaderFooterSpec {
        HeaderFooterSpec {
            enabled: self.enabled,
            text: self.text@,
            page_numbers: self.page_numbers,
            format: self.format@,
            align: self.align@,
            font_size: self.font_size@,
            color: self.color@,
            padding_left: self.padding_left@,
            padding_right: self.padding_right@,
        }
    }
}

impl View for PdfConfig {
    type V = PdfSpec;

    open spec fn view(&self) -> PdfSpec {
        PdfSpec {
            print_background: self.print_background,
            prefer_css_page_size: self.prefer_css_page_size,
            header: self.header@,
            footer: self.footer@,
        }
    }
}

impl View for ThemeConfig {
    type V = ThemeConfigSpec;

    open spec fn view(&self) -> ThemeConfigSpec {
        ThemeConfigSpec {
            size: self.page.size@,
            margin_top: self.page.margin.top@,
            margin_right: self.page.margin.right@,
            margin_bottom: self.page.margin.bottom@,
            margin_left: self.page.margin.left@,
            page_number: self.layout.page_number,
            toc: self.layout.toc,
            chapter_page_break: self.layout.chapter_page_break,
            pdf: match self.pdf {
                Some(p) => Some(p@),
                None => None,
            },
        }
    }
}

impl View for PdfFormatOverride {
    type V = FormatSpec;

    open spec fn view(&self) -> FormatSpec {
        FormatSpec {
            cover_enabled: self.cover_enabled,
            toc_enabled: self.toc_enabled,
            chapter_page_break: self.chapter_page_break,
            doc_code: opt_view(self.doc_code),
            version: opt_view(self.version),
            owner: opt_view(self.owner),
            page_size: opt_view(self.page_size),
            margin_top: opt_view(self.margin_top),
            margin_right: opt_view(self.margin_right),
            margin_bottom: opt_view(self.margin_bottom),
            margin_left: opt_view(self.margin_left),
            page_numbers: self.page_numbers,
            footer_format: opt_view(self.footer_format),
            footer_align: opt_view(self.footer_align),
            header_enabled: self.header_enabled,
            header_format: opt_view(self.header_format),
            header_align: opt_view(self.header_align),
        }
    }
}

/// The trimmed value, when it is not blank.
pub open spec fn clean(o: Option<Seq<char>>) -> Option<Seq<char>> {
    match o {
        Some(s) => if trim(s).len() > 0 {
            Some(trim(s))
        } else {
            None
        },
        None => None,
    }
}

/// The trimmed value of an optional string, when it is not blank.
pub fn clean_optional(value: &Option<String>) -> (r: Option<String>)
    ensures
        opt_view(r) == clean(opt_view(*value)),
{
    match value {
        Some(s) => {
            let t = trim_exec(s.as_str());
            if t.as_str().is_empty() {
                None
            } else {
                Some(t)
            }
        },
        None => None,
    }
}

/// The default page size.
pub fn default_page_size() -> (s: String)
    ensures
        s@ == "A4"@,
{
    String::from_str("A4")
}

/// The default top page margin.
pub fn default_margin_top() -> (s: String)
    ensures
        s@ == "20mm"@,
{
    String::from_str("20mm")
}

/// The default right page margin.
pub fn default_margin_right() -> (s: String)
    ensures
        s@ == "18mm"@,
{
    String::from_str("18mm")
}

/// The default bottom page margin.
pub fn default_margin_bottom() -> (s: String)
    ensures
        s@ == "18mm"@,
{
    String::from_str("18mm")
}

/// The default left page margin.
pub fn default_margin_left() -> (s: String)
    ensures
        s@ == "18mm"@,
{
    String::from_str("18mm")
}

/// The default page-number format.
pub fn default_page_format() -> (s: String)
    ensures
        s@ == "{page} / {total}"@,
{
    String::from_str("{page} / {total}")
}

/// The default alignment of headers and footers.
pub fn default_align() -> (s: String)
    ensures
        s@ == "right"@,
{
    String::from_str("right")
}

/// The default font size of headers and footers.
pub fn default_footer_font_size() -> (s: String)
    ensures
        s@ == "11px"@,
{
    String::from_str("11px")
}

/// The default colour of headers and footers.
pub fn default_footer_color() -> (s: String)
    ensures
        s@ == "#666"@,
{
    String::from_str("#666")
}

/// The default header or footer: disabled, no text, page-number format
/// `{page} / {total}`, right-aligned, 11px, `#666`, 18mm padding.
pub open spec fn default_header_footer_spec() -> HeaderFooterSpec {
    HeaderFooterSpec {
        enabled: false,
        text: seq![],
        page_numbers: false,
        format: "{page} / {total}"@,
        align: "right"@,
        font_size: "11px"@,
        color: "#666"@,
        padding_left: "18mm"@,
        padding_right: "18mm"@,
    }
}

/// The default PDF settings; the footer shows page numbers when `page_numbers` holds.
pub open spec fn default_pdf_spec(page_numbers: bool) -> PdfSpec {
    PdfSpec {
        print_background: true,
        prefer_css_page_size: true,
        header: default_header_footer_spec(),
        footer: HeaderFooterSpec {
            enabled: page_numbers,
            page_numbers: page_numbers,
            ..default_header_footer_spec()
        },
    }
}

/// The default page configuration: A4 with margins 20mm / 18mm / 18mm / 18mm.
pub open spec fn default_page_spec(c: ThemeConfigSpec) -> bool {
    &&& c.size == "A4"@
    &&& c.margin_top == "20mm"@
    &&& c.margin_right == "18mm"@
    &&& c.margin_bottom == "18mm"@
    &&& c.margin_left == "18mm"@
}

impl HeaderFooterConfig {
    /// The default header or footer.
    pub fn default() -> (c: Self)
        ensures
            c@ == default_header_footer_spec(),
    {
        HeaderFooterConfig {
            enabled: false,
            text: String::new(),
            page_numbers: false,
            format: default_page_format(),
            align: default_align(),
            font_size: default_footer_font_size(),
            color: default_footer_color(),
            padding_left: default_margin_left(),
            padding_right: default_margin_right(),
        }
    }

    /// The default footer, showing page numbers when `page_numbers` holds.
    pub fn default_footer(page_numbers: bool) -> (c: Self)
        ensures
            c@ == default_pdf_spec(page_numbers).footer,
    {
        let mut c = Self::default();
        c.enabled = page_numbers;
        c.page_numbers = page_numbers;
        c
    }
}

impl PdfConfig {
    /// The default PDF settings.
    pub fn with_page_numbers(page_numbers: bool) -> (c: Self)
        ensures
            c@ == default_pdf_spec(page_numbers),
    {
        PdfConfig {
            print_background: true,
            prefer_css_page_size: true,
            header: HeaderFooterConfig::default(),
            footer: HeaderFooterConfig::default_footer(page_numbers),
        }
    }

    /// The default PDF settings, with page numbers in the footer.
    pub fn default() -> (c: Self)
        ensures
            c@ == default_pdf_spec(true),
    {
        Self::with_page_numbers(true)
    }
}

impl PageMargin {
    /// The default page margins.
    pub fn default() -> (m: Self)
        ensures
            m.top@ == "20mm"@,
            m.right@ == "18mm"@,
            m.bottom@ == "18mm"@,
            m.left@ == "18mm"@,
    {
        PageMargin {
            top: default_margin_top(),
            right: default_margin_right(),
            bottom: default_margin_bottom(),
            left: default_margin_left(),
        }
    }
}

impl PageConfig {
    /// The default page: A4 with the default margins.
    pub fn default() -> (p: Self)
        ensures
            p.size@ == "A4"@,
            p.margin.top@ == "20mm"@,
            p.margin.right@ == "18mm"@,
            p.margin.bottom@ == "18mm"@,
            p.margin.left@ == "18mm"@,
    {
        PageConfig { size: default_page_size(), margin: PageMargin::default() }
    }
}

/// The PDF settings in force: the theme's own, or the defaults (page numbers as the
/// layout says, on unless it says otherwise).
pub open spec fn effective_pdf(c: ThemeConfigSpec) -> PdfSpec {
    match c.pdf {
        Some(p) => p,
        None => default_pdf_spec(
            match c.page_number {
                Some(b) => b,
                None => true,
            },
        ),
    }
}

/// Why a footer format is refused: longer than 80 bytes, or without `{page}`.
pub open spec fn footer_format_error(v: Seq<char>) -> Option<Seq<char>> {
    if utf8_len(v) > 80 {
        Some("invalid footer_format: maximum length is 80 bytes"@)
    } else if !contains(v, "{page}"@) {
        Some("invalid footer_format: missing {page}"@)
    } else {
        None
    }
}

/// The value, or the current one when there is none.
pub open spec fn or_keep(v: Option<Seq<char>>, cur: Seq<char>) -> Seq<char> {
    match v {
        Some(x) => x,
        None => cur,
    }
}

/// The configuration with the page size and margins of the overrides applied.
pub open spec fn with_page_overrides(c: ThemeConfigSpec, f: FormatSpec) -> ThemeConfigSpec {
    ThemeConfigSpec {
        size: or_keep(clean(f.page_size), c.size),
        margin_top: or_keep(clean(f.margin_top), c.margin_top),
        margin_right: or_keep(clean(f.margin_right), c.margin_right),
        margin_bottom: or_keep(clean(f.margin_bottom), c.margin_bottom),
        margin_left: or_keep(clean(f.margin_left), c.margin_left),
        ..c
    }
}

/// The overrides touch the footer.
pub open spec fn touches_footer(f: FormatSpec) -> bool {
    f.page_numbers is Some || clean(f.footer_format) is Some || clean(f.footer_align) is Some
}

/// The overrides touch the header.
pub open spec fn touches_header(f: FormatSpec) -> bool {
    f.header_enabled is Some || clean(f.header_format) is Some || clean(f.header_align) is Some
}

/// The footer with the overrides applied: a format turns page numbers on with it, an
/// alignment replaces the alignment, and a page-number switch decides last.
pub open spec fn footer_with_overrides(h: HeaderFooterSpec, f: FormatSpec) -> HeaderFooterSpec {
    let h1 = match clean(f.footer_format) {
        Some(v) => HeaderFooterSpec { enabled: true, page_numbers: true, format: v, ..h },
        None => h,
    };
    let h2 = HeaderFooterSpec { align: or_keep(clean(f.footer_align), h1.align), ..h1 };
    match f.page_numbers {
        Some(b) => HeaderFooterSpec { enabled: b, page_numbers: b, ..h2 },
        None => h2,
    }
}

/// The header with the overrides applied: a format turns the header on and is a page
/// number format when it holds `{page}` or `{total}`, plain text otherwise; an alignment
/// replaces the alignment; the header switch decides last.
pub open spec fn header_with_overrides(h: HeaderFooterSpec, f: FormatSpec) -> HeaderFooterSpec {
    let h1 = match clean(f.header_format) {
        Some(v) => if contains(v, "{page}"@) || contains(v, "{total}"@) {
            HeaderFooterSpec { enabled: true, page_numbers: true, format: v, ..h }
        } else {
            HeaderFooterSpec { enabled: true, page_numbers: false, text: v, ..h }
        },
        None => h,
    };
    let h2 = HeaderFooterSpec { align: or_keep(clean(f.header_align), h1.align), ..h1 };
    match f.header_enabled {
        Some(b) => HeaderFooterSpec { enabled: b, ..h2 },
        None => h2,
    }
}

/// The configuration after the overrides, and the error a footer format causes. On an
/// error the configuration is the one reached when the footer format was checked.
pub open spec fn apply_format_spec(c: ThemeConfigSpec, f: Option<FormatSpec>) -> (
    ThemeConfigSpec,
    Option<Seq<char>>,
) {
    match f {
        None => (c, None),
        Some(f) => {
            let c1 = with_page_overrides(c, f);
            let footer_error = match clean(f.footer_format) {
                Some(v) => footer_format_error(v),
                None => None,
            };
            if touches_footer(f) && footer_error is Some {
                (ThemeConfigSpec { pdf: Some(effective_pdf(c1)), ..c1 }, footer_error)
            } else {
                let c2 = if touches_footer(f) {
                    let p = effective_pdf(c1);
                    ThemeConfigSpec {
                        pdf: Some(PdfSpec { footer: footer_with_overrides(p.footer, f), ..p }),
                        ..c1
                    }
                } else {
                    c1
                };
                let c3 = if touches_header(f) {
                    let p = effective_pdf(c2);
                    ThemeConfigSpec {
                        pdf: Some(PdfSpec { header: header_with_overrides(p.header, f), ..p }),
                        ..c2
                    }
                } else {
                    c2
                };
                (c3, None)
            }
        },
    }
}

/// Refuses a footer format longer than 80 bytes or without `{page}`.
pub fn validate_footer_format(value: &str) -> (r: Result<(), AppError>)
    ensures
        r is Ok <==> footer_format_error(value@) is None,
        r matches Err(e) ==> (e matches AppError::Conversion(m) && Some(m@) == footer_format_error(
            value@,
        )),
{
    let v = chars_of(value);
    utf8_len_bound(value);
    let n = byte_length(&v);
    if n > 80 {
        return Err(
            AppError::Conversion(String::from_str("invalid footer_format: maximum length is 80 bytes")),
        );
    }
    if !contains_exec(&v, &chars_of("{page}")) {
        return Err(AppError::Conversion(String::from_str("invalid footer_format: missing {page}")));
    }
    Ok(())
}

/// The number of UTF-8 bytes of the characters.
pub fn byte_length(v: &Vec<char>) -> (n: usize)
    requires
        utf8_len(v@) <= usize::MAX,
    ensures
        n == utf8_len(v@),
{
    let mut k: usize = 0;
    let mut n: usize = 0;
    assert(v@.take(0) =~= Seq::<char>::empty());
    while k < v.len()
        invariant
            k <= v@.len(),
            n == utf8_len(v@.take(k as int)),
            utf8_len(v@) <= usize::MAX,
        decreases v@.len() - k,
    {
        proof {
            crate::text::lemma_utf8_len_take_step(v@, k as int);
            crate::text::lemma_utf8_len_monotone(v@, k + 1, v@.len() as int);
            assert(v@.take(v@.len() as int) =~= v@);
        }
        n = n + crate::text::char_width_exec(v[k]);
        k += 1;
    }
    assert(v@.take(k as int) =~= v@);
    n
}

/// The footer with a valid footer format, the alignment and the page-number switch
/// applied.
fn apply_footer_overrides(h: &mut HeaderFooterConfig, format: &PdfFormatOverride)
    requires
        clean(format@.footer_format) matches Some(v) ==> footer_format_error(v) is None,
    ensures
        final(h)@ == footer_with_overrides(old(h)@, format@),
{
    if let Some(value) = clean_optional(&format.footer_format) {
        h.enabled = true;
        h.page_numbers = true;
        h.format = value;
    }
    if let Some(value) = clean_optional(&format.footer_align) {
        h.align = value;
    }
    if let Some(enabled) = format.page_numbers {
        h.enabled = enabled;
        h.page_numbers = enabled;
    }
}

/// The header with the format, the alignment and the switch applied.
fn apply_header_overrides(h: &mut HeaderFooterConfig, format: &PdfFormatOverride)
    ensures
        final(h)@ == header_with_overrides(old(h)@, format@),
{
    if let Some(value) = clean_optional(&format.header_format) {
        h.enabled = true;
        let v = chars_of(value.as_str());
        if contains_exec(&v, &chars_of("{page}")) || contains_exec(&v, &chars_of("{total}")) {
            h.page_numbers = true;
            h.format = value;
        } else {
            h.page_numbers = false;
            h.text = value;
        }
    }
    if let Some(value) = clean_optional(&format.header_align) {
        h.align = value;
    }
    if let Some(enabled) = format.header_enabled {
        h.enabled = enabled;
    }
}

/// The PDF settings in force, taken out of the configuration (the defaults when it has
/// none).
fn take_effective_pdf(config: &mut ThemeConfig) -> (p: PdfConfig)
    ensures
        p@ == effective_pdf(old(config)@),
        final(config)@ == (ThemeConfigSpec { pdf: None, ..old(config)@ }),
{
    let default_page_numbers = match config.layout.page_number {
        Some(b) => b,
        None => true,
    };
    match config.pdf.take() {
        Some(p) => p,
        None => PdfConfig::with_page_numbers(default_page_numbers),
    }
}

/// Applies a request's format overrides to the theme configuration: page size and
/// margins, then the footer, then the header. A footer format longer than 80 bytes or
/// without `{page}` is refused.
pub fn apply_request_format(config: &mut ThemeConfig, format: Option<&PdfFormatOverride>) -> (r:
    Result<(), AppError>)
    ensures
        final(config)@ == apply_format_spec(
            old(config)@,
            match format {
                Some(f) => Some(f@),
                None => None,
            },
        ).0,
        r is Ok <==> apply_format_spec(
            old(config)@,
            match format {
                Some(f) => Some(f@),
                None => None,
            },
        ).1 is None,
        r matches Err(e) ==> (e matches AppError::Conversion(m) && Some(m@) == apply_format_spec(
            old(config)@,
            match format {
                Some(f) => Some(f@),
                None => None,
            },
        ).1),
{
    let format = match format {
        None => {
            return Ok(());
        },
        Some(f) => f,
    };
    if let Some(value) = clean_optional(&format.page_size) {
        config.page.size = value;
    }
    if let Some(value) = clean_optional(&format.margin_top) {
        config.page.margin.top = value;
    }
    if let Some(value) = clean_optional(&format.margin_right) {
        config.page.margin.right = value;
    }
    if let Some(value) = clean_optional(&format.margin_bottom) {
        config.page.margin.bottom = value;
    }
    if let Some(value) = clean_optional(&format.margin_left) {
        config.page.margin.left = value;
    }
    let ghost c1 = config@;
    assert(c1 == with_page_overrides(old(config)@, format@));
    let footer_format = clean_optional(&format.footer_format);
    if format.page_numbers.is_some() || footer_format.is_some() || clean_optional(
        &format.footer_align,
    ).is_some() {
        let mut pdf = take_effective_pdf(config);
        if let Some(value) = &footer_format {
            if let Err(e) = validate_footer_format(value.as_str()) {
                config.pdf = Some(pdf);
                return Err(e);
            }
        }
        apply_footer_overrides(&mut pdf.footer, format);
        config.pdf = Some(pdf);
    }
    let ghost c2 = config@;
    if format.header_enabled.is_some() || clean_optional(&format.header_format).is_some()
        || clean_optional(&format.header_align).is_some() {
        let mut pdf = take_effective_pdf(config);
        apply_header_overrides(&mut pdf.header, format);
        config.pdf = Some(pdf);
    }
    Ok(())
}


/// The message of a refused configuration value.
pub open spec fn invalid_value(name: Seq<char>, value: Seq<char>) -> Seq<char> {
    "invalid "@ + name + ": "@ + value
}

fn invalid_value_error(name: &str, value: &str) -> (e: AppError)
    ensures
        e matches AppError::Conversion(m) && m@ == invalid_value(name@, value@),
{
    let mut m = String::new();
    m.push_str("invalid ");
    m.push_str(name);
    m.push_str(": ");
    m.push_str(value);
    AppError::Conversion(m)
}

/// An ASCII letter or digit.
pub open spec fn is_ascii_alnum(c: char) -> bool {
    ('0' <= c <= '9') || ('a' <= c <= 'z') || ('A' <= c <= 'Z')
}

/// A character of a CSS identifier such as a page size: letters, digits, `-`, space.
pub open spec fn is_ident_char(c: char) -> bool {
    is_ascii_alnum(c) || c == '-' || c == ' '
}

/// A character of a CSS length: letters, digits, `.`, `-`, `%`.
pub open spec fn is_length_char(c: char) -> bool {
    is_ascii_alnum(c) || c == '.' || c == '-' || c == '%'
}

/// A character of a CSS colour: letters, digits, `#`, `(`, `)`, `,`, `.`, `%`, space.
pub open spec fn is_color_char(c: char) -> bool {
    is_ascii_alnum(c) || c == '#' || c == '(' || c == ')' || c == ',' || c == '.' || c == '%'
        || c == ' '
}

/// A non-empty value whose characters are all of the given class (0 identifier,
/// 1 length, 2 colour).
pub open spec fn css_value_ok(v: Seq<char>, class: u8) -> bool {
    v.len() > 0 && forall|k: int|
        0 <= k < v.len() ==> #[trigger] char_in_class(v[k], class)
}

pub open spec fn char_in_class(c: char, class: u8) -> bool {
    if class == 0 {
        is_ident_char(c)
    } else if class == 1 {
        is_length_char(c)
    } else {
        is_color_char(c)
    }
}

fn char_in_class_exec(c: char, class: u8) -> (b: bool)
    ensures
        b == char_in_class(c, class),
{
    let alnum = ('0' <= c && c <= '9') || ('a' <= c && c <= 'z') || ('A' <= c && c <= 'Z');
    if class == 0 {
        alnum || c == '-' || c == ' '
    } else if class == 1 {
        alnum || c == '.' || c == '-' || c == '%'
    } else {
        alnum || c == '#' || c == '(' || c == ')' || c == ',' || c == '.' || c == '%' || c == ' '
    }
}

fn css_value_ok_exec(value: &str, class: u8) -> (b: bool)
    ensures
        b == css_value_ok(value@, class),
{
    let v = chars_of(value);
    if v.len() == 0 {
        return false;
    }
    let mut k: usize = 0;
    while k < v.len()
        invariant
            k <= v@.len(),
            v@ == value@,
            forall|j: int| 0 <= j < k ==> #[trigger] char_in_class(v@[j], class),
        decreases v@.len() - k,
    {
        if !char_in_class_exec(v[k], class) {
            assert(!char_in_class(value@[k as int], class));
            return false;
        }
        k += 1;
    }
    true
}

/// Refuses a CSS identifier (such as a page size) that is empty or holds other than
/// letters, digits, `-` and spaces.
pub fn validate_css_ident(name: &str, value: &str) -> (r: Result<(), AppError>)
    ensures
        r is Ok <==> css_value_ok(value@, 0),
        r matches Err(e) ==> (e matches AppError::Conversion(m) && m@ == invalid_value(
            name@,
            value@,
        )),
{
    if css_value_ok_exec(value, 0) {
        Ok(())
    } else {
        Err(invalid_value_error(name, value))
    }
}

/// Refuses a CSS length that is empty or holds other than letters, digits, `.`, `-`, `%`.
pub fn validate_css_length(name: &str, value: &str) -> (r: Result<(), AppError>)
    ensures
        r is Ok <==> css_value_ok(value@, 1),
        r matches Err(e) ==> (e matches AppError::Conversion(m) && m@ == invalid_value(
            name@,
            value@,
        )),
{
    if css_value_ok_exec(value, 1) {
        Ok(())
    } else {
        Err(invalid_value_error(name, value))
    }
}

/// Refuses a CSS colour that is empty or holds other than letters, digits and
/// `#(),.%` and spaces.
pub fn validate_css_color(name: &str, value: &str) -> (r: Result<(), AppError>)
    ensures
        r is Ok <==> css_value_ok(value@, 2),
        r matches Err(e) ==> (e matches AppError::Conversion(m) && m@ == invalid_value(
            name@,
            value@,
        )),
{
    if css_value_ok_exec(value, 2) {
        Ok(())
    } else {
        Err(invalid_value_error(name, value))
    }
}

/// An alignment is `left`, `center` or `right`.
pub open spec fn align_ok(v: Seq<char>) -> bool {
    v == "left"@ || v == "center"@ || v == "right"@
}

/// Whether the characters of `s` are those of `t`.
pub fn str_eq(s: &str, t: &str) -> (b: bool)
    ensures
        b == (s@ == t@),
{
    let a = chars_of(s);
    let b = chars_of(t);
    if a.len() != b.len() {
        return false;
    }
    let r = crate::text::matches_at_exec(&a, &b, 0);
    assert(r == (a@ == b@)) by {
        assert(a@.subrange(0, b@.len() as int) =~= a@);
    }
    r
}

/// Refuses an alignment other than `left`, `center` and `right`.
pub fn validate_align(name: &str, value: &str) -> (r: Result<(), AppError>)
    ensures
        r is Ok <==> align_ok(value@),
        r matches Err(e) ==> (e matches AppError::Conversion(m) && m@ == invalid_value(
            name@,
            value@,
        )),
{
    if str_eq(value, "left") || str_eq(value, "center") || str_eq(value, "right") {
        Ok(())
    } else {
        Err(invalid_value_error(name, value))
    }
}

/// The first refused value of a configuration, in the order they are checked: the page
/// size, the page margins, the header's and footer's font sizes and paddings, their
/// alignments, their colours.
pub open spec fn config_error(c: ThemeConfigSpec) -> Option<Seq<char>> {
    let p = effective_pdf(c);
    if !css_value_ok(c.size, 0) {
        Some(invalid_value("page.size"@, c.size))
    } else if !css_value_ok(c.margin_top, 1) {
        Some(invalid_value("page.margin.top"@, c.margin_top))
    } else if !css_value_ok(c.margin_right, 1) {
        Some(invalid_value("page.margin.right"@, c.margin_right))
    } else if !css_value_ok(c.margin_bottom, 1) {
        Some(invalid_value("page.margin.bottom"@, c.margin_bottom))
    } else if !css_value_ok(c.margin_left, 1) {
        Some(invalid_value("page.margin.left"@, c.margin_left))
    } else {
        pdf_error(p)
    }
}

/// The first refused value of the PDF settings: the header's and footer's font sizes and
/// paddings, their alignments, their colours.
pub open spec fn pdf_error(p: PdfSpec) -> Option<Seq<char>> {
    if !css_value_ok(p.header.font_size, 1) {
        Some(invalid_value("pdf.header.font_size"@, p.header.font_size))
    } else if !css_value_ok(p.header.padding_left, 1) {
        Some(invalid_value("pdf.header.padding_left"@, p.header.padding_left))
    } else if !css_value_ok(p.header.padding_right, 1) {
        Some(invalid_value("pdf.header.padding_right"@, p.header.padding_right))
    } else if !css_value_ok(p.footer.font_size, 1) {
        Some(invalid_value("pdf.footer.font_size"@, p.footer.font_size))
    } else if !css_value_ok(p.footer.padding_left, 1) {
        Some(invalid_value("pdf.footer.padding_left"@, p.footer.padding_left))
    } else if !css_value_ok(p.footer.padding_right, 1) {
        Some(invalid_value("pdf.footer.padding_right"@, p.footer.padding_right))
    } else if !align_ok(p.header.align) {
        Some(invalid_value("pdf.header.align"@, p.header.align))
    } else if !align_ok(p.footer.align) {
        Some(invalid_value("pdf.footer.align"@, p.footer.align))
    } else if !css_value_ok(p.header.color, 2) {
        Some(invalid_value("pdf.header.color"@, p.header.color))
    } else if !css_value_ok(p.footer.color, 2) {
        Some(invalid_value("pdf.footer.color"@, p.footer.color))
    } else {
        None
    }
}

fn validate_header_footer(
    h: &HeaderFooterConfig,
    font_name: &str,
    left_name: &str,
    right_name: &str,
) -> (r: Result<(), AppError>)
    ensures
        r is Ok <==> (css_value_ok(h@.font_size, 1) && css_value_ok(h@.padding_left, 1)
            && css_value_ok(h@.padding_right, 1)),
        r matches Err(e) ==> (e matches AppError::Conversion(m) && m@ == (if !css_value_ok(
            h@.font_size,
            1,
        ) {
            invalid_value(font_name@, h@.font_size)
        } else if !css_value_ok(h@.padding_left, 1) {
            invalid_value(left_name@, h@.padding_left)
        } else {
            invalid_value(right_name@, h@.padding_right)
        })),
{
    match validate_css_length(font_name, h.font_size.as_str()) {
        Err(e) => {
            return Err(e);
        },
        Ok(()) => {},
    }
    match validate_css_length(left_name, h.padding_left.as_str()) {
        Err(e) => {
            return Err(e);
        },
        Ok(()) => {},
    }
    validate_css_length(right_name, h.padding_right.as_str())
}

fn validate_pdf_section(pdf: &PdfConfig) -> (r: Result<(), AppError>)
    ensures
        r is Ok <==> pdf_error(pdf@) is None,
        r matches Err(e) ==> (e matches AppError::Conversion(m) && Some(m@) == pdf_error(pdf@)),
{
    match validate_header_footer(
        &pdf.header,
        "pdf.header.font_size",
        "pdf.header.padding_left",
        "pdf.header.padding_right",
    ) {
        Err(e) => {
            return Err(e);
        },
        Ok(()) => {},
    }
    match validate_header_footer(
        &pdf.footer,
        "pdf.footer.font_size",
        "pdf.footer.padding_left",
        "pdf.footer.padding_right",
    ) {
        Err(e) => {
            return Err(e);
        },
        Ok(()) => {},
    }
    match validate_align("pdf.header.align", pdf.header.align.as_str()) {
        Err(e) => {
            return Err(e);
        },
        Ok(()) => {},
    }
    match validate_align("pdf.footer.align", pdf.footer.align.as_str()) {
        Err(e) => {
            return Err(e);
        },
        Ok(()) => {},
    }
    match validate_css_color("pdf.header.color", pdf.header.color.as_str()) {
        Err(e) => {
            return Err(e);
        },
        Ok(()) => {},
    }
    validate_css_color("pdf.footer.color", pdf.footer.color.as_str())
}

/// Checks the page size, the margins and the header and footer settings in force
/// (the theme's, or the defaults); the first refused value is the error.
pub fn validate_config(config: &ThemeConfig) -> (r: Result<(), AppError>)
    ensures
        r is Ok <==> config_error(config@) is None,
        r matches Err(e) ==> (e matches AppError::Conversion(m) && Some(m@) == config_error(
            config@,
        )),
{
    match validate_css_ident("page.size", config.page.size.as_str()) {
        Err(e) => {
            return Err(e);
        },
        Ok(()) => {},
    }
    match validate_css_length("page.margin.top", config.page.margin.top.as_str()) {
        Err(e) => {
            return Err(e);
        },
        Ok(()) => {},
    }
    match validate_css_length("page.margin.right", config.page.margin.right.as_str()) {
        Err(e) => {
            return Err(e);
        },
        Ok(()) => {},
    }
    match validate_css_length("page.margin.bottom", config.page.margin.bottom.as_str()) {
        Err(e) => {
            return Err(e);
        },
        Ok(()) => {},
    }
    match validate_css_length("page.margin.left", config.page.margin.left.as_str()) {
        Err(e) => {
            return Err(e);
        },
        Ok(()) => {},
    }
    match &config.pdf {
        Some(pdf) => validate_pdf_section(pdf),
        None => {
            let default_pdf = PdfConfig::with_page_numbers(
                match config.layout.page_number {
                    Some(b) => b,
                    None => true,
                },
            );
            validate_pdf_section(&default_pdf)
        },
    }
}


/// The options handed to the PDF printer (the page-box margins, which are fractional
/// numbers, travel beside them).
pub struct PrintOptions {
    pub print_background: bool,
    pub prefer_css_page_size: bool,
    pub display_header_footer: bool,
    pub header_template: String,
    pub footer_template: String,
}

/// The default footer template: page number and total, right-aligned.
pub open spec fn default_footer_template() -> Seq<char> {
    "<div style=\"width:100%; font-size:8px; color:#666; padding:0 18mm; text-align:right;\"><span class=\"pageNumber\"></span> / <span class=\"totalPages\"></span></div>"@
}

impl PrintOptions {
    /// Backgrounds printed, CSS page size preferred, an empty header and a page-number
    /// footer.
    pub fn default() -> (p: Self)
        ensures
            p.print_background,
            p.prefer_css_page_size,
            p.display_header_footer,
            p.header_template@ == "<div></div>"@,
            p.footer_template@ == default_footer_template(),
    {
        PrintOptions {
            print_background: true,
            prefer_css_page_size: true,
            display_header_footer: true,
            header_template: String::from_str("<div></div>"),
            footer_template: String::from_str(
                "<div style=\"width:100%; font-size:8px; color:#666; padding:0 18mm; text-align:right;\"><span class=\"pageNumber\"></span> / <span class=\"totalPages\"></span></div>",
            ),
        }
    }
}

/// What the document around the Markdown body shows.
pub struct DocumentOptions {
    pub cover_enabled: bool,
    pub toc_enabled: bool,
    pub chapter_page_break: bool,
    pub doc_code: String,
    pub version: String,
    pub owner: String,
}

/// The print stylesheet, printer options and document options of a theme and request.
pub struct ThemeRenderOptions {
    pub print_css: String,
    pub print_options: PrintOptions,
    pub document_options: DocumentOptions,
}

/// A page-number format escaped for HTML, with `{page}` and `{total}` turned into the
/// printer's page-number and page-count elements.
pub open spec fn page_number_html(format: Seq<char>) -> Seq<char> {
    replace_all(
        replace_all(
            html_text_escape(format),
            "{page}"@,
            "<span class=\"pageNumber\"></span>"@,
        ),
        "{total}"@,
        "<span class=\"totalPages\"></span>"@,
    )
}

/// Turns a page-number format into printer markup.
pub fn page_number_markup(format: &str) -> (r: String)
    ensures
        r@ == page_number_html(format@),
{
    let escaped = encode_text(format);
    let with_page = replace_all_exec(
        &chars_of(escaped.as_str()),
        &chars_of("{page}"),
        "<span class=\"pageNumber\"></span>",
    );
    replace_all_exec(
        &chars_of(with_page.as_str()),
        &chars_of("{total}"),
        "<span class=\"totalPages\"></span>",
    )
}

/// The horizontal padding: right padding, `0`, left padding.
pub open spec fn horizontal_padding(h: HeaderFooterSpec) -> Seq<char> {
    h.padding_right + " 0 "@ + h.padding_left
}

/// The horizontal padding of a header or footer, as CSS.
pub fn horizontal_padding_css(config: &HeaderFooterConfig) -> (r: String)
    ensures
        r@ == horizontal_padding(config@),
{
    let mut r = String::new();
    r.push_str(config.padding_right.as_str());
    r.push_str(" 0 ");
    r.push_str(config.padding_left.as_str());
    r
}

/// The printer template of a header or footer: a full-width line in its font size,
/// colour, padding and alignment, holding the page-number markup or the escaped text.
pub open spec fn template_html(h: HeaderFooterSpec) -> Seq<char> {
    let body = if h.page_numbers {
        page_number_html(h.format)
    } else {
        html_text_escape(h.text)
    };
    "<div style=\"width:100%; font-size:"@ + h.font_size + "; color:"@ + h.color
        + "; padding:0 "@ + horizontal_padding(h) + "; text-align:"@ + h.align + ";\">"@ + body
        + "</div>"@
}

/// Builds the printer template of a header or footer.
pub fn build_template(config: &HeaderFooterConfig) -> (r: String)
    ensures
        r@ == template_html(config@),
{
    let body = if config.page_numbers {
        page_number_markup(config.format.as_str())
    } else {
        encode_text(config.text.as_str())
    };
    let mut r = String::new();
    r.push_str("<div style=\"width:100%; font-size:");
    r.push_str(config.font_size.as_str());
    r.push_str("; color:");
    r.push_str(config.color.as_str());
    r.push_str("; padding:0 ");
    r.push_str(horizontal_padding_css(config).as_str());
    r.push_str("; text-align:");
    r.push_str(config.align.as_str());
    r.push_str(";\">");
    r.push_str(body.as_str());
    r.push_str("</div>");
    assert(r@ =~= template_html(config@));
    r
}

/// The header template, or an empty one when the header is off.
pub open spec fn enabled_template(h: HeaderFooterSpec) -> Seq<char> {
    if h.enabled {
        template_html(h)
    } else {
        "<div></div>"@
    }
}

/// The printer options that the PDF settings in force and the theme name give.
pub open spec fn print_options_for(p: PrintOptions, c: ThemeConfigSpec, theme: Seq<char>) -> bool {
    &&& p.print_background == effective_pdf(c).print_background
    &&& p.prefer_css_page_size == effective_pdf(c).prefer_css_page_size
    &&& p.display_header_footer == (effective_pdf(c).header.enabled || effective_pdf(
        c,
    ).footer.enabled)
    &&& p.header_template@ == enabled_template(effective_pdf(c).header)
    &&& p.footer_template@ == replace_all(
        enabled_template(effective_pdf(c).footer),
        "{theme}"@,
        html_text_escape(theme),
    )
}

/// Printer options from the PDF settings in force: backgrounds and page size as set, the
/// header and footer shown when either is on, and `{theme}` in the footer replaced by the
/// escaped theme name.
pub fn build_print_options(config: &ThemeConfig, req: &RenderRequest) -> (p: PrintOptions)
    ensures
        print_options_for(p, config@, req.theme@),
{
    let default_pdf;
    let pdf = match &config.pdf {
        Some(pdf) => pdf,
        None => {
            default_pdf = PdfConfig::with_page_numbers(
                match config.layout.page_number {
                    Some(b) => b,
                    None => true,
                },
            );
            &default_pdf
        },
    };
    let header_template = if pdf.header.enabled {
        build_template(&pdf.header)
    } else {
        String::from_str("<div></div>")
    };
    let footer_template = if pdf.footer.enabled {
        build_template(&pdf.footer)
    } else {
        String::from_str("<div></div>")
    };
    let theme = encode_text(req.theme.as_str());
    let footer_template = replace_all_exec(
        &chars_of(footer_template.as_str()),
        &chars_of("{theme}"),
        theme.as_str(),
    );
    PrintOptions {
        print_background: pdf.print_background,
        prefer_css_page_size: pdf.prefer_css_page_size,
        display_header_footer: pdf.header.enabled || pdf.footer.enabled,
        header_template,
        footer_template,
    }
}

/// The cleaned value, or empty.
pub open spec fn clean_or_empty(o: Option<Seq<char>>) -> Seq<char> {
    match clean(o) {
        Some(v) => v,
        None => seq![],
    }
}

fn clean_or_empty_exec(o: &Option<String>) -> (r: String)
    ensures
        r@ == clean_or_empty(opt_view(*o)),
{
    match clean_optional(o) {
        Some(v) => v,
        None => String::new(),
    }
}

/// The document options that a configuration and the request's format give.
pub open spec fn document_options_for(
    d: DocumentOptions,
    c: ThemeConfigSpec,
    format: Option<PdfFormatOverride>,
) -> bool {
    &&& d.cover_enabled == (match format {
        Some(f) => f.cover_enabled == Some(true),
        None => false,
    })
    &&& d.toc_enabled == (match format {
        Some(f) if f.toc_enabled is Some => f.toc_enabled == Some(true),
        _ => c.toc == Some(true),
    })
    &&& d.chapter_page_break == (match format {
        Some(f) if f.chapter_page_break is Some => f.chapter_page_break == Some(true),
        _ => c.chapter_page_break == Some(true),
    })
    &&& d.doc_code@ == (match format {
        Some(f) => clean_or_empty(opt_view(f.doc_code)),
        None => seq![],
    })
    &&& d.version@ == (match format {
        Some(f) => clean_or_empty(opt_view(f.version)),
        None => seq![],
    })
    &&& d.owner@ == (match format {
        Some(f) => clean_or_empty(opt_view(f.owner)),
        None => seq![],
    })
}

/// Document options: the cover only when asked for; the table of contents and chapter
/// breaks as asked, else as the theme's layout says, else off; the cover fields cleaned.
pub fn build_document_options(config: &ThemeConfig, req: &RenderRequest) -> (d: DocumentOptions)
    ensures
        document_options_for(d, config@, req.format),
{
    let layout_toc = match config.layout.toc {
        Some(b) => b,
        None => false,
    };
    let layout_breaks = match config.layout.chapter_page_break {
        Some(b) => b,
        None => false,
    };
    match &req.format {
        Some(f) => DocumentOptions {
            cover_enabled: match f.cover_enabled {
                Some(b) => b,
                None => false,
            },
            toc_enabled: match f.toc_enabled {
                Some(b) => b,
                None => layout_toc,
            },
            chapter_page_break: match f.chapter_page_break {
                Some(b) => b,
                None => layout_breaks,
            },
            doc_code: clean_or_empty_exec(&f.doc_code),
            version: clean_or_empty_exec(&f.version),
            owner: clean_or_empty_exec(&f.owner),
        },
        None => DocumentOptions {
            cover_enabled: false,
            toc_enabled: layout_toc,
            chapter_page_break: layout_breaks,
            doc_code: String::new(),
            version: String::new(),
            owner: String::new(),
        },
    }
}

/// The print stylesheet with the page size and margins filled in.
pub open spec fn print_css_html(print: Seq<char>, c: ThemeConfigSpec) -> Seq<char> {
    replace_all(
        replace_all(
            replace_all(
                replace_all(replace_all(print, "{{page_size}}"@, c.size), "{{page_margin_top}}"@, c.margin_top),
                "{{page_margin_right}}"@,
                c.margin_right,
            ),
            "{{page_margin_bottom}}"@,
            c.margin_bottom,
        ),
        "{{page_margin_left}}"@,
        c.margin_left,
    )
}

/// Fills the page size and margins into a theme's print stylesheet.
pub fn render_print_css(print: &str, config: &ThemeConfig) -> (r: String)
    ensures
        r@ == print_css_html(print@, config@),
{
    let a = replace_all_exec(&chars_of(print), &chars_of("{{page_size}}"), config.page.size.as_str());
    let b = replace_all_exec(
        &chars_of(a.as_str()),
        &chars_of("{{page_margin_top}}"),
        config.page.margin.top.as_str(),
    );
    let c = replace_all_exec(
        &chars_of(b.as_str()),
        &chars_of("{{page_margin_right}}"),
        config.page.margin.right.as_str(),
    );
    let d = replace_all_exec(
        &chars_of(c.as_str()),
        &chars_of("{{page_margin_bottom}}"),
        config.page.margin.bottom.as_str(),
    );
    replace_all_exec(
        &chars_of(d.as_str()),
        &chars_of("{{page_margin_left}}"),
        config.page.margin.left.as_str(),
    )
}

/// The request's format overrides as plain values.
pub open spec fn format_view(f: Option<PdfFormatOverride>) -> Option<FormatSpec> {
    match f {
        Some(f) => Some(f@),
        None => None,
    }
}

/// The configuration in force once the request's format is applied.
pub open spec fn applied_config(c: ThemeConfigSpec, f: Option<PdfFormatOverride>) -> ThemeConfigSpec {
    apply_format_spec(c, format_view(f)).0
}

/// Why a theme's configuration cannot serve a request: the request's format is refused,
/// or the configuration in force fails validation.
pub open spec fn load_error(c: ThemeConfigSpec, f: Option<PdfFormatOverride>) -> Option<Seq<char>> {
    let applied = apply_format_spec(c, format_view(f));
    if applied.1 is Some {
        applied.1
    } else {
        config_error(applied.0)
    }
}

/// The options are `PrintOptions::default()`.
pub open spec fn is_default_print(p: PrintOptions) -> bool {
    &&& p.print_background
    &&& p.prefer_css_page_size
    &&& p.display_header_footer
    &&& p.header_template@ == "<div></div>"@
    &&& p.footer_template@ == default_footer_template()
}

/// A theme's render options for a request: the request's format applied to the theme's
/// configuration and checked, then the print stylesheet, printer options and document
/// options derived from the result.
pub fn load_theme_render_options(print: &str, config: ThemeConfig, req: &RenderRequest) -> (r:
    Result<ThemeRenderOptions, AppError>)
    ensures
        ({
            let f = match req.format {
                Some(f) => Some(f@),
                None => None,
            };
            let applied = apply_format_spec(config@, f);
            &&& r is Ok <==> (applied.1 is None && config_error(applied.0) is None)
            &&& r matches Ok(o) ==> o.print_css@ == print_css_html(print@, applied.0)
                && print_options_for(o.print_options, applied.0, req.theme@)
                && document_options_for(o.document_options, applied.0, req.format)
            &&& r matches Err(e) ==> (e matches AppError::Conversion(m) && Some(m@) == (if applied.1
                is Some {
                applied.1
            } else {
                config_error(applied.0)
            }))
        }),
{
    let mut config = config;
    match apply_request_format(&mut config, req.format.as_ref()) {
        Err(e) => {
            return Err(e);
        },
        Ok(()) => {},
    }
    match validate_config(&config) {
        Err(e) => {
            return Err(e);
        },
        Ok(()) => {},
    }
    let print_css = render_print_css(print, &config);
    let print_options = build_print_options(&config, req);
    let document_options = build_document_options(&config, req);
    Ok(ThemeRenderOptions { print_css, print_options, document_options })
}


/// A theme that sets nothing of its own (the default A4 page and margins, no PDF
/// section) passes validation, whatever its layout says of page numbers.
pub proof fn lemma_default_config_is_valid(c: ThemeConfigSpec)
    requires
        default_page_spec(c),
        c.pdf is None,
    ensures
        config_error(c) is None,
{
    reveal_strlit("A4");
    reveal_strlit("20mm");
    reveal_strlit("18mm");
    reveal_strlit("11px");
    reveal_strlit("#666");
    reveal_strlit("right");
    let p = effective_pdf(c);
    assert(css_value_ok("A4"@, 0)) by {
        assert forall|k: int| 0 <= k < "A4"@.len() implies #[trigger] char_in_class(
            "A4"@[k],
            0,
        ) by {}
    }
    assert(css_value_ok("20mm"@, 1)) by {
        assert forall|k: int| 0 <= k < "20mm"@.len() implies #[trigger] char_in_class(
            "20mm"@[k],
            1,
        ) by {}
    }
    assert(css_value_ok("18mm"@, 1)) by {
        assert forall|k: int| 0 <= k < "18mm"@.len() implies #[trigger] char_in_class(
            "18mm"@[k],
            1,
        ) by {}
    }
    assert(css_value_ok("11px"@, 1)) by {
        assert forall|k: int| 0 <= k < "11px"@.len() implies #[trigger] char_in_class(
            "11px"@[k],
            1,
        ) by {}
    }
    assert(css_value_ok("#666"@, 2)) by {
        assert forall|k: int| 0 <= k < "#666"@.len() implies #[trigger] char_in_class(
            "#666"@[k],
            2,
        ) by {}
    }
    assert(align_ok("right"@));
}

/// A character that could end a CSS declaration or rule, or open markup.
pub open spec fn css_breaking(c: char) -> bool {
    c == ';' || c == '{' || c == '}' || c == '<' || c == '>' || c == '"' || c == '\''
}

/// None of the characters of `v` can end a CSS declaration or rule, or open markup.
pub open spec fn css_plain(v: Seq<char>) -> bool {
    forall|k: int| 0 <= k < v.len() ==> !css_breaking(#[trigger] v[k])
}

proof fn lemma_class_value_plain(v: Seq<char>, class: u8)
    requires
        css_value_ok(v, class),
    ensures
        css_plain(v),
{
    assert forall|k: int| 0 <= k < v.len() implies !css_breaking(#[trigger] v[k]) by {
        assert(char_in_class(v[k], class));
    }
}

/// A configuration that passes validation puts only plain values into the print
/// stylesheet: its page size and margins cannot end the CSS declaration they fill.
pub proof fn lemma_valid_config_is_css_plain(c: ThemeConfigSpec)
    requires
        config_error(c) is None,
    ensures
        css_plain(c.size),
        css_plain(c.margin_top),
        css_plain(c.margin_right),
        css_plain(c.margin_bottom),
        css_plain(c.margin_left),
{
    lemma_class_value_plain(c.size, 0);
    lemma_class_value_plain(c.margin_top, 1);
    lemma_class_value_plain(c.margin_right, 1);
    lemma_class_value_plain(c.margin_bottom, 1);
    lemma_class_value_plain(c.margin_left, 1);
}

/// A request's page overrides act field by field: the page size and each of the four
/// margins become the override of the same name, trimmed, when that is given and not
/// blank, and otherwise keep the theme's value, whatever the other overrides say (a
/// refused footer format included). Without overrides the configuration is unchanged.
pub proof fn lemma_page_overrides_by_name(c: ThemeConfigSpec, f: FormatSpec)
    ensures
        apply_format_spec(c, None).0 == c,
        apply_format_spec(c, Some(f)).0.size == (match f.page_size {
            Some(v) if trim(v).len() > 0 => trim(v),
            _ => c.size,
        }),
        apply_format_spec(c, Some(f)).0.margin_top == (match f.margin_top {
            Some(v) if trim(v).len() > 0 => trim(v),
            _ => c.margin_top,
        }),
        apply_format_spec(c, Some(f)).0.margin_right == (match f.margin_right {
            Some(v) if trim(v).len() > 0 => trim(v),
            _ => c.margin_right,
        }),
        apply_format_spec(c, Some(f)).0.margin_bottom == (match f.margin_bottom {
            Some(v) if trim(v).len() > 0 => trim(v),
            _ => c.margin_bottom,
        }),
        apply_format_spec(c, Some(f)).0.margin_left == (match f.margin_left {
            Some(v) if trim(v).len() > 0 => trim(v),
            _ => c.margin_left,
        }),
{
}

} // verus!
