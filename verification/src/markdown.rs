//! Rendering a Markdown document to a themed HTML page: table of contents, cover,
//! title, Mermaid blocks, diff blocks and the page template.
use vstd::prelude::*;
use crate::error::{bad_request, conversion, error_view, text_result, AppError};
use crate::assets::{embedded_theme, EmbeddedTheme, ThemeCatalog};
use crate::diff::{
    any_marker_in, apply_diff_markers, diff_markdown, is_lower_hex, line_diff, mark_runs,
    markers_for, with_diff_blocks, DiffMarkdown, DiffMarkers,
};
use crate::mermaid::{
    block_ranges, extract_mermaid_blocks, extracted_byte_ranges, extracted_markdown,
    placeholder_message, placeholder_message_text, substitute_placeholders, substitute_spec,
    MermaidBlock, PlaceholderError,
};
use crate::theme::{
    applied_config, document_options_for, is_default_print, load_error, load_theme_render_options,
    print_css_html, print_options_for, DocumentOptions, PrintOptions, RenderRequest, ThemeConfig,
    ThemeRenderOptions,
};
use crate::escape::{encode_text, html_text_escape};
use crate::pattern::{
    capture_spans, captures_view, commonmark_html, markdown_to_html, MarkdownOptions, captures_well_formed, char_span, char_spans, regex_captures,
    span_ok, spans_view, spans_well_formed, to_char_span, to_char_spans, whole_spans,
    whole_spans_exec, CaptureSpans,
};
use crate::mermaid::{line_bounds, line_end, next_line, lemma_line_end};
use crate::text::{
    contains_exec, matches_at_exec, starts_with, trim, trim_bounds, trim_start, ranges_view, chars_of, digit_char, is_ascii_digit, push_range, splice, splice_exec, utf8_len,
    utf8_len_bound,
};

verus! {

/// Level-2 and level-3 headings: the level digit and the heading's inner HTML.
pub const TOC_HEADING: &'static str = r#"(?s)<h([23])(?:\s[^>]*)?>(.*?)</h[23]>"#;

/// An `id` attribute: its value.
pub const TOC_ID: &'static str = r#"\bid="([^"]+)""#;

/// An empty anchor element, as the renderer puts inside headings.
pub const TOC_ANCHOR: &'static str = r#"(?s)<a\b[^>]*></a>"#;

/// The text of capture group `g` (counted from 1 after the whole match, so `g == 0` is
/// the first group) of a match in `h`.
pub open spec fn group_text(h: Seq<char>, cap: ((int, int), Seq<Option<(int, int)>>), g: int) -> Option<
    Seq<char>,
> {
    if 0 <= g < cap.1.len() {
        match cap.1[g] {
            Some(sp) => Some(h.subrange(char_span(h, sp).0, char_span(h, sp).1)),
            None => None,
        }
    } else {
        None
    }
}

fn group_text_exec(v: &Vec<char>, cap: &CaptureSpans, g: usize) -> (r: Option<String>)
    requires
        utf8_len(v@) <= usize::MAX,
        g < cap.groups@.len() ==> (capture_view(*cap).1[g as int] matches Some(sp) ==> span_ok(
            v@,
            sp,
        )),
    ensures
        opt_chars(r) == group_text(v@, capture_view(*cap), g as int),
{
    if g >= cap.groups.len() {
        return None;
    }
    match cap.groups[g] {
        Some(sp) => {
            let (a, b) = to_char_span(v, sp);
            let mut s = String::new();
            push_range(&mut s, v, a, b);
            Some(s)
        },
        None => None,
    }
}

/// The characters of an optional string.
pub open spec fn opt_chars(o: Option<String>) -> Option<Seq<char>> {
    match o {
        Some(s) => Some(s@),
        None => None,
    }
}

use crate::pattern::capture_view;

/// The `id` attribute's value found first in a heading's inner HTML.
pub open spec fn toc_id(body: Seq<char>) -> Option<Seq<char>> {
    match regex_captures(TOC_ID@, body) {
        Some(c) => if c.len() > 0 {
            group_text(body, c[0], 0)
        } else {
            None
        },
        None => None,
    }
}

/// A heading's inner HTML with its empty anchor elements removed.
pub open spec fn strip_anchors(body: Seq<char>) -> Seq<char> {
    match regex_captures(TOC_ANCHOR@, body) {
        Some(c) => splice(
            body,
            char_spans(body, whole_spans(c)),
            Seq::new(c.len(), |k: int| Seq::<char>::empty()),
            0,
        ),
        None => body,
    }
}

proof fn lemma_whole_spans_well_formed(h: Seq<char>, c: Seq<((int, int), Seq<Option<(int, int)>>)>)
    requires
        captures_well_formed(h, c),
    ensures
        spans_well_formed(h, whole_spans(c)),
{
    let w = whole_spans(c);
    assert forall|i: int| 0 <= i < w.len() implies span_ok(h, #[trigger] w[i]) by {
        assert(w[i] == c[i].0);
    }
    assert forall|i: int, j: int| 0 <= i < j < w.len() implies #[trigger] w[i].1 <= #[trigger] w[j].0 by {
        assert(w[i] == c[i].0);
        assert(w[j] == c[j].0);
    }
}

fn strip_anchors_exec(body: &str) -> (r: String)
    ensures
        r@ == strip_anchors(body@),
{
    let v = chars_of(body);
    utf8_len_bound(body);
    match capture_spans(TOC_ANCHOR, body) {
        None => String::from_str(body),
        Some(caps) => {
            proof {
                lemma_whole_spans_well_formed(body@, captures_view(caps@));
            }
            let whole = whole_spans_exec(&caps);
            let spans = to_char_spans(&v, &whole);
            let mut reps: Vec<String> = Vec::new();
            let mut k: usize = 0;
            while k < caps.len()
                invariant
                    k <= caps@.len(),
                    reps@.len() == k,
                    forall|j: int| 0 <= j < k ==> #[trigger] reps@[j]@ == Seq::<char>::empty(),
                decreases caps@.len() - k,
            {
                reps.push(String::new());
                k += 1;
            }
            assert(spans@.len() == caps@.len()) by {
                assert(ranges_view(spans@).len() == spans@.len());
                assert(spans_view(whole@).len() == whole@.len());
            }
            let r = splice_exec(&v, &spans, &reps);
            assert(Seq::new(reps@.len(), |j: int| reps@[j]@) =~= Seq::new(
                captures_view(caps@).len(),
                |j: int| Seq::<char>::empty(),
            ));
            r
        },
    }
}

/// A table-of-contents entry: heading level, anchor id, and the heading's HTML.
pub struct TocItem {
    pub level: u8,
    pub id: String,
    pub title_html: String,
}

/// The entry for one heading match: the level digit, the first `id` in the heading, and
/// the heading's HTML without its anchors; none when a part is missing.
pub open spec fn toc_item_of(h: Seq<char>, cap: ((int, int), Seq<Option<(int, int)>>)) -> Option<
    (u8, Seq<char>, Seq<char>),
> {
    match (group_text(h, cap, 0), group_text(h, cap, 1)) {
        (Some(lv), Some(body)) => if lv.len() > 0 && is_ascii_digit(lv[0]) {
            match toc_id(body) {
                Some(id) => Some((((lv[0] as u32) - 48) as u8, id, strip_anchors(body))),
                None => None,
            }
        } else {
            None
        },
        _ => None,
    }
}

/// The entries of the heading matches that yield one, in order.
pub open spec fn toc_items_of(h: Seq<char>, caps: Seq<((int, int), Seq<Option<(int, int)>>)>) -> Seq<
    (u8, Seq<char>, Seq<char>),
>
    decreases caps.len(),
{
    if caps.len() == 0 {
        seq![]
    } else {
        toc_items_of(h, caps.drop_last()) + match toc_item_of(h, caps.last()) {
            Some(t) => seq![t],
            None => seq![],
        }
    }
}

/// The table-of-contents entries of the first 128 level-2 and level-3 headings.
pub open spec fn toc_items(h: Seq<char>) -> Seq<(u8, Seq<char>, Seq<char>)> {
    match regex_captures(TOC_HEADING@, h) {
        Some(c) => toc_items_of(
            h,
            c.take(
                if c.len() < 128 {
                    c.len() as int
                } else {
                    128
                },
            ),
        ),
        None => seq![],
    }
}

/// The entries as plain values.
pub open spec fn toc_view(items: Seq<TocItem>) -> Seq<(u8, Seq<char>, Seq<char>)> {
    Seq::new(items.len(), |k: int| (items[k].level, items[k].id@, items[k].title_html@))
}

fn toc_item_exec(v: &Vec<char>, cap: &CaptureSpans) -> (r: Option<TocItem>)
    requires
        utf8_len(v@) <= usize::MAX,
        forall|g: int|
            0 <= g < capture_view(*cap).1.len() ==> (#[trigger] capture_view(*cap).1[g] matches Some(
                sp,
            ) ==> span_ok(v@, sp)),
    ensures
        match r {
            Some(t) => toc_item_of(v@, capture_view(*cap)) == Some((t.level, t.id@, t.title_html@)),
            None => toc_item_of(v@, capture_view(*cap)) is None,
        },
{
    let level_text = group_text_exec(v, cap, 0);
    let body = group_text_exec(v, cap, 1);
    let (level_text, body) = match (level_text, body) {
        (Some(l), Some(b)) => (l, b),
        _ => {
            return None;
        },
    };
    let lv = chars_of(level_text.as_str());
    if lv.len() == 0 || !('0' <= lv[0] && lv[0] <= '9') {
        return None;
    }
    let level = ((lv[0] as u32) - 48) as u8;
    let ghost b = body@;
    let id = match capture_spans(TOC_ID, body.as_str()) {
        Some(c) => {
            if c.len() > 0 {
                let bv = chars_of(body.as_str());
                utf8_len_bound(body.as_str());
                group_text_exec(&bv, &c[0], 0)
            } else {
                None
            }
        },
        None => None,
    };
    let id = match id {
        Some(i) => i,
        None => {
            return None;
        },
    };
    let title_html = strip_anchors_exec(body.as_str());
    Some(TocItem { level, id, title_html })
}

/// The table-of-contents entries of the first 128 level-2 and level-3 headings of the
/// rendered HTML that carry an `id`.
pub fn collect_toc_items(html: &str) -> (r: Vec<TocItem>)
    ensures
        toc_view(r@) == toc_items(html@),
{
    let v = chars_of(html);
    utf8_len_bound(html);
    let caps = match capture_spans(TOC_HEADING, html) {
        None => {
            let r: Vec<TocItem> = Vec::new();
            assert(toc_view(r@) =~= toc_items(html@));
            return r;
        },
        Some(c) => c,
    };
    let ghost cv = captures_view(caps@);
    let limit = if caps.len() < 128 { caps.len() } else { 128 };
    let mut items: Vec<TocItem> = Vec::new();
    let mut i: usize = 0;
    while i < limit
        invariant
            utf8_len(v@) <= usize::MAX,
            v@ == html@,
            cv == captures_view(caps@),
            captures_well_formed(html@, cv),
            limit <= caps@.len(),
            i <= limit,
            toc_view(items@) == toc_items_of(html@, cv.take(i as int)),
        decreases limit - i,
    {
        proof {
            let c = capture_view(caps@[i as int]);
            assert(c == cv[i as int]);
            assert forall|g: int| 0 <= g < c.1.len() implies (#[trigger] c.1[g] matches Some(sp)
                ==> span_ok(v@, sp)) by {
                assert(cv[i as int].1[g] == c.1[g]);
            }
        }
        let item = toc_item_exec(&v, &caps[i]);
        proof {
            assert(cv[i as int] == capture_view(caps@[i as int]));
            assert(cv.take(i + 1).drop_last() =~= cv.take(i as int));
            assert(cv.take(i + 1).last() == cv[i as int]);
        }
        match item {
            Some(t) => {
                items.push(t);
                assert(toc_view(items@) =~= toc_items_of(html@, cv.take(i + 1)));
            },
            None => {
                assert(toc_view(items@) =~= toc_items_of(html@, cv.take(i + 1)));
            },
        }
        i += 1;
    }
    items
}

proof fn lemma_toc_levels_of(h: Seq<char>, caps: Seq<((int, int), Seq<Option<(int, int)>>)>)
    ensures
        forall|k: int| 0 <= k < toc_items_of(h, caps).len() ==> #[trigger] toc_items_of(h, caps)[k].0 <= 9,
    decreases caps.len(),
{
    if caps.len() > 0 {
        lemma_toc_levels_of(h, caps.drop_last());
        let prev = toc_items_of(h, caps.drop_last());
        let all = toc_items_of(h, caps);
        assert forall|k: int| 0 <= k < all.len() implies #[trigger] all[k].0 <= 9 by {
            if k < prev.len() {
                assert(all[k] == prev[k]);
            }
        }
    }
}

/// Every table-of-contents level is a single digit.
proof fn lemma_toc_levels(h: Seq<char>)
    ensures
        forall|k: int| 0 <= k < toc_items(h).len() ==> #[trigger] toc_items(h)[k].0 <= 9,
{
    match regex_captures(TOC_HEADING@, h) {
        Some(c) => {
            lemma_toc_levels_of(h, c.take(if c.len() < 128 { c.len() as int } else { 128 }));
        },
        None => {},
    }
}

proof fn lemma_toc_items_of_count(h: Seq<char>, caps: Seq<((int, int), Seq<Option<(int, int)>>)>)
    ensures
        toc_items_of(h, caps).len() <= caps.len(),
        (forall|k: int| 0 <= k < caps.len() ==> (#[trigger] toc_item_of(h, caps[k])) is Some) ==> {
            &&& toc_items_of(h, caps).len() == caps.len()
            &&& forall|k: int|
                0 <= k < caps.len() ==> #[trigger] toc_items_of(h, caps)[k] == toc_item_of(
                    h,
                    caps[k],
                )->0
        },
    decreases caps.len(),
{
    if caps.len() > 0 {
        let init = caps.drop_last();
        lemma_toc_items_of_count(h, init);
        if forall|k: int| 0 <= k < caps.len() ==> (#[trigger] toc_item_of(h, caps[k])) is Some {
            assert forall|k: int| 0 <= k < init.len() implies (#[trigger] toc_item_of(
                h,
                init[k],
            )) is Some by {
                assert(init[k] == caps[k]);
                assert(toc_item_of(h, caps[k]) is Some);
            }
            assert(toc_item_of(h, caps[caps.len() - 1]) is Some);
            let all = toc_items_of(h, caps);
            assert forall|k: int| 0 <= k < caps.len() implies #[trigger] toc_items_of(h, caps)[k]
                == toc_item_of(h, caps[k])->0 by {
                if k < init.len() {
                    assert(init[k] == caps[k]);
                    assert(toc_items_of(h, init)[k] == toc_item_of(h, init[k])->0);
                }
            }
        }
    }
}

/// The table of contents holds at most 128 entries, no more than there are level-2 and
/// level-3 heading matches; and where each of the first 128 matches (or of all of them,
/// when there are fewer) yields an entry, it holds exactly one entry per such match, in
/// document order.
pub proof fn lemma_toc_keeps_first_128(h: Seq<char>)
    ensures
        toc_items(h).len() <= 128,
        match regex_captures(TOC_HEADING@, h) {
            None => toc_items(h).len() == 0,
            Some(c) => {
                let n = if c.len() <= 128 {
                    c.len() as int
                } else {
                    128
                };
                &&& toc_items(h).len() <= c.len()
                &&& (forall|k: int| 0 <= k < n ==> (#[trigger] toc_item_of(h, c[k])) is Some) ==> {
                    &&& toc_items(h).len() == n
                    &&& forall|k: int|
                        0 <= k < n ==> #[trigger] toc_items(h)[k] == toc_item_of(h, c[k])->0
                }
            },
        },
{
    match regex_captures(TOC_HEADING@, h) {
        Some(c) => {
            let n = if c.len() <= 128 {
                c.len() as int
            } else {
                128
            };
            let first = c.take(n);
            assert(toc_items(h) == toc_items_of(h, first));
            lemma_toc_items_of_count(h, first);
            if forall|k: int| 0 <= k < n ==> (#[trigger] toc_item_of(h, c[k])) is Some {
                assert forall|k: int| 0 <= k < first.len() implies (#[trigger] toc_item_of(
                    h,
                    first[k],
                )) is Some by {
                    assert(first[k] == c[k]);
                    assert(toc_item_of(h, c[k]) is Some);
                }
                assert forall|k: int| 0 <= k < n implies #[trigger] toc_items(h)[k] == toc_item_of(
                    h,
                    c[k],
                )->0 by {
                    assert(first[k] == c[k]);
                    assert(toc_items_of(h, first)[k] == toc_item_of(h, first[k])->0);
                }
            }
        },
        None => {},
    }
}

/// The list entry of a table-of-contents item.
pub open spec fn toc_entry_html(t: (u8, Seq<char>, Seq<char>)) -> Seq<char> {
    "<li class=\"toc-level-"@ + seq![digit_char(t.0 as nat)] + "\"><a href=\"#"@ + t.1 + "\">"@
        + t.2 + "</a></li>"@
}

/// The list entries, in order.
pub open spec fn toc_list_html(items: Seq<(u8, Seq<char>, Seq<char>)>) -> Seq<char>
    decreases items.len(),
{
    if items.len() == 0 {
        seq![]
    } else {
        toc_list_html(items.drop_last()) + toc_entry_html(items.last())
    }
}

/// The table of contents: nothing without entries, else a navigation list of them.
pub open spec fn toc_html(items: Seq<(u8, Seq<char>, Seq<char>)>) -> Seq<char> {
    if items.len() == 0 {
        seq![]
    } else {
        "<nav class=\"doc-toc\"><h2>目录</h2><ol>"@ + toc_list_html(items) + "</ol></nav>"@
    }
}

/// The table of contents of the rendered HTML's level-2 and level-3 headings.
pub fn render_toc(html: &str) -> (r: String)
    ensures
        r@ == toc_html(toc_items(html@)),
{
    let headings = collect_toc_items(html);
    let ghost items = toc_view(headings@);
    proof {
        lemma_toc_levels(html@);
        assert forall|k: int| 0 <= k < headings@.len() implies #[trigger] headings@[k].level <= 9 by {
            assert(items[k].0 == headings@[k].level);
        }
    }
    if headings.len() == 0 {
        return String::new();
    }
    let mut out = String::new();
    out.push_str("<nav class=\"doc-toc\"><h2>目录</h2><ol>");
    let ghost start = out@;
    let mut i: usize = 0;
    while i < headings.len()
        invariant
            items == toc_view(headings@),
            i <= headings@.len(),
            out@ == start + toc_list_html(items.take(i as int)),
            forall|k: int| 0 <= k < headings@.len() ==> #[trigger] headings@[k].level <= 9,
        decreases headings@.len() - i,
    {
        let item = &headings[i];
        out.push_str("<li class=\"toc-level-");
        let c = (48u8 + item.level) as char;
        out.push(c);
        out.push_str("\"><a href=\"#");
        out.push_str(item.id.as_str());
        out.push_str("\">");
        out.push_str(item.title_html.as_str());
        out.push_str("</a></li>");
        proof {
            assert(c == digit_char(item.level as nat));
            assert(items.take(i + 1).drop_last() =~= items.take(i as int));
            assert(items.take(i + 1).last() == items[i as int]);
            assert(out@ =~= start + toc_list_html(items.take(i + 1)));
        }
        i += 1;
    }
    out.push_str("</ol></nav>");
    assert(items.take(i as int) =~= items);
    out
}


/// The first line (from the line at `i` on) that reads `# ` and a title after leading
/// whitespace: that title, trimmed; none when there is none.
pub open spec fn title_from(s: Seq<char>, i: int) -> Option<Seq<char>>
    decreases s.len() - i,
{
    if i < 0 || i >= s.len() {
        None
    } else {
        let t = trim_start(s.subrange(i, line_end(s, i)));
        if starts_with(t, "# "@) && trim(t.skip(2)).len() > 0 {
            Some(trim(t.skip(2)))
        } else {
            proof {
                lemma_line_end(s, i);
            }
            title_from(s, next_line(s, i))
        }
    }
}

/// The title of a Markdown document: its first level-1 ATX heading with text.
pub open spec fn markdown_title(s: Seq<char>) -> Option<Seq<char>> {
    title_from(s, 0)
}

/// The text of the first level-1 heading (`# Title`) of the Markdown, trimmed.
pub fn extract_markdown_title(markdown: &str) -> (r: Option<String>)
    ensures
        opt_chars(r) == markdown_title(markdown@),
{
    let v = chars_of(markdown);
    let hash = chars_of("# ");
    proof {
        reveal_strlit("# ");
    }
    let mut i: usize = 0;
    while i < v.len()
        invariant
            v@ == markdown@,
            hash@ == "# "@,
            i <= v@.len(),
            title_from(v@, 0) == title_from(v@, i as int),
        decreases v@.len() - i,
    {
        proof {
            lemma_line_end(v@, i as int);
            reveal_strlit("# ");
        }
        let (end, next) = line_bounds(&v, i);
        let (a, _) = trim_bounds(&v, i, end);
        let ghost t = trim_start(v@.subrange(i as int, end as int));
        assert(t == v@.subrange(a as int, end as int));
        if end - a >= 2 && matches_at_exec(&v, &hash, a) {
            assert(starts_with(t, "# "@)) by {
                assert(t.subrange(0, 2) =~= v@.subrange(a as int, a + 2));
            }
            let (b, c) = trim_bounds(&v, a + 2, end);
            assert(t.skip(2) =~= v@.subrange(a + 2, end as int));
            if b < c {
                let mut title = String::new();
                push_range(&mut title, &v, b, c);
                return Some(title);
            }
        } else {
            assert(!starts_with(t, "# "@)) by {
                if starts_with(t, "# "@) {
                    assert(t.subrange(0, 2) =~= v@.subrange(a as int, a + 2));
                }
            }
        }
        i = next;
    }
    None
}

/// The first cover field longer than 80 bytes, with its name.
pub open spec fn metadata_error(doc_code: Seq<char>, version: Seq<char>, owner: Seq<char>) -> Option<
    Seq<char>,
> {
    if utf8_len(doc_code) > 80 {
        Some("doc_code exceeds 80 bytes"@)
    } else if utf8_len(version) > 80 {
        Some("version exceeds 80 bytes"@)
    } else if utf8_len(owner) > 80 {
        Some("owner exceeds 80 bytes"@)
    } else {
        None
    }
}

/// Refuses a document code, version or owner longer than 80 bytes.
pub fn validate_document_metadata(options: &crate::theme::DocumentOptions) -> (r: Result<(), AppError>)
    ensures
        r is Ok <==> metadata_error(options.doc_code@, options.version@, options.owner@) is None,
        r matches Err(e) ==> (e matches AppError::BadRequest(m) && Some(m@) == metadata_error(
            options.doc_code@,
            options.version@,
            options.owner@,
        )),
{
    utf8_len_bound(options.doc_code.as_str());
    utf8_len_bound(options.version.as_str());
    utf8_len_bound(options.owner.as_str());
    if crate::theme::byte_length(&chars_of(options.doc_code.as_str())) > 80 {
        return Err(AppError::BadRequest(String::from_str("doc_code exceeds 80 bytes")));
    }
    if crate::theme::byte_length(&chars_of(options.version.as_str())) > 80 {
        return Err(AppError::BadRequest(String::from_str("version exceeds 80 bytes")));
    }
    if crate::theme::byte_length(&chars_of(options.owner.as_str())) > 80 {
        return Err(AppError::BadRequest(String::from_str("owner exceeds 80 bytes")));
    }
    Ok(())
}

/// A cover row: the field's name and value, when the value is not empty.
pub open spec fn cover_row(name: Seq<char>, value: Seq<char>) -> Seq<char> {
    if value.len() == 0 {
        seq![]
    } else {
        "<div><dt>"@ + html_text_escape(name) + "</dt><dd>"@ + html_text_escape(value) + "</dd></div>"@
    }
}

/// The cover: the escaped title, then a row for each of document code, version and owner
/// that is set.
pub open spec fn cover_html(title: Seq<char>, o: crate::theme::DocumentOptions) -> Seq<char> {
    "<section class=\"doc-cover\"><div class=\"doc-cover-main\"><h1>"@ + html_text_escape(title)
        + "</h1></div><dl class=\"doc-cover-meta\">"@ + cover_row("文档编号"@, o.doc_code@)
        + cover_row("版本"@, o.version@) + cover_row("作成者 / 部門"@, o.owner@)
        + "</dl></section>"@
}

fn push_cover_row(html: &mut String, name: &str, value: &str)
    ensures
        final(html)@ == old(html)@ + cover_row(name@, value@),
{
    if value.is_empty() {
        assert(old(html)@ + cover_row(name@, value@) =~= old(html)@);
        return;
    }
    html.push_str("<div><dt>");
    html.push_str(encode_text(name).as_str());
    html.push_str("</dt><dd>");
    html.push_str(encode_text(value).as_str());
    html.push_str("</dd></div>");
    assert(final(html)@ =~= old(html)@ + cover_row(name@, value@));
}

/// The cover section of a document.
pub fn render_cover(title: &str, theme: &str, options: &crate::theme::DocumentOptions) -> (r: String)
    ensures
        r@ == cover_html(title@, *options),
{
    let mut html = String::new();
    html.push_str("<section class=\"doc-cover\">");
    html.push_str("<div class=\"doc-cover-main\">");
    html.push_str("<h1>");
    html.push_str(encode_text(title).as_str());
    html.push_str("</h1>");
    html.push_str("</div><dl class=\"doc-cover-meta\">");
    let ghost head = html@;
    push_cover_row(&mut html, "文档编号", options.doc_code.as_str());
    push_cover_row(&mut html, "版本", options.version.as_str());
    push_cover_row(&mut html, "作成者 / 部門", options.owner.as_str());
    html.push_str("</dl></section>");
    proof {
        reveal_strlit("<section class=\"doc-cover\">");
        reveal_strlit("<div class=\"doc-cover-main\">");
        reveal_strlit("<h1>");
        reveal_strlit("<section class=\"doc-cover\"><div class=\"doc-cover-main\"><h1>");
        reveal_strlit("</h1>");
        reveal_strlit("</div><dl class=\"doc-cover-meta\">");
        reveal_strlit("</h1></div><dl class=\"doc-cover-meta\">");
    }
    assert(html@ =~= cover_html(title@, *options));
    html
}

/// Each cover field that is set (document code, version, owner) gets its own row on the
/// cover, the escaped field name as the term and the escaped value as its description,
/// in that order: the document code's row, then the version's, then the owner's.
pub proof fn lemma_cover_rows(title: Seq<char>, o: crate::theme::DocumentOptions) -> (at: (
    int,
    int,
    int,
))
    ensures
        ({
            let c = cover_html(title, o);
            let code_row = "<div><dt>"@ + html_text_escape("文档编号"@) + "</dt><dd>"@
                + html_text_escape(o.doc_code@) + "</dd></div>"@;
            let version_row = "<div><dt>"@ + html_text_escape("版本"@) + "</dt><dd>"@
                + html_text_escape(o.version@) + "</dd></div>"@;
            let owner_row = "<div><dt>"@ + html_text_escape("作成者 / 部門"@) + "</dt><dd>"@
                + html_text_escape(o.owner@) + "</dd></div>"@;
            &&& (o.doc_code@.len() > 0 ==> crate::text::matches_at(c, code_row, at.0))
            &&& (o.version@.len() > 0 ==> crate::text::matches_at(c, version_row, at.1))
            &&& (o.owner@.len() > 0 ==> crate::text::matches_at(c, owner_row, at.2))
            &&& (o.doc_code@.len() > 0 ==> at.0 + code_row.len() <= at.1)
            &&& (o.version@.len() > 0 ==> at.1 + version_row.len() <= at.2)
            &&& at.0 <= at.1 <= at.2
        }),
{
    let head = "<section class=\"doc-cover\"><div class=\"doc-cover-main\"><h1>"@
        + html_text_escape(title) + "</h1></div><dl class=\"doc-cover-meta\">"@;
    let r1 = cover_row("文档编号"@, o.doc_code@);
    let r2 = cover_row("版本"@, o.version@);
    let r3 = cover_row("作成者 / 部門"@, o.owner@);
    let tail = "</dl></section>"@;
    let c = cover_html(title, o);
    assert(c =~= head + r1 + (r2 + r3 + tail));
    assert(c =~= (head + r1) + r2 + (r3 + tail));
    assert(c =~= (head + r1 + r2) + r3 + tail);
    crate::text::lemma_matches_after(head, r1, r2 + r3 + tail);
    crate::text::lemma_matches_after(head + r1, r2, r3 + tail);
    crate::text::lemma_matches_after(head + r1 + r2, r3, tail);
    let i = head.len() as int;
    let j = i + r1.len();
    let k = j + r2.len();
    assert(o.doc_code@.len() > 0 ==> r1 == "<div><dt>"@ + html_text_escape("文档编号"@)
        + "</dt><dd>"@ + html_text_escape(o.doc_code@) + "</dd></div>"@);
    assert(o.version@.len() > 0 ==> r2 == "<div><dt>"@ + html_text_escape("版本"@)
        + "</dt><dd>"@ + html_text_escape(o.version@) + "</dd></div>"@);
    assert(o.owner@.len() > 0 ==> r3 == "<div><dt>"@ + html_text_escape("作成者 / 部門"@)
        + "</dt><dd>"@ + html_text_escape(o.owner@) + "</dd></div>"@);
    (i, j, k)
}

/// The body of the document page: the cover and table of contents when enabled, then the
/// editable section holding the HTML (inside a chapter-break section when enabled).
pub open spec fn decorated_html(
    html: Seq<char>,
    title: Seq<char>,
    o: crate::theme::DocumentOptions,
) -> Seq<char> {
    (if o.cover_enabled {
        cover_html(title, o)
    } else {
        seq![]
    }) + (if o.toc_enabled {
        toc_html(toc_items(html))
    } else {
        seq![]
    }) + "<section class=\"mdpdf-editable\">"@ + (if o.chapter_page_break {
        "<section class=\"chapter-breaks\">"@ + html + "</section>"@
    } else {
        html
    }) + "</section>"@
}

/// The document title: the Markdown's first level-1 heading, else the file name.
pub open spec fn document_title(markdown: Seq<char>, filename: Seq<char>) -> Seq<char> {
    match markdown_title(markdown) {
        Some(t) => t,
        None => filename,
    }
}

/// Puts the cover, table of contents and editable section around the rendered HTML,
/// after checking the cover fields.
pub fn decorate_body(
    html: &str,
    markdown: &str,
    filename: &str,
    theme: &str,
    options: &crate::theme::DocumentOptions,
) -> (r: Result<String, AppError>)
    ensures
        r is Ok <==> metadata_error(options.doc_code@, options.version@, options.owner@) is None,
        r matches Ok(o) ==> o@ == decorated_html(html@, document_title(markdown@, filename@), *options),
        r matches Err(e) ==> (e matches AppError::BadRequest(m) && Some(m@) == metadata_error(
            options.doc_code@,
            options.version@,
            options.owner@,
        )),
{
    match validate_document_metadata(options) {
        Err(e) => {
            return Err(e);
        },
        Ok(()) => {},
    }
    let title = match extract_markdown_title(markdown) {
        Some(t) => t,
        None => String::from_str(filename),
    };
    let mut out = String::new();
    if options.cover_enabled {
        out.push_str(render_cover(title.as_str(), theme, options).as_str());
    }
    if options.toc_enabled {
        out.push_str(render_toc(html).as_str());
    }
    out.push_str("<section class=\"mdpdf-editable\">");
    if options.chapter_page_break {
        out.push_str("<section class=\"chapter-breaks\">");
        out.push_str(html);
        out.push_str("</section>");
    } else {
        out.push_str(html);
    }
    out.push_str("</section>");
    assert(out@ =~= decorated_html(html@, document_title(markdown@, filename@), *options));
    Ok(out)
}

/// The theme's stylesheet followed by the Prism stylesheet (under a comment line) when
/// there is one.
pub open spec fn combined_style(style: Seq<char>, prism: Seq<char>) -> Seq<char> {
    if prism.len() == 0 {
        style
    } else {
        style + "\n/* Prism CSS */\n"@ + prism
    }
}

/// The page: the theme's template with the escaped title, the styles, the print styles
/// and the body filled in, in that order.
pub open spec fn page_html(
    template: Seq<char>,
    style: Seq<char>,
    prism: Seq<char>,
    title: Seq<char>,
    body: Seq<char>,
    print: Seq<char>,
) -> Seq<char> {
    crate::text::replace_all(
        crate::text::replace_all(
            crate::text::replace_all(
                crate::text::replace_all(template, "{{title}}"@, html_text_escape(title)),
                "{{style}}"@,
                combined_style(style, prism),
            ),
            "{{print_style}}"@,
            print,
        ),
        "{{body}}"@,
        body,
    )
}

/// Fills the theme's page template.
pub fn apply_template(
    theme: &crate::assets::EmbeddedTheme,
    prism_css: &str,
    title: &str,
    body: &str,
    print: &str,
) -> (r: Result<String, AppError>)
    ensures
        r matches Ok(o) && o@ == page_html(
            theme.template@,
            theme.style@,
            prism_css@,
            title@,
            body@,
            print@,
        ),
{
    let mut combined = String::new();
    combined.push_str(theme.style.as_str());
    if !prism_css.is_empty() {
        combined.push_str("\n/* Prism CSS */\n");
        combined.push_str(prism_css);
    }
    assert(combined@ =~= combined_style(theme.style@, prism_css@));
    let escaped = encode_text(title);
    let a = crate::text::replace_all_exec(
        &chars_of(theme.template.as_str()),
        &chars_of("{{title}}"),
        escaped.as_str(),
    );
    let b = crate::text::replace_all_exec(&chars_of(a.as_str()), &chars_of("{{style}}"), combined.as_str());
    let c = crate::text::replace_all_exec(&chars_of(b.as_str()), &chars_of("{{print_style}}"), print);
    let d = crate::text::replace_all_exec(&chars_of(c.as_str()), &chars_of("{{body}}"), body);
    Ok(d)
}

/// A theme name: non-empty, of ASCII letters, digits, `-` and `_`.
pub open spec fn theme_name_ok(name: Seq<char>) -> bool {
    name.len() > 0 && forall|k: int|
        0 <= k < name.len() ==> #[trigger] crate::theme::is_ascii_alnum(name[k]) || name[k] == '-'
            || name[k] == '_'
}

/// Refuses a theme name that is empty or holds other than ASCII letters, digits, `-`, `_`.
pub fn validate_theme_name(name: &str) -> (r: Result<(), AppError>)
    ensures
        r is Ok <==> theme_name_ok(name@),
        r matches Err(e) ==> (e matches AppError::BadRequest(m) && m@ == "invalid theme name"@),
{
    let v = chars_of(name);
    if v.len() == 0 {
        return Err(AppError::BadRequest(String::from_str("invalid theme name")));
    }
    let mut k: usize = 0;
    while k < v.len()
        invariant
            v@ == name@,
            k <= v@.len(),
            forall|j: int|
                0 <= j < k ==> #[trigger] crate::theme::is_ascii_alnum(v@[j]) || v@[j] == '-'
                    || v@[j] == '_',
        decreases v@.len() - k,
    {
        let c = v[k];
        let good = ('0' <= c && c <= '9') || ('a' <= c && c <= 'z') || ('A' <= c && c <= 'Z') || c
            == '-' || c == '_';
        if !good {
            assert(!(crate::theme::is_ascii_alnum(v@[k as int]) || v@[k as int] == '-' || v@[k as int]
                == '_'));
            return Err(AppError::BadRequest(String::from_str("invalid theme name")));
        }
        k += 1;
    }
    Ok(())
}


/// The Markdown rendering every document gets: tables, autolinks, strikethrough and task
/// lists on, headings given ids prefixed `h-`, raw HTML not passed through.
pub open spec fn document_html(md: Seq<char>) -> Seq<char> {
    commonmark_html(md, true, true, true, true, Some("h-"@))
}

/// The rendering options of every document (see `document_html`).
pub fn markdown_render_options() -> (o: MarkdownOptions)
    ensures
        o.table && o.autolink && o.strikethrough && o.tasklist,
        o.header_id_prefix matches Some(p) && p@ == "h-"@,
{
    MarkdownOptions {
        table: true,
        autolink: true,
        strikethrough: true,
        tasklist: true,
        header_id_prefix: Some(String::from_str("h-")),
    }
}

/// Borrowed markers as values.
pub open spec fn opt_markers(o: Option<&DiffMarkers>) -> Option<DiffMarkers> {
    match o {
        Some(m) => Some(*m),
        None => None,
    }
}

/// An optional text result as characters.
pub open spec fn opt_text_result(r: Option<Result<String, AppError>>) -> Option<
    Result<Seq<char>, (u8, Seq<char>)>,
> {
    match r {
        Some(x) => Some(text_result(x)),
        None => None,
    }
}

/// The body of a rendered document: the Mermaid blocks (byte `ranges` of `md`) put back
/// into the rendered HTML, then the diff markers (when given) turned into diff blocks.
/// None where the placeholder pass would slice a character apart.
pub open spec fn body_outcome(
    rendered: Seq<char>,
    md: Seq<char>,
    ranges: Seq<(int, int)>,
    render: bool,
    strict: Option<bool>,
    markers: Option<DiffMarkers>,
) -> Option<Result<Seq<char>, (u8, Seq<char>)>> {
    match substitute_spec(rendered, md, ranges, render, strict) {
        Err(PlaceholderError::Unsliceable) => None,
        Err(e) => Some(Err(conversion(placeholder_message(e)))),
        Ok(h) => match markers {
            None => Some(Ok(h)),
            Some(m) => if any_marker_in(m, with_diff_blocks(h, m)) {
                Some(Err(conversion("internal diff marker leaked into rendered HTML"@)))
            } else {
                Some(Ok(with_diff_blocks(h, m)))
            },
        },
    }
}

/// Completes the body from the rendered HTML: Mermaid blocks back in place, then the
/// diff blocks. None where the placeholder pass would slice a character apart.
pub fn finish_body(
    rendered: &str,
    markdown: &str,
    blocks: &[MermaidBlock],
    render_mermaid: bool,
    strict: Option<bool>,
    markers: Option<&DiffMarkers>,
) -> (r: Option<Result<String, AppError>>)
    ensures
        opt_text_result(r) == body_outcome(
            rendered@,
            markdown@,
            block_ranges(blocks@),
            render_mermaid,
            strict,
            opt_markers(markers),
        ),
{
    match substitute_placeholders(rendered, markdown, blocks, render_mermaid, strict) {
        Err(PlaceholderError::Unsliceable) => None,
        Err(e) => Some(Err(AppError::Conversion(placeholder_message_text(&e)))),
        Ok(html) => {
            if contains_exec(&chars_of(html.as_str()), &chars_of("@@MERMAID_BLOCK_")) {
                return Some(
                    Err(
                        AppError::Conversion(
                            String::from_str("internal mermaid placeholder leaked into rendered HTML"),
                        ),
                    ),
                );
            }
            match markers {
                None => Some(Ok(html)),
                Some(m) => Some(apply_diff_markers(html, m)),
            }
        },
    }
}

/// A rendered document: its HTML, warnings and log lines, and the printer options.
pub struct RenderedDocument {
    pub html: String,
    pub warnings: Vec<String>,
    pub logs: Vec<String>,
    pub print_options: PrintOptions,
}

/// The HTML of a document outcome.
pub open spec fn document_outcome(r: Option<Result<RenderedDocument, AppError>>) -> Option<
    Result<Seq<char>, (u8, Seq<char>)>,
> {
    match r {
        Some(Ok(d)) => Some(Ok(d.html@)),
        Some(Err(e)) => Some(Err(error_view(e))),
        None => None,
    }
}

/// Renders a Markdown body: the Mermaid blocks lifted out, the rest rendered to HTML, the
/// blocks put back and the diff markers (when given) turned into diff blocks; no warnings
/// or log lines, default printer options. None where the placeholder pass would slice a
/// character apart.
pub fn render_body(markdown: &str, req: &RenderRequest, markers: Option<&DiffMarkers>) -> (r: Option<
    Result<RenderedDocument, AppError>,
>)
    ensures
        document_outcome(r) == body_outcome(
            document_html(extracted_markdown(markdown@)),
            markdown@,
            extracted_byte_ranges(markdown@),
            req.render_mermaid,
            Some(req.strict_mermaid),
            opt_markers(markers),
        ),
        r matches Some(Ok(d)) ==> d.warnings@.len() == 0 && d.logs@.len() == 0 && is_default_print(
            d.print_options,
        ),
{
    let (without, blocks) = extract_mermaid_blocks(markdown);
    let options = markdown_render_options();
    let rendered = markdown_to_html(without.as_str(), &options);
    assert(block_ranges(blocks@) =~= extracted_byte_ranges(markdown@));
    match finish_body(
        rendered.as_str(),
        markdown,
        blocks.as_slice(),
        req.render_mermaid,
        Some(req.strict_mermaid),
        markers,
    ) {
        None => None,
        Some(Err(e)) => Some(Err(e)),
        Some(Ok(html)) => Some(
            Ok(
                RenderedDocument {
                    html,
                    warnings: Vec::new(),
                    logs: Vec::new(),
                    print_options: PrintOptions::default(),
                },
            ),
        ),
    }
}

/// Which bundled theme a name selects: refused when malformed or unknown.
pub open spec fn theme_selection(name: Seq<char>, catalog: ThemeCatalog) -> Result<
    EmbeddedTheme,
    (u8, Seq<char>),
> {
    if !theme_name_ok(name) {
        Err(bad_request("invalid theme name"@))
    } else if name == "modern-tech"@ {
        Ok(catalog.modern_tech)
    } else if name == "jp-standard"@ {
        Ok(catalog.jp_standard)
    } else {
        Err(bad_request("unknown theme: "@ + name))
    }
}

/// The bundled theme that a request names, after checking the name.
pub fn select_theme<'a>(name: &str, catalog: &'a ThemeCatalog) -> (r: Result<&'a EmbeddedTheme, AppError>)
    ensures
        match theme_selection(name@, *catalog) {
            Ok(t) => r matches Ok(x) && *x == t,
            Err(e) => r matches Err(x) && error_view(x) == e,
        },
{
    match validate_theme_name(name) {
        Err(e) => {
            return Err(e);
        },
        Ok(()) => {},
    }
    match embedded_theme(name, catalog) {
        Some(t) => Ok(t),
        None => {
            let mut m = String::from_str("unknown theme: ");
            m.push_str(name);
            Err(AppError::BadRequest(m))
        },
    }
}

/// The page of a document whose body is `body`: refused when a cover field is too long,
/// else the decorated body in the theme's template, titled with the file name.
pub open spec fn page_outcome(
    theme: EmbeddedTheme,
    prism: Seq<char>,
    markdown: Seq<char>,
    filename: Seq<char>,
    body: Seq<char>,
    print_css: Seq<char>,
    doc: DocumentOptions,
) -> Result<Seq<char>, (u8, Seq<char>)> {
    match metadata_error(doc.doc_code@, doc.version@, doc.owner@) {
        Some(m) => Err(bad_request(m)),
        None => Ok(
            page_html(
                theme.template@,
                theme.style@,
                prism,
                filename,
                decorated_html(body, document_title(markdown, filename), doc),
                print_css,
            ),
        ),
    }
}

/// Markers made around a fresh identifier of 32 lowercase hexadecimal digits.
pub open spec fn fresh_markers(m: DiffMarkers) -> bool {
    exists|id: Seq<char>|
        id.len() == 32 && (forall|k: int| 0 <= k < id.len() ==> is_lower_hex(#[trigger] id[k]))
            && markers_for(m, id)
}

/// The Markdown that is rendered: the diff against the compared text (with `markers`
/// around its runs) when there is one, else the Markdown itself.
pub open spec fn render_input(
    markdown: Seq<char>,
    compare: Option<String>,
    markers: Option<DiffMarkers>,
) -> Seq<char> {
    match (compare, markers) {
        (Some(old), Some(m)) => mark_runs(line_diff(old@, markdown), m, None),
        _ => markdown,
    }
}

/// `r` is the document rendered from `markdown` with the theme and its render options
/// `o`, using `markers` for the diff runs when the request compares against an older text.
pub open spec fn rendered_file(
    r: Option<Result<RenderedDocument, AppError>>,
    markdown: Seq<char>,
    filename: Seq<char>,
    req: RenderRequest,
    theme: EmbeddedTheme,
    prism: Seq<char>,
    o: ThemeRenderOptions,
    markers: Option<DiffMarkers>,
) -> bool {
    let input = render_input(markdown, req.compare_markdown_content, markers);
    &&& (req.compare_markdown_content is Some <==> markers is Some)
    &&& (markers matches Some(m) ==> fresh_markers(m))
    &&& match body_outcome(
        document_html(extracted_markdown(input)),
        input,
        extracted_byte_ranges(input),
        req.render_mermaid,
        Some(req.strict_mermaid),
        markers,
    ) {
        None => r is None,
        Some(Err(e)) => r matches Some(Err(x)) && error_view(x) == e,
        Some(Ok(body)) => match page_outcome(
            theme,
            prism,
            markdown,
            filename,
            body,
            o.print_css@,
            o.document_options,
        ) {
            Err(e) => r matches Some(Err(x)) && error_view(x) == e,
            Ok(html) => r matches Some(Ok(d)) && d.html@ == html && d.print_options
                == o.print_options && d.warnings@.len() == 0 && d.logs@.len() == 0,
        },
    }
}

/// Renders a Markdown file to a themed HTML page: the theme selected and its
/// configuration (`config`, read from the theme) adapted to the request, the Markdown
/// (or its diff against the compared text) rendered, then decorated and put in the
/// theme's template. None where the placeholder pass would slice a character apart.
pub fn render_markdown_file(
    markdown: &str,
    filename: &str,
    req: &RenderRequest,
    catalog: &ThemeCatalog,
    config: ThemeConfig,
) -> (r: Option<Result<RenderedDocument, AppError>>)
    ensures
        match theme_selection(req.theme@, *catalog) {
            Err(e) => r matches Some(Err(x)) && error_view(x) == e,
            Ok(theme) => match load_error(config@, req.format) {
                Some(m) => r matches Some(Err(x)) && error_view(x) == conversion(m),
                None => exists|o: ThemeRenderOptions, markers: Option<DiffMarkers>|
                    {
                        &&& o.print_css@ == print_css_html(
                            theme.print@,
                            applied_config(config@, req.format),
                        )
                        &&& print_options_for(
                            o.print_options,
                            applied_config(config@, req.format),
                            req.theme@,
                        )
                        &&& document_options_for(
                            o.document_options,
                            applied_config(config@, req.format),
                            req.format,
                        )
                        &&& #[trigger] rendered_file(
                            r,
                            markdown@,
                            filename@,
                            *req,
                            theme,
                            catalog.prism_css@,
                            o,
                            markers,
                        )
                    },
            },
        },
{
    let theme = match select_theme(req.theme.as_str(), catalog) {
        Err(e) => {
            return Some(Err(e));
        },
        Ok(t) => t,
    };
    let ghost cfg = config@;
    let opts = match load_theme_render_options(theme.print.as_str(), config, req) {
        Err(e) => {
            return Some(Err(e));
        },
        Ok(o) => o,
    };
    let ghost o_snap = opts;
    let diffed: Option<DiffMarkdown> = match &req.compare_markdown_content {
        Some(old) => Some(diff_markdown(old.as_str(), markdown)),
        None => None,
    };
    let ghost markers: Option<DiffMarkers> = match &diffed {
        Some(d) => Some(d.markers),
        None => None,
    };
    let body = match &diffed {
        Some(d) => render_body(d.markdown.as_str(), req, Some(&d.markers)),
        None => render_body(markdown, req, None),
    };
    let ghost input = render_input(markdown@, req.compare_markdown_content, markers);
    let body = match body {
        None => {
            assert(rendered_file(None, markdown@, filename@, *req, *theme, catalog.prism_css@, o_snap, markers));
            return None;
        },
        Some(Err(e)) => {
            let r = Some(Err(e));
            assert(rendered_file(r, markdown@, filename@, *req, *theme, catalog.prism_css@, o_snap, markers));
            return r;
        },
        Some(Ok(b)) => b,
    };
    let body_html = match decorate_body(
        body.html.as_str(),
        markdown,
        filename,
        req.theme.as_str(),
        &opts.document_options,
    ) {
        Err(e) => {
            let r = Some(Err(e));
            assert(rendered_file(r, markdown@, filename@, *req, *theme, catalog.prism_css@, o_snap, markers));
            return r;
        },
        Ok(h) => h,
    };
    let html = match apply_template(
        theme,
        catalog.prism_css.as_str(),
        filename,
        body_html.as_str(),
        opts.print_css.as_str(),
    ) {
        Ok(h) => h,
        Err(e) => {
            return Some(Err(e));
        },
    };
    let r = Some(
        Ok(
            RenderedDocument {
                html,
                warnings: body.warnings,
                logs: body.logs,
                print_options: opts.print_options,
            },
        ),
    );
    assert(rendered_file(r, markdown@, filename@, *req, *theme, catalog.prism_css@, o_snap, markers));
    r
}

/// An accepted theme name holds no path separator and no dot: it names no other
/// directory.
pub proof fn lemma_theme_name_is_plain(name: Seq<char>)
    requires
        theme_name_ok(name),
    ensures
        forall|k: int| 0 <= k < name.len() ==> #[trigger] name[k] != '/' && name[k] != '\\' && name[k] != '.',
{
    assert forall|k: int| 0 <= k < name.len() implies #[trigger] name[k] != '/' && name[k] != '\\'
        && name[k] != '.' by {
        assert(crate::theme::is_ascii_alnum(name[k]) || name[k] == '-' || name[k] == '_');
    }
}

} // verus!
