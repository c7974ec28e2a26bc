//! Local images of a preview or export page: finding the image sources, deciding what
//! each becomes offline (kept, blocked, or inlined as a data URL), and rewriting them.
use vstd::prelude::*;
use crate::desktop::MAX_DOCUMENT_BYTES;
use crate::pattern::{
    capture_spans, capture_view, captures_view, captures_well_formed, char_span, char_spans,
    regex_captures, span_ok, spans_view, spans_well_formed, to_char_spans, CaptureSpans,
};
use crate::text::{
    ascii_lowercase, ascii_lowercase_exec, chars_of, push_range, ranges_view, splice,
    splice_exec, starts_with, utf8_len, utf8_len_bound,
};
use crate::theme::str_eq;

verus! {

/// An `<img>` element's `src` attribute: group 1 is everything up to the opening quote,
/// group 2 the address, group 3 the closing quote.
pub const IMAGE_PATTERN: &'static str = r#"(?i)(<img\b[^>]*\bsrc=")([^"]+)(")"#;

/// A one-pixel transparent GIF that stands in for a blocked image.
pub const BLOCKED_PIXEL: &'static str = "data:image/gif;base64,R0lGODlhAQABAAD/ACwAAAAAAQABAAACADs=";

/// The most bytes of local images inlined into one page: 32 MiB.
pub const MAX_INLINE_TOTAL: u64 = 33554432;

/// `html_escape::decode_html_entities(text)`: the text with its HTML character references
/// decoded.
pub uninterp spec fn decoded_entities(text: Seq<char>) -> Seq<char>;

/// `html_escape::decode_html_entities`.
#[verifier::external_body]
fn decode_entities(text: &str) -> (r: String)
    ensures
        r@ == decoded_entities(text@),
{
    html_escape::decode_html_entities(text).into_owned()
}

/// An image address of the page: where it stands (a character range of the page) and
/// what it says once its character references are decoded.
pub struct ImageRef {
    pub start: usize,
    pub end: usize,
    pub raw: String,
}

/// The address span (group 2) of each match, in bytes.
pub open spec fn address_spans(c: Seq<((int, int), Seq<Option<(int, int)>>)>) -> Option<
    Seq<(int, int)>,
> {
    if forall|i: int| 0 <= i < c.len() ==> c[i].1.len() > 1 && (#[trigger] c[i].1[1]) is Some {
        Some(Seq::new(c.len(), |i: int| c[i].1[1]->0))
    } else {
        None
    }
}

/// The image addresses of `h` as character ranges with their decoded text; none when the
/// pattern yields no matches list or a match lacks its address group (where reading it
/// would panic).
pub open spec fn image_refs_of(h: Seq<char>) -> Option<Seq<((int, int), Seq<char>)>> {
    match regex_captures(IMAGE_PATTERN@, h) {
        None => None,
        Some(c) => match address_spans(c) {
            None => None,
            Some(sp) => Some(
                Seq::new(
                    sp.len(),
                    |k: int|
                        (
                            char_span(h, sp[k]),
                            decoded_entities(
                                h.subrange(char_span(h, sp[k]).0, char_span(h, sp[k]).1),
                            ),
                        ),
                ),
            ),
        },
    }
}

/// The references as plain values.
pub open spec fn refs_view(r: Seq<ImageRef>) -> Seq<((int, int), Seq<char>)> {
    Seq::new(r.len(), |k: int| ((r[k].start as int, r[k].end as int), r[k].raw@))
}

/// The ranges of the references.
pub open spec fn ref_ranges(r: Seq<ImageRef>) -> Seq<(int, int)> {
    Seq::new(r.len(), |k: int| (r[k].start as int, r[k].end as int))
}

/// The image addresses of a page, found once, with their positions.
pub struct ImageScan {
    page: Vec<char>,
    refs: Vec<ImageRef>,
}

impl ImageScan {
    /// The page's characters.
    pub closed spec fn page(&self) -> Seq<char> {
        self.page@
    }

    /// The addresses found.
    pub closed spec fn refs(&self) -> Seq<ImageRef> {
        self.refs@
    }

    /// The address ranges are in order, do not overlap and lie in the page.
    #[verifier::type_invariant]
    closed spec fn ranges_in_page(&self) -> bool {
        ranges_ordered_in(ref_ranges(self.refs@), self.page@.len() as int)
    }

    /// The image addresses, in page order.
    pub fn sources(&self) -> (r: &Vec<ImageRef>)
        ensures
            r@ == self.refs(),
    {
        &self.refs
    }
}

/// The ranges are in order, do not overlap and lie within `0..n`.
pub open spec fn ranges_ordered_in(s: Seq<(int, int)>, n: int) -> bool {
    crate::text::ranges_ordered(s, 0, n)
}

/// Finds the image addresses of a page (see `image_refs_of`).
pub fn scan_images(html: &str) -> (r: Option<ImageScan>)
    ensures
        match image_refs_of(html@) {
            None => r is None,
            Some(refs) => r matches Some(s) && s.page() == html@ && refs_view(s.refs()) == refs,
        },
{
    let v = chars_of(html);
    utf8_len_bound(html);
    let caps = match capture_spans(IMAGE_PATTERN, html) {
        None => {
            return None;
        },
        Some(c) => c,
    };
    let ghost cv = captures_view(caps@);
    let mut spans: Vec<(usize, usize)> = Vec::new();
    let mut i: usize = 0;
    while i < caps.len()
        invariant
            i <= caps@.len(),
            cv == captures_view(caps@),
            regex_captures(IMAGE_PATTERN@, html@) == Some(cv),
            spans@.len() == i,
            forall|k: int| 0 <= k < i ==> cv[k].1.len() > 1 && (#[trigger] cv[k].1[1]) is Some && cv[k].1[1]->0 == (
                spans@[k].0 as int,
                spans@[k].1 as int,
            ),
        decreases caps@.len() - i,
    {
        if caps[i].groups.len() <= 1 {
            proof {
                assert(cv[i as int].1.len() == caps@[i as int].groups@.len());
                assert(!(cv[i as int].1.len() > 1 && cv[i as int].1[1] is Some));
                assert(address_spans(cv) is None);
            }
            return None;
        }
        match caps[i].groups[1] {
            None => {
                proof {
                    assert(cv[i as int].1[1] is None);
                    assert(!(cv[i as int].1.len() > 1 && cv[i as int].1[1] is Some));
                    assert(address_spans(cv) is None);
                }
                return None;
            },
            Some(sp) => {
                spans.push(sp);
            },
        }
        i += 1;
    }
    let ghost bs = spans_view(spans@);
    proof {
        assert(address_spans(cv) == Some(bs)) by {
            assert(Seq::new(cv.len(), |k: int| cv[k].1[1]->0) =~= bs);
        }
        assert forall|a: int| 0 <= a < bs.len() implies span_ok(v@, #[trigger] bs[a]) by {
            assert(cv[a].1[1] matches Some(sp) ==> span_ok(html@, sp));
        }
        assert forall|a: int, b: int| 0 <= a < b < bs.len() implies #[trigger] bs[a].1
            <= #[trigger] bs[b].0 by {
            assert(cv[a].1[1] matches Some(sp) ==> sp.1 <= cv[a].0.1);
            assert(cv[b].1[1] matches Some(sp) ==> cv[b].0.0 <= sp.0);
            assert(cv[a].0.1 <= cv[b].0.0);
        }
    }
    let chars = to_char_spans(&v, &spans);
    let mut refs: Vec<ImageRef> = Vec::new();
    let mut k: usize = 0;
    while k < chars.len()
        invariant
            k <= chars@.len(),
            ranges_view(chars@) == char_spans(v@, bs),
            crate::text::ranges_ordered(ranges_view(chars@), 0, v@.len() as int),
            refs@.len() == k,
            forall|j: int| 0 <= j < k ==> #[trigger] refs@[j].start == chars@[j].0 && refs@[j].end
                == chars@[j].1 && refs@[j].raw@ == decoded_entities(
                v@.subrange(chars@[j].0 as int, chars@[j].1 as int),
            ),
        decreases chars@.len() - k,
    {
        let (a, b) = chars[k];
        assert(ranges_view(chars@)[k as int] == (a as int, b as int));
        let mut text = String::new();
        push_range(&mut text, &v, a, b);
        let raw = decode_entities(text.as_str());
        refs.push(ImageRef { start: a, end: b, raw });
        k += 1;
    }
    proof {
        assert(ref_ranges(refs@) =~= ranges_view(chars@));
        let expect = image_refs_of(html@)->0;
        assert(refs_view(refs@) =~= expect) by {
            assert forall|j: int| 0 <= j < refs@.len() implies refs_view(refs@)[j] == expect[j] by {
                assert(ranges_view(chars@)[j] == char_span(v@, bs[j]));
            }
        }
    }
    Some(ImageScan { page: v, refs })
}

/// What an image address is, for offline use.
#[derive(PartialEq, Eq, Structural)]
pub enum ImageSource {
    /// Already inline (`data:`): kept as it is.
    Data,
    /// A web address: blocked.
    Remote,
    /// Anything else: a file to inline.
    Local,
}

/// The kind of an address: `data:` first, then `http://` or `https://`, else local.
pub open spec fn source_kind(raw: Seq<char>) -> ImageSource {
    if starts_with(raw, "data:"@) {
        ImageSource::Data
    } else if starts_with(raw, "http://"@) || starts_with(raw, "https://"@) {
        ImageSource::Remote
    } else {
        ImageSource::Local
    }
}

/// Classifies an image address.
pub fn classify_source(raw: &str) -> (k: ImageSource)
    ensures
        k == source_kind(raw@),
{
    let v = chars_of(raw);
    if crate::text::matches_at_exec(&v, &chars_of("data:"), 0) {
        ImageSource::Data
    } else if crate::text::matches_at_exec(&v, &chars_of("http://"), 0)
        || crate::text::matches_at_exec(&v, &chars_of("https://"), 0) {
        ImageSource::Remote
    } else {
        ImageSource::Local
    }
}

/// The warning for a blocked web image.
pub fn remote_image_warning(raw: &str) -> (m: String)
    ensures
        m@ == "remote image blocked in offline mode: "@ + raw@,
{
    let mut m = String::from_str("remote image blocked in offline mode: ");
    m.push_str(raw);
    m
}

/// Why a local image was not inlined.
#[derive(Debug, PartialEq, Eq, Structural)]
pub enum ImageProblem {
    /// The address does not resolve against the document's folder.
    InvalidPath,
    /// The address resolves to something other than a file.
    NonLocal,
    /// The resolved address is not a file path.
    InvalidUrl,
    /// No such file.
    NotFound,
    /// The file lies outside the workspace.
    OutsideWorkspace,
    /// The file cannot be read.
    NotReadable,
    /// The file is too large, or would take the page over its inline budget.
    TooLarge,
    /// The file's type is not an image type the page can show.
    Unsupported,
}

/// The warning text of a problem with an address.
pub open spec fn problem_text(p: ImageProblem, raw: Seq<char>) -> Seq<char> {
    (match p {
        ImageProblem::InvalidPath => "invalid local image path: "@,
        ImageProblem::NonLocal => "non-local image blocked in offline mode: "@,
        ImageProblem::InvalidUrl => "invalid local image URL: "@,
        ImageProblem::NotFound => "local image not found: "@,
        ImageProblem::OutsideWorkspace => "image outside workspace blocked: "@,
        ImageProblem::NotReadable => "local image not readable: "@,
        ImageProblem::TooLarge => "local image exceeds inline size limit: "@,
        ImageProblem::Unsupported => "unsupported image type: "@,
    }) + raw
}

/// The warning for a local image that was not inlined.
pub fn problem_warning(p: &ImageProblem, raw: &str) -> (m: String)
    ensures
        m@ == problem_text(*p, raw@),
{
    let mut m = match p {
        ImageProblem::InvalidPath => String::from_str("invalid local image path: "),
        ImageProblem::NonLocal => String::from_str("non-local image blocked in offline mode: "),
        ImageProblem::InvalidUrl => String::from_str("invalid local image URL: "),
        ImageProblem::NotFound => String::from_str("local image not found: "),
        ImageProblem::OutsideWorkspace => String::from_str("image outside workspace blocked: "),
        ImageProblem::NotReadable => String::from_str("local image not readable: "),
        ImageProblem::TooLarge => String::from_str("local image exceeds inline size limit: "),
        ImageProblem::Unsupported => String::from_str("unsupported image type: "),
    };
    m.push_str(raw);
    m
}

/// Whether a file of `size` bytes may be inlined when `total` bytes already are: at most
/// 10 MiB, and the total stays within `max_total`.
pub fn admit_image(size: u64, total: u64, max_total: u64) -> (r: Result<(), ImageProblem>)
    ensures
        r is Ok <==> (size <= MAX_DOCUMENT_BYTES && total + size <= max_total),
        r matches Err(p) ==> p is TooLarge,
{
    if size > MAX_DOCUMENT_BYTES {
        return Err(ImageProblem::TooLarge);
    }
    match total.checked_add(size) {
        None => Err(ImageProblem::TooLarge),
        Some(t) => if t > max_total {
            Err(ImageProblem::TooLarge)
        } else {
            Ok(())
        },
    }
}

/// The media type of an image file extension, in any ASCII case.
pub open spec fn mime_of(ext: Seq<char>) -> Option<Seq<char>> {
    let e = ascii_lowercase(ext);
    if e == "png"@ {
        Some("image/png"@)
    } else if e == "jpg"@ || e == "jpeg"@ {
        Some("image/jpeg"@)
    } else if e == "gif"@ {
        Some("image/gif"@)
    } else if e == "webp"@ {
        Some("image/webp"@)
    } else if e == "svg"@ {
        Some("image/svg+xml"@)
    } else if e == "bmp"@ {
        Some("image/bmp"@)
    } else {
        None
    }
}

/// The media type of an image by its file extension (none without one).
pub fn image_mime(extension: Option<&str>) -> (r: Option<String>)
    ensures
        match extension {
            None => r is None,
            Some(e) => match mime_of(e@) {
                Some(m) => r matches Some(x) && x@ == m,
                None => r is None,
            },
        },
{
    let ext = match extension {
        None => {
            return None;
        },
        Some(e) => e,
    };
    let lower = ascii_lowercase_exec(ext);
    let e = lower.as_str();
    if str_eq(e, "png") {
        Some(String::from_str("image/png"))
    } else if str_eq(e, "jpg") || str_eq(e, "jpeg") {
        Some(String::from_str("image/jpeg"))
    } else if str_eq(e, "gif") {
        Some(String::from_str("image/gif"))
    } else if str_eq(e, "webp") {
        Some(String::from_str("image/webp"))
    } else if str_eq(e, "svg") {
        Some(String::from_str("image/svg+xml"))
    } else if str_eq(e, "bmp") {
        Some(String::from_str("image/bmp"))
    } else {
        None
    }
}

/// Each image extension names its media type whatever its ASCII case: `png` is
/// `image/png`, both `jpg` and `jpeg` are `image/jpeg`, `gif`, `webp` and `bmp` are
/// `image/gif`, `image/webp` and `image/bmp`, and `svg` is `image/svg+xml`; any other
/// extension has none.
pub proof fn lemma_image_media_types(ext: Seq<char>)
    ensures
        ascii_lowercase(ext) == "png"@ ==> mime_of(ext) == Some("image/png"@),
        ascii_lowercase(ext) == "jpg"@ ==> mime_of(ext) == Some("image/jpeg"@),
        ascii_lowercase(ext) == "jpeg"@ ==> mime_of(ext) == Some("image/jpeg"@),
        ascii_lowercase(ext) == "gif"@ ==> mime_of(ext) == Some("image/gif"@),
        ascii_lowercase(ext) == "webp"@ ==> mime_of(ext) == Some("image/webp"@),
        ascii_lowercase(ext) == "svg"@ ==> mime_of(ext) == Some("image/svg+xml"@),
        ascii_lowercase(ext) == "bmp"@ ==> mime_of(ext) == Some("image/bmp"@),
        mime_of(ext) is Some ==> {
            let e = ascii_lowercase(ext);
            e == "png"@ || e == "jpg"@ || e == "jpeg"@ || e == "gif"@ || e == "webp"@ || e
                == "svg"@ || e == "bmp"@
        },
{
    reveal_strlit("png");
    reveal_strlit("jpg");
    reveal_strlit("jpeg");
    reveal_strlit("gif");
    reveal_strlit("webp");
    reveal_strlit("svg");
    reveal_strlit("bmp");
    assert("png"@.len() == 3 && "png"@[0] == 'p');
    assert("jpg"@.len() == 3 && "jpg"@[0] == 'j');
    assert("jpeg"@.len() == 4 && "jpeg"@[0] == 'j');
    assert("gif"@.len() == 3 && "gif"@[0] == 'g');
    assert("webp"@.len() == 4 && "webp"@[0] == 'w');
    assert("svg"@.len() == 3 && "svg"@[0] == 's');
    assert("bmp"@.len() == 3 && "bmp"@[0] == 'b');
}

/// The bytes of local images inlined into one page so far.
pub struct InlineBudget {
    used: u64,
}

impl InlineBudget {
    /// The bytes inlined so far.
    pub closed spec fn spent(&self) -> u64 {
        self.used
    }

    /// Nothing inlined yet.
    pub fn new() -> (b: Self)
        ensures
            b.spent() == 0,
    {
        InlineBudget { used: 0 }
    }

    /// The bytes inlined so far.
    pub fn used_bytes(&self) -> (n: u64)
        ensures
            n == self.spent(),
    {
        self.used
    }

    /// Whether a local image of `size` bytes with the given file extension may be inlined
    /// now, and as which media type: refused when it is over 10 MiB or would take the page
    /// over 32 MiB, then when its type is not an image type the page can show.
    pub fn check(&self, size: u64, extension: Option<&str>) -> (r: Result<String, ImageProblem>)
        ensures
            !(size <= MAX_DOCUMENT_BYTES && self.spent() + size <= MAX_INLINE_TOTAL) ==> r
                == Err::<String, ImageProblem>(ImageProblem::TooLarge),
            (size <= MAX_DOCUMENT_BYTES && self.spent() + size <= MAX_INLINE_TOTAL) ==> match extension {
                Some(e) if mime_of(e@) is Some => r matches Ok(m) && m@ == mime_of(e@)->0,
                _ => r == Err::<String, ImageProblem>(ImageProblem::Unsupported),
            },
    {
        match admit_image(size, self.used, MAX_INLINE_TOTAL) {
            Err(p) => Err(p),
            Ok(()) => match image_mime(extension) {
                Some(m) => Ok(m),
                None => Err(ImageProblem::Unsupported),
            },
        }
    }

    /// Counts `bytes` more as inlined.
    pub fn spend(&mut self, bytes: u64)
        requires
            old(self).spent() + bytes <= u64::MAX,
        ensures
            final(self).spent() == old(self).spent() + bytes,
    {
        self.used = self.used + bytes;
    }
}

/// The standard base64 encoding (with padding) of `bytes`, as `base64`'s `STANDARD`
/// engine writes it.
pub uninterp spec fn base64_standard(bytes: Seq<u8>) -> Seq<char>;

/// `base64::engine::general_purpose::STANDARD.encode(bytes)`.
#[verifier::external_body]
fn base64_encode(bytes: &[u8]) -> (r: String)
    ensures
        r@ == base64_standard(bytes@),
{
    base64::Engine::encode(&base64::engine::general_purpose::STANDARD, bytes)
}

/// A data URL holding the image bytes.
pub fn data_url(mime: &str, bytes: &[u8]) -> (r: String)
    ensures
        r@ == "data:"@ + mime@ + ";base64,"@ + base64_standard(bytes@),
{
    let mut r = String::from_str("data:");
    r.push_str(mime);
    r.push_str(";base64,");
    r.push_str(base64_encode(bytes).as_str());
    r
}

/// What replaces an address, and the warning to give: a data URL is kept, a web address
/// blocked; a local image becomes its data URL (`local`), or is blocked with the
/// problem's warning.
pub open spec fn replacement_for(raw: Seq<char>, local: Result<Seq<char>, ImageProblem>) -> (
    Seq<char>,
    Option<Seq<char>>,
) {
    match source_kind(raw) {
        ImageSource::Data => (raw, None),
        ImageSource::Remote => (
            BLOCKED_PIXEL@,
            Some("remote image blocked in offline mode: "@ + raw),
        ),
        ImageSource::Local => match local {
            Ok(url) => (url, None),
            Err(p) => (BLOCKED_PIXEL@, Some(problem_text(p, raw))),
        },
    }
}

/// A replacement as plain values.
pub open spec fn replacement_view(r: (String, Option<String>)) -> (Seq<char>, Option<Seq<char>>) {
    (
        r.0@,
        match r.1 {
            Some(w) => Some(w@),
            None => None,
        },
    )
}

/// The replacement of an address that needs no file: a data URL is kept, a web address
/// blocked with a warning; none for a local address.
pub fn settled_replacement(raw: &str) -> (r: Option<(String, Option<String>)>)
    ensures
        match source_kind(raw@) {
            ImageSource::Local => r is None,
            _ => r matches Some(x) && replacement_view(x) == replacement_for(
                raw@,
                Err(ImageProblem::NotFound),
            ),
        },
{
    match classify_source(raw) {
        ImageSource::Data => Some((String::from_str(raw), None)),
        ImageSource::Remote => Some((String::from_str(BLOCKED_PIXEL), Some(remote_image_warning(raw)))),
        ImageSource::Local => None,
    }
}

/// The replacement of a local address once its file was inlined or refused.
pub fn local_replacement(raw: &str, outcome: Result<String, ImageProblem>) -> (r: (String, Option<String>))
    requires
        source_kind(raw@) == ImageSource::Local,
    ensures
        replacement_view(r) == replacement_for(
            raw@,
            match outcome {
                Ok(u) => Ok(u@),
                Err(p) => Err(p),
            },
        ),
{
    match outcome {
        Ok(url) => (url, None),
        Err(p) => (String::from_str(BLOCKED_PIXEL), Some(problem_warning(&p, raw))),
    }
}

/// The page with each address replaced in order; a replacement for every address.
pub fn rewrite_images(scan: &ImageScan, replacements: &Vec<String>) -> (r: String)
    requires
        replacements@.len() == scan.refs().len(),
    ensures
        r@ == splice(
            scan.page(),
            ref_ranges(scan.refs()),
            Seq::new(replacements@.len(), |k: int| replacements@[k]@),
            0,
        ),
{
    proof {
        use_type_invariant(scan);
    }
    let mut spans: Vec<(usize, usize)> = Vec::new();
    let mut i: usize = 0;
    while i < scan.refs.len()
        invariant
            i <= scan.refs@.len(),
            spans@.len() == i,
            forall|k: int| 0 <= k < i ==> #[trigger] spans@[k] == (scan.refs@[k].start, scan.refs@[k].end),
        decreases scan.refs@.len() - i,
    {
        spans.push((scan.refs[i].start, scan.refs[i].end));
        i += 1;
    }
    assert(ranges_view(spans@) =~= ref_ranges(scan.refs@));
    splice_exec(&scan.page, &spans, replacements)
}

/// `url::Url::parse(base)` then `join(reference)`, written out: the address `reference`
/// names relative to `base`; none when either does not parse.
pub uninterp spec fn url_joined(base: Seq<char>, reference: Seq<char>) -> Option<Seq<char>>;

/// `url::Url::parse(base)?.join(reference)`, as its serialization.
#[verifier::external_body]
fn join_url(base: &str, reference: &str) -> (r: Option<String>)
    ensures
        match r {
            Some(u) => url_joined(base@, reference@) == Some(u@),
            None => url_joined(base@, reference@) is None,
        },
{
    url::Url::parse(base).ok()?.join(reference).ok().map(|u| u.to_string())
}

/// `url::Url::parse(address)` and its `scheme()`; none when it does not parse.
pub uninterp spec fn url_scheme(address: Seq<char>) -> Option<Seq<char>>;

/// The scheme of an address.
#[verifier::external_body]
fn scheme_of(address: &str) -> (r: Option<String>)
    ensures
        match r {
            Some(s) => url_scheme(address@) == Some(s@),
            None => url_scheme(address@) is None,
        },
{
    url::Url::parse(address).ok().map(|u| u.scheme().to_string())
}

/// Where a local image address leads: the address resolved against the document's folder
/// (`base`, a `file:` URL of a directory), when it resolves and stays a `file:` address.
pub open spec fn local_image_address(base: Seq<char>, raw: Seq<char>) -> Result<Seq<char>, ImageProblem> {
    match url_joined(base, raw) {
        None => Err(ImageProblem::InvalidPath),
        Some(u) => if url_scheme(u) == Some("file"@) {
            Ok(u)
        } else {
            Err(ImageProblem::NonLocal)
        },
    }
}

/// Resolves a local image address against the document's folder.
pub fn resolve_local_image(base: &str, raw: &str) -> (r: Result<String, ImageProblem>)
    ensures
        match local_image_address(base@, raw@) {
            Ok(u) => r matches Ok(x) && x@ == u,
            Err(p) => r matches Err(q) && q == p,
        },
{
    let joined = match join_url(base, raw) {
        None => {
            return Err(ImageProblem::InvalidPath);
        },
        Some(u) => u,
    };
    let is_file = match scheme_of(joined.as_str()) {
        Some(s) => str_eq(s.as_str(), "file"),
        None => false,
    };
    if is_file {
        Ok(joined)
    } else {
        Err(ImageProblem::NonLocal)
    }
}

} // verus!
