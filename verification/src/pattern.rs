//! Regular-expression searches (through `regex`) and CommonMark rendering (through
//! `comrak`), with the spans they report turned into character ranges.
use vstd::prelude::*;
use crate::text::{
    char_at_byte, char_index_for_byte, lemma_char_index_bound, ranges_ordered, ranges_view, utf8_len,
};

verus! {

#[verifier::external_type_specification]
#[verifier::external_body]
pub struct ExRegex(regex::Regex);

/// One match of a regular expression: the byte span of the whole match and of each
/// capture group after it (`None` when the group took no part in the match).
pub struct CaptureSpans {
    pub whole: (usize, usize),
    pub groups: Vec<Option<(usize, usize)>>,
}

/// The spans of a match as plain values.
pub open spec fn capture_view(c: CaptureSpans) -> ((int, int), Seq<Option<(int, int)>>) {
    (
        (c.whole.0 as int, c.whole.1 as int),
        Seq::new(
            c.groups@.len(),
            |k: int|
                match c.groups@[k] {
                    Some(sp) => Some((sp.0 as int, sp.1 as int)),
                    None => None,
                },
        ),
    )
}

/// The matches as plain values.
pub open spec fn captures_view(c: Seq<CaptureSpans>) -> Seq<((int, int), Seq<Option<(int, int)>>)> {
    Seq::new(c.len(), |k: int| capture_view(c[k]))
}

/// The successive non-overlapping matches of the regular expression `pattern` in
/// `haystack` with their capture groups, as `regex::Regex::captures_iter` reports them;
/// `None` when the pattern does not compile.
pub uninterp spec fn regex_captures(pattern: Seq<char>, haystack: Seq<char>) -> Option<
    Seq<((int, int), Seq<Option<(int, int)>>)>,
>;

/// A byte span of `h` whose ends are character boundaries, in order.
pub open spec fn span_ok(h: Seq<char>, sp: (int, int)) -> bool {
    sp.0 <= sp.1 && char_at_byte(h, sp.0) is Some && char_at_byte(h, sp.1) is Some
}

/// The spans of each match lie on character boundaries of `h`, each group inside its
/// match, and the matches come in order without overlapping.
pub open spec fn captures_well_formed(h: Seq<char>, c: Seq<((int, int), Seq<Option<(int, int)>>)>) -> bool {
    &&& forall|i: int| 0 <= i < c.len() ==> span_ok(h, #[trigger] c[i].0)
    &&& forall|i: int, g: int|
        0 <= i < c.len() && 0 <= g < c[i].1.len() ==> (#[trigger] c[i].1[g] matches Some(sp)
            ==> span_ok(h, sp) && c[i].0.0 <= sp.0 && sp.1 <= c[i].0.1)
    &&& forall|i: int, j: int| 0 <= i < j < c.len() ==> #[trigger] c[i].0.1 <= #[trigger] c[j].0.0
}

/// `regex::Regex::new(pattern)` and then `captures_iter(haystack)`: every successive
/// non-overlapping match with its groups, as byte spans. The regex documentation
/// guarantees that every span starts no later than it ends and that its ends are
/// character boundaries, that the whole match (group 0) is always present and holds the
/// span of each group that took part, and that the matches are successive and
/// non-overlapping.
#[verifier::external_body]
pub(crate) fn capture_spans(pattern: &str, haystack: &str) -> (r: Option<Vec<CaptureSpans>>)
    ensures
        match r {
            None => regex_captures(pattern@, haystack@) is None,
            Some(c) => regex_captures(pattern@, haystack@) == Some(captures_view(c@))
                && captures_well_formed(haystack@, captures_view(c@)),
        },
{
    let re = regex::Regex::new(pattern).ok()?;
    Some(re.captures_iter(haystack).map(|caps| {
        let whole = caps.get(0).unwrap();
        let groups = (1..caps.len()).map(|k| caps.get(k).map(|m| (m.start(), m.end()))).collect();
        CaptureSpans { whole: (whole.start(), whole.end()), groups }
    }).collect())
}

/// The byte spans are in order, do not overlap, and lie on character boundaries of `h`.
pub open spec fn spans_well_formed(h: Seq<char>, s: Seq<(int, int)>) -> bool {
    &&& forall|i: int| 0 <= i < s.len() ==> span_ok(h, #[trigger] s[i])
    &&& forall|i: int, j: int| 0 <= i < j < s.len() ==> #[trigger] s[i].1 <= #[trigger] s[j].0
}

/// The spans as plain values.
pub open spec fn spans_view(s: Seq<(usize, usize)>) -> Seq<(int, int)> {
    Seq::new(s.len(), |k: int| (s[k].0 as int, s[k].1 as int))
}

/// The character range of a byte span.
pub open spec fn char_span(h: Seq<char>, sp: (int, int)) -> (int, int) {
    (char_at_byte(h, sp.0)->0, char_at_byte(h, sp.1)->0)
}

/// The character range of a byte span on character boundaries.
pub fn to_char_span(v: &Vec<char>, sp: (usize, usize)) -> (r: (usize, usize))
    requires
        utf8_len(v@) <= usize::MAX,
        span_ok(v@, (sp.0 as int, sp.1 as int)),
    ensures
        (r.0 as int, r.1 as int) == char_span(v@, (sp.0 as int, sp.1 as int)),
        r.0 <= r.1 <= v@.len(),
{
    proof {
        lemma_char_index_bound(v@, sp.0 as int, 0, 0);
        lemma_char_index_bound(v@, sp.1 as int, 0, 0);
        lemma_char_at_byte_monotone(v@, sp.0 as int, sp.1 as int);
    }
    let a = char_index_for_byte(v, sp.0).unwrap();
    let b = char_index_for_byte(v, sp.1).unwrap();
    (a, b)
}

proof fn lemma_char_index_from_value(s: Seq<char>, b: int, i: int, acc: int)
    requires
        0 <= i <= s.len(),
        acc == utf8_len(s.take(i)),
    ensures
        crate::text::char_index_from(s, b, i, acc) matches Some(k) ==> i <= k <= s.len()
            && utf8_len(s.take(k)) == b,
    decreases s.len() - i,
{
    if acc != b && !(acc > b || i >= s.len()) {
        crate::text::lemma_utf8_len_take_step(s, i);
        lemma_char_index_from_value(s, b, i + 1, acc + crate::text::char_width(s[i]));
    }
}

/// Character boundaries at smaller byte offsets come at smaller character indices.
pub proof fn lemma_char_at_byte_monotone(s: Seq<char>, b1: int, b2: int)
    requires
        b1 <= b2,
        char_at_byte(s, b1) is Some,
        char_at_byte(s, b2) is Some,
    ensures
        char_at_byte(s, b1)->0 <= char_at_byte(s, b2)->0,
{
    assert(s.take(0) =~= Seq::<char>::empty());
    lemma_char_index_from_value(s, b1, 0, 0);
    lemma_char_index_from_value(s, b2, 0, 0);
    let k1 = char_at_byte(s, b1)->0;
    let k2 = char_at_byte(s, b2)->0;
    if k1 > k2 {
        crate::text::lemma_utf8_len_monotone(s, k2, k1);
        if utf8_len(s.take(k1)) == utf8_len(s.take(k2)) {
            assert(utf8_len(s.subrange(k2, k1)) == 0);
        }
    }
}

/// `comrak::markdown_to_html` with the given extensions and a heading id prefix, all
/// other settings at comrak's defaults (raw HTML is not passed through): the CommonMark
/// (with GFM extensions) rendering of `markdown`.
pub uninterp spec fn commonmark_html(
    markdown: Seq<char>,
    table: bool,
    autolink: bool,
    strikethrough: bool,
    tasklist: bool,
    header_id_prefix: Option<Seq<char>>,
) -> Seq<char>;

/// The Markdown extensions a rendering uses, and the prefix of heading ids (none: no
/// heading ids).
pub struct MarkdownOptions {
    pub table: bool,
    pub autolink: bool,
    pub strikethrough: bool,
    pub tasklist: bool,
    pub header_id_prefix: Option<String>,
}

/// `comrak::markdown_to_html` with the extensions and heading id prefix set from
/// `options` and comrak's defaults otherwise.
#[verifier::external_body]
pub(crate) fn markdown_to_html(markdown: &str, options: &MarkdownOptions) -> (html: String)
    ensures
        html@ == commonmark_html(
            markdown@,
            options.table,
            options.autolink,
            options.strikethrough,
            options.tasklist,
            match options.header_id_prefix {
                Some(p) => Some(p@),
                None => None,
            },
        ),
{
    let mut o = comrak::Options::default();
    o.extension.table = options.table;
    o.extension.autolink = options.autolink;
    o.extension.strikethrough = options.strikethrough;
    o.extension.tasklist = options.tasklist;
    o.extension.header_id_prefix = options.header_id_prefix.clone();
    comrak::markdown_to_html(markdown, &o)
}


/// The character ranges of byte spans.
pub open spec fn char_spans(h: Seq<char>, s: Seq<(int, int)>) -> Seq<(int, int)> {
    Seq::new(s.len(), |k: int| char_span(h, s[k]))
}

/// The character ranges of well-formed byte spans; they are in order too.
pub fn to_char_spans(v: &Vec<char>, spans: &Vec<(usize, usize)>) -> (r: Vec<(usize, usize)>)
    requires
        utf8_len(v@) <= usize::MAX,
        spans_well_formed(v@, spans_view(spans@)),
    ensures
        ranges_view(r@) == char_spans(v@, spans_view(spans@)),
        ranges_ordered(ranges_view(r@), 0, v@.len() as int),
{
    let ghost bs = spans_view(spans@);
    let mut r: Vec<(usize, usize)> = Vec::new();
    let mut i: usize = 0;
    while i < spans.len()
        invariant
            utf8_len(v@) <= usize::MAX,
            bs == spans_view(spans@),
            spans_well_formed(v@, bs),
            i <= spans@.len(),
            r@.len() == i,
            forall|k: int| 0 <= k < i ==> (r@[k].0 as int, r@[k].1 as int) == #[trigger] char_span(v@, bs[k]),
            forall|k: int| 0 <= k < i ==> #[trigger] r@[k].0 <= r@[k].1 <= v@.len(),
        decreases spans@.len() - i,
    {
        assert(span_ok(v@, bs[i as int]));
        let c = to_char_span(v, spans[i]);
        r.push(c);
        i += 1;
    }
    assert(ranges_view(r@) =~= char_spans(v@, bs));
    assert forall|a: int, b: int| 0 <= a < b < r@.len() implies #[trigger] ranges_view(r@)[a].1
        <= #[trigger] ranges_view(r@)[b].0 by {
        assert(bs[a].1 <= bs[b].0);
        assert(span_ok(v@, bs[a]));
        assert(span_ok(v@, bs[b]));
        lemma_char_at_byte_monotone(v@, bs[a].1, bs[b].0);
    }
    r
}

/// The whole-match spans of the matches.
pub open spec fn whole_spans(c: Seq<((int, int), Seq<Option<(int, int)>>)>) -> Seq<(int, int)> {
    Seq::new(c.len(), |k: int| c[k].0)
}

/// The whole-match spans of the matches.
pub fn whole_spans_exec(c: &Vec<CaptureSpans>) -> (r: Vec<(usize, usize)>)
    ensures
        spans_view(r@) == whole_spans(captures_view(c@)),
{
    let mut r: Vec<(usize, usize)> = Vec::new();
    let mut i: usize = 0;
    while i < c.len()
        invariant
            i <= c@.len(),
            r@.len() == i,
            forall|k: int| 0 <= k < i ==> #[trigger] r@[k] == c@[k].whole,
        decreases c@.len() - i,
    {
        r.push(c[i].whole);
        i += 1;
    }
    assert(spans_view(r@) =~= whole_spans(captures_view(c@)));
    r
}

} // verus!
