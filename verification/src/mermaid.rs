//! Mermaid fenced blocks: lifting them out of Markdown before rendering and putting
//! them back, escaped, into the rendered HTML.
use vstd::prelude::*;
use crate::error::{conversion, text_result, AppError};
use crate::escape::{encode_text, html_text_escape};
use crate::text::{
    char_index_from, char_at_byte, char_index_for_byte, lemma_char_index_bound,
    contains, contains_exec, find_from, find_from_exec, lemma_find_from_contains, parse_usize,
    parse_usize_exec, matches_at_exec, char_width,
    all_whitespace, all_whitespace_exec, char_width_exec, chars_of, decimal,
    lemma_utf8_len_monotone, lemma_utf8_len_take_step, push_decimal, push_range,
    starts_with, trim_end_cr, string_of, matches_at, lemma_skip_shift, trim_end_cr_exec, trim_end_crlf, trim_end_crlf_exec, utf8_len,
    utf8_len_bound,
};

verus! {

/// A Mermaid block's source, as a byte range of the Markdown it came from.
pub struct MermaidBlock {
    pub source_start: usize,
    pub source_end: usize,
}

/// The index of the first `'\n'` at or after `i`, or the length of `s`.
pub open spec fn line_end(s: Seq<char>, i: int) -> int
    decreases s.len() - i,
{
    if i < 0 || i >= s.len() {
        s.len() as int
    } else if s[i] == '\n' {
        i
    } else {
        line_end(s, i + 1)
    }
}

/// The start of the line after the one starting at `i` (the length of `s` on the last line).
pub open spec fn next_line(s: Seq<char>, i: int) -> int {
    if line_end(s, i) < s.len() {
        line_end(s, i) + 1
    } else {
        s.len() as int
    }
}

pub proof fn lemma_line_end(s: Seq<char>, i: int)
    requires
        0 <= i <= s.len(),
    ensures
        i <= line_end(s, i) <= s.len(),
        line_end(s, i) < s.len() ==> s[line_end(s, i)] == '\n',
        forall|k: int| i <= k < line_end(s, i) ==> s[k] != '\n',
        i < s.len() ==> i < next_line(s, i) <= s.len(),
    decreases s.len() - i,
{
    if i < s.len() && s[i] != '\n' {
        lemma_line_end(s, i + 1);
    }
}

/// The text of the line starting at `i`, without its trailing `'\r'` characters.
pub open spec fn line_text(s: Seq<char>, i: int) -> Seq<char> {
    trim_end_cr(s.subrange(i, line_end(s, i)))
}

/// The line at `i` opens a Mermaid block: it reads "```mermaid" followed by whitespace
/// only, and more text follows it.
pub open spec fn is_mermaid_opener(s: Seq<char>, i: int) -> bool {
    let t = line_text(s, i);
    &&& starts_with(t, "```mermaid"@)
    &&& all_whitespace(t.skip("```mermaid"@.len() as int))
    &&& next_line(s, i) < s.len()
}

/// The line at `i` closes a fenced block: it reads "```" followed by whitespace only.
pub open spec fn is_fence_closer(s: Seq<char>, i: int) -> bool {
    let t = line_text(s, i);
    &&& starts_with(t, "```"@)
    &&& all_whitespace(t.skip("```"@.len() as int))
}

/// The start of the first closing fence line at or after the line starting at `i`.
pub open spec fn closing_fence(s: Seq<char>, i: int) -> Option<int>
    decreases s.len() - i,
{
    if i < 0 || i >= s.len() {
        None
    } else if is_fence_closer(s, i) {
        Some(i)
    } else {
        proof {
            lemma_line_end(s, i);
        }
        closing_fence(s, next_line(s, i))
    }
}

pub proof fn lemma_closing_fence(s: Seq<char>, i: int)
    requires
        0 <= i <= s.len(),
    ensures
        closing_fence(s, i) matches Some(c) ==> i <= c < s.len(),
    decreases s.len() - i,
{
    if i < s.len() && !is_fence_closer(s, i) {
        lemma_line_end(s, i);
        lemma_closing_fence(s, next_line(s, i));
    }
}

/// The placeholder that stands for block number `n`.
pub open spec fn mermaid_placeholder(n: nat) -> Seq<char> {
    "\n\n@@MERMAID_BLOCK_"@ + decimal(n) + "@@\n\n"@
}

/// Scanning `s` line by line from the line at `i`, with the text from `copy_from` not yet
/// copied and `n` blocks found so far: the rest of the output, and the character ranges of
/// the rest of the blocks' sources. Each Mermaid block (opening line, source, closing line)
/// becomes a placeholder; a block whose closing fence never comes ends the scan.
pub open spec fn extract_scan(s: Seq<char>, i: int, copy_from: int, n: nat) -> (
    Seq<char>,
    Seq<(int, int)>,
)
    decreases s.len() - i,
{
    if i < 0 || i >= s.len() {
        (s.subrange(copy_from, s.len() as int), seq![])
    } else if !is_mermaid_opener(s, i) {
        proof {
            lemma_line_end(s, i);
        }
        extract_scan(s, next_line(s, i), copy_from, n)
    } else {
        let st = next_line(s, i);
        match closing_fence(s, st) {
            None => (s.subrange(copy_from, s.len() as int), seq![]),
            Some(c) => {
                proof {
                    lemma_line_end(s, i);
                    lemma_closing_fence(s, st);
                    lemma_line_end(s, c);
                }
                let after = next_line(s, c);
                let rest = extract_scan(s, after, after, n + 1);
                (
                    s.subrange(copy_from, i) + mermaid_placeholder(n) + rest.0,
                    seq![(st, st + trim_end_crlf(s.subrange(st, c)).len())] + rest.1,
                )
            },
        }
    }
}

/// The Markdown with its Mermaid blocks replaced by placeholders.
pub open spec fn extracted_markdown(s: Seq<char>) -> Seq<char> {
    extract_scan(s, 0, 0, 0).0
}

/// The character ranges of the sources of the Mermaid blocks of `s`, in order.
pub open spec fn extracted_ranges(s: Seq<char>) -> Seq<(int, int)> {
    extract_scan(s, 0, 0, 0).1
}

/// The end of the line starting at `start`, and the start of the next line.
pub fn line_bounds(v: &Vec<char>, start: usize) -> (r: (usize, usize))
    requires
        start <= v@.len(),
    ensures
        r.0 == line_end(v@, start as int),
        r.1 == next_line(v@, start as int),
{
    proof {
        lemma_line_end(v@, start as int);
    }
    let mut k = start;
    while k < v.len()
        invariant
            start <= k <= v@.len(),
            line_end(v@, k as int) == line_end(v@, start as int),
        decreases v@.len() - k,
    {
        if v[k] == '\n' {
            return (k, k + 1);
        }
        k += 1;
    }
    (k, k)
}

/// Whether the line at `start` (ending at `end`) opens (with `fence` = "```mermaid") or
/// closes (with `fence` = "```") a fenced block.
fn fence_line(v: &Vec<char>, start: usize, end: usize, fence: &Vec<char>) -> (b: bool)
    requires
        start <= end <= v@.len(),
    ensures
        b == (starts_with(trim_end_cr(v@.subrange(start as int, end as int)), fence@)
            && all_whitespace(trim_end_cr(v@.subrange(start as int, end as int)).skip(
            fence@.len() as int,
        ))),
{
    let e = trim_end_cr_exec(v, start, end);
    let ghost t = v@.subrange(start as int, e as int);
    if fence.len() > e - start {
        return false;
    }
    if !matches_at_exec(v, fence, start) {
        assert(!starts_with(t, fence@)) by {
            if starts_with(t, fence@) {
                assert(t.subrange(0, fence@.len() as int) =~= v@.subrange(
                    start as int,
                    start + fence@.len(),
                ));
            }
        }
        return false;
    }
    assert(starts_with(t, fence@)) by {
        assert(t.subrange(0, fence@.len() as int) =~= v@.subrange(
            start as int,
            start + fence@.len(),
        ));
    }
    let b = all_whitespace_exec(v, start + fence.len(), e);
    assert(t.skip(fence@.len() as int) =~= v@.subrange(start + fence@.len(), e as int));
    b
}

/// The first closing fence line at or after the line starting at `start`: its start and
/// the start of the line after it.
fn find_closing_fence(v: &Vec<char>, start: usize, close_fence: &Vec<char>) -> (r: Option<(usize, usize)>)
    requires
        start <= v@.len(),
        close_fence@ == "```"@,
    ensures
        r is None ==> closing_fence(v@, start as int) is None,
        r matches Some(p) ==> closing_fence(v@, start as int) == Some(p.0 as int) && p.1
            == next_line(v@, p.0 as int),
{
    let mut closing_start = start;
    while closing_start < v.len()
        invariant
            close_fence@ == "```"@,
            start <= closing_start <= v@.len(),
            closing_fence(v@, start as int) == closing_fence(v@, closing_start as int),
        decreases v@.len() - closing_start,
    {
        proof {
            lemma_line_end(v@, closing_start as int);
        }
        let (closing_end, after_closing) = line_bounds(v, closing_start);
        if fence_line(v, closing_start, closing_end, close_fence) {
            return Some((closing_start, after_closing));
        }
        closing_start = after_closing;
    }
    None
}

/// Advances a byte count from position `from` to position `to`.
fn advance_bytes(v: &Vec<char>, from: usize, bytes: usize, to: usize) -> (r: usize)
    requires
        from <= to <= v@.len(),
        bytes == utf8_len(v@.take(from as int)),
        utf8_len(v@) <= usize::MAX,
    ensures
        r == utf8_len(v@.take(to as int)),
{
    let mut k = from;
    let mut b = bytes;
    while k < to
        invariant
            from <= k <= to <= v@.len(),
            b == utf8_len(v@.take(k as int)),
            utf8_len(v@) <= usize::MAX,
        decreases to - k,
    {
        proof {
            lemma_utf8_len_take_step(v@, k as int);
            lemma_utf8_len_monotone(v@, k + 1, v@.len() as int);
            assert(v@.take(v@.len() as int) =~= v@);
        }
        b = b + char_width_exec(v[k]);
        k += 1;
    }
    b
}

/// Each block's byte range is the given character range of `s`, measured in UTF-8 bytes.
pub open spec fn blocks_at_bytes(b: Seq<MermaidBlock>, r: Seq<(int, int)>, s: Seq<char>) -> bool {
    &&& b.len() == r.len()
    &&& forall|k: int|
        0 <= k < b.len() ==> {
            &&& #[trigger] b[k].source_start == utf8_len(s.take(r[k].0))
            &&& b[k].source_end == utf8_len(s.take(r[k].1))
        }
}

/// Lifts each Mermaid fenced block out of `markdown`: the block (opening line, source and
/// closing line) becomes the placeholder `"\n\n@@MERMAID_BLOCK_<n>@@\n\n"`, and the
/// block's source (without trailing line breaks) is returned as a byte range of
/// `markdown`.
pub fn extract_mermaid_blocks(markdown: &str) -> (res: (String, Vec<MermaidBlock>))
    ensures
        res.0@ == extracted_markdown(markdown@),
        res.1@.len() == extracted_ranges(markdown@).len(),
        blocks_at_bytes(res.1@, extracted_ranges(markdown@), markdown@),
{
    let v = chars_of(markdown);
    utf8_len_bound(markdown);
    let ghost s = v@;
    let open_fence = chars_of("```mermaid");
    let close_fence = chars_of("```");
    let mut blocks: Vec<MermaidBlock> = Vec::new();
    let ghost mut ranges: Seq<(int, int)> = seq![];
    let mut output = String::new();
    let mut copy_from: usize = 0;
    let mut line_start: usize = 0;
    let mut byte_pos: usize = 0;
    let mut byte_count: usize = 0;
    while line_start < v.len()
        invariant
            s == v@,
            s == markdown@,
            utf8_len(s) <= usize::MAX,
            open_fence@ == "```mermaid"@,
            close_fence@ == "```"@,
            copy_from <= line_start <= s.len(),
            byte_pos <= line_start,
            byte_count == utf8_len(s.take(byte_pos as int)),
            blocks@.len() == ranges.len(),
            extract_scan(s, 0, 0, 0).0 == output@ + extract_scan(
                s,
                line_start as int,
                copy_from as int,
                blocks@.len() as nat,
            ).0,
            extract_scan(s, 0, 0, 0).1 == ranges + extract_scan(
                s,
                line_start as int,
                copy_from as int,
                blocks@.len() as nat,
            ).1,
            blocks_at_bytes(blocks@, ranges, s),
        decreases s.len() - line_start,
    {
        proof {
            lemma_line_end(s, line_start as int);
        }
        let (line_end_pos, next) = line_bounds(&v, line_start);
        let opener = fence_line(&v, line_start, line_end_pos, &open_fence) && next < v.len();
        if !opener {
            line_start = next;
            continue;
        }
        let source_start = next;
        proof {
            lemma_closing_fence(s, source_start as int);
        }
        let found = find_closing_fence(&v, source_start, &close_fence);
        if found.is_none() {
            assert(extract_scan(s, line_start as int, copy_from as int, blocks@.len() as nat)
                == extract_scan(s, s.len() as int, copy_from as int, blocks@.len() as nat));
            line_start = v.len();
            continue;
        }
        let (closing_start, closing_next) = found.unwrap();
        let ghost c = closing_start as int;
        proof {
            lemma_line_end(s, c);
        }
        let ghost prev_out = output@;
        push_range(&mut output, &v, copy_from, line_start);
        output.push_str("\n\n@@MERMAID_BLOCK_");
        push_decimal(&mut output, blocks.len());
        output.push_str("@@\n\n");
        let source_end = trim_end_crlf_exec(&v, source_start, closing_start);
        let start_bytes = advance_bytes(&v, byte_pos, byte_count, source_start);
        let end_bytes = advance_bytes(&v, source_start, start_bytes, source_end);
        proof {
            assert(output@ =~= prev_out + s.subrange(copy_from as int, line_start as int)
                + mermaid_placeholder(blocks@.len() as nat));
            ranges = ranges.push((source_start as int, source_end as int));
        }
        blocks.push(MermaidBlock { source_start: start_bytes, source_end: end_bytes });
        byte_pos = source_end;
        byte_count = end_bytes;
        copy_from = closing_next;
        line_start = closing_next;
        proof {
            assert(blocks_at_bytes(blocks@, ranges, s));
            assert(ranges =~= ranges.drop_last() + seq![ranges.last()]);
        }
    }
    let ghost prev_out = output@;
    push_range(&mut output, &v, copy_from, v.len());
    assert(s.subrange(copy_from as int, s.len() as int) =~= v@.subrange(copy_from as int, v@.len() as int));
    (output, blocks)
}


/// Why placeholders could not be put back.
#[derive(PartialEq, Eq, Structural)]
pub enum PlaceholderError {
    /// A placeholder prefix without the closing `@@`.
    InvalidPlaceholder,
    /// The placeholder's number does not parse.
    InvalidIndex,
    /// The placeholder's number names no block.
    IndexOutOfRange,
    /// A placeholder prefix is still present after substitution.
    Leaked,
    /// A byte range to be sliced does not lie on character boundaries (slicing it would
    /// panic).
    Unsliceable,
}

/// The characters of the byte range `r` of `s`, when both ends are character boundaries
/// in order.
pub open spec fn block_chars(s: Seq<char>, r: (int, int)) -> Option<Seq<char>> {
    match (char_at_byte(s, r.0), char_at_byte(s, r.1)) {
        (Some(a), Some(b)) => if a <= b {
            Some(s.subrange(a, b))
        } else {
            None
        },
        _ => None,
    }
}

/// The byte ranges of the blocks.
pub open spec fn block_ranges(b: Seq<MermaidBlock>) -> Seq<(int, int)> {
    Seq::new(b.len(), |k: int| (b[k].source_start as int, b[k].source_end as int))
}

/// The three characters before index `m` are `<p>`.
pub open spec fn p_tag_before(h: Seq<char>, m: int) -> bool {
    m >= 3 && h.subrange(m - 3, m) == "<p>"@
}

/// At least three bytes precede index `m`, and the point three bytes back falls inside a
/// character.
pub open spec fn back3_unsliceable(h: Seq<char>, m: int) -> bool {
    let w1 = if m >= 1 { char_width(h[m - 1]) } else { 0 };
    let w2 = if m >= 2 { char_width(h[m - 2]) } else { 0 };
    let w3 = if m >= 3 { char_width(h[m - 3]) } else { 0 };
    let enough = m >= 3 || w1 + w2 >= 3;
    let boundary = (m >= 1 && w1 == 3) || (m >= 2 && w1 + w2 == 3) || (m >= 3 && w1 == 1 && w2
        == 1 && w3 == 1);
    enough && !boundary
}

/// The HTML that replaces a placeholder: the escaped diagram source inside a Mermaid
/// container (with a `data-strict` attribute when `strict` is given), or inside a code
/// block when diagrams are not rendered.
pub open spec fn diagram_html(src: Seq<char>, render: bool, strict: Option<bool>) -> Seq<char> {
    if render {
        match strict {
            Some(b) => "<figure class=\"mermaid-diagram\"><div class=\"mermaid\" data-strict=\""@
                + (if b {
                "true"@
            } else {
                "false"@
            }) + "\">"@ + html_text_escape(src) + "</div></figure>"@,
            None => "<figure class=\"mermaid-diagram\"><div class=\"mermaid\">"@ + html_text_escape(
                src,
            ) + "</div></figure>"@,
        }
    } else {
        "<pre class=\"mermaid-source\"><code>"@ + html_text_escape(src) + "</code></pre>"@
    }
}

/// Substituting placeholders in `h` from index `cursor` on: each `@@MERMAID_BLOCK_<n>@@`
/// (with a `<p>` just before and a `</p>` just after swallowed) becomes the diagram HTML of
/// block `n`.
pub open spec fn subst_scan(
    h: Seq<char>,
    md: Seq<char>,
    blocks: Seq<(int, int)>,
    render: bool,
    strict: Option<bool>,
    cursor: int,
) -> Result<Seq<char>, PlaceholderError>
    decreases h.len() - cursor,
{
    if cursor < 0 || cursor > h.len() {
        Err(PlaceholderError::Unsliceable)
    } else {
        match find_from(h, "@@MERMAID_BLOCK_"@, cursor) {
            None => Ok(h.subrange(cursor, h.len() as int)),
            Some(ms) => {
                let ds = ms + "@@MERMAID_BLOCK_"@.len();
                match find_from(h, "@@"@, ds) {
                    None => Err(PlaceholderError::InvalidPlaceholder),
                    Some(de) => {
                        match parse_usize(h.subrange(ds, de)) {
                            None => Err(PlaceholderError::InvalidIndex),
                            Some(idx) => {
                                if idx >= blocks.len() {
                                    Err(PlaceholderError::IndexOutOfRange)
                                } else {
                                    match block_chars(md, blocks[idx as int]) {
                                        None => Err(PlaceholderError::Unsliceable),
                                        Some(src) => {
                                            if back3_unsliceable(h, ms) {
                                                Err(PlaceholderError::Unsliceable)
                                            } else {
                                                proof {
                                                    lemma_find_from_contains(
                                                        h,
                                                        "@@MERMAID_BLOCK_"@,
                                                        cursor,
                                                    );
                                                    lemma_find_from_contains(h, "@@"@, ds);
                                                }
                                                let me = de + "@@"@.len();
                                                let cs = if p_tag_before(h, ms) {
                                                    ms - 3
                                                } else {
                                                    ms
                                                };
                                                let ce = if starts_with(h.skip(me), "</p>"@) {
                                                    me + "</p>"@.len()
                                                } else {
                                                    me
                                                };
                                                match subst_scan(h, md, blocks, render, strict, ce) {
                                                    Ok(rest) => Ok(
                                                        h.subrange(cursor, cs) + diagram_html(
                                                            src,
                                                            render,
                                                            strict,
                                                        ) + rest,
                                                    ),
                                                    Err(e) => Err(e),
                                                }
                                            }
                                        },
                                    }
                                }
                            },
                        }
                    },
                }
            },
        }
    }
}

/// Putting the diagrams of `blocks` (byte ranges of `md`) back into the rendered HTML `h`;
/// a placeholder prefix that survives is an error.
pub open spec fn substitute_spec(
    h: Seq<char>,
    md: Seq<char>,
    blocks: Seq<(int, int)>,
    render: bool,
    strict: Option<bool>,
) -> Result<Seq<char>, PlaceholderError> {
    match subst_scan(h, md, blocks, render, strict, 0) {
        Ok(o) => if contains(o, "@@MERMAID_BLOCK_"@) {
            Err(PlaceholderError::Leaked)
        } else {
            Ok(o)
        },
        Err(e) => Err(e),
    }
}

/// Whether the three bytes before index `m` start inside a character.
fn back3_unsliceable_exec(h: &Vec<char>, m: usize) -> (b: bool)
    requires
        m <= h@.len(),
    ensures
        b == back3_unsliceable(h@, m as int),
{
    let w1 = if m >= 1 { char_width_exec(h[m - 1]) } else { 0 };
    let w2 = if m >= 2 { char_width_exec(h[m - 2]) } else { 0 };
    let w3 = if m >= 3 { char_width_exec(h[m - 3]) } else { 0 };
    let enough = m >= 3 || w1 + w2 >= 3;
    let boundary = (m >= 1 && w1 == 3) || (m >= 2 && w1 + w2 == 3) || (m >= 3 && w1 == 1 && w2
        == 1 && w3 == 1);
    enough && !boundary
}

/// Appends the diagram HTML for `src`.
fn push_diagram(out: &mut String, src: &str, render: bool, strict: Option<bool>)
    ensures
        final(out)@ == old(out)@ + diagram_html(src@, render, strict),
{
    let escaped = encode_text(src);
    if render {
        match strict {
            Some(b) => {
                out.push_str("<figure class=\"mermaid-diagram\"><div class=\"mermaid\" data-strict=\"");
                out.push_str(if b { "true" } else { "false" });
                out.push_str("\">");
            },
            None => {
                out.push_str("<figure class=\"mermaid-diagram\"><div class=\"mermaid\">");
            },
        }
        out.push_str(escaped.as_str());
        out.push_str("</div></figure>");
    } else {
        out.push_str("<pre class=\"mermaid-source\"><code>");
        out.push_str(escaped.as_str());
        out.push_str("</code></pre>");
    }
    proof {
        let e = html_text_escape(src@);
        if render {
            match strict {
                Some(b) => {
                    assert(final(out)@ =~= old(out)@ + diagram_html(src@, render, strict));
                },
                None => {
                    assert(final(out)@ =~= old(out)@ + diagram_html(src@, render, strict));
                },
            }
        } else {
            assert(final(out)@ =~= old(out)@ + diagram_html(src@, render, strict));
        }
    }
}

/// `cursor` is the start of `h` or just past a placeholder (which ends in `@@`, or in the
/// `</p>` after it).
spec fn after_marker(h: Seq<char>, cursor: int) -> bool {
    ||| cursor == 0
    ||| (cursor >= 2 && h[cursor - 1] == '@' && h[cursor - 2] == '@')
    ||| (cursor >= 4 && h.subrange(cursor - 4, cursor) == "</p>"@)
}

proof fn lemma_cut_not_before_cursor(h: Seq<char>, cursor: int, ms: int)
    requires
        0 <= cursor <= ms <= h.len(),
        after_marker(h, cursor),
        p_tag_before(h, ms),
    ensures
        cursor <= ms - 3,
{
    reveal_strlit("<p>");
    reveal_strlit("</p>");
    let t = h.subrange(ms - 3, ms);
    assert(t[0] == '<' && t[1] == 'p' && t[2] == '>');
    if cursor > ms - 3 && cursor > 0 {
        assert(h[ms - 3] == '<' && h[ms - 2] == 'p' && h[ms - 1] == '>');
        if cursor >= 4 && h.subrange(cursor - 4, cursor) == "</p>"@ {
            let u = h.subrange(cursor - 4, cursor);
            assert(u[3] == '>' && u[2] == 'p' && u[1] == '/');
            assert(h[cursor - 1] == '>' && h[cursor - 2] == 'p' && h[cursor - 3] == '/');
        }
    }
}

#[verifier::rlimit(100)]
#[verifier::spinoff_prover]
/// Puts each Mermaid block back in place of its placeholder in the rendered HTML; where a
/// byte range to slice would cut a character (slicing a `str` there panics), this reports
/// `Unsliceable`.
pub fn substitute_placeholders(
    html: &str,
    source_markdown: &str,
    blocks: &[MermaidBlock],
    render_mermaid: bool,
    strict: Option<bool>,
) -> (r: Result<String, PlaceholderError>)
    ensures
        r matches Ok(o) ==> substitute_spec(
            html@,
            source_markdown@,
            block_ranges(blocks@),
            render_mermaid,
            strict,
        ) == Ok::<Seq<char>, PlaceholderError>(o@),
        r matches Err(e) ==> substitute_spec(
            html@,
            source_markdown@,
            block_ranges(blocks@),
            render_mermaid,
            strict,
        ) == Err::<Seq<char>, PlaceholderError>(e),
{
    let h = chars_of(html);
    let md = chars_of(source_markdown);
    utf8_len_bound(source_markdown);
    let prefix = chars_of("@@MERMAID_BLOCK_");
    let at_at = chars_of("@@");
    let p_open = chars_of("<p>");
    let p_close = chars_of("</p>");
    let ghost ranges = block_ranges(blocks@);
    let ghost hs = h@;
    let mut cursor: usize = 0;
    let mut out = String::new();
    loop
        invariant
            hs == h@,
            hs == html@,
            md@ == source_markdown@,
            utf8_len(md@) <= usize::MAX,
            ranges == block_ranges(blocks@),
            prefix@ == "@@MERMAID_BLOCK_"@,
            at_at@ == "@@"@,
            p_open@ == "<p>"@,
            p_close@ == "</p>"@,
            cursor <= hs.len(),
            after_marker(hs, cursor as int),
            subst_scan(hs, md@, ranges, render_mermaid, strict, 0) matches Ok(o) ==> subst_scan(
                hs,
                md@,
                ranges,
                render_mermaid,
                strict,
                cursor as int,
            ) matches Ok(rest) && o == out@ + rest,
            subst_scan(hs, md@, ranges, render_mermaid, strict, 0) is Err ==> subst_scan(
                hs,
                md@,
                ranges,
                render_mermaid,
                strict,
                cursor as int,
            ) == subst_scan(hs, md@, ranges, render_mermaid, strict, 0),
            subst_scan(hs, md@, ranges, render_mermaid, strict, cursor as int) is Ok
                ==> subst_scan(hs, md@, ranges, render_mermaid, strict, 0) is Ok,
        ensures
            find_from(hs, prefix@, cursor as int) is None,
        decreases hs.len() - cursor,
    {
        let found = find_from_exec(&h, &prefix, cursor);
        proof {
            lemma_find_from_contains(hs, prefix@, cursor as int);
        }
        let marker_start = match found {
            None => {
                break;
            },
            Some(m) => m,
        };
        assert(matches_at(hs, prefix@, marker_start as int));
        assert(marker_start + prefix@.len() <= h@.len());
        assert(h@.len() == h.len());
        let digits_start = marker_start + prefix.len();
        proof {
            lemma_find_from_contains(hs, at_at@, digits_start as int);
        }
        let digits_end = match find_from_exec(&h, &at_at, digits_start) {
            None => {
                return Err(PlaceholderError::InvalidPlaceholder);
            },
            Some(d) => d,
        };
        let index = match parse_usize_exec(&h, digits_start, digits_end) {
            None => {
                return Err(PlaceholderError::InvalidIndex);
            },
            Some(i) => i,
        };
        if index >= blocks.len() {
            return Err(PlaceholderError::IndexOutOfRange);
        }
        let block = &blocks[index];
        let src_start = char_index_for_byte(&md, block.source_start);
        let src_end = char_index_for_byte(&md, block.source_end);
        let (a, b) = match (src_start, src_end) {
            (Some(a), Some(b)) => (a, b),
            _ => {
                return Err(PlaceholderError::Unsliceable);
            },
        };
        if a > b {
            return Err(PlaceholderError::Unsliceable);
        }
        if back3_unsliceable_exec(&h, marker_start) {
            return Err(PlaceholderError::Unsliceable);
        }
        proof {
            lemma_char_index_bound(md@, block.source_start as int, 0, 0);
            lemma_char_index_bound(md@, block.source_end as int, 0, 0);
        }
        let mut src = String::new();
        push_range(&mut src, &md, a, b);
        let marker_end = digits_end + at_at.len();
        let content_start = if marker_start >= 3 && matches_at_exec(&h, &p_open, marker_start - 3) {
            marker_start - 3
        } else {
            marker_start
        };
        let content_end = if matches_at_exec(&h, &p_close, marker_end) {
            marker_end + p_close.len()
        } else {
            marker_end
        };
        proof {
            reveal_strlit("<p>");
            assert(p_tag_before(hs, marker_start as int) == (marker_start >= 3 && matches_at(
                hs,
                p_open@,
                marker_start - 3,
            )));
            assert(starts_with(hs.skip(marker_end as int), p_close@) == matches_at(
                hs,
                p_close@,
                marker_end as int,
            )) by {
                lemma_skip_shift(hs, marker_end as int, 0);
            }
            if p_tag_before(hs, marker_start as int) {
                lemma_cut_not_before_cursor(hs, cursor as int, marker_start as int);
            }
            assert(md@.subrange(a as int, b as int) == src@);
        }
        let ghost prev = out@;
        push_range(&mut out, &h, cursor, content_start);
        push_diagram(&mut out, src.as_str(), render_mermaid, strict);
        proof {
            reveal_strlit("@@");
            reveal_strlit("</p>");
            let at = hs.subrange(digits_end as int, digits_end + 2);
            assert(at == at_at@);
            assert(at[0] == '@' && at[1] == '@');
            assert(hs[marker_end - 1] == '@' && hs[marker_end - 2] == '@');
            if content_end != marker_end {
                assert(hs.subrange(content_end - 4, content_end as int) == p_close@);
            }
        }
        cursor = content_end;
    }
    let ghost prev = out@;
    push_range(&mut out, &h, cursor, h.len());
    let leaked = contains_exec(&chars_of(out.as_str()), &prefix);
    if leaked {
        return Err(PlaceholderError::Leaked);
    }
    Ok(out)
}


/// The message reported for a placeholder failure (none for `Unsliceable`, where the
/// placeholder pass cannot go on at all).
pub open spec fn placeholder_message(e: PlaceholderError) -> Seq<char> {
    match e {
        PlaceholderError::InvalidPlaceholder => "invalid Mermaid placeholder"@,
        PlaceholderError::InvalidIndex => "invalid Mermaid placeholder index"@,
        PlaceholderError::IndexOutOfRange => "Mermaid placeholder index is out of range"@,
        PlaceholderError::Leaked => "internal Mermaid placeholder leaked into rendered HTML"@,
        PlaceholderError::Unsliceable => seq![],
    }
}

/// The message of a placeholder failure.
pub fn placeholder_message_text(e: &PlaceholderError) -> (m: String)
    ensures
        m@ == placeholder_message(*e),
{
    match e {
        PlaceholderError::InvalidPlaceholder => String::from_str("invalid Mermaid placeholder"),
        PlaceholderError::InvalidIndex => String::from_str("invalid Mermaid placeholder index"),
        PlaceholderError::IndexOutOfRange => String::from_str(
            "Mermaid placeholder index is out of range",
        ),
        PlaceholderError::Leaked => String::from_str(
            "internal Mermaid placeholder leaked into rendered HTML",
        ),
        PlaceholderError::Unsliceable => String::new(),
    }
}

/// The byte ranges (in `s`) of the sources of the Mermaid blocks of `s`.
pub open spec fn extracted_byte_ranges(s: Seq<char>) -> Seq<(int, int)> {
    let r = extracted_ranges(s);
    Seq::new(
        r.len(),
        |k: int| (utf8_len(s.take(r[k].0)) as int, utf8_len(s.take(r[k].1)) as int),
    )
}

/// Puts the Mermaid blocks back in place of their placeholders in the rendered HTML, as a
/// rendering error on failure. Not for inputs on which a slice of the HTML or of the
/// Markdown would cut a character (there the Rust string slicing of the pass panics).
pub fn replace_mermaid_placeholders(
    html: &str,
    source_markdown: &str,
    blocks: &[MermaidBlock],
    render_mermaid: bool,
    strict_mermaid: bool,
) -> (r: Result<String, AppError>)
    requires
        substitute_spec(
            html@,
            source_markdown@,
            block_ranges(blocks@),
            render_mermaid,
            Some(strict_mermaid),
        ) != Err::<Seq<char>, PlaceholderError>(PlaceholderError::Unsliceable),
    ensures
        text_result(r) == match substitute_spec(
            html@,
            source_markdown@,
            block_ranges(blocks@),
            render_mermaid,
            Some(strict_mermaid),
        ) {
            Ok(o) => Ok(o),
            Err(e) => Err(conversion(placeholder_message(e))),
        },
{
    match substitute_placeholders(html, source_markdown, blocks, render_mermaid, Some(strict_mermaid)) {
        Ok(o) => Ok(o),
        Err(e) => Err(AppError::Conversion(placeholder_message_text(&e))),
    }
}


proof fn lemma_trim_end_crlf_len(t: Seq<char>)
    ensures
        trim_end_crlf(t).len() <= t.len(),
    decreases t.len(),
{
    if t.len() > 0 && (t.last() == '\r' || t.last() == '\n') {
        lemma_trim_end_crlf_len(t.drop_last());
    }
}

proof fn lemma_extract_scan_ranges(s: Seq<char>, i: int, copy_from: int, n: nat)
    requires
        0 <= i,
    ensures
        forall|k: int|
            0 <= k < extract_scan(s, i, copy_from, n).1.len() ==> 0 <= (#[trigger] extract_scan(
                s,
                i,
                copy_from,
                n,
            ).1[k]).0 <= extract_scan(s, i, copy_from, n).1[k].1 <= s.len(),
    decreases s.len() - i,
{
    if i < 0 || i >= s.len() {
    } else if !is_mermaid_opener(s, i) {
        lemma_line_end(s, i);
        lemma_extract_scan_ranges(s, next_line(s, i), copy_from, n);
        assert(extract_scan(s, i, copy_from, n) == extract_scan(s, next_line(s, i), copy_from, n));
    } else {
        let st = next_line(s, i);
        lemma_line_end(s, i);
        lemma_closing_fence(s, st);
        match closing_fence(s, st) {
            None => {
                assert(extract_scan(s, i, copy_from, n).1.len() == 0);
            },
            Some(c) => {
                lemma_line_end(s, c);
                let after = next_line(s, c);
                lemma_extract_scan_ranges(s, after, after, n + 1);
                lemma_trim_end_crlf_len(s.subrange(st, c));
                let rest = extract_scan(s, after, after, n + 1).1;
                let all = extract_scan(s, i, copy_from, n).1;
                assert(all == seq![(st, st + trim_end_crlf(s.subrange(st, c)).len())] + rest);
                assert forall|k: int| 0 <= k < all.len() implies 0 <= (#[trigger] all[k]).0
                    <= all[k].1 <= s.len() by {
                    if k > 0 {
                        assert(all[k] == rest[k - 1]);
                    }
                }
            },
        }
    }
}

proof fn lemma_char_index_from_prefix(s: Seq<char>, i: int, j: int)
    requires
        0 <= j <= i <= s.len(),
    ensures
        char_index_from(s, utf8_len(s.take(i)) as int, j, utf8_len(s.take(j)) as int) == Some(i),
    decreases i - j,
{
    if j < i {
        lemma_utf8_len_take_step(s, j);
        lemma_utf8_len_monotone(s, j + 1, i);
        lemma_char_index_from_prefix(s, i, j + 1);
    }
}

/// Where the first `i` characters of `s` end, counted in bytes, is a character boundary
/// of `s`, namely the one after character `i`.
pub proof fn lemma_char_at_byte_prefix(s: Seq<char>, i: int)
    requires
        0 <= i <= s.len(),
    ensures
        char_at_byte(s, utf8_len(s.take(i)) as int) == Some(i),
{
    assert(s.take(0) =~= Seq::<char>::empty());
    lemma_char_index_from_prefix(s, i, 0);
}

/// Every Mermaid block that extraction reports is a byte range of the Markdown that
/// slices cleanly, and slicing it gives back the block's source: putting the blocks back
/// never cuts a character of the Markdown apart.
pub proof fn lemma_extracted_blocks_slice(s: Seq<char>)
    ensures
        extracted_byte_ranges(s).len() == extracted_ranges(s).len(),
        forall|k: int|
            0 <= k < extracted_ranges(s).len() ==> #[trigger] block_chars(
                s,
                extracted_byte_ranges(s)[k],
            ) == Some(s.subrange(extracted_ranges(s)[k].0, extracted_ranges(s)[k].1)),
{
    let r = extracted_ranges(s);
    lemma_extract_scan_ranges(s, 0, 0, 0);
    assert forall|k: int| 0 <= k < r.len() implies #[trigger] block_chars(
        s,
        extracted_byte_ranges(s)[k],
    ) == Some(s.subrange(r[k].0, r[k].1)) by {
        assert(0 <= r[k].0 <= r[k].1 <= s.len());
        lemma_char_at_byte_prefix(s, r[k].0);
        lemma_char_at_byte_prefix(s, r[k].1);
    }
}

/// A page whose placeholders were all put back holds no placeholder prefix.
pub proof fn lemma_substituted_page_has_no_placeholder(
    h: Seq<char>,
    md: Seq<char>,
    blocks: Seq<(int, int)>,
    render: bool,
    strict: Option<bool>,
)
    ensures
        substitute_spec(h, md, blocks, render, strict) matches Ok(o) ==> !contains(
            o,
            "@@MERMAID_BLOCK_"@,
        ),
{
}

} // verus!
