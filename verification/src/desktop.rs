//! Desktop workspace logic: document checks, literal find-and-replace, workspace
//! listings, export bookkeeping and the offline Mermaid runtime.
use vstd::prelude::*;
use crate::error::{bad_request, conversion, error_view, AppError};
use crate::theme::str_eq;
use crate::pattern::{char_spans, spans_view, spans_well_formed, to_char_spans};
use crate::text::{
    push_range, byte_len, utf8_len, count_matches, count_matches_exec, splice, splice_exec, utf8_len_bound, ascii_lowercase, eq_ignore_ascii_case, chars_of, contains, contains_exec, find_from, lemma_find_from_contains, matches_at,
    replace_all, replace_all_exec, replace_first, replace_first_exec, starts_with,
};

verus! {

/// The text that follows the runtime in the boot script: it closes the runtime's script
/// element and runs Mermaid on every `.mermaid` node, replacing them with an error note if
/// rendering fails.
pub open spec fn mermaid_boot_tail() -> Seq<char> {
    MERMAID_BOOT_TAIL@
}

pub const MERMAID_BOOT_TAIL: &'static str = r#"</script>
<script>
(async () => {
  try {
    mermaid.initialize({
      startOnLoad: false,
      securityLevel: "strict",
      suppressErrorRendering: true
    });
    await mermaid.run({ nodes: document.querySelectorAll(".mermaid") });
  } catch (error) {
    for (const node of document.querySelectorAll(".mermaid")) {
      const failure = document.createElement("pre");
      failure.className = "diagram-error";
      failure.textContent = `Mermaid: ${error?.message || String(error)}`;
      node.replaceWith(failure);
    }
  } finally {
    document.documentElement.dataset.mermaidReady = "true";
  }
})();
</script>"#;

/// The runtime with every `</script` written `<\/script`, so it cannot end the script
/// element it is embedded in.
pub open spec fn escape_script_close(runtime: Seq<char>) -> Seq<char> {
    replace_all(runtime, "</script"@, "<\\/script"@)
}

/// The boot script: the escaped runtime in a script element, then the script that runs it.
pub open spec fn mermaid_boot(runtime: Seq<char>) -> Seq<char> {
    "<script>"@ + escape_script_close(runtime) + mermaid_boot_tail()
}

/// Embeds the Mermaid runtime and its boot script just before the first `</body>` of the
/// page (the page is unchanged when it has none).
pub fn inject_mermaid_runtime(html: &str, runtime: &str) -> (r: String)
    ensures
        r@ == replace_first(html@, "</body>"@, mermaid_boot(runtime@) + "\n</body>"@),
{
    let escaped = replace_all_exec(&chars_of(runtime), &chars_of("</script"), "<\\/script");
    let mut boot = String::new();
    boot.push_str("<script>");
    boot.push_str(escaped.as_str());
    boot.push_str(MERMAID_BOOT_TAIL);
    boot.push_str("\n</body>");
    assert(boot@ =~= mermaid_boot(runtime@) + "\n</body>"@);
    replace_first_exec(&chars_of(html), &chars_of("</body>"), boot.as_str())
}

/// A rendered page needs the Mermaid runtime when it holds a Mermaid container.
pub fn needs_mermaid_runtime(html: &str) -> (b: bool)
    ensures
        b == contains(html@, "class=\"mermaid\""@),
{
    contains_exec(&chars_of(html), &chars_of("class=\"mermaid\""))
}

/// If the escaped text starts with `w`, and `w` holds no `<`, the text itself starts
/// with `w`.
proof fn lemma_escaped_prefix(t: Seq<char>, w: Seq<char>)
    requires
        forall|k: int| 0 <= k < w.len() ==> w[k] != '<',
        starts_with(escape_script_close(t), w),
    ensures
        starts_with(t, w),
    decreases t.len(),
{
    reveal_strlit("</script");
    reveal_strlit("<\\/script");
    let p = "</script"@;
    let q = "<\\/script"@;
    let rt = escape_script_close(t);
    if w.len() == 0 {
        assert(t.subrange(0, 0) =~= w);
    } else if t.len() == 0 {
        assert(rt.len() == 0);
    } else if matches_at(t, p, 0) {
        assert(rt == q + escape_script_close(t.skip(p.len() as int)));
        assert(rt[0] == '<');
        assert(rt.subrange(0, w.len() as int)[0] == rt[0]);
    } else {
        let rest = t.drop_first();
        assert(rt == seq![t[0]] + escape_script_close(rest));
        let w2 = w.drop_first();
        let rr = escape_script_close(rest);
        assert(rt.subrange(0, w.len() as int) == w);
        assert forall|k: int| 0 <= k < w2.len() implies #[trigger] rr[k] == w2[k] by {
            assert(rr[k] == rt[k + 1]);
            assert(rt[k + 1] == rt.subrange(0, w.len() as int)[k + 1]);
        }
        assert(rr.subrange(0, w2.len() as int) =~= w2);
        assert(starts_with(rr, w2));
        lemma_escaped_prefix(rest, w2);
        assert(rt.subrange(0, w.len() as int)[0] == t[0]);
        assert(rest.subrange(0, w2.len() as int) == w2);
        assert forall|k: int| 0 <= k < w.len() implies #[trigger] t.subrange(0, w.len() as int)[k]
            == w[k] by {
            if k > 0 {
                assert(t[k] == rest[k - 1]);
                assert(rest[k - 1] == rest.subrange(0, w2.len() as int)[k - 1]);
            }
        }
        assert(t.subrange(0, w.len() as int) =~= w);
    }
}

/// The escaped runtime holds no `</script`.
pub proof fn lemma_escaped_runtime_has_no_script_close(runtime: Seq<char>)
    ensures
        !contains(escape_script_close(runtime), "</script"@),
    decreases runtime.len(),
{
    reveal_strlit("</script");
    reveal_strlit("<\\/script");
    let p = "</script"@;
    let q = "<\\/script"@;
    let r = escape_script_close(runtime);
    if runtime.len() == 0 {
        assert(r.len() == 0);
    } else if matches_at(runtime, p, 0) {
        let rest = runtime.skip(p.len() as int);
        lemma_escaped_runtime_has_no_script_close(rest);
        let rr = escape_script_close(rest);
        assert(r == q + rr);
        assert forall|i: int| !matches_at(r, p, i) by {
            if matches_at(r, p, i) {
                let m = r.subrange(i, i + p.len());
                assert(m[0] == '<');
                if i >= q.len() {
                    assert(r.subrange(i, i + p.len()) =~= rr.subrange(i - q.len(), i - q.len()
                        + p.len()));
                    assert(matches_at(rr, p, i - q.len()));
                } else if i == 0 {
                    assert(m[1] == r[1]);
                    assert(r[1] == q[1]);
                } else {
                    assert(m[0] == r[i]);
                    assert(r[i] == q[i]);
                }
            }
        }
    } else {
        let rest = runtime.drop_first();
        lemma_escaped_runtime_has_no_script_close(rest);
        let rr = escape_script_close(rest);
        assert(r == seq![runtime[0]] + rr);
        assert forall|i: int| !matches_at(r, p, i) by {
            if matches_at(r, p, i) {
                if i >= 1 {
                    assert(r.subrange(i, i + p.len()) =~= rr.subrange(i - 1, i - 1 + p.len()));
                    assert(matches_at(rr, p, i - 1));
                } else {
                    let w = p.drop_first();
                    let m = r.subrange(0, p.len() as int);
                    assert(m == p);
                    assert forall|k: int| 0 <= k < w.len() implies w[k] != '<' by {
                        assert(w[k] == p[k + 1]);
                    }
                    assert forall|k: int| 0 <= k < w.len() implies #[trigger] rr[k] == w[k] by {
                        assert(rr[k] == r[k + 1]);
                        assert(r[k + 1] == m[k + 1]);
                    }
                    assert(rr.subrange(0, w.len() as int) =~= w);
                    lemma_escaped_prefix(rest, w);
                    assert(r[0] == m[0]);
                    assert(runtime[0] == '<');
                    assert(rest.subrange(0, w.len() as int) == w);
                    assert forall|k: int| 0 <= k < p.len() implies #[trigger] runtime.subrange(
                        0,
                        p.len() as int,
                    )[k] == p[k] by {
                        if k > 0 {
                            assert(runtime[k] == rest[k - 1]);
                            assert(rest[k - 1] == rest.subrange(0, w.len() as int)[k - 1]);
                        }
                    }
                    assert(runtime.subrange(0, p.len() as int) =~= p);
                }
            }
        }
    }
}


/// The largest document the workspace opens, saves or exports: 10 MiB.
pub const MAX_DOCUMENT_BYTES: u64 = 10485760;

/// Refuses a document larger than 10 MiB.
pub fn validate_size(size: u64) -> (r: Result<(), AppError>)
    ensures
        r is Ok <==> size <= MAX_DOCUMENT_BYTES,
        r matches Err(e) ==> error_view(e) == bad_request("document exceeds 10 MiB"@),
{
    if size > MAX_DOCUMENT_BYTES {
        Err(AppError::BadRequest(String::from_str("document exceeds 10 MiB")))
    } else {
        Ok(())
    }
}

/// The index of the last occurrence of `c` in `s`.
pub open spec fn last_index_of(s: Seq<char>, c: char) -> Option<int>
    decreases s.len(),
{
    if s.len() == 0 {
        None
    } else if s.last() == c {
        Some(s.len() - 1)
    } else {
        last_index_of(s.drop_last(), c)
    }
}

/// The extension of a file name: what follows its last dot, when that dot is not its
/// first character.
pub open spec fn file_extension(name: Seq<char>) -> Option<Seq<char>> {
    match last_index_of(name, '.') {
        Some(d) if d > 0 => Some(name.skip(d + 1)),
        _ => None,
    }
}

/// A file name whose extension is `md` or `markdown`, in any ASCII case.
pub open spec fn markdown_name(name: Seq<char>) -> bool {
    match file_extension(name) {
        Some(e) => ascii_lowercase(e) == "md"@ || ascii_lowercase(e) == "markdown"@,
        None => false,
    }
}

proof fn lemma_last_index_of(s: Seq<char>, c: char)
    ensures
        last_index_of(s, c) matches Some(d) ==> 0 <= d < s.len() && s[d] == c && forall|k: int|
            d < k < s.len() ==> s[k] != c,
        last_index_of(s, c) is None ==> forall|k: int| 0 <= k < s.len() ==> s[k] != c,
    decreases s.len(),
{
    if s.len() > 0 && s.last() != c {
        let t = s.drop_last();
        lemma_last_index_of(t, c);
        assert(forall|k: int| 0 <= k < t.len() ==> t[k] == #[trigger] s[k]);
        assert(s[s.len() - 1] != c);
    }
}

/// Whether a file name names a Markdown document (`.md` or `.markdown`, any ASCII case).
pub fn is_markdown(name: &str) -> (b: bool)
    ensures
        b == markdown_name(name@),
{
    let v = chars_of(name);
    let mut i = v.len();
    while i > 0 && v[i - 1] != '.'
        invariant
            i <= v@.len(),
            v@ == name@,
            forall|k: int| i <= k < v@.len() ==> v@[k] != '.',
        decreases i,
    {
        i -= 1;
    }
    proof {
        lemma_last_index_of(name@, '.');
        reveal_strlit("md");
        reveal_strlit("markdown");
    }
    if i <= 1 {
        return false;
    }
    let mut ext: Vec<char> = Vec::new();
    let mut k = i;
    while k < v.len()
        invariant
            i <= k <= v@.len(),
            ext@ == v@.subrange(i as int, k as int),
        decreases v@.len() - k,
    {
        ext.push(v[k]);
        k += 1;
    }
    assert(ext@ =~= name@.skip(i as int));
    let b = eq_ignore_ascii_case(&ext, &chars_of("md")) || eq_ignore_ascii_case(&ext, &chars_of("markdown"));
    proof {
        assert(ascii_lowercase("md"@) =~= "md"@);
        assert(ascii_lowercase("markdown"@) =~= "markdown"@);
    }
    b
}

/// The file name of a document's PDF: the name with its extension replaced by `pdf`, or
/// `.pdf` added when it has none.
pub open spec fn pdf_file_name(name: Seq<char>) -> Seq<char> {
    match last_index_of(name, '.') {
        Some(d) if d > 0 => name.take(d) + ".pdf"@,
        _ => name + ".pdf"@,
    }
}

/// The file name a document is exported under.
pub fn export_file_name(name: &str) -> (r: String)
    ensures
        r@ == pdf_file_name(name@),
{
    let v = chars_of(name);
    let mut i = v.len();
    while i > 0 && v[i - 1] != '.'
        invariant
            i <= v@.len(),
            v@ == name@,
            forall|k: int| i <= k < v@.len() ==> v@[k] != '.',
        decreases i,
    {
        i -= 1;
    }
    proof {
        lemma_last_index_of(name@, '.');
    }
    let mut r = String::new();
    if i > 1 {
        push_range(&mut r, &v, 0, i - 1);
        assert(v@.subrange(0, i - 1) =~= name@.take(i - 1));
    } else {
        r.push_str(name);
    }
    r.push_str(".pdf");
    r
}

/// A relative path for display: backslashes written as slashes.
pub open spec fn display_relative(path: Seq<char>) -> Seq<char> {
    replace_all(path, "\\"@, "/"@)
}

/// Writes a relative path with `/` separators.
pub fn relative_display(path: &str) -> (r: String)
    ensures
        r@ == display_relative(path@),
{
    replace_all_exec(&chars_of(path), &chars_of("\\"), "/")
}

/// The message of an error, as a command reports it.
pub fn error_string(error: AppError) -> (s: String)
    ensures
        s@ == error.spec_message(),
{
    error.message()
}

/// Whether a directory entry is walked: the root always, anything else unless it is the
/// backup directory.
pub fn visible_entry(depth: usize, file_name: &str) -> (b: bool)
    ensures
        b == (depth == 0 || file_name@ != ".mdpdf-backup"@),
{
    depth == 0 || !str_eq(file_name, ".mdpdf-backup")
}

/// The message when a document changed on disk since it was read.
pub open spec fn stale_document_message() -> Seq<char> {
    "ファイルは外部で変更されました。再読み込みしてから保存してください"@
}

/// Refuses a save when the caller read the document at another modification time than it
/// has now.
pub fn check_expected_modified(expected: Option<u64>, current: u64) -> (r: Result<(), String>)
    ensures
        r is Err <==> (expected matches Some(e) && e != current),
        r matches Err(m) ==> m@ == stale_document_message(),
{
    match expected {
        Some(e) if e != current => Err(
            String::from_str("ファイルは外部で変更されました。再読み込みしてから保存してください"),
        ),
        _ => Ok(()),
    }
}


proof fn lemma_replace_all_without_match(s: Seq<char>, p: Seq<char>, r: Seq<char>)
    requires
        count_matches(s, p) == 0,
    ensures
        replace_all(s, p, r) == s,
    decreases s.len(),
{
    if p.len() > 0 && s.len() > 0 {
        lemma_replace_all_without_match(s.drop_first(), p, r);
        assert(seq![s[0]] + s.drop_first() =~= s);
    }
}

/// `regex::escape(text)`: the pattern that matches `text` literally.
pub uninterp spec fn regex_escaped(text: Seq<char>) -> Seq<char>;

/// `regex::escape`: the text with every regex metacharacter escaped.
#[verifier::external_body]
fn escape_pattern(text: &str) -> (r: String)
    ensures
        r@ == regex_escaped(text@),
{
    regex::escape(text)
}

/// Why `regex::RegexBuilder::new(pattern).case_insensitive(case_insensitive).build()`
/// fails, as the error displays itself; none when it succeeds.
pub uninterp spec fn regex_build_error(pattern: Seq<char>, case_insensitive: bool) -> Option<Seq<char>>;

/// `regex::RegexBuilder::new(pattern).case_insensitive(case_insensitive).build()`, its
/// error as text.
#[verifier::external_body]
fn build_regex(pattern: &str, case_insensitive: bool) -> (r: Result<regex::Regex, String>)
    ensures
        match r {
            Ok(_) => regex_build_error(pattern@, case_insensitive) is None,
            Err(e) => regex_build_error(pattern@, case_insensitive) == Some(e@),
        },
{
    regex::RegexBuilder::new(pattern).case_insensitive(case_insensitive).build().map_err(|err| err.to_string())
}

/// The successive non-overlapping matches (leftmost first) that `find_iter` reports for
/// the regular expression `pattern`, built with case-insensitivity as given, in
/// `haystack`: byte spans.
pub uninterp spec fn regex_matches(pattern: Seq<char>, case_insensitive: bool, haystack: Seq<char>) -> Seq<
    (int, int),
>;

/// A compiled regular expression together with the pattern and case setting it was built
/// from. Only `RegexMatcher::build` makes one, so the compiled form always belongs to the
/// pattern and setting it carries.
pub struct RegexMatcher {
    pattern: String,
    case_insensitive: bool,
    regex: regex::Regex,
}

impl RegexMatcher {
    /// The pattern the matcher was built from.
    pub closed spec fn pattern(&self) -> Seq<char> {
        self.pattern@
    }

    /// Whether the matcher ignores case.
    pub closed spec fn ignores_case(&self) -> bool {
        self.case_insensitive
    }

    /// Compiles `pattern`, ignoring case when asked; refused with the regex crate's
    /// explanation when it does not compile.
    pub fn build(pattern: &str, case_insensitive: bool) -> (r: Result<RegexMatcher, String>)
        ensures
            match regex_build_error(pattern@, case_insensitive) {
                None => r matches Ok(m) && m.pattern() == pattern@ && m.ignores_case()
                    == case_insensitive,
                Some(e) => r matches Err(x) && x@ == e,
            },
    {
        match build_regex(pattern, case_insensitive) {
            Ok(regex) => Ok(RegexMatcher { pattern: String::from_str(pattern), case_insensitive, regex }),
            Err(e) => Err(e),
        }
    }
}

/// `regex::Regex::find_iter(haystack)` on the matcher's compiled expression: the byte
/// spans of its successive non-overlapping matches. They are what the matcher's pattern
/// and case setting find (the compiled form is built from them, see `RegexMatcher`); the
/// regex documentation guarantees they are in order, do not overlap and lie on character
/// boundaries.
#[verifier::external_body]
fn matcher_spans(m: &RegexMatcher, haystack: &str) -> (r: Vec<(usize, usize)>)
    ensures
        spans_view(r@) == regex_matches(m.pattern(), m.ignores_case(), haystack@),
        spans_well_formed(haystack@, spans_view(r@)),
{
    m.regex.find_iter(haystack).map(|found| (found.start(), found.end())).collect()
}

/// The matcher of a batch replacement: none when case matters, else a case-insensitive
/// regex that matches the search text literally; refused when that regex cannot be built.
pub fn literal_matcher(find: &str, case_sensitive: bool) -> (r: Result<Option<RegexMatcher>, String>)
    ensures
        case_sensitive ==> r matches Ok(None),
        !case_sensitive ==> match regex_build_error(regex_escaped(find@), true) {
            None => r matches Ok(Some(m)) && m.pattern() == regex_escaped(find@) && m.ignores_case(),
            Some(e) => r matches Err(x) && x@ == "検索条件が不正です: "@ + e,
        },
{
    if case_sensitive {
        return Ok(None);
    }
    let pattern = escape_pattern(find);
    match RegexMatcher::build(pattern.as_str(), true) {
        Ok(m) => Ok(Some(m)),
        Err(e) => {
            let mut x = String::from_str("検索条件が不正です: ");
            x.push_str(e.as_str());
            Err(x)
        },
    }
}

/// Each of `n` ranges replaced by the same text.
pub open spec fn same_text(n: nat, r: Seq<char>) -> Seq<Seq<char>> {
    Seq::new(n, |k: int| r)
}

/// Replaces the search text in `source`: every occurrence, left to right, when no matcher
/// is given; else every match of the matcher, the replacement taken literally (no `$`
/// expansion), at the spans the matcher's pattern and case setting find (`regex_matches`).
/// Returns the new text and the number of replacements; with none, the text is unchanged.
pub fn replace_literal(
    source: &str,
    find: &str,
    replacement: &str,
    matcher: Option<&RegexMatcher>,
) -> (r: (String, usize))
    requires
        source@.len() < usize::MAX,
    ensures
        matcher is None ==> r.0@ == replace_all(source@, find@, replacement@) && r.1 == count_matches(
            source@,
            find@,
        ),
        matcher matches Some(m) ==> ({
            let sp = regex_matches(m.pattern(), m.ignores_case(), source@);
            &&& r.1 == sp.len()
            &&& r.0@ == splice(source@, char_spans(source@, sp), same_text(sp.len(), replacement@), 0)
        }),
        r.1 == 0 ==> r.0@ == source@,
{
    let v = chars_of(source);
    match matcher {
        None => {
            let count = count_matches_exec(&v, &chars_of(find));
            let updated = replace_all_exec(&v, &chars_of(find), replacement);
            proof {
                if count == 0 {
                    lemma_replace_all_without_match(source@, find@, replacement@);
                }
            }
            (updated, count)
        },
        Some(re) => {
            utf8_len_bound(source);
            let spans = matcher_spans(re, source);
            let ghost sp = spans_view(spans@);
            let chars = to_char_spans(&v, &spans);
            let mut reps: Vec<String> = Vec::new();
            let mut i: usize = 0;
            while i < chars.len()
                invariant
                    i <= chars@.len(),
                    reps@.len() == i,
                    forall|k: int| 0 <= k < i ==> (#[trigger] reps@[k])@ == replacement@,
                decreases chars@.len() - i,
            {
                reps.push(String::from_str(replacement));
                i += 1;
            }
            let updated = splice_exec(&v, &chars, &reps);
            proof {
                assert(Seq::new(reps@.len(), |k: int| reps@[k]@) =~= same_text(sp.len(), replacement@));
                assert(chars@.len() == sp.len());
                if sp.len() == 0 {
                    assert(source@.subrange(0, source@.len() as int) =~= source@);
                }
                assert(spans_well_formed(source@, sp));
            }
            (updated, spans.len())
        },
    }
}

/// Refuses a batch replacement with an empty search text or more than 10,000 files.
pub fn validate_batch_request(find: &str, path_count: usize) -> (r: Result<(), String>)
    ensures
        r is Ok <==> (find@.len() > 0 && path_count <= 10000),
        r matches Err(m) ==> m@ == (if find@.len() == 0 {
            "検索文字列を入力してください"@
        } else {
            "一度に処理できるファイルは 10,000 件までです"@
        }),
{
    if find.is_empty() {
        return Err(String::from_str("検索文字列を入力してください"));
    }
    if path_count > 10000 {
        return Err(String::from_str("一度に処理できるファイルは 10,000 件までです"));
    }
    Ok(())
}

/// What a batch replacement does with one file.
pub enum FileAction {
    /// Nothing matched: the file is left alone and not reported.
    Skip,
    /// A dry run: the matches are counted, nothing is written.
    Count(usize),
    /// The file is backed up and the new text written, then counted.
    Write(String, usize),
}

/// Decides what to do with a file once its replacement is computed.
pub fn file_action(updated: String, count: usize, dry_run: bool) -> (a: FileAction)
    ensures
        count == 0 ==> a is Skip,
        count > 0 && dry_run ==> a == FileAction::Count(count),
        count > 0 && !dry_run ==> (a matches FileAction::Write(u, n) && u@ == updated@ && n == count),
{
    if count == 0 {
        FileAction::Skip
    } else if dry_run {
        FileAction::Count(count)
    } else {
        FileAction::Write(updated, count)
    }
}

/// A failure line of a batch: the path and what went wrong.
pub fn path_failure(path: &str, error: &str) -> (m: String)
    ensures
        m@ == path@ + ": "@ + error@,
{
    let mut m = String::from_str(path);
    m.push_str(": ");
    m.push_str(error);
    m
}

/// A file changed by a batch replacement.
pub struct BatchFileChange {
    pub path: String,
    pub relative_path: String,
    pub replacements: usize,
}

/// The outcome of a batch replacement.
pub struct BatchReplaceResult {
    pub files_scanned: usize,
    pub files_changed: usize,
    pub replacements: usize,
    pub backup_dir: Option<String>,
    pub changes: Vec<BatchFileChange>,
    pub failures: Vec<String>,
}

/// The replacements of the changes, summed.
pub open spec fn total_replacements(c: Seq<BatchFileChange>) -> int
    decreases c.len(),
{
    if c.len() == 0 {
        0
    } else {
        total_replacements(c.drop_last()) + c.last().replacements
    }
}

/// What became of one file of a batch replacement, as plain values.
pub enum BatchEvent {
    /// The file could not be taken up: the failure line.
    Refused(Seq<char>),
    /// The file was read: its path, its relative path, the number of replacements in it,
    /// and why writing it failed, if writing was tried and failed.
    Replaced(Seq<char>, Seq<char>, nat, Option<Seq<char>>),
}

/// The changes (path, relative path, replacements) and failure lines recorded so far.
pub type BatchState = (Seq<(Seq<char>, Seq<char>, nat)>, Seq<Seq<char>>);

/// What one file adds to a batch: a refused file its failure line; a file without
/// matches nothing; in a real run a file whose write failed its path and the error; any
/// other file its change.
pub open spec fn batch_step(state: BatchState, e: BatchEvent, dry_run: bool) -> BatchState {
    match e {
        BatchEvent::Refused(m) => (state.0, state.1.push(m)),
        BatchEvent::Replaced(path, relative, n, err) => if n == 0 {
            state
        } else if !dry_run && err is Some {
            (state.0, state.1.push(path + ": "@ + err->0))
        } else {
            (state.0.push((path, relative, n)), state.1)
        },
    }
}

/// What a batch records over its files, in order.
pub open spec fn batch_after(events: Seq<BatchEvent>, dry_run: bool) -> BatchState
    decreases events.len(),
{
    if events.len() == 0 {
        (seq![], seq![])
    } else {
        batch_step(batch_after(events.drop_last(), dry_run), events.last(), dry_run)
    }
}

/// No write of the run failed.
pub open spec fn writes_succeed(events: Seq<BatchEvent>) -> bool {
    forall|k: int|
        0 <= k < events.len() ==> (#[trigger] events[k] matches BatchEvent::Replaced(_, _, _, err)
            ==> err is None)
}

/// A dry run reports what the real run does when none of its writes fails: the same
/// changes (path, relative path and count, in the same order) and the same failures.
pub proof fn lemma_dry_run_reports_like_real_run(events: Seq<BatchEvent>)
    requires
        writes_succeed(events),
    ensures
        batch_after(events, true) == batch_after(events, false),
    decreases events.len(),
{
    if events.len() > 0 {
        let rest = events.drop_last();
        assert forall|k: int| 0 <= k < rest.len() implies (#[trigger] rest[k] matches BatchEvent::Replaced(
            _,
            _,
            _,
            err,
        ) ==> err is None) by {
            assert(rest[k] == events[k]);
        }
        lemma_dry_run_reports_like_real_run(rest);
        assert(events.last() == events[events.len() - 1]);
    }
}

/// The changes and failures of a batch replacement so far.
pub struct BatchProgress {
    pub changes: Vec<BatchFileChange>,
    pub failures: Vec<String>,
    pub replacements: usize,
}

impl BatchProgress {
    /// The recorded changes and failure lines as plain values.
    pub open spec fn state(&self) -> BatchState {
        (
            Seq::new(
                self.changes@.len(),
                |k: int|
                    (
                        self.changes@[k].path@,
                        self.changes@[k].relative_path@,
                        self.changes@[k].replacements as nat,
                    ),
            ),
            Seq::new(self.failures@.len(), |k: int| self.failures@[k]@),
        )
    }

    /// The running total is the sum of the recorded changes.
    pub open spec fn wf(&self) -> bool {
        self.replacements == total_replacements(self.changes@)
    }

    /// Nothing recorded yet.
    pub fn new() -> (p: Self)
        ensures
            p.wf(),
            p.changes@.len() == 0,
            p.failures@.len() == 0,
    {
        BatchProgress { changes: Vec::new(), failures: Vec::new(), replacements: 0 }
    }

    /// Records a file that could not be processed.
    pub fn record_failure(&mut self, message: String)
        ensures
            final(self).state() == batch_step(old(self).state(), BatchEvent::Refused(message@), false),
            final(self).state() == batch_step(old(self).state(), BatchEvent::Refused(message@), true),
            final(self).changes@ == old(self).changes@,
            final(self).replacements == old(self).replacements,
            final(self).failures@ == old(self).failures@.push(message),
    {
        self.failures.push(message);
        assert(self.state().1 =~= old(self).state().1.push(message@));
        assert(self.state().0 =~= old(self).state().0);
    }

    /// Records a changed file and adds its replacements to the total.
    pub fn record_change(&mut self, path: String, relative_path: String, count: usize)
        requires
            old(self).wf(),
            old(self).replacements + count <= usize::MAX,
        ensures
            final(self).wf(),
            final(self).failures@ == old(self).failures@,
            final(self).changes@.len() == old(self).changes@.len() + 1,
            final(self).changes@.drop_last() == old(self).changes@,
            final(self).changes@.last().path@ == path@,
            final(self).changes@.last().relative_path@ == relative_path@,
            final(self).changes@.last().replacements == count,
            final(self).replacements == old(self).replacements + count,
    {
        self.replacements = self.replacements + count;
        self.changes.push(BatchFileChange { path, relative_path, replacements: count });
        assert(self.changes@.drop_last() =~= old(self).changes@);
    }

    /// Records a file that was read and had `count` replacements: nothing without matches;
    /// in a real run whose write failed, the path and the error as a failure; else the
    /// change.
    pub fn record_file(
        &mut self,
        path: String,
        relative_path: String,
        count: usize,
        dry_run: bool,
        write_error: Option<String>,
    )
        requires
            old(self).wf(),
            old(self).replacements + count <= usize::MAX,
        ensures
            final(self).wf(),
            final(self).state() == batch_step(
                old(self).state(),
                BatchEvent::Replaced(
                    path@,
                    relative_path@,
                    count as nat,
                    match write_error {
                        Some(e) => Some(e@),
                        None => None,
                    },
                ),
                dry_run,
            ),
    {
        if count == 0 {
            return;
        }
        match write_error {
            Some(e) if !dry_run => {
                let line = path_failure(path.as_str(), e.as_str());
                self.record_failure(line);
            },
            _ => {
                let ghost old_changes = self.changes@;
                self.record_change(path, relative_path, count);
                assert(self.changes@ =~= old_changes.push(self.changes@.last()));
                assert(self.state().0 =~= old(self).state().0.push(
                    (path@, relative_path@, count as nat),
                ));
                assert(self.state().1 =~= old(self).state().1);
            },
        }
    }

    /// The result: how many files were given, how many changed, the total replacements,
    /// the backup directory, and what was recorded.
    pub fn finish(self, files_scanned: usize, backup_dir: Option<String>) -> (r: BatchReplaceResult)
        requires
            self.wf(),
        ensures
            r.files_scanned == files_scanned,
            r.files_changed == self.changes@.len(),
            r.replacements == total_replacements(self.changes@),
            r.backup_dir == backup_dir,
            r.changes@ == self.changes@,
            r.failures@ == self.failures@,
    {
        let files_changed = self.changes.len();
        BatchReplaceResult {
            files_scanned,
            files_changed,
            replacements: self.replacements,
            backup_dir,
            changes: self.changes,
            failures: self.failures,
        }
    }
}


/// A Markdown document of the workspace.
pub struct DocumentEntry {
    pub path: String,
    pub relative_path: String,
    pub filename: String,
    pub size: u64,
    pub modified_ms: u64,
}

/// The workspace root and its documents.
pub struct WorkspaceSnapshot {
    pub root: String,
    pub documents: Vec<DocumentEntry>,
}

/// Whether a walked entry is listed: a file with a Markdown name, whose size is known and
/// at most 10 MiB.
pub fn listed_document(is_file: bool, file_name: &str, size: Option<u64>) -> (b: bool)
    ensures
        b == (is_file && markdown_name(file_name@) && (size matches Some(n) && n
            <= MAX_DOCUMENT_BYTES)),
{
    if !is_file || !is_markdown(file_name) {
        return false;
    }
    match size {
        Some(n) => n <= MAX_DOCUMENT_BYTES,
        None => false,
    }
}

/// The full Unicode lowercase mapping of `s`, as `str::to_lowercase` computes it.
pub uninterp spec fn unicode_lowercase(s: Seq<char>) -> Seq<char>;

/// `str::to_lowercase`.
#[verifier::external_body]
fn lowercase(s: &str) -> (r: String)
    ensures
        r@ == unicode_lowercase(s@),
{
    s.to_lowercase()
}

/// `a` comes no later than `b` in the order of strings: character by character by code
/// point, a prefix first (the order of their UTF-8 bytes, which `String`'s order is).
pub open spec fn chars_le(a: Seq<char>, b: Seq<char>) -> bool
    decreases a.len(),
{
    if a.len() == 0 {
        true
    } else if b.len() == 0 {
        false
    } else if a[0] != b[0] {
        a[0] < b[0]
    } else {
        chars_le(a.drop_first(), b.drop_first())
    }
}

proof fn lemma_chars_le_total(a: Seq<char>, b: Seq<char>)
    ensures
        chars_le(a, b) || chars_le(b, a),
    decreases a.len(),
{
    if a.len() > 0 && b.len() > 0 && a[0] == b[0] {
        lemma_chars_le_total(a.drop_first(), b.drop_first());
    }
}

proof fn lemma_chars_le_transitive(a: Seq<char>, b: Seq<char>, c: Seq<char>)
    requires
        chars_le(a, b),
        chars_le(b, c),
    ensures
        chars_le(a, c),
    decreases a.len(),
{
    if a.len() > 0 && b.len() > 0 && c.len() > 0 && a[0] == b[0] && b[0] == c[0] {
        lemma_chars_le_transitive(a.drop_first(), b.drop_first(), c.drop_first());
    }
}

/// Whether `a` comes no later than `b` (see `chars_le`).
fn chars_le_exec(a: &Vec<char>, b: &Vec<char>) -> (r: bool)
    ensures
        r == chars_le(a@, b@),
{
    let mut i: usize = 0;
    assert(a@.skip(0) =~= a@ && b@.skip(0) =~= b@);
    while i < a.len() && i < b.len() && a[i] == b[i]
        invariant
            i <= a@.len(),
            i <= b@.len(),
            chars_le(a@, b@) == chars_le(a@.skip(i as int), b@.skip(i as int)),
        decreases a@.len() - i,
    {
        proof {
            assert(a@.skip(i as int).drop_first() =~= a@.skip(i + 1));
            assert(b@.skip(i as int).drop_first() =~= b@.skip(i + 1));
        }
        i += 1;
    }
    if i == a.len() {
        true
    } else if i == b.len() {
        false
    } else {
        a[i] < b[i]
    }
}

/// The key documents are listed by: the lowercase relative path.
pub open spec fn listing_key(d: DocumentEntry) -> Seq<char> {
    unicode_lowercase(d.relative_path@)
}

/// The documents are in order of their listing keys.
pub open spec fn listed_in_order(s: Seq<DocumentEntry>) -> bool {
    forall|i: int, j: int| 0 <= i < j < s.len() ==> chars_le(#[trigger] listing_key(s[i]), #[trigger] listing_key(s[j]))
}

/// The documents sorted by lowercase relative path.
pub fn sort_documents(documents: Vec<DocumentEntry>) -> (r: Vec<DocumentEntry>)
    ensures
        r@.to_multiset() == documents@.to_multiset(),
        listed_in_order(r@),
{
    let mut rest = documents;
    let mut out: Vec<DocumentEntry> = Vec::new();
    let mut keys: Vec<Vec<char>> = Vec::new();
    assert(out@ + rest@ =~= documents@);
    while rest.len() > 0
        invariant
            (out@ + rest@).to_multiset() == documents@.to_multiset(),
            keys@.len() == out@.len(),
            forall|k: int| 0 <= k < keys@.len() ==> (#[trigger] keys@[k])@ == listing_key(out@[k]),
            listed_in_order(out@),
        decreases rest@.len(),
    {
        let ghost before = rest@;
        let d = rest.pop().unwrap();
        proof {
            assert(before == rest@.push(d));
        }
        let key = chars_of(lowercase(d.relative_path.as_str()).as_str());
        let mut p: usize = 0;
        while p < out.len() && chars_le_exec(&keys[p], &key)
            invariant
                p <= out@.len(),
                keys@.len() == out@.len(),
                forall|k: int| 0 <= k < keys@.len() ==> (#[trigger] keys@[k])@ == listing_key(out@[k]),
                forall|k: int| 0 <= k < p ==> chars_le(#[trigger] listing_key(out@[k]), key@),
            decreases out@.len() - p,
        {
            p += 1;
        }
        proof {
            if p < out@.len() {
                assert(!chars_le(keys@[p as int]@, key@));
                lemma_chars_le_total(keys@[p as int]@, key@);
            }
        }
        let ghost old_out = out@;
        let ghost old_keys = keys@;
        out.insert(p, d);
        keys.insert(p, key);
        proof {
            assert(out@ + rest@ =~= (old_out + rest@).insert(p as int, d));
            assert(old_out + before =~= (old_out + rest@).push(d));
            vstd::seq_lib::to_multiset_insert(old_out + rest@, p as int, d);
            vstd::seq_lib::to_multiset_build(old_out + rest@, d);
            assert forall|i: int, j: int| 0 <= i < j < out@.len() implies chars_le(
                #[trigger] listing_key(out@[i]),
                #[trigger] listing_key(out@[j]),
            ) by {
                if i < p && j == p {
                } else if i < p && j > p {
                    assert(out@[j] == old_out[j - 1]);
                    assert(out@[i] == old_out[i]);
                } else if i == p && j > p {
                    assert(out@[j] == old_out[j - 1]);
                    if j - 1 > p {
                        assert(chars_le(listing_key(old_out[p as int]), listing_key(old_out[j - 1])));
                        lemma_chars_le_transitive(
                            listing_key(d),
                            listing_key(old_out[p as int]),
                            listing_key(old_out[j - 1]),
                        );
                    }
                } else if i < p && j < p {
                    assert(out@[j] == old_out[j]);
                    assert(out@[i] == old_out[i]);
                } else {
                    assert(out@[j] == old_out[j - 1]);
                    assert(out@[i] == old_out[i - 1]);
                }
            }
            assert forall|k: int| 0 <= k < keys@.len() implies (#[trigger] keys@[k])@ == listing_key(
                out@[k],
            ) by {
                if k > p {
                    assert(keys@[k] == old_keys[k - 1]);
                }
            }
        }
    }
    assert(out@ + rest@ =~= out@);
    out
}

/// The workspace root and its documents, listed by lowercase relative path.
pub fn workspace_snapshot(root: String, documents: Vec<DocumentEntry>) -> (w: WorkspaceSnapshot)
    ensures
        w.root == root,
        w.documents@.to_multiset() == documents@.to_multiset(),
        listed_in_order(w.documents@),
{
    WorkspaceSnapshot { root, documents: sort_documents(documents) }
}


/// Refuses an export with no files.
pub fn validate_export_request(path_count: usize) -> (r: Result<(), String>)
    ensures
        r is Ok <==> path_count > 0,
        r matches Err(m) ==> m@ == "出力するファイルを選択してください"@,
{
    if path_count == 0 {
        Err(String::from_str("出力するファイルを選択してください"))
    } else {
        Ok(())
    }
}

/// The outcome of exporting one file: the PDF written, or why not.
pub struct ExportFileResult {
    pub source_path: String,
    pub output_path: Option<String>,
    pub error: Option<String>,
}

/// The outcome of an export: how many files succeeded and failed, and each file's outcome.
pub struct ExportResult {
    pub succeeded: usize,
    pub failed: usize,
    pub files: Vec<ExportFileResult>,
}

/// A file's outcome from where its PDF went, or the error.
pub fn export_file_result(source_path: String, outcome: Result<String, String>) -> (r: ExportFileResult)
    ensures
        r.source_path == source_path,
        match outcome {
            Ok(p) => r.output_path == Some(p) && r.error is None,
            Err(e) => r.output_path is None && r.error == Some(e),
        },
{
    match outcome {
        Ok(p) => ExportFileResult { source_path, output_path: Some(p), error: None },
        Err(e) => ExportFileResult { source_path, output_path: None, error: Some(e) },
    }
}

/// The number of outcomes without an error.
pub open spec fn succeeded_count(f: Seq<ExportFileResult>) -> int
    decreases f.len(),
{
    if f.len() == 0 {
        0
    } else {
        succeeded_count(f.drop_last()) + if f.last().error is None {
            1int
        } else {
            0int
        }
    }
}

/// The export's outcome: the files that succeeded (those without an error), those that
/// failed (the rest), and every file's outcome in order.
pub fn summarize_exports(files: Vec<ExportFileResult>) -> (r: ExportResult)
    ensures
        r.succeeded == succeeded_count(files@),
        r.failed == files@.len() - succeeded_count(files@),
        r.succeeded + r.failed == files@.len(),
        r.files@ == files@,
{
    let mut succeeded: usize = 0;
    let mut i: usize = 0;
    while i < files.len()
        invariant
            i <= files@.len(),
            succeeded == succeeded_count(files@.take(i as int)),
            succeeded <= i,
        decreases files@.len() - i,
    {
        proof {
            assert(files@.take(i + 1).drop_last() =~= files@.take(i as int));
        }
        if files[i].error.is_none() {
            succeeded += 1;
        }
        i += 1;
    }
    assert(files@.take(i as int) =~= files@);
    let failed = files.len() - succeeded;
    ExportResult { succeeded, failed, files }
}

/// The page a PDF is printed from: with the Mermaid runtime embedded when it holds a
/// Mermaid diagram (and a log line saying so), else unchanged. Also says whether the
/// runtime was embedded.
pub fn prepare_export_html(html: String, runtime: &str, logs: &mut Vec<String>) -> (r: (String, bool))
    ensures
        r.1 == contains(html@, "class=\"mermaid\""@),
        r.1 ==> r.0@ == replace_first(html@, "</body>"@, mermaid_boot(runtime@) + "\n</body>"@)
            && final(logs)@.len() == old(logs)@.len() + 1 && final(logs)@.drop_last() == old(logs)@
            && final(logs)@.last()@ == "embedded Mermaid runtime queued for offline PDF rendering"@,
        !r.1 ==> r.0@ == html@ && final(logs)@ == old(logs)@,
{
    if needs_mermaid_runtime(html.as_str()) {
        let injected = inject_mermaid_runtime(html.as_str(), runtime);
        logs.push(String::from_str("embedded Mermaid runtime queued for offline PDF rendering"));
        assert(logs@.drop_last() =~= old(logs)@);
        (injected, true)
    } else {
        (html, false)
    }
}

/// The Markdown and file name of a preview request: the Markdown must be given and at
/// most 10 MiB; the file name defaults to `document.md`.
pub fn preview_source(
    markdown_content: &Option<String>,
    filename: &Option<String>,
) -> (r: Result<(String, String), String>)
    ensures
        match markdown_content {
            None => r matches Err(m) && m@ == "markdown_content がありません"@,
            Some(md) => if utf8_len(md@) > MAX_DOCUMENT_BYTES {
                r matches Err(m) && m@ == "document exceeds 10 MiB"@
            } else {
                r matches Ok(p) && p.0@ == md@ && p.1@ == match filename {
                    Some(f) => f@,
                    None => "document.md"@,
                }
            },
        },
{
    let markdown = match markdown_content {
        None => {
            return Err(String::from_str("markdown_content がありません"));
        },
        Some(m) => m,
    };
    let n = byte_len(markdown.as_str());
    match validate_size(n as u64) {
        Err(e) => {
            return Err(error_string(e));
        },
        Ok(()) => {},
    }
    let name = match filename {
        Some(f) => String::from_str(f.as_str()),
        None => String::from_str("document.md"),
    };
    Ok((String::from_str(markdown.as_str()), name))
}

/// Refuses preview HTML over 50 MiB.
pub fn validate_preview_html(html: &str) -> (r: Result<(), String>)
    ensures
        r is Ok <==> utf8_len(html@) <= 52428800,
        r matches Err(m) ==> m@ == "preview HTML exceeds 50 MiB"@,
{
    if byte_len(html) > 52428800 {
        Err(String::from_str("preview HTML exceeds 50 MiB"))
    } else {
        Ok(())
    }
}

/// A theme configuration that does not parse, with the parser's explanation.
pub fn invalid_theme_config(detail: &str) -> (e: AppError)
    ensures
        error_view(e) == conversion("invalid theme.yaml: "@ + detail@),
{
    let mut m = String::from_str("invalid theme.yaml: ");
    m.push_str(detail);
    AppError::Conversion(m)
}


/// A request naming one document.
pub struct PathRequest {
    pub path: String,
}

/// A request to inline the local images of preview HTML.
pub struct InlinePreviewImagesRequest {
    pub source_path: String,
    pub html: String,
}

/// A document as read: its path, text and modification time.
pub struct DocumentContent {
    pub path: String,
    pub content: String,
    pub modified_ms: u64,
}

/// A request to save a document, with the modification time it was read at.
pub struct SaveDocumentRequest {
    pub path: String,
    pub content: String,
    pub expected_modified_ms: Option<u64>,
}

/// The saved document's new modification time and size.
pub struct SaveDocumentResponse {
    pub modified_ms: u64,
    pub bytes: u64,
}

/// A request to replace text in many documents.
pub struct BatchReplaceRequest {
    pub paths: Vec<String>,
    pub find: String,
    pub replace: String,
    pub case_sensitive: bool,
    pub dry_run: bool,
}

/// A request to export documents to PDF.
pub struct ExportRequest {
    pub paths: Vec<String>,
    pub output_dir: String,
    pub render: crate::theme::RenderRequest,
}

/// A rendered preview: the page, warnings and log lines.
pub struct PreviewResponse {
    pub html: String,
    pub warnings: Vec<String>,
    pub logs: Vec<String>,
}

/// The preview of a rendered document: its page (with images inlined where that was
/// done), its warnings followed by the image warnings, and its log lines.
pub fn preview_response(html: String, warnings: Vec<String>, image_warnings: Vec<String>, logs: Vec<String>) -> (r: PreviewResponse)
    ensures
        r.html == html,
        r.warnings@ == warnings@ + image_warnings@,
        r.logs@ == logs@,
{
    let mut all = warnings;
    let mut i: usize = 0;
    while i < image_warnings.len()
        invariant
            i <= image_warnings@.len(),
            all@ == warnings@ + image_warnings@.take(i as int),
        decreases image_warnings@.len() - i,
    {
        all.push(image_warnings[i].clone());
        proof {
            assert(image_warnings@.take(i + 1) =~= image_warnings@.take(i as int).push(image_warnings@[i as int]));
        }
        i += 1;
    }
    assert(image_warnings@.take(i as int) =~= image_warnings@);
    PreviewResponse { html, warnings: all, logs }
}

} // verus!
