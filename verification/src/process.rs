//! Output of external programs (the PDF printer and the Mermaid command line): their
//! argument lists, log lines, and the error text made from what they print.
use vstd::prelude::*;
use crate::mermaid::{lemma_line_end, line_bounds, line_end};
use crate::text::{
    chars_of, decimal, push_decimal, push_decimal_u64, push_range, starts_with, trim, trim_exec,
    trim_start, trim_bounds,
};

verus! {

/// `t` without one trailing `'\r'`.
pub open spec fn strip_cr(t: Seq<char>) -> Seq<char> {
    if t.len() > 0 && t.last() == '\r' {
        t.drop_last()
    } else {
        t
    }
}

/// The lines of `s` as `str::lines` gives them: split at each `'\n'`, a `'\r'` before it
/// dropped, no empty line after a final `'\n'`.
pub open spec fn lines_of(s: Seq<char>) -> Seq<Seq<char>>
    decreases s.len(),
{
    if s.len() == 0 {
        seq![]
    } else {
        let e = line_end(s, 0);
        proof {
            lemma_line_end(s, 0);
        }
        if e >= s.len() {
            seq![s]
        } else {
            seq![strip_cr(s.take(e))] + lines_of(s.skip(e + 1))
        }
    }
}

/// The lines joined with `'\n'` between them.
pub open spec fn join_lines(ls: Seq<Seq<char>>) -> Seq<char>
    decreases ls.len(),
{
    if ls.len() == 0 {
        seq![]
    } else if ls.len() == 1 {
        ls[0]
    } else {
        join_lines(ls.drop_last()) + "\n"@ + ls.last()
    }
}

/// The lines as character sequences.
pub open spec fn strings_view(v: Seq<String>) -> Seq<Seq<char>> {
    Seq::new(v.len(), |k: int| v[k]@)
}

proof fn lemma_lines_of_skip(s: Seq<char>, i: int)
    requires
        0 <= i < s.len(),
    ensures
        line_end(s, i) == i + line_end(s.skip(i), 0),
    decreases s.len() - i,
{
    lemma_line_end(s, i);
    lemma_line_end(s.skip(i), 0);
    if s[i] != '\n' && i + 1 < s.len() {
        lemma_lines_of_skip(s, i + 1);
        assert(s.skip(i).skip(1) =~= s.skip(i + 1));
        lemma_line_end_shift(s.skip(i));
    }
}

proof fn lemma_line_end_shift(t: Seq<char>)
    requires
        t.len() > 1,
        t[0] != '\n',
    ensures
        line_end(t, 0) == 1 + line_end(t.skip(1), 0),
    decreases t.len(),
{
    lemma_line_end_from(t, 1);
}

proof fn lemma_line_end_from(t: Seq<char>, i: int)
    requires
        1 <= i <= t.len(),
    ensures
        line_end(t, i) == 1 + line_end(t.skip(1), i - 1),
    decreases t.len() - i,
{
    if i < t.len() && t[i] != '\n' {
        lemma_line_end_from(t, i + 1);
    }
}

/// The lines of `s`, as `str::lines` gives them.
pub fn split_lines(s: &str) -> (r: Vec<String>)
    ensures
        strings_view(r@) == lines_of(s@),
{
    let v = chars_of(s);
    let mut out: Vec<String> = Vec::new();
    let mut i: usize = 0;
    assert(v@.skip(0) =~= v@);
    while i < v.len()
        invariant
            i <= v@.len(),
            v@ == s@,
            lines_of(v@) == strings_view(out@) + lines_of(v@.skip(i as int)),
        decreases v@.len() - i,
    {
        let (end, next) = line_bounds(&v, i);
        proof {
            lemma_line_end(v@, i as int);
            lemma_lines_of_skip(v@, i as int);
        }
        let mut line = String::new();
        if end < v.len() && end > i && v[end - 1] == '\r' {
            push_range(&mut line, &v, i, end - 1);
        } else {
            push_range(&mut line, &v, i, end);
        }
        let ghost t = v@.skip(i as int);
        let ghost prev = out@;
        out.push(line);
        proof {
            assert(t.len() > 0);
            if end < v@.len() {
                assert(t.take(end - i) =~= v@.subrange(i as int, end as int));
                assert(t.skip(end - i + 1) =~= v@.skip(next as int));
                assert(strip_cr(t.take(end - i)) =~= line@);
                assert(lines_of(t) == seq![line@] + lines_of(v@.skip(next as int)));
            } else {
                assert(t =~= v@.subrange(i as int, end as int));
                assert(v@.skip(next as int) =~= Seq::<char>::empty());
                assert(lines_of(t) == seq![line@]);
            }
            assert(strings_view(out@) =~= strings_view(prev) + seq![line@]);
        }
        i = next;
    }
    assert(v@.skip(i as int) =~= Seq::<char>::empty());
    assert(strings_view(out@) + Seq::<Seq<char>>::empty() =~= strings_view(out@));
    out
}

/// Joins lines with `'\n'`.
pub fn join_with_newlines(ls: &Vec<String>) -> (r: String)
    ensures
        r@ == join_lines(strings_view(ls@)),
{
    let mut r = String::new();
    let mut i: usize = 0;
    while i < ls.len()
        invariant
            i <= ls@.len(),
            r@ == join_lines(strings_view(ls@).take(i as int)),
        decreases ls@.len() - i,
    {
        if i > 0 {
            r.push_str("\n");
        }
        r.push_str(ls[i].as_str());
        proof {
            let t = strings_view(ls@).take(i + 1);
            assert(t.drop_last() =~= strings_view(ls@).take(i as int));
            if i == 0 {
                assert(t =~= seq![ls@[0]@]);
            }
        }
        i += 1;
    }
    assert(strings_view(ls@).take(i as int) =~= strings_view(ls@));
    r
}

/// The first `n` lines of `text`, joined with `'\n'`.
pub open spec fn first_lines(text: Seq<char>, n: nat) -> Seq<char> {
    let ls = lines_of(text);
    join_lines(if ls.len() <= n {
        ls
    } else {
        ls.take(n as int)
    })
}

/// The first `n` lines of `text`.
pub fn first_lines_of(text: &str, n: usize) -> (r: String)
    ensures
        r@ == first_lines(text@, n as nat),
{
    let mut ls = split_lines(text);
    if ls.len() > n {
        ls.truncate(n);
        proof {
            assert(strings_view(ls@) =~= lines_of(text@).take(n as int));
        }
    }
    join_with_newlines(&ls)
}

/// `String::from_utf8_lossy(bytes)`: the bytes decoded as UTF-8, each invalid sequence
/// replaced by U+FFFD.
pub uninterp spec fn lossy_text(bytes: Seq<u8>) -> Seq<char>;

/// `String::from_utf8_lossy`.
#[verifier::external_body]
fn utf8_lossy(bytes: &[u8]) -> (r: String)
    ensures
        r@ == lossy_text(bytes@),
{
    String::from_utf8_lossy(bytes).into_owned()
}

/// The error text of a failed process: the first eight lines of what it wrote to stderr.
pub fn trim_process_error(stderr: &[u8]) -> (r: String)
    ensures
        r@ == first_lines(lossy_text(stderr@), 8),
{
    first_lines_of(utf8_lossy(stderr).as_str(), 8)
}

/// The message when the PDF printer fails: the first twelve lines of its stderr.
pub fn edge_failure_message(stderr: &[u8]) -> (r: String)
    ensures
        r@ == "Edge PDF renderer failed: "@ + first_lines(lossy_text(stderr@), 12),
{
    let mut r = String::from_str("Edge PDF renderer failed: ");
    r.push_str(first_lines_of(utf8_lossy(stderr).as_str(), 12).as_str());
    r
}

/// The message when the PDF printer exits without writing the PDF: the first eight lines
/// of its stderr.
pub fn pdf_missing_message(stderr: &[u8]) -> (r: String)
    ensures
        r@ == "Edge exited but PDF was not created: "@ + first_lines(lossy_text(stderr@), 8),
{
    let mut r = String::from_str("Edge exited but PDF was not created: ");
    r.push_str(first_lines_of(utf8_lossy(stderr).as_str(), 8).as_str());
    r
}

/// A line that begins, after leading whitespace, with an XML declaration.
pub open spec fn is_xml_declaration(line: Seq<char>) -> bool {
    starts_with(trim_start(line), "<?xml"@)
}

/// The lines that are not XML declarations.
pub open spec fn without_declarations(ls: Seq<Seq<char>>) -> Seq<Seq<char>>
    decreases ls.len(),
{
    if ls.len() == 0 {
        seq![]
    } else if is_xml_declaration(ls.last()) {
        without_declarations(ls.drop_last())
    } else {
        without_declarations(ls.drop_last()).push(ls.last())
    }
}

/// An SVG document without its XML declaration lines, its lines joined with `'\n'`.
pub fn strip_xml_header(svg: String) -> (r: String)
    ensures
        r@ == join_lines(without_declarations(lines_of(svg@))),
{
    let ls = split_lines(svg.as_str());
    let decl = chars_of("<?xml");
    let mut kept: Vec<String> = Vec::new();
    let mut i: usize = 0;
    while i < ls.len()
        invariant
            i <= ls@.len(),
            decl@ == "<?xml"@,
            strings_view(kept@) == without_declarations(strings_view(ls@).take(i as int)),
        decreases ls@.len() - i,
    {
        let v = chars_of(ls[i].as_str());
        let (a, _) = trim_bounds(&v, 0, v.len());
        assert(v@.subrange(0, v@.len() as int) =~= v@);
        let is_decl = crate::text::matches_at_exec(&v, &decl, a);
        proof {
            reveal_strlit("<?xml");
            let t = trim_start(v@);
            assert(t == v@.subrange(a as int, v@.len() as int));
            assert(is_decl == starts_with(t, "<?xml"@)) by {
                if is_decl {
                    assert(t.subrange(0, 5) =~= v@.subrange(a as int, a + 5));
                }
                if starts_with(t, "<?xml"@) {
                    assert(t.subrange(0, 5) =~= v@.subrange(a as int, a + 5));
                }
            }
            let tk = strings_view(ls@).take(i + 1);
            assert(tk.drop_last() =~= strings_view(ls@).take(i as int));
            assert(tk.last() == v@);
        }
        let ghost prev = kept@;
        if !is_decl {
            kept.push(ls[i].clone());
            proof {
                assert(strings_view(kept@) =~= strings_view(prev).push(ls@[i as int]@));
            }
        }
        i += 1;
    }
    assert(strings_view(ls@).take(i as int) =~= strings_view(ls@));
    join_with_newlines(&kept)
}

/// The message when a process runs past its time limit.
pub fn timeout_message(seconds: u64) -> (r: String)
    ensures
        r@ == "process timed out after "@ + decimal(seconds as nat) + "s"@,
{
    let mut r = String::from_str("process timed out after ");
    push_decimal_u64(&mut r, seconds);
    r.push_str("s");
    r
}

/// The message when a process cannot be started.
pub fn spawn_failure_message(error: &str) -> (r: String)
    ensures
        r@ == "failed to spawn process: "@ + error@,
{
    let mut r = String::from_str("failed to spawn process: ");
    r.push_str(error);
    r
}

/// The PDF printer's arguments: headless, no GPU, no network or updates, no page header
/// or footer of its own, a private profile directory, the PDF path, a virtual-time budget
/// for scripts when asked for, and the page URL.
pub open spec fn edge_arguments_spec(
    user_data_dir: Seq<char>,
    pdf_path: Seq<char>,
    source_url: Seq<char>,
    wait_for_scripts: bool,
) -> Seq<Seq<char>> {
    seq![
        "--headless=new"@,
        "--disable-gpu"@,
        "--disable-background-networking"@,
        "--disable-component-update"@,
        "--disable-default-apps"@,
        "--no-first-run"@,
        "--no-proxy-server"@,
        "--host-resolver-rules=MAP * 0.0.0.0"@,
        "--print-to-pdf-no-header"@,
        "--no-pdf-header-footer"@,
        "--user-data-dir="@ + user_data_dir,
        "--print-to-pdf="@ + pdf_path,
    ] + (if wait_for_scripts {
        seq!["--virtual-time-budget=5000"@]
    } else {
        seq![]
    }) + seq![source_url]
}

/// A string made of two parts.
fn joined(a: &str, b: &str) -> (r: String)
    ensures
        r@ == a@ + b@,
{
    let mut r = String::from_str(a);
    r.push_str(b);
    r
}

/// The PDF printer's command-line arguments.
pub fn edge_arguments(
    user_data_dir: &str,
    pdf_path: &str,
    source_url: &str,
    wait_for_scripts: bool,
) -> (r: Vec<String>)
    ensures
        strings_view(r@) == edge_arguments_spec(user_data_dir@, pdf_path@, source_url@, wait_for_scripts),
{
    let mut r: Vec<String> = Vec::new();
    r.push(String::from_str("--headless=new"));
    r.push(String::from_str("--disable-gpu"));
    r.push(String::from_str("--disable-background-networking"));
    r.push(String::from_str("--disable-component-update"));
    r.push(String::from_str("--disable-default-apps"));
    r.push(String::from_str("--no-first-run"));
    r.push(String::from_str("--no-proxy-server"));
    r.push(String::from_str("--host-resolver-rules=MAP * 0.0.0.0"));
    r.push(String::from_str("--print-to-pdf-no-header"));
    r.push(String::from_str("--no-pdf-header-footer"));
    r.push(joined("--user-data-dir=", user_data_dir));
    r.push(joined("--print-to-pdf=", pdf_path));
    if wait_for_scripts {
        r.push(String::from_str("--virtual-time-budget=5000"));
    }
    r.push(String::from_str(source_url));
    assert(strings_view(r@) =~= edge_arguments_spec(
        user_data_dir@,
        pdf_path@,
        source_url@,
        wait_for_scripts,
    ));
    r
}

/// The log lines of a PDF run: the script budget when scripts are waited for, the header
/// and footer note when they are shown, and the printer used.
pub open spec fn pdf_log_lines(wait_for_scripts: bool, header_footer: bool, edge: Seq<char>) -> Seq<
    Seq<char>,
> {
    (if wait_for_scripts {
        seq!["offline script budget: 5000 ms virtual time"@]
    } else {
        seq![]
    }) + (if header_footer {
        seq!["page headers/footers: CSS @page margin boxes"@]
    } else {
        seq![]
    }) + seq!["offline PDF renderer: "@ + edge]
}

/// Appends the log lines of a PDF run.
pub fn record_pdf_logs(logs: &mut Vec<String>, wait_for_scripts: bool, header_footer: bool, edge: &str)
    ensures
        strings_view(final(logs)@) == strings_view(old(logs)@) + pdf_log_lines(
            wait_for_scripts,
            header_footer,
            edge@,
        ),
{
    if wait_for_scripts {
        logs.push(String::from_str("offline script budget: 5000 ms virtual time"));
    }
    if header_footer {
        logs.push(String::from_str("page headers/footers: CSS @page margin boxes"));
    }
    logs.push(joined("offline PDF renderer: ", edge));
    assert(strings_view(logs@) =~= strings_view(old(logs)@) + pdf_log_lines(
        wait_for_scripts,
        header_footer,
        edge@,
    ));
}

/// An explicitly configured printer path: set and not blank.
pub fn configured_edge(value: Option<&str>) -> (r: Option<String>)
    ensures
        match value {
            Some(v) => if trim(v@).len() > 0 {
                r matches Some(p) && p@ == v@
            } else {
                r is None
            },
            None => r is None,
        },
{
    match value {
        Some(v) => {
            if !trim_exec(v).as_str().is_empty() {
                Some(String::from_str(v))
            } else {
                None
            }
        },
        None => None,
    }
}

/// The decimal notation of `n` padded with zeros to three digits.
pub open spec fn padded3(n: nat) -> Seq<char> {
    if n < 10 {
        "00"@ + decimal(n)
    } else if n < 100 {
        "0"@ + decimal(n)
    } else {
        decimal(n)
    }
}

/// The file name of diagram `index`: `diagram-` and the index padded to three digits, then
/// the extension.
pub fn diagram_file_name(index: usize, extension: &str) -> (r: String)
    ensures
        r@ == "diagram-"@ + padded3(index as nat) + "."@ + extension@,
{
    let mut r = String::from_str("diagram-");
    if index < 10 {
        r.push_str("00");
    } else if index < 100 {
        r.push_str("0");
    }
    push_decimal(&mut r, index);
    r.push_str(".");
    r.push_str(extension);
    r
}

/// The Mermaid command line's arguments: input and output files, quiet, transparent
/// background, the default theme, and a browser configuration file when one is set.
pub open spec fn mmdc_arguments_spec(input: Seq<char>, output: Seq<char>, puppeteer: Option<Seq<char>>) -> Seq<
    Seq<char>,
> {
    seq![
        "-i"@,
        input,
        "-o"@,
        output,
        "--quiet"@,
        "--backgroundColor"@,
        "transparent"@,
        "--theme"@,
        "default"@,
    ] + match puppeteer {
        Some(c) if trim(c).len() > 0 => seq!["--puppeteerConfigFile"@, c],
        _ => seq![],
    }
}

/// The Mermaid command line's arguments.
pub fn mmdc_arguments(input: &str, output: &str, puppeteer: Option<&str>) -> (r: Vec<String>)
    ensures
        strings_view(r@) == mmdc_arguments_spec(
            input@,
            output@,
            match puppeteer {
                Some(c) => Some(c@),
                None => None,
            },
        ),
{
    let mut r: Vec<String> = Vec::new();
    r.push(String::from_str("-i"));
    r.push(String::from_str(input));
    r.push(String::from_str("-o"));
    r.push(String::from_str(output));
    r.push(String::from_str("--quiet"));
    r.push(String::from_str("--backgroundColor"));
    r.push(String::from_str("transparent"));
    r.push(String::from_str("--theme"));
    r.push(String::from_str("default"));
    match puppeteer {
        Some(c) => {
            if !trim_exec(c).as_str().is_empty() {
                r.push(String::from_str("--puppeteerConfigFile"));
                r.push(String::from_str(c));
            }
        },
        None => {},
    }
    assert(strings_view(r@) =~= mmdc_arguments_spec(
        input@,
        output@,
        match puppeteer {
            Some(c) => Some(c@),
            None => None,
        },
    ));
    r
}

} // verus!
