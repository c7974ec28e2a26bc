use mdpdf_desktop::desktop::{
    check_expected_modified, export_file_result, file_action, inject_mermaid_runtime,
    is_markdown, listed_document, literal_matcher, path_failure, prepare_export_html,
    preview_response, preview_source, relative_display, replace_literal, sort_documents,
    summarize_exports, validate_batch_request, validate_export_request, validate_preview_html,
    validate_size, visible_entry, workspace_snapshot, BatchProgress, DocumentEntry, FileAction,
    MAX_DOCUMENT_BYTES, RegexMatcher, export_file_name,
};
use mdpdf_desktop::error::AppError;
use std::path::Path;

#[test]
fn case_insensitive_replace_is_literal() {
    let matcher = RegexMatcher::build(&regex::escape("A.B"), true).unwrap();
    let (updated, count) = replace_literal("a.b A-B A.B", "A.B", "x", Some(&matcher));
    assert_eq!(updated, "x A-B x");
    assert_eq!(count, 2);
}

#[test]
fn case_insensitive_replacement_keeps_dollar_signs() {
    let matcher = RegexMatcher::build("token", true).unwrap();
    let (updated, count) = replace_literal("TOKEN", "token", "$1", Some(&matcher));
    assert_eq!(updated, "$1");
    assert_eq!(count, 1);
}

#[test]
fn backup_directory_is_not_scanned() {
    let entry_name = Path::new(".mdpdf-backup").file_name().unwrap();
    assert_eq!(entry_name, ".mdpdf-backup");
    assert!(!visible_entry(1, entry_name.to_str().unwrap()));
    assert!(visible_entry(0, ".mdpdf-backup"));
    assert!(visible_entry(2, "docs"));
}

#[test]
fn mermaid_runtime_is_embedded_before_body_end() {
    let html = "<html><body><div class=\"mermaid\">graph TD; A-->B</div></body></html>";
    let rendered = inject_mermaid_runtime(html, "window.mermaid={}; // </script marker");
    assert!(!rendered.contains("</script marker"));
    assert!(rendered.contains("<\\/script marker"));
    assert!(rendered.contains("mermaid.run"));
    assert!(rendered.find("mermaid.run").unwrap() < rendered.find("</body>").unwrap());
}

#[test]
fn runtime_injection_leaves_page_without_body_unchanged() {
    let html = "<div>no body end</div>";
    assert_eq!(inject_mermaid_runtime(html, "x"), html);
}

#[test]
fn runtime_injection_goes_before_first_body_end_only() {
    let rendered = inject_mermaid_runtime("a</body>b</body>", "R");
    assert!(rendered.starts_with("a<script>R</script>\n<script>"));
    assert!(rendered.ends_with("</script>\n</body>b</body>"));
}

#[test]
fn case_sensitive_replace_counts_every_occurrence() {
    let (updated, count) = replace_literal("a.b A.B a.b", "a.b", "x", None);
    assert_eq!(updated, "x A.B x");
    assert_eq!(count, 2);
}

#[test]
fn replace_without_match_leaves_text_unchanged() {
    let (updated, count) = replace_literal("hello", "zz", "x", None);
    assert_eq!(updated, "hello");
    assert_eq!(count, 0);
    let matcher = literal_matcher("ZZ", false).unwrap().unwrap();
    let (updated, count) = replace_literal("hello", "ZZ", "x", Some(&matcher));
    assert_eq!(updated, "hello");
    assert_eq!(count, 0);
}

#[test]
fn literal_matcher_matches_text_literally_in_any_case() {
    assert!(literal_matcher("a+b", true).unwrap().is_none());
    let matcher = literal_matcher("a+b", false).unwrap().unwrap();
    let (updated, count) = replace_literal("A+B aab a+b", "a+b", "[$0]", Some(&matcher));
    assert_eq!(updated, "[$0] aab [$0]");
    assert_eq!(count, 2);
}

#[test]
fn replace_handles_multibyte_text() {
    let matcher = literal_matcher("é", false).unwrap().unwrap();
    let (updated, count) = replace_literal("café CAFÉ", "é", "e", Some(&matcher));
    assert_eq!(updated, "cafe CAFe");
    assert_eq!(count, 2);
}

#[test]
fn batch_request_is_checked() {
    assert_eq!(validate_batch_request("", 1).unwrap_err(), "検索文字列を入力してください");
    assert_eq!(
        validate_batch_request("x", 10_001).unwrap_err(),
        "一度に処理できるファイルは 10,000 件までです"
    );
    assert!(validate_batch_request("x", 10_000).is_ok());
    assert_eq!(validate_batch_request("", 20_000).unwrap_err(), "検索文字列を入力してください");
}

#[test]
fn file_action_follows_count_and_dry_run() {
    assert!(matches!(file_action("u".to_string(), 0, false), FileAction::Skip));
    assert!(matches!(file_action("u".to_string(), 3, true), FileAction::Count(3)));
    match file_action("u".to_string(), 2, false) {
        FileAction::Write(text, n) => {
            assert_eq!(text, "u");
            assert_eq!(n, 2);
        }
        _ => panic!("expected a write"),
    }
}

#[test]
fn batch_progress_totals_its_changes() {
    let mut progress = BatchProgress::new();
    progress.record_change("/w/a.md".to_string(), "a.md".to_string(), 2);
    progress.record_failure(path_failure("/w/b.md", "denied"));
    progress.record_change("/w/c.md".to_string(), "sub/c.md".to_string(), 5);
    let result = progress.finish(4, Some("/w/.mdpdf-backup/x".to_string()));
    assert_eq!(result.files_scanned, 4);
    assert_eq!(result.files_changed, 2);
    assert_eq!(result.replacements, 7);
    assert_eq!(result.changes.len(), 2);
    assert_eq!(result.changes[1].relative_path, "sub/c.md");
    assert_eq!(result.failures, vec!["/w/b.md: denied".to_string()]);
    assert_eq!(result.backup_dir.as_deref(), Some("/w/.mdpdf-backup/x"));
}

#[test]
fn size_limit_is_ten_mebibytes() {
    assert_eq!(MAX_DOCUMENT_BYTES, 10 * 1024 * 1024);
    assert!(validate_size(MAX_DOCUMENT_BYTES).is_ok());
    match validate_size(MAX_DOCUMENT_BYTES + 1) {
        Err(AppError::BadRequest(m)) => assert_eq!(m, "document exceeds 10 MiB"),
        _ => panic!("expected a bad request"),
    }
}

#[test]
fn markdown_names_by_extension() {
    assert!(is_markdown("notes.md"));
    assert!(is_markdown("Notes.MARKDOWN"));
    assert!(is_markdown("a.b.Md"));
    assert!(!is_markdown(".md"));
    assert!(!is_markdown("md"));
    assert!(!is_markdown("notes.mdx"));
    assert!(!is_markdown("notes."));
    assert!(!is_markdown("notes.txt"));
}

#[test]
fn relative_paths_use_forward_slashes() {
    assert_eq!(relative_display("docs\\guide\\a.md"), "docs/guide/a.md");
    assert_eq!(relative_display("plain.md"), "plain.md");
}

#[test]
fn listed_documents_are_small_markdown_files() {
    assert!(listed_document(true, "a.md", Some(10)));
    assert!(!listed_document(false, "a.md", Some(10)));
    assert!(!listed_document(true, "a.txt", Some(10)));
    assert!(!listed_document(true, "a.md", None));
    assert!(!listed_document(true, "a.md", Some(MAX_DOCUMENT_BYTES + 1)));
}

fn entry(relative: &str) -> DocumentEntry {
    DocumentEntry {
        path: format!("/w/{relative}"),
        relative_path: relative.to_string(),
        filename: relative.rsplit('/').next().unwrap().to_string(),
        size: 1,
        modified_ms: 0,
    }
}

#[test]
fn documents_are_listed_by_lowercase_relative_path() {
    let docs = vec![entry("b.md"), entry("A/z.md"), entry("a.md"), entry("C.md"), entry("Ä.md")];
    let sorted = sort_documents(docs);
    let order: Vec<&str> = sorted.iter().map(|d| d.relative_path.as_str()).collect();
    assert_eq!(order, vec!["a.md", "A/z.md", "b.md", "C.md", "Ä.md"]);
    let snapshot = workspace_snapshot("/w".to_string(), vec![entry("y.md"), entry("X.md")]);
    assert_eq!(snapshot.root, "/w");
    assert_eq!(snapshot.documents[0].relative_path, "X.md");
    assert_eq!(snapshot.documents[1].relative_path, "y.md");
}

#[test]
fn stale_saves_are_refused() {
    assert!(check_expected_modified(None, 5).is_ok());
    assert!(check_expected_modified(Some(5), 5).is_ok());
    assert_eq!(
        check_expected_modified(Some(4), 5).unwrap_err(),
        "ファイルは外部で変更されました。再読み込みしてから保存してください"
    );
}

#[test]
fn exports_are_counted() {
    assert_eq!(validate_export_request(0).unwrap_err(), "出力するファイルを選択してください");
    assert!(validate_export_request(1).is_ok());
    let files = vec![
        export_file_result("a.md".to_string(), Ok("out/a.pdf".to_string())),
        export_file_result("b.md".to_string(), Err("boom".to_string())),
        export_file_result("c.md".to_string(), Ok("out/c.pdf".to_string())),
    ];
    let result = summarize_exports(files);
    assert_eq!(result.succeeded, 2);
    assert_eq!(result.failed, 1);
    assert_eq!(result.files[1].error.as_deref(), Some("boom"));
    assert_eq!(result.files[1].output_path, None);
    assert_eq!(result.files[2].output_path.as_deref(), Some("out/c.pdf"));
}

#[test]
fn export_html_embeds_runtime_only_for_mermaid() {
    let mut logs = vec!["first".to_string()];
    let (html, embedded) = prepare_export_html("<body><p>x</p></body>".to_string(), "R", &mut logs);
    assert!(!embedded);
    assert_eq!(html, "<body><p>x</p></body>");
    assert_eq!(logs.len(), 1);
    let (html, embedded) = prepare_export_html(
        "<body><div class=\"mermaid\">g</div></body>".to_string(),
        "R",
        &mut logs,
    );
    assert!(embedded);
    assert!(html.contains("<script>R</script>"));
    assert_eq!(logs[1], "embedded Mermaid runtime queued for offline PDF rendering");
}

#[test]
fn preview_requests_are_checked() {
    assert_eq!(preview_source(&None, &None).unwrap_err(), "markdown_content がありません");
    let (markdown, filename) = preview_source(&Some("# T".to_string()), &None).unwrap();
    assert_eq!(markdown, "# T");
    assert_eq!(filename, "document.md");
    let (_, filename) = preview_source(&Some("x".to_string()), &Some("n.md".to_string())).unwrap();
    assert_eq!(filename, "n.md");
    let big = "a".repeat(10 * 1024 * 1024 + 1);
    assert_eq!(preview_source(&Some(big), &None).unwrap_err(), "document exceeds 10 MiB");
    assert!(validate_preview_html("<p>x</p>").is_ok());
    let huge = "a".repeat(50 * 1024 * 1024 + 1);
    assert_eq!(validate_preview_html(&huge).unwrap_err(), "preview HTML exceeds 50 MiB");
}

#[test]
fn preview_response_appends_image_warnings() {
    let response = preview_response(
        "<p/>".to_string(),
        vec!["w1".to_string()],
        vec!["img".to_string()],
        vec!["log".to_string()],
    );
    assert_eq!(response.html, "<p/>");
    assert_eq!(response.warnings, vec!["w1".to_string(), "img".to_string()]);
    assert_eq!(response.logs, vec!["log".to_string()]);
}

#[test]
fn matchers_report_build_errors() {
    assert!(RegexMatcher::build("(", true).is_err());
    assert!(RegexMatcher::build("a+", false).is_ok());
    let m = RegexMatcher::build("b+", false).unwrap();
    let (updated, count) = replace_literal("abbcbB", "", "X", Some(&m));
    assert_eq!(updated, "aXcXB");
    assert_eq!(count, 2);
}

fn run_batch(dry_run: bool, write_error: Option<&str>) -> mdpdf_desktop::desktop::BatchReplaceResult {
    let mut progress = BatchProgress::new();
    progress.record_failure(path_failure("/w/missing.md", "file not found"));
    progress.record_file("/w/a.md".to_string(), "a.md".to_string(), 2, dry_run, None);
    progress.record_file("/w/none.md".to_string(), "none.md".to_string(), 0, dry_run, None);
    progress.record_file(
        "/w/b.md".to_string(),
        "sub/b.md".to_string(),
        3,
        dry_run,
        write_error.map(str::to_string),
    );
    progress.finish(4, None)
}

#[test]
fn dry_run_reports_like_real_run() {
    let dry = run_batch(true, None);
    let real = run_batch(false, None);
    assert_eq!(dry.files_changed, real.files_changed);
    assert_eq!(dry.replacements, 5);
    assert_eq!(real.replacements, 5);
    assert_eq!(dry.failures, real.failures);
    let paths = |r: &mdpdf_desktop::desktop::BatchReplaceResult| {
        r.changes
            .iter()
            .map(|c| (c.path.clone(), c.relative_path.clone(), c.replacements))
            .collect::<Vec<_>>()
    };
    assert_eq!(paths(&dry), paths(&real));
    let failed = run_batch(false, Some("disk full"));
    assert_eq!(failed.files_changed, 1);
    assert_eq!(failed.replacements, 2);
    assert_eq!(failed.failures[1], "/w/b.md: disk full");
    let dry_ignores_error = run_batch(true, Some("unused"));
    assert_eq!(dry_ignores_error.replacements, 5);
}

#[test]
fn exported_files_take_the_pdf_extension() {
    assert_eq!(export_file_name("notes.md"), "notes.pdf");
    assert_eq!(export_file_name("a.b.markdown"), "a.b.pdf");
    assert_eq!(export_file_name(".md"), ".md.pdf");
    assert_eq!(export_file_name("README"), "README.pdf");
    let mut p = std::path::PathBuf::from("out/notes.v2.MD");
    p.set_extension("pdf");
    assert_eq!(p.file_name().unwrap().to_str().unwrap(), export_file_name("notes.v2.MD"));
}
