use mdpdf_desktop::error::AppError;
use mdpdf_desktop::routes::{
    download_disposition, sanitize_display_name, validate_markdown_filename, validate_upload,
    DownloadQuery, MAX_UPLOAD_BYTES,
};

fn bad_request(r: Result<(), AppError>) -> String {
    match r {
        Err(AppError::BadRequest(m)) => m,
        _ => panic!("expected a bad request"),
    }
}

#[test]
fn upload_names_must_be_markdown() {
    assert!(validate_markdown_filename("Notes.MD").is_ok());
    assert!(validate_markdown_filename("a.markdown").is_ok());
    assert!(validate_markdown_filename(".md").is_ok());
    assert_eq!(
        bad_request(validate_markdown_filename("a.txt")),
        "only .md and .markdown files are accepted"
    );
}

#[test]
fn display_names_drop_directories_and_nul() {
    assert_eq!(sanitize_display_name("../../etc/pa\0ss.md"), "pass.md");
    assert_eq!(sanitize_display_name("C:\\Users\\me\\doc.md"), "doc.md");
    assert_eq!(sanitize_display_name("plain.md"), "plain.md");
    assert_eq!(sanitize_display_name("dir/"), "");
}

#[test]
fn uploads_are_bounded() {
    assert_eq!(bad_request(validate_upload(0)), "uploaded file is empty");
    assert!(validate_upload(MAX_UPLOAD_BYTES).is_ok());
    assert_eq!(bad_request(validate_upload(MAX_UPLOAD_BYTES + 1)), "uploaded file exceeds 10 MiB");
}

#[test]
fn download_disposition_names_the_pdf() {
    assert_eq!(
        download_disposition("job_1", &DownloadQuery { inline: true }),
        "inline; filename=\"job_1.pdf\""
    );
    assert_eq!(
        download_disposition("job_1", &DownloadQuery { inline: false }),
        "attachment; filename=\"job_1.pdf\""
    );
}
