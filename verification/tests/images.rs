use mdpdf_desktop::images::{
    admit_image, InlineBudget, local_replacement, resolve_local_image, settled_replacement, classify_source, data_url, image_mime, problem_warning, remote_image_warning,
    rewrite_images, scan_images, ImageProblem, ImageSource, BLOCKED_PIXEL, MAX_INLINE_TOTAL,
};

#[test]
fn image_sources_are_found_and_decoded() {
    let html = "<p><IMG alt=\"a\" src=\"img/a&amp;b.png\"> <img src=\"https://x/y.png\"/></p>";
    let scan = scan_images(html).unwrap();
    let refs = scan.sources();
    assert_eq!(refs.len(), 2);
    assert_eq!(refs[0].raw, "img/a&b.png");
    assert_eq!(refs[1].raw, "https://x/y.png");
    let chars: Vec<char> = html.chars().collect();
    let text: String = chars[refs[0].start..refs[0].end].iter().collect();
    assert_eq!(text, "img/a&amp;b.png");
    let page = rewrite_images(&scan, &vec!["data:image/png;base64,AA==".to_string(), BLOCKED_PIXEL.to_string()]);
    assert_eq!(
        page,
        format!("<p><IMG alt=\"a\" src=\"data:image/png;base64,AA==\"> <img src=\"{BLOCKED_PIXEL}\"/></p>")
    );
}

#[test]
fn sources_are_classified() {
    assert!(matches!(classify_source("data:image/png;base64,x"), ImageSource::Data));
    assert!(matches!(classify_source("http://a/b"), ImageSource::Remote));
    assert!(matches!(classify_source("https://a/b"), ImageSource::Remote));
    assert!(matches!(classify_source("img/a.png"), ImageSource::Local));
    assert!(matches!(classify_source("HTTP://a"), ImageSource::Local));
    assert_eq!(remote_image_warning("http://a"), "remote image blocked in offline mode: http://a");
    assert_eq!(problem_warning(&ImageProblem::NotFound, "a.png"), "local image not found: a.png");
    assert_eq!(
        problem_warning(&ImageProblem::TooLarge, "b.png"),
        "local image exceeds inline size limit: b.png"
    );
}

#[test]
fn inline_budget() {
    assert!(admit_image(10, 0, MAX_INLINE_TOTAL).is_ok());
    assert!(admit_image(10 * 1024 * 1024 + 1, 0, MAX_INLINE_TOTAL).is_err());
    assert!(admit_image(10, MAX_INLINE_TOTAL - 10, MAX_INLINE_TOTAL).is_ok());
    assert!(admit_image(11, MAX_INLINE_TOTAL - 10, MAX_INLINE_TOTAL).is_err());
    assert!(admit_image(1, u64::MAX, MAX_INLINE_TOTAL).is_err());
}

#[test]
fn mime_types_and_data_urls() {
    assert_eq!(image_mime(Some("PNG")).as_deref(), Some("image/png"));
    assert_eq!(image_mime(Some("jpeg")).as_deref(), Some("image/jpeg"));
    assert_eq!(image_mime(Some("Svg")).as_deref(), Some("image/svg+xml"));
    assert_eq!(image_mime(Some("tiff")), None);
    assert_eq!(image_mime(None), None);
    assert_eq!(data_url("image/gif", b"GIF"), "data:image/gif;base64,R0lG");
    assert_eq!(data_url("image/png", &[0u8, 1]), "data:image/png;base64,AAE=");
}

#[test]
fn local_addresses_resolve_against_the_document_folder() {
    assert_eq!(
        resolve_local_image("file:///w/docs/", "img/a%20b.png").unwrap(),
        "file:///w/docs/img/a%20b.png"
    );
    assert_eq!(resolve_local_image("file:///w/docs/", "../x.png").unwrap(), "file:///w/x.png");
    assert!(matches!(
        resolve_local_image("file:///w/docs/", "ftp://host/x.png"),
        Err(ImageProblem::NonLocal)
    ));
    assert!(matches!(
        resolve_local_image("file:///w/docs/", "http://[::1"),
        Err(ImageProblem::InvalidPath)
    ));
}

#[test]
fn replacements_per_kind() {
    let (kept, warning) = settled_replacement("data:image/png;base64,AA==").unwrap();
    assert_eq!(kept, "data:image/png;base64,AA==");
    assert_eq!(warning, None);
    let (blocked, warning) = settled_replacement("https://x/y.png").unwrap();
    assert_eq!(blocked, BLOCKED_PIXEL);
    assert_eq!(warning.as_deref(), Some("remote image blocked in offline mode: https://x/y.png"));
    assert!(settled_replacement("a.png").is_none());
    let (inlined, warning) = local_replacement("a.png", Ok("data:image/png;base64,AA==".to_string()));
    assert_eq!(inlined, "data:image/png;base64,AA==");
    assert_eq!(warning, None);
    let (blocked, warning) = local_replacement("a.png", Err(ImageProblem::OutsideWorkspace));
    assert_eq!(blocked, BLOCKED_PIXEL);
    assert_eq!(warning.as_deref(), Some("image outside workspace blocked: a.png"));
}

#[test]
fn inline_budget_tracks_inlined_bytes() {
    let mut budget = InlineBudget::new();
    assert_eq!(budget.check(10, Some("PNG")).unwrap(), "image/png");
    assert!(matches!(budget.check(10, Some("txt")), Err(ImageProblem::Unsupported)));
    assert!(matches!(budget.check(10, None), Err(ImageProblem::Unsupported)));
    assert!(matches!(budget.check(10 * 1024 * 1024 + 1, Some("png")), Err(ImageProblem::TooLarge)));
    budget.spend(MAX_INLINE_TOTAL - 5);
    assert_eq!(budget.used_bytes(), MAX_INLINE_TOTAL - 5);
    assert!(budget.check(5, Some("gif")).is_ok());
    assert!(matches!(budget.check(6, Some("txt")), Err(ImageProblem::TooLarge)));
}
