use mdpdf_desktop::process::{
    configured_edge, diagram_file_name, edge_arguments, edge_failure_message, first_lines_of,
    mmdc_arguments, pdf_missing_message, record_pdf_logs, spawn_failure_message, split_lines,
    strip_xml_header, timeout_message, trim_process_error,
};

#[test]
fn lines_follow_str_lines() {
    for text in ["", "a", "a\n", "a\r\nb\r\n", "a\n\nb", "x\r", "\n", "a\rb\nc"] {
        let expected: Vec<String> = text.lines().map(str::to_string).collect();
        assert_eq!(split_lines(text), expected, "{text:?}");
    }
}

#[test]
fn first_lines_keeps_at_most_n() {
    assert_eq!(first_lines_of("1\n2\n3\n", 2), "1\n2");
    assert_eq!(first_lines_of("1\r\n2", 5), "1\n2");
    assert_eq!(first_lines_of("", 3), "");
}

#[test]
fn process_errors_keep_the_first_lines() {
    let stderr = b"e1\ne2\ne3\ne4\ne5\ne6\ne7\ne8\ne9\n";
    assert_eq!(trim_process_error(stderr), "e1\ne2\ne3\ne4\ne5\ne6\ne7\ne8");
    assert_eq!(trim_process_error(b"bad \xff byte"), "bad \u{fffd} byte");
    assert_eq!(
        edge_failure_message(b"x\ny"),
        "Edge PDF renderer failed: x\ny"
    );
    assert_eq!(
        pdf_missing_message(b"1\n2\n3\n4\n5\n6\n7\n8\n9\n10"),
        "Edge exited but PDF was not created: 1\n2\n3\n4\n5\n6\n7\n8"
    );
    assert_eq!(timeout_message(90), "process timed out after 90s");
    assert_eq!(spawn_failure_message("not found"), "failed to spawn process: not found");
}

#[test]
fn xml_declarations_are_stripped() {
    let svg = "<?xml version=\"1.0\"?>\n  <?xml again?>\r\n<svg>\n</svg>\n".to_string();
    assert_eq!(strip_xml_header(svg), "<svg>\n</svg>");
    assert_eq!(strip_xml_header("<svg/>".to_string()), "<svg/>");
}

#[test]
fn printer_arguments_and_logs() {
    let args = edge_arguments("/tmp/p", "/out/a.pdf", "file:///a.html", true);
    assert_eq!(args.len(), 14);
    assert_eq!(args[0], "--headless=new");
    assert_eq!(args[7], "--host-resolver-rules=MAP * 0.0.0.0");
    assert_eq!(args[10], "--user-data-dir=/tmp/p");
    assert_eq!(args[11], "--print-to-pdf=/out/a.pdf");
    assert_eq!(args[12], "--virtual-time-budget=5000");
    assert_eq!(args[13], "file:///a.html");
    assert_eq!(edge_arguments("d", "p", "u", false).len(), 13);
    let mut logs = vec!["start".to_string()];
    record_pdf_logs(&mut logs, true, false, "C:\\edge.exe");
    assert_eq!(
        logs,
        vec![
            "start".to_string(),
            "offline script budget: 5000 ms virtual time".to_string(),
            "offline PDF renderer: C:\\edge.exe".to_string(),
        ]
    );
    assert_eq!(configured_edge(Some("  ")), None);
    assert_eq!(configured_edge(Some("/bin/edge")).as_deref(), Some("/bin/edge"));
    assert_eq!(configured_edge(None), None);
}

#[test]
fn mermaid_cli_arguments() {
    assert_eq!(diagram_file_name(7, "mmd"), "diagram-007.mmd");
    assert_eq!(diagram_file_name(42, "svg"), "diagram-042.svg");
    assert_eq!(diagram_file_name(1234, "svg"), "diagram-1234.svg");
    let args = mmdc_arguments("in.mmd", "out.svg", Some(" "));
    assert_eq!(args, vec!["-i", "in.mmd", "-o", "out.svg", "--quiet", "--backgroundColor", "transparent", "--theme", "default"]);
    let args = mmdc_arguments("in.mmd", "out.svg", Some("cfg.json"));
    assert_eq!(args[9..], ["--puppeteerConfigFile".to_string(), "cfg.json".to_string()]);
}
