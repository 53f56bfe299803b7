use norgolith::docs::{
    build_args, build_report, check_args, check_fallback_report, find_resource, lines, mime_type,
    replies, route_method, route_tool, search_docs, Method, Tool,
};

fn docs() -> Vec<(String, String)> {
    vec![
        ("norgolith://docs/intro".to_string(), "Welcome\n  Install the Tool  \nnothing".to_string()),
        ("norgolith://src/main.rs".to_string(), "fn main() {}\r\n// tool here\n".to_string()),
    ]
}

#[test]
fn lines_split_like_str_lines() {
    let l: Vec<String> = lines("a\r\nb\n\nc\n").into_iter().map(|v| v.into_iter().collect()).collect();
    assert_eq!(l, vec!["a", "b", "", "c"]);
    assert!(lines("").is_empty());
    let l2: Vec<String> = lines("x\r").into_iter().map(|v| v.into_iter().collect()).collect();
    assert_eq!(l2, vec!["x\r"]);
}

#[test]
fn search_finds_lines_case_insensitively() {
    let r = search_docs(&docs(), "TOOL");
    assert_eq!(r, "norgolith://docs/intro:2: Install the Tool\nnorgolith://src/main.rs:2: // tool here");
}

#[test]
fn search_without_query_or_results() {
    assert_eq!(search_docs(&docs(), ""), "No query provided.");
    assert_eq!(search_docs(&docs(), "ZZZ"), "No results found for: zzz");
}

#[test]
fn search_caps_results() {
    let text = (0..60).map(|i| format!("hit {}", i)).collect::<Vec<_>>().join("\n");
    let d = vec![("u".to_string(), text)];
    let r = search_docs(&d, "hit");
    assert!(r.starts_with("50 (showing first 50 results)\n\nu:1: hit 0\n"));
    assert!(r.ends_with("u:50: hit 49"));
}

#[test]
fn long_snippets_are_cut() {
    let long = "x".repeat(130);
    let d = vec![("u".to_string(), long)];
    let r = search_docs(&d, "x");
    assert_eq!(r, format!("u:1: {}...", "x".repeat(120)));
}

#[test]
fn methods_and_tools_are_routed() {
    assert_eq!(route_method("initialize"), Method::Initialize);
    assert_eq!(route_method("tools/call"), Method::ToolsCall);
    assert_eq!(route_method("bogus"), Method::Unknown);
    assert!(replies(Method::Ping, true));
    assert!(!replies(Method::Ping, false));
    assert!(!replies(Method::Initialized, true));
    assert!(matches!(route_tool("run_build"), Ok(Tool::RunBuild)));
    assert_eq!(route_tool("x").unwrap_err(), "Unknown tool: x");
}

#[test]
fn resources() {
    assert_eq!(mime_type("norgolith://src/lib.rs"), "text/x-rust");
    assert_eq!(mime_type("norgolith://docs/a"), "text/x-norg");
    let uris = vec!["a".to_string(), "b".to_string()];
    assert_eq!(find_resource(&uris, "b"), Ok(1));
    assert_eq!(find_resource(&uris, "c"), Err("Resource not found: c".to_string()));
}

#[test]
fn tool_arguments_and_reports() {
    assert_eq!(check_args(Some("site")), vec!["-d", "site", "check", "--format", "json"]);
    assert_eq!(check_args(None), vec!["check", "--format", "json"]);
    assert_eq!(build_args(None, true), vec!["build", "--no-minify"]);
    assert_eq!(build_args(Some("s"), false), vec!["-d", "s", "build"]);
    assert_eq!(
        build_report("exit status: 0", " out \n", "  "),
        "lith build exited with exit status: 0\n\nstdout:\nout"
    );
    assert_eq!(
        build_report("exit status: 1", "o", " err "),
        "lith build exited with exit status: 1\n\nstdout:\no\n\nstderr:\nerr"
    );
    assert!(check_fallback_report("exit status: 2", "a", "b").ends_with("stdout:\na\nstderr:\nb"));
}
