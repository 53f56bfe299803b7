use norgolith::plugin::{
    core_version_str, filesystem_label, scaffold_cargo, scaffold_lib, scaffold_manifest, timeout_label,
    default_priority, default_timeout_ms, hook_reply, install_source, parse_hook_response,
    parse_status_response, validate_plugin_name, Capabilities, FilesystemAccess, HookConfig,
    InstallSource, PluginManifest, PluginMetadata, CORE_ABI_VERSION, HOOK_POST_BUILD,
    HOOK_POST_CONVERT, HOOK_POST_RENDER, HOOK_PRE_BUILD,
};

#[test]
fn test_parse_hook_response_with_html() {
    let json = r#"{"html": "<h1>Hello</h1>"}"#;
    assert_eq!(
        parse_hook_response("test_plugin", json).unwrap(),
        Some("<h1>Hello</h1>".to_string())
    );
}

#[test]
fn test_parse_hook_response_null_html() {
    let json = r#"{"html": null}"#;
    assert_eq!(parse_hook_response("test_plugin", json).unwrap(), None);
}

#[test]
fn test_parse_hook_response_error() {
    let json = r#"{"status": "error", "message": "something broke"}"#;
    assert!(parse_hook_response("test_plugin", json).is_err());
}

#[test]
fn hook_error_message_names_plugin_and_message() {
    let json = r#"{"status": "error", "message": "something broke"}"#;
    assert_eq!(
        parse_hook_response("p", json).unwrap_err(),
        "plugin 'p' returned error: something broke"
    );
    assert_eq!(
        parse_status_response("p", r#"{"status": "error"}"#).unwrap_err(),
        "plugin 'p' returned error: unknown error"
    );
    assert!(parse_status_response("p", r#"{"status": "ok"}"#).is_ok());
}

#[test]
fn invalid_json_reply_is_an_error() {
    let e = parse_hook_response("p", "not json").unwrap_err();
    assert!(e.starts_with("Invalid response from plugin 'p': "));
    assert!(parse_status_response("p", "{").is_err());
}

fn manifest(hooks: HookConfig, abi: u32, req: &str) -> PluginManifest {
    PluginManifest {
        plugin: PluginMetadata { name: "demo".to_string(), norgolith: req.to_string(), abi },
        hooks,
        capabilities: Capabilities { filesystem: FilesystemAccess::NoAccess, network: false },
        timeout_ms: default_timeout_ms(),
        priority: default_priority(),
    }
}

#[test]
fn hook_mask_and_declared_hooks_agree() {
    let h = HookConfig { pre_build: true, post_convert: false, post_render: true, post_build: false };
    assert_eq!(h.to_mask(), HOOK_PRE_BUILD | HOOK_POST_RENDER);
    assert_eq!(h.declared_hooks(), vec!["pre_build", "post_render"]);
    let all = HookConfig { pre_build: true, post_convert: true, post_render: true, post_build: true };
    assert_eq!(all.to_mask(), HOOK_PRE_BUILD | HOOK_POST_CONVERT | HOOK_POST_RENDER | HOOK_POST_BUILD);
    assert_eq!(all.to_mask(), 15);
    let none = HookConfig { pre_build: false, post_convert: false, post_render: false, post_build: false };
    assert_eq!(none.to_mask(), 0);
    assert!(none.declared_hooks().is_empty());
}

#[test]
fn abi_mismatch_is_refused() {
    let h = HookConfig { pre_build: false, post_convert: false, post_render: false, post_build: false };
    assert!(manifest(h, CORE_ABI_VERSION, ">=0.1.0").validate_abi().is_ok());
    let e = manifest(h, CORE_ABI_VERSION + 1, ">=0.1.0").validate_abi().unwrap_err();
    assert!(e.contains("demo"));
}

#[test]
fn semver_requirement_is_checked_against_core() {
    let h = HookConfig { pre_build: false, post_convert: false, post_render: false, post_build: false };
    assert!(manifest(h, 1, ">=0.1.0").validate_semver().is_ok());
    assert!(manifest(h, 1, ">=99.0.0").validate_semver().is_err());
    assert!(manifest(h, 1, "not a requirement").validate_semver().is_err());
}

#[test]
fn plugin_names_are_checked() {
    assert!(validate_plugin_name("my-plugin").is_ok());
    assert_eq!(validate_plugin_name("").unwrap_err(), "Plugin name cannot be empty");
    assert_eq!(
        validate_plugin_name("a/b").unwrap_err(),
        "Invalid plugin name: 'a/b' (no path separators or '..' allowed)"
    );
    assert!(validate_plugin_name("..").is_err());
    assert!(validate_plugin_name("c:x").is_err());
    assert!(validate_plugin_name("a\\b").is_err());
}

#[test]
fn install_sources_are_told_apart() {
    assert!(matches!(install_source("https://x/y.git", true), InstallSource::Git { url } if url == "https://x/y.git"));
    assert!(matches!(install_source("./local", false), InstallSource::Local { path } if path == "./local"));
    assert!(matches!(install_source("/abs", false), InstallSource::Local { .. }));
    match install_source("name@1.2.3", false) {
        InstallSource::CratesIo { name, version } => {
            assert_eq!(name, "name");
            assert_eq!(version, Some("1.2.3".to_string()));
        }
        _ => panic!("expected crates.io"),
    }
    match install_source("plain", false) {
        InstallSource::CratesIo { name, version } => {
            assert_eq!(name, "plain");
            assert_eq!(version, None);
        }
        _ => panic!("expected crates.io"),
    }
}

#[test]
fn listing_labels() {
    assert_eq!(filesystem_label(FilesystemAccess::NoAccess), "none");
    assert_eq!(filesystem_label(FilesystemAccess::ReadWrite), "read-write");
    assert_eq!(timeout_label(10000), "10s");
    assert_eq!(timeout_label(999), "0s");
}

#[test]
fn scaffolds_name_the_plugin() {
    let m = scaffold_manifest("demo", core_version_str());
    assert!(m.starts_with("[plugin]\nname = \"demo\"\nnorgolith = \">=1.0.1\"\nabi = 1\n"));
    assert!(m.ends_with("timeout_ms = 10000\npriority = 100\n"));
    assert!(scaffold_cargo("demo").contains("name = \"demo\""));
    assert!(scaffold_cargo("demo").contains("crate-type = [\"cdylib\"]"));
    assert!(scaffold_lib("demo").contains("register_plugin!(\"demo\")"));
}

#[test]
fn scaffolded_manifest_parses_back() {
    let m = scaffold_manifest("demo", core_version_str());
    let v: toml::Value = toml::from_str(&m).unwrap();
    assert_eq!(v["plugin"]["name"].as_str(), Some("demo"));
    assert_eq!(v["plugin"]["abi"].as_integer(), Some(CORE_ABI_VERSION as i64));
    assert_eq!(v["capabilities"]["filesystem"].as_str(), Some("none"));
}

#[test]
fn declared_hooks_agree_with_mask() {
    for bits in 0u32..16 {
        let h = HookConfig {
            pre_build: bits & 1 != 0,
            post_convert: bits & 2 != 0,
            post_render: bits & 4 != 0,
            post_build: bits & 8 != 0,
        };
        let names = h.declared_hooks();
        let mask = h.to_mask();
        assert_eq!(names.len(), mask.count_ones() as usize);
        for (name, bit) in [
            ("pre_build", HOOK_PRE_BUILD),
            ("post_convert", HOOK_POST_CONVERT),
            ("post_render", HOOK_POST_RENDER),
            ("post_build", HOOK_POST_BUILD),
        ] {
            assert_eq!(names.contains(&name), mask & bit != 0);
        }
    }
}

#[test]
fn hook_reply_decides_on_parsed_fields() {
    assert_eq!(
        hook_reply("p", Some("error".into()), Some("boom".into()), Some("<p/>".into())),
        Err("plugin 'p' returned error: boom".to_string())
    );
    assert_eq!(
        hook_reply("p", Some("error".into()), None, None),
        Err("plugin 'p' returned error: unknown error".to_string())
    );
    assert_eq!(hook_reply("p", Some("ok".into()), Some("x".into()), Some("<p/>".into())), Ok(Some("<p/>".to_string())));
    assert_eq!(hook_reply("p", None, None, None), Ok(None));
}
