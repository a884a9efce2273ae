use cargo_feature_lens::analysis::{Finding, FindingKind, Severity};
use cargo_feature_lens::cli::{
    has_failing_findings, is_remote_analysis, kind_selected, load_builtin_suggestions,
    report_options, strip_subcommand, Cli,
};
use cargo_feature_lens::error::Error;
use cargo_feature_lens::manifest::{hydrate_workspace_dependencies, parse_manifest};
use cargo_feature_lens::metadata::{parse_metadata, Metadata, Package, ResolveNode};
use cargo_feature_lens::remote::{
    is_remote_version_char, probe_manifest, re_root_remote_metadata, validate_remote_crate_name,
    validate_remote_crate_version,
};
use cargo_feature_lens::report::OutputFormat;
use cargo_feature_lens::collections::{StrMap, StrSet};
use cargo_feature_lens::resolver::{
    normalize_feature_reference, record_dependency_sources, record_manifest_feature_sources, resolve,
    FeatureGraph, FeatureNode, FeatureSource,
};
use cargo_feature_lens::source_order::{sort_graph_sources, sort_source_list, source_less};

#[test]
fn parses_optional_dependencies_and_features() {
    let parsed = parse_manifest(
        r#"
        [package]
        name = "demo"

        [features]
        default = ["serde"]
        full = ["dep:serde_json", "serde/derive"]

        [dependencies]
        serde = { version = "1", optional = true, features = ["derive"] }
        serde_json = { version = "1", optional = true }
        "#,
    );

    assert_eq!(parsed.package_name.as_deref(), Some("demo"));
    assert!(parsed.optional_dependencies.contains("serde"));
    assert_eq!(parsed.default_features, vec!["serde"]);
    assert_eq!(parsed.dependency_features.get("serde").unwrap(), &vec!["derive".to_string()]);
}

#[test]
fn parses_target_specific_dependency_sections() {
    let parsed = parse_manifest(
        r#"[package]
name = "target-dependencies"
version = "0.1.0"
edition = "2021"

[target.'cfg(unix)'.dependencies]
nix = { version = "0.27", optional = true, features = ["process"] }

[target.'cfg(windows)'.dependencies]
windows-sys = { version = "0.52", optional = true, features = ["Win32_System_Threading"] }
"#,
    );

    assert!(parsed.optional_dependencies.contains("nix"));
    assert!(parsed.optional_dependencies.contains("windows-sys"));
    assert_eq!(parsed.dependency_features.get("nix").unwrap(), &vec!["process".to_string()]);
    assert_eq!(
        parsed.dependency_features.get("windows-sys").unwrap(),
        &vec!["Win32_System_Threading".to_string()]
    );
}

#[test]
fn parses_workspace_dependency_inheritance() {
    let workspace = parse_manifest(
        r#"[workspace]
members = ["member-a"]

[workspace.dependencies]
serde = { version = "1", features = ["derive"] }
tracing = { version = "0.1", features = ["attributes"] }
"#,
    );
    let mut parsed = parse_manifest(
        r#"[package]
name = "member-a"
version = "0.1.0"

[dependencies]
serde = { workspace = true, optional = true, features = ["rc"] }
tracing = { workspace = true }
"#,
    );
    hydrate_workspace_dependencies(&mut parsed, &workspace.workspace_dependencies);

    assert!(parsed.inherited_workspace_dependencies.contains("serde"));
    assert!(parsed.inherited_workspace_dependencies.contains("tracing"));
    assert!(parsed.optional_dependencies.contains("serde"));
    assert_eq!(
        parsed.dependency_features.get("serde").unwrap(),
        &vec!["derive".to_string(), "rc".to_string()]
    );
    assert_eq!(
        parsed.dependency_features.get("tracing").unwrap(),
        &vec!["attributes".to_string()]
    );
}

#[test]
fn parses_package_feature_map_and_resolve_deps_shape() {
    let metadata = parse_metadata(
        r#"{
          "packages":[{"id":"demo 0.1.0","name":"demo","version":"0.1.0","manifest_path":"/tmp/Cargo.toml","features":{"default":["std"],"std":[]},"dependencies":[{"name":"serde","rename":null,"optional":true,"features":["derive"]}]}],
          "workspace_members":["demo 0.1.0"],
          "resolve":{"nodes":[{"id":"demo 0.1.0","features":["default","std"],"deps":[{"name":"serde","pkg":"serde 1.0.0"}]}]}
        }"#,
    )
    .unwrap();

    assert_eq!(metadata.packages[0].features.get("default").unwrap(), &vec!["std".to_string()]);
    assert!(metadata.packages[0].optional_dependencies.contains("serde"));
    assert_eq!(
        metadata.packages[0].dependency_features.get("serde").unwrap(),
        &vec!["derive".to_string()]
    );
    assert_eq!(metadata.resolve_nodes[0].dependencies, vec!["serde 1.0.0"]);
    assert_eq!(
        metadata.resolve_nodes[0].dependency_names.get("serde").unwrap(),
        "serde 1.0.0"
    );
}

#[test]
fn normalizes_dep_and_namespaced_features() {
    assert_eq!(normalize_feature_reference("dep:serde_json"), "serde_json");
    assert_eq!(normalize_feature_reference("serde/derive"), "derive");
}

#[test]
fn embedded_builtin_suggestions_are_available() {
    let suggestions = load_builtin_suggestions().unwrap();

    assert!(!suggestions.conflicts.is_empty());
    assert!(!suggestions.bloat.is_empty());
    assert!(suggestions
        .default_features
        .iter()
        .any(|rule| rule.crate_name == "serde"));
}

#[test]
fn validates_remote_crate_names() {
    for valid in ["serde", "serde_json", "tokio-util", "cargo-feature-lens"] {
        validate_remote_crate_name(valid).unwrap();
    }

    for invalid in [
        "",
        "serde json",
        "serde/path",
        "../serde",
        "serde\nother",
        "serde\" = \"*",
    ] {
        assert!(
            validate_remote_crate_name(invalid).is_err(),
            "{invalid:?} should be rejected"
        );
    }
}

#[test]
fn validates_remote_crate_versions() {
    for valid in [
        "*",
        "1.0.0",
        "^1.0",
        "~1.2",
        ">= 1.0, < 2.0",
        "1.0.0-alpha.1+build.5",
    ] {
        validate_remote_crate_version(valid).unwrap();
    }

    for invalid in [
        "",
        "latest",
        "1.0/../../evil",
        "1.0\nserde = \"*",
        "1.0\"\nother = \"*",
        "{ version = \"1.0\" }",
    ] {
        assert!(
            validate_remote_crate_version(invalid).is_err(),
            "{invalid:?} should be rejected"
        );
    }
}

fn cli_message(r: Result<(), Error>) -> String {
    match r {
        Err(Error::Cli(m)) => m,
        other => panic!("expected a command-line error, got {other:?}"),
    }
}

#[test]
fn remote_validation_messages() {
    assert_eq!(
        cli_message(validate_remote_crate_name("")),
        "invalid --crate value: crate name cannot be empty"
    );
    assert_eq!(
        cli_message(validate_remote_crate_name("a b")),
        "invalid --crate value \"a b\": use only ASCII letters, numbers, hyphens, or underscores"
    );
    let long = "a".repeat(65);
    assert_eq!(
        cli_message(validate_remote_crate_name(&long)),
        format!("invalid --crate value \"{long}\": crate name is longer than 64 bytes")
    );
    assert!(validate_remote_crate_name(&"a".repeat(64)).is_ok());
    assert_eq!(
        cli_message(validate_remote_crate_version("latest")),
        "invalid --crate-version value \"latest\": version requirement must include a digit or `*`"
    );
    assert_eq!(
        cli_message(validate_remote_crate_version("1/2")),
        "invalid --crate-version value \"1/2\": use only Cargo version requirement characters"
    );
    let long = "1".repeat(129);
    assert_eq!(
        cli_message(validate_remote_crate_version(&long)),
        format!("invalid --crate-version value \"{long}\": version requirement is longer than 128 bytes")
    );
    assert!(is_remote_version_char('^'));
    assert!(!is_remote_version_char('/'));
}

#[test]
fn probe_manifest_depends_on_the_requested_crate() {
    assert_eq!(
        probe_manifest("demo", "1.0"),
        "[package]\nname = \"feature_lens_remote_probe\"\nversion = \"0.0.0\"\nedition = \"2021\"\npublish = false\n\n[dependencies]\n\"demo\" = \"1.0\"\n"
    );
}

fn package(id: &str, name: &str) -> Package {
    Package {
        id: id.to_string(),
        name: name.to_string(),
        version: "1.0.0".to_string(),
        ..Package::default()
    }
}

fn remote_metadata() -> Metadata {
    Metadata {
        packages: vec![
            package("probe 0.0.0", "feature_lens_remote_probe"),
            package("demo 1.0.0", "demo"),
            package("helper 1.0.0", "helper"),
            package("unrelated 1.0.0", "unrelated"),
        ],
        workspace_members: vec!["probe 0.0.0".to_string()],
        resolve_nodes: vec![
            ResolveNode {
                id: "probe 0.0.0".to_string(),
                dependencies: vec!["demo 1.0.0".to_string()],
                ..ResolveNode::default()
            },
            ResolveNode {
                id: "demo 1.0.0".to_string(),
                dependencies: vec!["helper 1.0.0".to_string()],
                ..ResolveNode::default()
            },
            ResolveNode {
                id: "helper 1.0.0".to_string(),
                ..ResolveNode::default()
            },
            ResolveNode {
                id: "unrelated 1.0.0".to_string(),
                ..ResolveNode::default()
            },
        ],
    }
}

#[test]
fn remote_metadata_is_re_rooted_at_requested_crate() {
    let re_rooted = re_root_remote_metadata(remote_metadata(), "demo").unwrap();

    assert_eq!(re_rooted.workspace_members, vec!["demo 1.0.0"]);
    assert_eq!(
        re_rooted
            .packages
            .iter()
            .map(|package| package.name.as_str())
            .collect::<Vec<_>>(),
        vec!["demo", "helper"]
    );
    assert!(re_rooted
        .resolve_nodes
        .iter()
        .all(|node| node.id != "probe 0.0.0"));
}

fn other_message<T: std::fmt::Debug>(r: Result<T, Error>) -> String {
    match r {
        Err(Error::Other(m)) => m,
        other => panic!("expected an error, got {other:?}"),
    }
}

#[test]
fn re_rooting_reports_what_is_missing() {
    assert_eq!(
        other_message(re_root_remote_metadata(remote_metadata(), "absent")),
        "crate `absent` was not resolved from crates.io"
    );
    let mut no_member = remote_metadata();
    no_member.workspace_members.clear();
    assert_eq!(
        other_message(re_root_remote_metadata(no_member, "demo")),
        "remote metadata did not include the probe workspace member"
    );
    let mut no_node = remote_metadata();
    no_node.resolve_nodes.remove(0);
    assert_eq!(
        other_message(re_root_remote_metadata(no_node, "demo")),
        "remote metadata did not include the probe resolve node"
    );
}

#[test]
fn re_rooting_follows_cycles_once() {
    let mut metadata = remote_metadata();
    metadata.resolve_nodes[2].dependencies = vec!["demo 1.0.0".to_string()];
    let re_rooted = re_root_remote_metadata(metadata, "demo").unwrap();
    assert_eq!(
        re_rooted
            .resolve_nodes
            .iter()
            .map(|node| node.id.as_str())
            .collect::<Vec<_>>(),
        vec!["demo 1.0.0", "helper 1.0.0"]
    );
}

fn args(items: &[&str]) -> Vec<Option<String>> {
    items.iter().map(|item| Some(item.to_string())).collect()
}

#[test]
fn parses_direct_binary_flags() {
    let cli = Cli::parse(&args(&["cargo-feature-lens", "--unused", "--crate", "serde"])).unwrap();

    assert!(cli.unused);
    assert_eq!(cli.crate_filter.as_deref(), Some("serde"));
    assert_eq!(cli.manifest_path, None);
    assert_eq!(cli.format, None);
    assert!(!cli.check);
    assert_eq!(cli.fail_on, Severity::Warning);
}

#[test]
fn parses_cargo_subcommand_flags() {
    let cli = Cli::parse(&args(&[
        "cargo-feature-lens",
        "--manifest-path",
        "Cargo.toml",
        "--crate",
        "cargo-feature-lens",
    ]))
    .unwrap();

    assert_eq!(cli.manifest_path, Some(2));
    assert_eq!(cli.crate_filter.as_deref(), Some("cargo-feature-lens"));
}

fn parse_error(items: &[&str]) -> String {
    match Cli::parse(&args(items)) {
        Err(Error::Other(m)) => m,
        other => panic!("expected an error, got {other:?}"),
    }
}

#[test]
fn rejects_missing_value_for_output() {
    assert_eq!(
        parse_error(&["cargo-feature-lens", "--output"]),
        "--output requires a file path"
    );
}

#[test]
fn rejects_missing_value_for_crate() {
    assert_eq!(
        parse_error(&["cargo-feature-lens", "--crate"]),
        "--crate requires a crate name"
    );
}

#[test]
fn rejects_missing_value_for_crate_version() {
    assert_eq!(
        parse_error(&["cargo-feature-lens", "--crate-version"]),
        "--crate-version requires a version requirement"
    );
}

#[test]
fn strips_cargo_subcommand_name() {
    let stripped = strip_subcommand(args(&[
        "cargo-feature-lens",
        "feature-lens",
        "--manifest-path",
        "Cargo.toml",
    ]));
    let cli = Cli::parse(&stripped).unwrap();
    assert_eq!(cli.manifest_path, Some(2));
    assert_eq!(stripped[2].as_deref(), Some("Cargo.toml"));
}

#[test]
fn parses_formats_severities_and_unknown_arguments() {
    let cli = Cli::parse(&args(&[
        "x",
        "--format",
        "mermaid",
        "--fail-on",
        "error",
        "--min-severity",
        "info",
        "-o",
        "out.md",
        "--check",
        "--remote",
        "--crate-version",
        "1",
        "--bloat",
    ]))
    .unwrap();
    assert_eq!(cli.format, Some(OutputFormat::Mermaid));
    assert_eq!(cli.fail_on, Severity::Error);
    assert_eq!(cli.min_severity, Some(Severity::Info));
    assert_eq!(cli.output, Some(8));
    assert!(cli.check && cli.remote && cli.bloat);
    assert_eq!(cli.crate_version.as_deref(), Some("1"));
    assert_eq!(parse_error(&["x", "--format", "xml"]), "unsupported output format `xml`");
    assert_eq!(parse_error(&["x", "--fail-on", "loud"]), "unsupported severity `loud`");
    assert_eq!(parse_error(&["x", "--frobnicate"]), "unknown argument `--frobnicate`");
    let help = Cli::parse(&args(&["x", "--help", "--frobnicate"])).unwrap();
    assert!(help.help);
    let skipped = Cli::parse(&vec![Some("x".to_string()), None, Some("--unused".to_string())]).unwrap();
    assert!(skipped.unused);
}

fn finding(crate_name: &str, kind: FindingKind, severity: Severity) -> Finding {
    Finding {
        crate_name: crate_name.to_string(),
        feature: None,
        kind,
        severity,
        message: String::new(),
    }
}

#[test]
fn check_mode_threshold_and_selection() {
    let findings = vec![
        finding("serde", FindingKind::Unused, Severity::Warning),
        finding("tokio", FindingKind::Bloat, Severity::Info),
    ];
    let mut cli = Cli::parse(&args(&["x", "--check"])).unwrap();
    assert!(has_failing_findings(&findings, &cli, false));
    cli.fail_on = Severity::Error;
    assert!(!has_failing_findings(&findings, &cli, false));
    cli.fail_on = Severity::Info;
    cli.bloat = true;
    assert!(kind_selected(FindingKind::Bloat, &cli));
    assert!(!kind_selected(FindingKind::Unused, &cli));
    assert!(has_failing_findings(&findings, &cli, false));
    cli.crate_filter = Some("serde".to_string());
    assert!(!has_failing_findings(&findings, &cli, false));
    assert!(has_failing_findings(&findings, &cli, true));
}

#[test]
fn run_decisions_follow_the_command_line() {
    let cli = Cli::parse(&args(&["x", "--crate", "serde", "-o", "report.md"])).unwrap();
    assert!(is_remote_analysis(&cli, true, false));
    assert!(!is_remote_analysis(&cli, true, true));
    assert!(!is_remote_analysis(&cli, false, false));
    let local = report_options(&cli, false);
    assert_eq!(local.format, OutputFormat::Markdown);
    assert_eq!(local.crate_filter.as_deref(), Some("serde"));
    let remote = report_options(&cli, true);
    assert_eq!(remote.crate_filter, None);
    let plain = Cli::parse(&args(&["x"])).unwrap();
    assert_eq!(report_options(&plain, false).format, OutputFormat::Terminal);
}

fn strings(items: &[&str]) -> Vec<String> {
    items.iter().map(|item| item.to_string()).collect()
}

fn forwarding_graph(item: &str) -> FeatureGraph {
    let mut available = StrMap::new();
    available.insert("default".to_string(), strings(&[item]));
    let mut graph = FeatureGraph::default();
    graph.nodes.insert(
        "app 0.1.0".to_string(),
        FeatureNode {
            package_id: "app 0.1.0".to_string(),
            name: "app".to_string(),
            active_features: StrSet::from_vec(strings(&["default"])),
            available_features: available,
            dependencies: strings(&["serde 1.0.0"]),
            ..FeatureNode::default()
        },
    );
    graph.nodes.insert(
        "serde 1.0.0".to_string(),
        FeatureNode {
            package_id: "serde 1.0.0".to_string(),
            name: "serde".to_string(),
            active_features: StrSet::from_vec(strings(&["derive"])),
            ..FeatureNode::default()
        },
    );
    graph
}

#[test]
fn records_expansions_that_forward_to_a_dependency_feature() {
    for item in ["serde/derive", "serde?/derive"] {
        let mut graph = forwarding_graph(item);
        record_manifest_feature_sources(&mut graph);
        let serde = graph.get("serde 1.0.0").unwrap();
        let sources = serde.feature_sources.get("derive").unwrap();
        assert_eq!(sources.len(), 1);
        assert_eq!(sources[0].requested_by, "app/default");
        assert_eq!(sources[0].path, strings(&["app", "default", "serde", "derive"]));
        assert!(graph.get("app 0.1.0").unwrap().feature_sources.get("derive").is_none());
    }
    let mut other = forwarding_graph("tokio/full");
    record_manifest_feature_sources(&mut other);
    assert!(other.get("serde 1.0.0").unwrap().feature_sources.get("derive").is_none());
}

fn src(requested_by: &str, path: &[&str]) -> FeatureSource {
    FeatureSource { requested_by: requested_by.to_string(), path: strings(path) }
}

#[test]
fn sorts_sources_by_requester_then_path() {
    assert!(source_less(&src("a", &["z"]), &src("b", &[])));
    assert!(source_less(&src("a", &["x"]), &src("a", &["x", "y"])));
    assert!(source_less(&src("a", &["x", "y"]), &src("a", &["y"])));
    assert!(!source_less(&src("a", &["x"]), &src("a", &["x"])));
    let sorted = sort_source_list(vec![
        src("b", &[]),
        src("a", &["x", "y"]),
        src("a", &["x"]),
        src("b", &[]),
        src("a", &["w"]),
    ]);
    assert_eq!(
        sorted,
        vec![src("a", &["w"]), src("a", &["x"]), src("a", &["x", "y"]), src("b", &[]), src("b", &[])]
    );
}

#[test]
fn sorts_every_source_list_of_the_graph() {
    let mut graph = forwarding_graph("serde/derive");
    let mut sources = StrMap::new();
    sources.insert("derive".to_string(), vec![src("zeta/default", &["zeta"]), src("app/default", &["app"])]);
    graph.nodes.insert(
        "serde 1.0.0".to_string(),
        FeatureNode {
            package_id: "serde 1.0.0".to_string(),
            name: "serde".to_string(),
            feature_sources: sources,
            ..FeatureNode::default()
        },
    );
    sort_graph_sources(&mut graph);
    let serde = graph.get("serde 1.0.0").unwrap();
    assert_eq!(
        serde.feature_sources.get("derive").unwrap(),
        &vec![src("app/default", &["app"]), src("zeta/default", &["zeta"])]
    );
}

#[test]
fn reads_the_package_s_own_features_after_its_dependencies() {
    let raw = r#"{"packages":[{"id":"p 1","name":"p","version":"1","dependencies":[{"name":"d","features":["x"]},{"name":"e"}],"features":{"default":["std"],"std":[]}}]}"#;
    let metadata = parse_metadata(raw).unwrap();
    assert_eq!(metadata.packages.len(), 1);
    let package = &metadata.packages[0];
    assert_eq!(package.features.len(), 2);
    assert_eq!(package.features.get("default").unwrap(), &vec!["std".to_string()]);
    assert_eq!(package.features.get("std").unwrap(), &Vec::<String>::new());
    assert_eq!(package.dependency_features.len(), 1);
    assert_eq!(package.dependency_features.get("d").unwrap(), &vec!["x".to_string()]);
}

#[test]
fn sorts_strings_keeping_repeats() {
    let sorted = cargo_feature_lens::collections::sort_strings(strings(&["b 1", "a 1", "b 1", "a 0"]));
    assert_eq!(sorted, strings(&["a 0", "a 1", "b 1", "b 1"]));
}

fn cyclic_metadata() -> Metadata {
    let package = |id: &str, name: &str| Package {
        id: id.to_string(),
        name: name.to_string(),
        version: "0.1.0".to_string(),
        ..Package::default()
    };
    let node = |id: &str, features: &[&str], deps: &[&str]| ResolveNode {
        id: id.to_string(),
        features: strings(features),
        dependencies: strings(deps),
        ..ResolveNode::default()
    };
    Metadata {
        packages: vec![package("a 0.1.0", "a"), package("b 0.1.0", "b")],
        workspace_members: strings(&["a 0.1.0"]),
        resolve_nodes: vec![
            node("a 0.1.0", &["fa"], &["b 0.1.0"]),
            node("b 0.1.0", &["fb"], &["a 0.1.0", "a 0.1.0"]),
        ],
    }
}

#[test]
fn walks_a_dependency_cycle_round_once() {
    let metadata = cyclic_metadata();
    let manifests = vec![parse_manifest(""), parse_manifest("")];
    let graph = resolve(&metadata, &manifests);
    let a = graph.get("a 0.1.0").unwrap();
    let b = graph.get("b 0.1.0").unwrap();
    assert_eq!(a.dependencies, strings(&["b 0.1.0"]));
    assert_eq!(b.dependencies, strings(&["a 0.1.0", "a 0.1.0"]));
    assert_eq!(
        b.feature_sources.get("fb").unwrap(),
        &vec![src("a", &["a", "b"]), src("b", &["b"])]
    );
    assert_eq!(
        a.feature_sources.get("fa").unwrap(),
        &vec![src("a", &["a"]), src("b", &["a", "b", "a"]), src("b", &["a", "b", "a"])]
    );
}

#[test]
fn records_dependency_sources_on_a_cyclic_graph() {
    let metadata = cyclic_metadata();
    let manifests = vec![parse_manifest(""), parse_manifest("")];
    let mut graph = resolve(&metadata, &manifests);
    let before = graph.get("b 0.1.0").unwrap().feature_sources.get("fb").unwrap().len();
    record_dependency_sources(&mut graph, &metadata.resolve_nodes);
    let after = graph.get("b 0.1.0").unwrap().feature_sources.get("fb").unwrap().len();
    assert_eq!(after, before + 1);
}
