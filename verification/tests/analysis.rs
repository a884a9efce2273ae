use cargo_feature_lens::analysis::builtin::{load, BUILTIN_SUGGESTIONS_JSON};
use cargo_feature_lens::analysis::source_usage::{
    extract_feature_references, is_skipped_entry_name, SourceUsage, SourceUsageClass,
};
use cargo_feature_lens::analysis::{
    conflicts, default_features, duplication, parse_local_suggestions, parse_suggestions,
    run_all, unused, AnalysisContext, BloatRule, ConflictRule, DefaultFeatureRule, Finding,
    FindingKind, Severity, Suggestions,
};
use cargo_feature_lens::collections::{StrMap, StrSet};
use cargo_feature_lens::resolver::{FeatureGraph, FeatureNode, FeatureSource};

fn set(items: &[&str]) -> StrSet {
    StrSet::from_vec(items.iter().map(|item| item.to_string()).collect())
}

fn set_items(s: &StrSet) -> Vec<String> {
    s.to_vec()
}

fn graph_of(nodes: Vec<FeatureNode>) -> FeatureGraph {
    let mut graph = FeatureGraph::default();
    for node in nodes {
        graph.nodes.insert(node.package_id.clone(), node);
    }
    graph
}

#[test]
fn embedded_builtin_rules_are_available() {
    let suggestions = load();

    assert!(!suggestions.conflicts.is_empty());
    assert!(!suggestions.bloat.is_empty());
    assert!(suggestions
        .default_features
        .iter()
        .any(|rule| rule.crate_name == "serde"));
}

fn context_with(active_features: &[&str], rules: Vec<ConflictRule>) -> (FeatureGraph, Suggestions) {
    let graph = graph_of(vec![FeatureNode {
        package_id: "reqwest 0.0.0".to_string(),
        name: "reqwest".to_string(),
        version: "0.0.0".to_string(),
        active_features: set(active_features),
        ..FeatureNode::default()
    }]);
    (
        graph,
        Suggestions {
            conflicts: rules,
            ..Suggestions::default()
        },
    )
}

fn reqwest_tls_rule(severity: Severity) -> ConflictRule {
    ConflictRule {
        crate_name: "reqwest".to_string(),
        features: vec!["rustls-tls".to_string(), "native-tls".to_string()],
        severity,
        message: "TLS backends are mutually exclusive.".to_string(),
    }
}

#[test]
fn emits_conflict_when_all_rule_features_are_active() {
    let (graph, suggestions) = context_with(
        &["native-tls", "rustls-tls"],
        vec![reqwest_tls_rule(Severity::Error)],
    );
    let context = AnalysisContext::new(&graph, &suggestions);

    let findings = conflicts::analyze(&context);

    assert_eq!(findings.len(), 1);
    assert_eq!(findings[0].kind, FindingKind::Conflict);
    assert_eq!(findings[0].severity, Severity::Error);
    assert_eq!(findings[0].feature.as_deref(), Some("native-tls, rustls-tls"));
    assert_eq!(findings[0].message, "TLS backends are mutually exclusive.");
}

#[test]
fn skips_conflict_when_only_one_rule_feature_is_active() {
    let (graph, suggestions) = context_with(&["native-tls"], vec![reqwest_tls_rule(Severity::Error)]);
    let context = AnalysisContext::new(&graph, &suggestions);

    assert!(conflicts::analyze(&context).is_empty());
}

#[test]
fn preserves_lower_severity_conflict_rules() {
    let (graph, suggestions) = context_with(
        &["native-tls", "rustls-tls"],
        vec![reqwest_tls_rule(Severity::Warning)],
    );
    let context = AnalysisContext::new(&graph, &suggestions);

    let findings = conflicts::analyze(&context);

    assert_eq!(findings[0].severity, Severity::Warning);
}

#[test]
fn ignores_malformed_rules_with_fewer_than_two_distinct_features() {
    let (graph, suggestions) = context_with(
        &["native-tls"],
        vec![ConflictRule {
            crate_name: "reqwest".to_string(),
            features: vec!["native-tls".to_string(), "native-tls".to_string()],
            severity: Severity::Error,
            message: "not enough distinct features".to_string(),
        }],
    );
    let context = AnalysisContext::new(&graph, &suggestions);

    assert!(conflicts::analyze(&context).is_empty());
}

fn source(requested_by: &str, path: &[&str]) -> FeatureSource {
    FeatureSource {
        requested_by: requested_by.to_string(),
        path: path.iter().map(|item| item.to_string()).collect(),
    }
}

fn graph_with_sources(sources: Vec<FeatureSource>) -> FeatureGraph {
    let mut feature_sources = StrMap::new();
    feature_sources.insert("shared".to_string(), sources);
    graph_of(vec![FeatureNode {
        package_id: "path+file:///fixture-leaf#0.1.0".to_string(),
        name: "fixture-leaf".to_string(),
        version: "0.1.0".to_string(),
        active_features: set(&["shared"]),
        feature_sources,
        ..FeatureNode::default()
    }])
}

#[test]
fn emits_one_duplicate_for_two_distinct_requesters() {
    let graph = graph_with_sources(vec![
        source("fixture-leaf", &["fixture-leaf"]),
        source("mid-a/fixture-leaf", &["mid-a", "fixture-leaf", "shared"]),
        source("mid-b/fixture-leaf", &["mid-b", "fixture-leaf", "shared"]),
    ]);
    let suggestions = Suggestions::default();
    let context = AnalysisContext::new(&graph, &suggestions);

    let findings = duplication::analyze(&context);

    assert_eq!(findings.len(), 1);
    let finding = &findings[0];
    assert_eq!(finding.crate_name, "fixture-leaf");
    assert_eq!(finding.feature.as_deref(), Some("shared"));
    assert_eq!(finding.kind, FindingKind::Duplicate);
    assert_eq!(finding.severity, Severity::Warning);
    assert_eq!(
        finding.message,
        "feature `shared` is requested through multiple lineages: mid-a -> fixture-leaf -> shared; mid-b -> fixture-leaf -> shared"
    );
}

#[test]
fn does_not_emit_duplicate_for_one_requester() {
    let graph = graph_with_sources(vec![
        source("fixture-leaf", &["fixture-leaf"]),
        source("mid-a/fixture-leaf", &["mid-a", "fixture-leaf", "shared"]),
    ]);
    let suggestions = Suggestions::default();
    let context = AnalysisContext::new(&graph, &suggestions);

    assert!(duplication::analyze(&context).is_empty());
}

#[test]
fn does_not_emit_duplicate_for_repeated_identical_sources() {
    let graph = graph_with_sources(vec![
        source("fixture-leaf", &["fixture-leaf"]),
        source("mid-a/fixture-leaf", &["mid-a", "fixture-leaf", "shared"]),
        source("mid-a/fixture-leaf", &["mid-a", "fixture-leaf", "shared"]),
    ]);
    let suggestions = Suggestions::default();
    let context = AnalysisContext::new(&graph, &suggestions);

    assert!(duplication::analyze(&context).is_empty());
}

#[test]
fn parses_all_suggestion_rule_kinds() {
    let suggestions = parse_suggestions(BUILTIN_SUGGESTIONS_JSON);

    assert!(!suggestions.conflicts.is_empty());
    assert!(!suggestions.bloat.is_empty());
    assert!(suggestions.default_features.len() >= 3);
    assert!(suggestions.default_features.iter().any(|rule| {
        rule.crate_name == "log"
            && rule.severity == Severity::Info
            && rule.reason.contains("no-std logger")
    }));
    assert!(suggestions
        .default_features
        .iter()
        .any(|rule| rule.crate_name == "reqwest"));
    assert!(suggestions
        .default_features
        .iter()
        .any(|rule| rule.crate_name == "serde"));
}

#[test]
fn ignores_default_feature_like_objects_outside_suggest_opt_out() {
    let suggestions = parse_suggestions(
        r#"{
            "conflicts": [],
            "bloat": [
              {"crate": "demo", "feature": "full", "reason": "not a default rule", "message": "heavy"}
            ],
            "default_features": {"suggest_opt_out": []}
        }"#,
    );

    assert!(suggestions.default_features.is_empty());
}

fn log_node(active: &[&str]) -> FeatureNode {
    FeatureNode {
        package_id: "log 0.4.0".to_string(),
        name: "log".to_string(),
        version: "0.4.0".to_string(),
        active_features: set(active),
        ..FeatureNode::default()
    }
}

fn log_default_rule() -> Suggestions {
    Suggestions {
        default_features: vec![DefaultFeatureRule {
            crate_name: "log".to_string(),
            severity: Severity::Info,
            reason: "review log defaults".to_string(),
        }],
        ..Suggestions::default()
    }
}

#[test]
fn emits_default_feature_finding_when_default_is_active() {
    let graph = graph_of(vec![log_node(&["default", "std"])]);
    let suggestions = log_default_rule();

    let findings = default_features(&AnalysisContext::new(&graph, &suggestions));

    assert_eq!(findings.len(), 1);
    assert_eq!(findings[0].kind, FindingKind::DefaultFeature);
    assert_eq!(findings[0].severity, Severity::Info);
    assert_eq!(findings[0].feature.as_deref(), Some("default"));
    assert_eq!(findings[0].message, "review log defaults");
}

#[test]
fn skips_default_feature_finding_when_default_is_disabled() {
    let graph = graph_of(vec![log_node(&["std"])]);
    let suggestions = log_default_rule();

    let findings = default_features(&AnalysisContext::new(&graph, &suggestions));

    assert!(findings.is_empty());
}

#[test]
fn parses_local_toml_rules() {
    let suggestions = parse_local_suggestions(
        r#"
[[conflicts]]
crate = "reqwest"
features = ["native-tls", "rustls-tls"]
severity = "error"
message = "exclusive"

[[bloat]]
crate = "serde"
feature = "derive"
pulls_in = ["syn", "quote"]
message = "macro heft"

[[default_features.suggest_opt_out]]
crate = "log"
reason = "trim defaults"
"#,
    )
    .expect("local rules parse");
    assert_eq!(suggestions.conflicts.len(), 1);
    assert_eq!(suggestions.bloat.len(), 1);
    assert_eq!(suggestions.default_features.len(), 1);
}

#[test]
fn merges_suggestions_additively() {
    let mut left = Suggestions {
        conflicts: vec![ConflictRule {
            crate_name: "a".to_string(),
            features: vec!["x".to_string(), "y".to_string()],
            severity: Severity::Warning,
            message: "m".to_string(),
        }],
        ..Suggestions::default()
    };
    let right = Suggestions {
        bloat: vec![BloatRule {
            crate_name: "b".to_string(),
            feature: "f".to_string(),
            pulls_in: vec![],
            severity: Severity::Info,
            message: "bloat".to_string(),
        }],
        ..Suggestions::default()
    };
    left.extend(right);
    assert_eq!(left.conflicts.len(), 1);
    assert_eq!(left.bloat.len(), 1);
}

#[test]
fn rejects_invalid_local_severity() {
    let err = parse_local_suggestions(
        r#"
[[conflicts]]
crate = "reqwest"
features = ["native-tls", "rustls-tls"]
severity = "bogus"
message = "exclusive"
"#,
    )
    .expect_err("should fail");
    assert!(err.contains("invalid `severity`: bogus"));
}

#[test]
fn rejects_malformed_local_toml() {
    let err = parse_local_suggestions(
        r#"
[[conflicts]]
crate = reqwest
"#,
    )
    .expect_err("should fail");
    assert!(err.contains("unsupported value"));
}

#[test]
fn extracts_simple_cfg_and_cfg_macro_features() {
    let raw = r#"
#[cfg(feature = "foo")]
const FOO: bool = cfg!(feature = "bar");
"#;
    let features = extract_feature_references(raw);
    assert_eq!(set_items(&features), vec!["bar".to_string(), "foo".to_string()]);
}

#[test]
fn extracts_nested_any_and_all_cfg_features() {
    let raw = r#"
#[cfg(any(feature = "foo", feature = "bar"))]
#[cfg(all(feature = "baz", unix))]
fn item() {}
"#;
    let features = extract_feature_references(raw);
    assert_eq!(
        set_items(&features),
        vec!["bar".to_string(), "baz".to_string(), "foo".to_string()]
    );
}

#[test]
fn ignores_comments_doc_examples_and_unrelated_string_literals() {
    let raw = r##"
// #[cfg(feature = "fake")]
/// Example: #[cfg(feature = "fake_doc")]
/* cfg!(feature = "fake_block") */
let text = "feature = \"fake\"";
let cfg = "#[cfg(feature = \"also_fake\")]";
"##;
    assert!(extract_feature_references(raw).is_empty());
}

fn lint_only_graph(manifest_path: &str) -> FeatureGraph {
    graph_of(vec![FeatureNode {
        package_id: "fixture 0.1.0".to_string(),
        name: "fixture".to_string(),
        version: "0.1.0".to_string(),
        manifest_path: manifest_path.to_string(),
        active_features: set(&["lint_only"]),
        ..FeatureNode::default()
    }])
}

#[test]
fn suppresses_unused_when_feature_is_used_in_src_cfg() {
    let path = "tests/fixtures/unused-source-used/Cargo.toml";
    let graph = lint_only_graph(path);
    let mut usage = StrMap::new();
    let mut scanned = SourceUsage::default();
    scanned.record(
        SourceUsageClass::Normal,
        &extract_feature_references("#[cfg(feature = \"lint_only\")]\nfn lint() {}\n"),
    );
    usage.insert(path.to_string(), scanned);

    let suggestions = Suggestions::default();
    let context = AnalysisContext::new(&graph, &suggestions);
    assert!(unused::analyze(&context, &usage).is_empty());
}

#[test]
fn keeps_unused_when_feature_not_referenced_in_source() {
    let path = "tests/fixtures/unused-source-unused/Cargo.toml";
    let graph = lint_only_graph(path);
    let mut usage = StrMap::new();
    usage.insert(path.to_string(), SourceUsage::default());

    let suggestions = Suggestions::default();
    let context = AnalysisContext::new(&graph, &suggestions);
    let findings = unused::analyze(&context, &usage);
    assert_eq!(findings.len(), 1);
    assert_eq!(findings[0].kind, FindingKind::Unused);
}

#[test]
fn unused_message_names_the_feature() {
    let graph = lint_only_graph("a/Cargo.toml");
    let usage = StrMap::new();
    let suggestions = Suggestions::default();
    let context = AnalysisContext::new(&graph, &suggestions);
    let findings = unused::analyze(&context, &usage);
    assert_eq!(findings.len(), 1);
    assert_eq!(findings[0].crate_name, "fixture");
    assert_eq!(findings[0].feature.as_deref(), Some("lint_only"));
    assert_eq!(findings[0].severity, Severity::Warning);
    assert_eq!(
        findings[0].message,
        "feature `lint_only` is active but not referenced by manifest feature expansion or scanned Rust source cfg usage"
    );
}

#[test]
fn dev_sources_also_count_as_usage() {
    let path = "a/Cargo.toml";
    let graph = lint_only_graph(path);
    let mut scanned = SourceUsage::default();
    scanned.record(SourceUsageClass::Dev, &set(&["lint_only"]));
    assert_eq!(set_items(&scanned.referenced_features()), vec!["lint_only".to_string()]);
    let mut usage = StrMap::new();
    usage.insert(path.to_string(), scanned);
    let suggestions = Suggestions::default();
    let context = AnalysisContext::new(&graph, &suggestions);
    assert!(unused::analyze(&context, &usage).is_empty());
}

#[test]
fn scanning_steps_over_non_ascii_characters_in_code() {
    assert!(extract_feature_references("let é = 1;").is_empty());
    let found = extract_feature_references("let c = 'é';\n#[cfg(feature = \"x\")]\nfn f() {}");
    assert_eq!(set_items(&found), vec!["x".to_string()]);
    let found = extract_feature_references("// é\n#[cfg(feature = \"y\")]");
    assert_eq!(set_items(&found), vec!["y".to_string()]);
}

fn finding(crate_name: &str, kind: FindingKind, feature: Option<&str>) -> Finding {
    Finding {
        crate_name: crate_name.to_string(),
        feature: feature.map(|f| f.to_string()),
        kind,
        severity: Severity::Warning,
        message: String::new(),
    }
}

#[test]
fn run_all_sorts_by_crate_kind_name_then_feature() {
    let mut suggestions = Suggestions::default();
    suggestions.conflicts.push(ConflictRule {
        crate_name: "b".to_string(),
        features: vec!["x".to_string(), "y".to_string()],
        severity: Severity::Error,
        message: "c".to_string(),
    });
    suggestions.default_features.push(DefaultFeatureRule {
        crate_name: "b".to_string(),
        severity: Severity::Info,
        reason: "d".to_string(),
    });
    let graph = graph_of(vec![
        FeatureNode {
            package_id: "b 1".to_string(),
            name: "b".to_string(),
            active_features: set(&["default", "x", "y", "zz"]),
            ..FeatureNode::default()
        },
        FeatureNode {
            package_id: "a 1".to_string(),
            name: "a".to_string(),
            active_features: set(&["q"]),
            ..FeatureNode::default()
        },
    ]);
    let usage = StrMap::new();
    let context = AnalysisContext::new(&graph, &suggestions);
    let findings = run_all(&context, &usage);
    let keys: Vec<(String, FindingKind, Option<String>)> = findings
        .iter()
        .map(|f| (f.crate_name.clone(), f.kind, f.feature.clone()))
        .collect();
    assert_eq!(
        keys,
        vec![
            ("a".to_string(), FindingKind::Unused, Some("q".to_string())),
            ("b".to_string(), FindingKind::Conflict, Some("x, y".to_string())),
            ("b".to_string(), FindingKind::DefaultFeature, Some("default".to_string())),
            ("b".to_string(), FindingKind::Unused, Some("x".to_string())),
            ("b".to_string(), FindingKind::Unused, Some("y".to_string())),
            ("b".to_string(), FindingKind::Unused, Some("zz".to_string())),
        ]
    );
}

#[test]
fn sorting_keeps_order_of_equal_findings_and_puts_none_first() {
    let mut first = finding("a", FindingKind::Bloat, Some("f"));
    first.message = "first".to_string();
    let mut second = finding("a", FindingKind::Bloat, Some("f"));
    second.message = "second".to_string();
    let sorted = cargo_feature_lens::analysis::order::sort_findings(vec![
        first,
        finding("a", FindingKind::Bloat, None),
        second,
    ]);
    assert_eq!(sorted[0].feature, None);
    assert_eq!(sorted[1].message, "first");
    assert_eq!(sorted[2].message, "second");
}

#[test]
fn severity_names_parse_without_case() {
    assert_eq!(Severity::parse("WARN"), Some(Severity::Warning));
    assert_eq!(Severity::parse("deny"), Some(Severity::Error));
    assert_eq!(Severity::parse("Info"), Some(Severity::Info));
    assert_eq!(Severity::parse("loud"), None);
    assert_eq!(Severity::Error.as_str(), "error");
    assert_eq!(Severity::Warning.icon(), "⚠");
}

#[test]
fn source_walk_skips_hidden_target_and_git_entries() {
    assert!(is_skipped_entry_name(".hidden"));
    assert!(is_skipped_entry_name(".git"));
    assert!(is_skipped_entry_name("target"));
    assert!(!is_skipped_entry_name("targets"));
    assert!(!is_skipped_entry_name("src"));
    assert!(!is_skipped_entry_name("lib.rs"));
    assert!(!is_skipped_entry_name(""));
}
