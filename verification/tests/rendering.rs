use cargo_feature_lens::analysis::{Finding, FindingKind, Severity};
use cargo_feature_lens::collections::{StrMap, StrSet};
use cargo_feature_lens::graph_export::{
    dot_escape, mermaid_label_escape, node_label, render_dot, render_mermaid, sanitize_id,
};
use cargo_feature_lens::report::{
    active_feature_count, json_escape, render, OutputFormat, ReportOptions,
};
use cargo_feature_lens::resolver::{FeatureGraph, FeatureNode, FeatureSource};
use cargo_feature_lens::util::{crate_matches, format_path};

fn set(items: &[&str]) -> StrSet {
    StrSet::from_vec(items.iter().map(|item| item.to_string()).collect())
}

fn options(format: OutputFormat) -> ReportOptions {
    ReportOptions {
        format,
        only_unused: false,
        only_bloat: false,
        crate_filter: None,
        min_severity: None,
    }
}

#[test]
fn dot_escapes_labels_and_sanitizes_ids() {
    let mut graph = FeatureGraph::default();
    graph.nodes.insert(
        "pkg+demo 0.1.0 (registry+https://example.com?q=\"x\")".to_string(),
        FeatureNode {
            package_id: "pkg+demo 0.1.0 (registry+https://example.com?q=\"x\")".to_string(),
            name: "demo\"crate".to_string(),
            version: "0.1.0".to_string(),
            active_features: set(&["line\\feature", "quote\"feature"]),
            ..FeatureNode::default()
        },
    );

    let rendered = render_dot(&graph, None);

    assert!(rendered.contains("\"crate_pkg_demo_0_1_0__registry_https___example_com_q__x__\""));
    assert!(rendered.contains("demo\\\"crate 0.1.0\\nfeatures: line\\\\feature, quote\\\"feature"));
}

fn graph_with_unsorted_dependencies() -> FeatureGraph {
    let mut graph = FeatureGraph::default();
    graph.nodes.insert(
        "root 0.1.0".to_string(),
        FeatureNode {
            package_id: "root 0.1.0".to_string(),
            name: "root".to_string(),
            version: "0.1.0".to_string(),
            dependencies: vec![
                "b-dep 0.1.0".to_string(),
                "missing 0.1.0".to_string(),
                "a-dep 0.1.0".to_string(),
            ],
            ..FeatureNode::default()
        },
    );
    graph.nodes.insert(
        "b-dep 0.1.0".to_string(),
        FeatureNode {
            package_id: "b-dep 0.1.0".to_string(),
            name: "b-dep".to_string(),
            version: "0.1.0".to_string(),
            ..FeatureNode::default()
        },
    );
    graph.nodes.insert(
        "a-dep 0.1.0".to_string(),
        FeatureNode {
            package_id: "a-dep 0.1.0".to_string(),
            name: "a-dep".to_string(),
            version: "0.1.0".to_string(),
            ..FeatureNode::default()
        },
    );
    graph
}

#[test]
fn dot_edges_are_sorted_and_ignore_missing_dependencies() {
    let graph = graph_with_unsorted_dependencies();

    let rendered = render_dot(&graph, None);

    let edge_a = rendered
        .find("\"crate_root_0_1_0\" -> \"crate_a_dep_0_1_0\"")
        .unwrap();
    let edge_b = rendered
        .find("\"crate_root_0_1_0\" -> \"crate_b_dep_0_1_0\"")
        .unwrap();
    assert!(edge_a < edge_b);
    assert!(!rendered.contains("missing 0.1.0"));
}

#[test]
fn mermaid_escapes_labels_and_sanitizes_ids() {
    let mut graph = FeatureGraph::default();
    graph.nodes.insert(
        "1 weird/package".to_string(),
        FeatureNode {
            package_id: "1 weird/package".to_string(),
            name: "demo <crate> & \"quotes\"".to_string(),
            version: "0.1.0".to_string(),
            active_features: set(&["default"]),
            ..FeatureNode::default()
        },
    );

    let rendered = render_mermaid(&graph, None);

    assert!(rendered.contains("crate__1_weird_package["));
    assert!(rendered.contains("demo &lt;crate&gt; &amp; #quot;quotes#quot; 0.1.0<br/>features: default"));
}

#[test]
fn mermaid_edges_are_sorted_and_ignore_missing_dependencies() {
    let graph = graph_with_unsorted_dependencies();

    let rendered = render_mermaid(&graph, None);

    let edge_a = rendered
        .find("crate_root_0_1_0 --> crate_a_dep_0_1_0")
        .unwrap();
    let edge_b = rendered
        .find("crate_root_0_1_0 --> crate_b_dep_0_1_0")
        .unwrap();
    assert!(edge_a < edge_b);
    assert!(!rendered.contains("missing 0.1.0"));
}

#[test]
fn dot_output_is_exact_for_a_small_graph() {
    let graph = graph_with_unsorted_dependencies();
    let rendered = render_dot(&graph, None);
    assert_eq!(
        rendered,
        "digraph feature_lens {\n  \"crate_a_dep_0_1_0\" [label=\"a-dep 0.1.0\"];\n  \"crate_b_dep_0_1_0\" [label=\"b-dep 0.1.0\"];\n  \"crate_root_0_1_0\" [label=\"root 0.1.0\"];\n  \"crate_root_0_1_0\" -> \"crate_a_dep_0_1_0\";\n  \"crate_root_0_1_0\" -> \"crate_b_dep_0_1_0\";\n}\n"
    );
}

#[test]
fn mermaid_filter_drops_edges_to_hidden_nodes() {
    let graph = graph_with_unsorted_dependencies();
    let rendered = render_mermaid(&graph, Some("root"));
    assert_eq!(rendered, "graph TD\n  crate_root_0_1_0[\"root 0.1.0\"]\n");
}

#[test]
fn colliding_ids_get_numbered_suffixes() {
    let mut graph = FeatureGraph::default();
    for (id, name) in [("a-b", "x"), ("a_b", "y"), ("a.b", "z")] {
        graph.nodes.insert(
            id.to_string(),
            FeatureNode {
                package_id: id.to_string(),
                name: name.to_string(),
                version: "1".to_string(),
                ..FeatureNode::default()
            },
        );
    }
    let rendered = render_mermaid(&graph, None);
    assert_eq!(
        rendered,
        "graph TD\n  crate_a_b[\"x 1\"]\n  crate_a_b_2[\"z 1\"]\n  crate_a_b_3[\"y 1\"]\n"
    );
}

#[test]
fn sanitize_escape_and_label_helpers() {
    assert_eq!(sanitize_id("9lives", "crate"), "crate__9lives");
    assert_eq!(sanitize_id("", "crate"), "crate__");
    assert_eq!(sanitize_id("a-b", "p"), "p_a_b");
    assert_eq!(dot_escape("a\u{1}b\t"), "a\\u0001b\\t");
    assert_eq!(mermaid_label_escape("a\u{7}\r"), "a <br/>");
    assert_eq!(json_escape("q\"\\\u{1f}"), "q\\\"\\\\\\u001f");
    let node = FeatureNode {
        name: "n".to_string(),
        version: "2".to_string(),
        active_features: set(&["b", "a"]),
        ..FeatureNode::default()
    };
    assert_eq!(node_label(&node), "n 2\nfeatures: a, b");
}

fn demo_graph(package_id: &str) -> FeatureGraph {
    let mut graph = FeatureGraph::default();
    graph.nodes.insert(
        "demo 0.1.0".to_string(),
        FeatureNode {
            package_id: package_id.to_string(),
            name: "demo".to_string(),
            version: "0.1.0".to_string(),
            active_features: set(&["default"]),
            ..FeatureNode::default()
        },
    );
    graph
}

#[test]
fn renders_json_report() {
    let graph = demo_graph("demo 0.1.0");
    let rendered = render(&graph, &[], &options(OutputFormat::Json)).unwrap();

    assert!(rendered.contains("\"crate_count\": 1"));
    assert!(rendered.contains("\"name\": \"demo\""));
}

#[test]
fn renders_markdown_report() {
    let graph = demo_graph("");
    let findings = vec![Finding {
        crate_name: "demo".to_string(),
        feature: Some("default".to_string()),
        kind: FindingKind::Duplicate,
        severity: Severity::Warning,
        message: "duplicated".to_string(),
    }];
    let rendered = render(&graph, &findings, &options(OutputFormat::Markdown)).unwrap();

    assert!(rendered.contains("# Feature Footprint Report"));
    assert!(rendered.contains("demo"));
}

#[test]
fn markdown_report_is_exact() {
    let graph = demo_graph("");
    let findings = vec![Finding {
        crate_name: "demo".to_string(),
        feature: Some("default".to_string()),
        kind: FindingKind::Duplicate,
        severity: Severity::Warning,
        message: "duplicated".to_string(),
    }];
    let rendered = render(&graph, &findings, &options(OutputFormat::Markdown)).unwrap();
    assert_eq!(
        rendered,
        "# Feature Footprint Report\n\nAnalyzed **1** crates.\n\n| Crate | Version | Active Features | Findings |\n|---|---:|---|---|\n| demo | 0.1.0 | default | ⚠ Duplicate: duplicated |\n"
    );
}

#[test]
fn json_report_is_exact() {
    let mut graph = demo_graph("demo 0.1.0");
    {
        let mut node = FeatureNode {
            package_id: "demo 0.1.0".to_string(),
            name: "demo".to_string(),
            version: "0.1.0".to_string(),
            manifest_path: "/x/Cargo.toml".to_string(),
            active_features: set(&["default"]),
            dependencies: vec!["dep 1".to_string()],
            ..FeatureNode::default()
        };
        node.dependency_features.insert("dep".to_string(), vec!["f".to_string()]);
        let mut sources = StrMap::new();
        sources.insert(
            "default".to_string(),
            vec![FeatureSource {
                requested_by: "demo".to_string(),
                path: vec!["demo".to_string()],
            }],
        );
        node.feature_sources = sources;
        graph.nodes.insert("demo 0.1.0".to_string(), node);
    }
    let findings = vec![Finding {
        crate_name: "demo".to_string(),
        feature: None,
        kind: FindingKind::Bloat,
        severity: Severity::Info,
        message: "m\"".to_string(),
    }];
    let rendered = render(&graph, &findings, &options(OutputFormat::Json)).unwrap();
    let expected = "{\n  \"crate_count\": 1,\n  \"total_active_features\": 1,\n  \"crates\": [\n    {\n      \"name\": \"demo\",\n      \"version\": \"0.1.0\",\n      \"package_id\": \"demo 0.1.0\",\n      \"manifest_path\": \"/x/Cargo.toml\",\n      \"active_features\": [\"default\"],\n      \"dependencies\": [\"dep 1\"],\n      \"optional_dependencies\": [],\n      \"dependency_features\": {\n        \"dep\": [\"f\"]\n      },\n      \"feature_sources\": {\n        \"default\": [{\"requested_by\": \"demo\", \"path\": [\"demo\"]}]\n      },\n      \"findings\": [\n        {\n          \"kind\": \"Bloat\",\n          \"severity\": \"Info\",\n          \"feature\": null,\n          \"message\": \"m\\\"\"\n        }\n      ]\n    }\n  ]\n}\n";
    assert_eq!(rendered, expected);
}

#[test]
fn terminal_report_lists_requesters_once() {
    let mut node = FeatureNode {
        package_id: "demo 0.1.0".to_string(),
        name: "demo".to_string(),
        version: "0.1.0".to_string(),
        active_features: set(&["std"]),
        ..FeatureNode::default()
    };
    let mut sources = StrMap::new();
    sources.insert(
        "std".to_string(),
        vec![
            FeatureSource { requested_by: "b".to_string(), path: vec![] },
            FeatureSource { requested_by: "a".to_string(), path: vec![] },
            FeatureSource { requested_by: "b".to_string(), path: vec![] },
        ],
    );
    node.feature_sources = sources;
    let mut graph = FeatureGraph::default();
    graph.nodes.insert("demo 0.1.0".to_string(), node);
    let findings = vec![Finding {
        crate_name: "demo".to_string(),
        feature: Some("std".to_string()),
        kind: FindingKind::Unused,
        severity: Severity::Error,
        message: "unused".to_string(),
    }];
    let rendered = render(&graph, &findings, &options(OutputFormat::Terminal)).unwrap();
    assert_eq!(
        rendered,
        "Feature Footprint Report\n────────────────────────\n✓ 1 total features active across 1 crates\n⚠ 1 findings detected\nFinding summary: 1 visible findings\n  severity: info 0, warning 0, error 1\n  kind: Unused 1\n\n┌─ demo (0.1.0)\n│  dependencies: 0 direct, 0 optional\n│  active features: std\n│  ✖ Unused: unused\n│    requested by: a, b\n│\n"
    );
}

#[test]
fn report_filters_apply_to_every_format() {
    let graph = demo_graph("demo 0.1.0");
    let findings = vec![
        Finding {
            crate_name: "demo".to_string(),
            feature: None,
            kind: FindingKind::Bloat,
            severity: Severity::Info,
            message: "bloat".to_string(),
        },
        Finding {
            crate_name: "demo".to_string(),
            feature: None,
            kind: FindingKind::Unused,
            severity: Severity::Warning,
            message: "unused".to_string(),
        },
    ];
    let mut o = options(OutputFormat::Markdown);
    o.min_severity = Some(Severity::Warning);
    let rendered = render(&graph, &findings, &o).unwrap();
    assert!(rendered.contains("unused"));
    assert!(!rendered.contains("bloat"));
    o.format = OutputFormat::Terminal;
    o.min_severity = None;
    o.only_bloat = true;
    let rendered = render(&graph, &findings, &o).unwrap();
    assert!(rendered.contains("⚠ 1 findings detected"));
    assert!(rendered.contains("Bloat: bloat"));
    o.crate_filter = Some("other".to_string());
    let rendered = render(&graph, &findings, &o).unwrap();
    assert!(rendered.contains("across 0 crates"));
    assert!(rendered.contains("⚠ 0 findings detected"));
}

#[test]
fn dot_and_mermaid_formats_render_the_graph() {
    let graph = demo_graph("demo 0.1.0");
    let dot = render(&graph, &[], &options(OutputFormat::Dot)).unwrap();
    assert_eq!(dot, render_dot(&graph, None));
    let mermaid = render(&graph, &[], &options(OutputFormat::Mermaid)).unwrap();
    assert_eq!(mermaid, render_mermaid(&graph, None));
}

#[test]
fn formats_empty_paths() {
    assert_eq!(format_path(&[]), "<unknown>");
}

#[test]
fn formats_paths_with_arrows_and_matches_filters() {
    assert_eq!(format_path(&["a".to_string(), "b".to_string()]), "a → b");
    assert!(crate_matches("serde_json", Some("json")));
    assert!(!crate_matches("serde", Some("json")));
    assert!(crate_matches("serde", None));
}

#[test]
fn counts_active_features_over_the_graph() {
    let mut graph = demo_graph("demo 0.1.0");
    graph.nodes.insert(
        "other 1".to_string(),
        FeatureNode {
            package_id: "other 1".to_string(),
            name: "other".to_string(),
            active_features: set(&["a", "b"]),
            ..FeatureNode::default()
        },
    );
    assert_eq!(active_feature_count(&graph), Some(3));
    assert_eq!(active_feature_count(&FeatureGraph::default()), Some(0));
}

#[test]
fn terminal_summary_counts_severities_and_kinds() {
    let graph = FeatureGraph::default();
    let empty = render(&graph, &[], &options(OutputFormat::Terminal)).unwrap();
    assert!(empty.ends_with(
        "⚠ 0 findings detected\nFinding summary: 0 visible findings\n  severity: info 0, warning 0, error 0\n  kind: none\n\n"
    ));
    let make = |kind, severity| Finding {
        crate_name: "reqwest".to_string(),
        feature: None,
        kind,
        severity,
        message: "m".to_string(),
    };
    let findings = vec![
        make(FindingKind::Conflict, Severity::Error),
        make(FindingKind::Unused, Severity::Warning),
        make(FindingKind::Unused, Severity::Warning),
    ];
    let rendered = render(&graph, &findings, &options(OutputFormat::Terminal)).unwrap();
    assert!(rendered.contains(
        "⚠ 3 findings detected\nFinding summary: 3 visible findings\n  severity: info 0, warning 2, error 1\n  kind: Unused 2, Conflict 1\n\n"
    ));
}
