use crypto_usage_analyzer::data::{AttrValue, AuditEvent};
use crypto_usage_analyzer::stats::stats_rows;
use crypto_usage_analyzer::tree::TreeNode;

fn event(
    context: &str,
    name: &str,
    start: u64,
    end: u64,
    extra: Vec<(&str, AttrValue)>,
    spans: Vec<AuditEvent>,
) -> AuditEvent {
    let mut attrs: Vec<(String, AttrValue)> = vec![(
        "name".to_string(),
        AttrValue::Text(name.to_string()),
    )];
    for (k, v) in extra {
        attrs.push((k.to_string(), v));
    }
    AuditEvent {
        context: context.to_string(),
        origin: "x".to_string(),
        start,
        end,
        events: attrs,
        spans,
    }
}

#[test]
fn concrete_scenario_tree() {
    let span = event(
        "p1",
        "tls::key_exchange",
        150,
        200,
        vec![("tls::group", AttrValue::Unsigned(23))],
        vec![],
    );
    let top = event("p1", "tls::handshake_client", 100, 500, vec![], vec![span]);
    let events = vec![top];
    let root = TreeNode::from_events(&events);

    assert_eq!(root.name, "all");
    assert_eq!(root.value, 1);
    assert_eq!(root.children.len(), 1);
    let ctx = &root.children[0];
    assert_eq!(ctx.name, "p1");
    assert_eq!(ctx.value, 1);
    assert_eq!(ctx.children.len(), 1);
    let hs = &ctx.children[0];
    assert_eq!(hs.name, "tls::handshake_client");
    assert_eq!(hs.value, 1);
    assert_eq!(hs.children.len(), 1);
    let kx = &hs.children[0];
    assert_eq!(kx.name, "tls::key_exchange [secp256r1]");
    assert_eq!(kx.value, 1);
    assert!(kx.children.is_empty());

    assert_eq!(AuditEvent::get_time_range(&events), Some((100, 500)));
}

#[test]
fn algorithm_stats_counts_and_percentages() {
    let e1 = event(
        "c",
        "pk::encrypt",
        0,
        1,
        vec![("pk::algorithm", AttrValue::Text("rsa".to_string()))],
        vec![],
    );
    let e2 = event(
        "c",
        "pk::encrypt",
        1,
        2,
        vec![("pk::algorithm", AttrValue::Text("rsa".to_string()))],
        vec![],
    );
    let e3 = event(
        "c",
        "pk::encrypt",
        2,
        3,
        vec![("pk::algorithm", AttrValue::Text("ecdsa".to_string()))],
        vec![],
    );
    let events = vec![e1, e2, e3];
    let root = TreeNode::from_events(&events);

    let mut acc: Vec<(String, u64)> = Vec::new();
    root.extract_algorithm_stats(&mut acc);
    assert_eq!(acc.len(), 2);
    assert_eq!(acc[0].0, "rsa");
    assert_eq!(acc[0].1, 2);
    assert_eq!(acc[1].0, "ecdsa");
    assert_eq!(acc[1].1, 1);

    let rows = stats_rows(&root);
    assert_eq!(rows.len(), 2);
    assert_eq!(rows[0].algorithm, "rsa");
    assert_eq!(rows[0].count, "2");
    assert_eq!(rows[0].percentage, "67%");
    assert_eq!(rows[1].algorithm, "ecdsa");
    assert_eq!(rows[1].count, "1");
    assert_eq!(rows[1].percentage, "33%");
}

#[test]
fn bits_detail_is_skipped_in_stats() {
    let e = event(
        "c",
        "pk::keygen",
        0,
        1,
        vec![
            ("pk::algorithm", AttrValue::Text("rsa".to_string())),
            ("pk::bits", AttrValue::Unsigned(2048)),
        ],
        vec![],
    );
    assert_eq!(e.format_details(), "pk::keygen [rsa, 2048 bits]");
    let events = vec![e];
    let root = TreeNode::from_events(&events);
    let mut acc: Vec<(String, u64)> = Vec::new();
    root.extract_algorithm_stats(&mut acc);
    assert_eq!(acc, vec![("rsa".to_string(), 1)]);
}

#[test]
fn handshake_labels() {
    let e = event(
        "c",
        "tls::handshake_client",
        0,
        1,
        vec![
            ("tls::protocol_version", AttrValue::Unsigned(772)),
            ("tls::ciphersuite", AttrValue::Unsigned(4865)),
        ],
        vec![],
    );
    assert_eq!(
        e.format_details(),
        "tls::handshake_client [TLS 1.3, ciphersuite 4865]"
    );

    let e12 = event(
        "c",
        "tls::handshake_server",
        0,
        1,
        vec![("tls::protocol_version", AttrValue::Unsigned(771))],
        vec![],
    );
    assert_eq!(e12.format_details(), "tls::handshake_server [TLS 1.2]");

    let eother = event(
        "c",
        "tls::handshake_server",
        0,
        1,
        vec![("tls::protocol_version", AttrValue::Unsigned(770))],
        vec![],
    );
    assert_eq!(eother.format_details(), "tls::handshake_server [version 770]");
}

#[test]
fn quoted_ciphersuite_text() {
    let e = event(
        "c",
        "tls::handshake_client",
        0,
        1,
        vec![(
            "tls::ciphersuite",
            AttrValue::Text("TLS_AES_128_GCM_SHA256".to_string()),
        )],
        vec![],
    );
    assert_eq!(
        e.format_details(),
        "tls::handshake_client [ciphersuite \"TLS_AES_128_GCM_SHA256\"]"
    );
}

#[test]
fn signature_and_group_labels() {
    let sig = event(
        "c",
        "tls::sign",
        0,
        1,
        vec![("tls::signature_algorithm", AttrValue::Unsigned(1027))],
        vec![],
    );
    assert_eq!(sig.format_details(), "tls::sign [ecdsa_secp256r1_sha256]");

    let ver = event(
        "c",
        "tls::verify",
        0,
        1,
        vec![("tls::signature_algorithm", AttrValue::Unsigned(2052))],
        vec![],
    );
    assert_eq!(ver.format_details(), "tls::verify [rsa_pss_rsae_sha256]");

    let kx = event(
        "c",
        "tls::key_exchange",
        0,
        1,
        vec![("tls::group", AttrValue::Unsigned(4588))],
        vec![],
    );
    assert_eq!(kx.format_details(), "tls::key_exchange [X25519MLKEM768]");

    let unknown = event(
        "c",
        "tls::key_exchange",
        0,
        1,
        vec![("tls::group", AttrValue::Unsigned(9999))],
        vec![],
    );
    assert_eq!(unknown.format_details(), "tls::key_exchange [unknown]");
}

#[test]
fn missing_name_is_unknown() {
    let e = AuditEvent {
        context: "c".to_string(),
        origin: "x".to_string(),
        start: 0,
        end: 1,
        events: vec![],
        spans: vec![],
    };
    assert_eq!(e.name(), "unknown");
    assert_eq!(e.format_details(), "unknown");
}

#[test]
fn nested_spans_widen_time_range() {
    let inner = event("c", "a", 5, 900, vec![], vec![]);
    let outer = event("c", "b", 100, 200, vec![], vec![inner]);
    let events = vec![outer];
    assert_eq!(AuditEvent::get_time_range(&events), Some((5, 900)));
}

#[test]
fn empty_input() {
    let events: Vec<AuditEvent> = vec![];
    assert_eq!(AuditEvent::get_time_range(&events), None);
    let root = TreeNode::from_events(&events);
    assert_eq!(root.name, "all");
    assert_eq!(root.value, 0);
    assert!(root.children.is_empty());

    let rows = stats_rows(&root);
    assert!(rows.is_empty());
}

#[test]
fn contexts_grouped_in_first_occurrence_order() {
    let events = vec![
        event("p2", "a", 0, 1, vec![], vec![]),
        event("p1", "b", 1, 2, vec![], vec![]),
        event("p2", "c", 2, 3, vec![], vec![]),
    ];
    let root = TreeNode::from_events(&events);
    assert_eq!(root.value, 3);
    assert_eq!(root.children.len(), 2);
    assert_eq!(root.children[0].name, "p2");
    assert_eq!(root.children[0].value, 2);
    assert_eq!(root.children[0].children.len(), 2);
    assert_eq!(root.children[0].children[0].name, "a");
    assert_eq!(root.children[0].children[1].name, "c");
    assert_eq!(root.children[1].name, "p1");
    assert_eq!(root.children[1].value, 1);
}

#[test]
fn update_values_recomputes_weights() {
    let mut root = TreeNode {
        name: "all".to_string(),
        value: 0,
        children: vec![TreeNode {
            name: "c".to_string(),
            value: 99,
            children: vec![
                TreeNode {
                    name: "a".to_string(),
                    value: 1,
                    children: vec![],
                },
                TreeNode {
                    name: "b".to_string(),
                    value: 2,
                    children: vec![],
                },
            ],
        }],
    };
    let total = root.update_values();
    assert_eq!(total, 3);
    assert_eq!(root.value, 3);
    assert_eq!(root.children[0].value, 3);
    assert_eq!(root.children[0].children[0].value, 1);
    assert_eq!(root.children[0].children[1].value, 2);
}

#[test]
fn stats_trim_detail_tokens() {
    // a hand-built label with padded detail tokens still yields the
    // trimmed algorithm key
    let node = TreeNode {
        name: "pk::op [  rsa  , 2048 bits]".to_string(),
        value: 4,
        children: vec![],
    };
    let mut acc: Vec<(String, u64)> = Vec::new();
    node.extract_algorithm_stats(&mut acc);
    assert_eq!(acc, vec![("rsa".to_string(), 4)]);
}

#[test]
fn stats_skip_malformed_brackets() {
    // a closing bracket before the opening one contributes nothing,
    // and the walk goes on into the children
    let node = TreeNode {
        name: "pk::]weird[".to_string(),
        value: 1,
        children: vec![TreeNode {
            name: "pk::inner [dsa]".to_string(),
            value: 1,
            children: vec![],
        }],
    };
    let mut acc: Vec<(String, u64)> = Vec::new();
    node.extract_algorithm_stats(&mut acc);
    assert_eq!(acc, vec![("dsa".to_string(), 1)]);
}

#[test]
fn stats_only_bits_detail_contributes_nothing() {
    let node = TreeNode {
        name: "pk::keygen [2048 bits]".to_string(),
        value: 1,
        children: vec![],
    };
    let mut acc: Vec<(String, u64)> = Vec::new();
    node.extract_algorithm_stats(&mut acc);
    assert!(acc.is_empty());
}

#[test]
fn stats_nested_pk_nodes_accumulate() {
    // a pk:: node with pk:: children counts itself and its children
    let node = TreeNode {
        name: "pk::outer [rsa]".to_string(),
        value: 2,
        children: vec![TreeNode {
            name: "pk::inner [rsa]".to_string(),
            value: 1,
            children: vec![],
        }],
    };
    let mut acc: Vec<(String, u64)> = Vec::new();
    node.extract_algorithm_stats(&mut acc);
    assert_eq!(acc, vec![("rsa".to_string(), 3)]);
}

#[test]
fn stats_rows_sorted_with_stable_ties() {
    let root = TreeNode {
        name: "all".to_string(),
        value: 3,
        children: vec![
            TreeNode {
                name: "pk::a [dsa]".to_string(),
                value: 1,
                children: vec![],
            },
            TreeNode {
                name: "pk::b [rsa]".to_string(),
                value: 2,
                children: vec![],
            },
            TreeNode {
                name: "pk::c [ecdsa]".to_string(),
                value: 1,
                children: vec![],
            },
        ],
    };
    let rows = stats_rows(&root);
    assert_eq!(rows.len(), 3);
    assert_eq!(rows[0].algorithm, "rsa");
    // dsa and ecdsa share a count; encounter order decides
    assert_eq!(rows[1].algorithm, "dsa");
    assert_eq!(rows[2].algorithm, "ecdsa");
    assert_eq!(rows[0].percentage, "50%");
    assert_eq!(rows[1].percentage, "25%");
    assert_eq!(rows[2].percentage, "25%");
}
