use warnet_graph::commands::{rpc_method, NodeType};
use warnet_graph::config::{dump_bitcoin_conf, parse_bitcoin_conf, ConfigSection};

fn section(name: Option<&str>, entries: &[(&str, &str)]) -> ConfigSection {
    ConfigSection {
        name: name.map(|n| n.to_string()),
        entries: entries.iter().map(|(k, v)| (k.to_string(), v.to_string())).collect(),
    }
}

#[test]
fn parses_sections_and_entries() {
    let text = "a=1\n[main]\nrpcport=18443\n# c=3\n;x=y\nnoeq\n[test]\nk=v=w";
    let parsed = parse_bitcoin_conf(text);
    assert_eq!(
        parsed,
        vec![
            section(None, &[("a", "1")]),
            section(Some("main"), &[("rpcport", "18443")]),
            section(Some("test"), &[("k", "v=w")]),
        ]
    );
}

#[test]
fn empty_config_has_no_sections() {
    assert_eq!(parse_bitcoin_conf(""), vec![]);
    assert_eq!(dump_bitcoin_conf(&vec![]), "");
}

#[test]
fn dump_writes_headers_and_entries() {
    let sections = vec![
        section(None, &[("debug", "1")]),
        section(Some("regtest"), &[("rpcport", "18443"), ("txindex", "1")]),
        section(Some("empty"), &[]),
    ];
    assert_eq!(
        dump_bitcoin_conf(&sections),
        "debug=1\n[regtest]\nrpcport=18443\ntxindex=1\n[empty]\n"
    );
}

#[test]
fn parse_then_dump_normalises() {
    let text = "[main]\n\n# comment\nrpcport=18443\ndbcache=100\n";
    assert_eq!(dump_bitcoin_conf(&parse_bitcoin_conf(text)), "[main]\nrpcport=18443\ndbcache=100\n");
}

#[test]
fn rpc_methods_per_client() {
    assert_eq!(rpc_method(NodeType::LnCli), "tank_lncli");
    assert_eq!(rpc_method(NodeType::BitcoinCli), "tank_bcli");
}
