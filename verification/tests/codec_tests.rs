use kubectl_cluster::cluster::{CliConfig, Cluster};
use kubectl_cluster::codec::{encode_config, parse_config};
use kubectl_cluster::CliError;

fn profile(name: &str, url: &str, username: &str, comment: &str) -> Cluster {
    Cluster {
        name: name.to_string(),
        url: url.to_string(),
        username: username.to_string(),
        comment: comment.to_string(),
    }
}

fn same_profiles(a: &CliConfig, b: &CliConfig) -> bool {
    a.clusters.len() == b.clusters.len()
        && a.clusters.iter().zip(b.clusters.iter()).all(|(x, y)| {
            x.name == y.name && x.url == y.url && x.username == y.username && x.comment == y.comment
        })
}

#[test]
fn encode_empty_store_is_bare_header() {
    let cfg = CliConfig { clusters: vec![] };
    assert_eq!(encode_config(&cfg), "clusters:\n");
}

#[test]
fn encode_one_profile_exact_text() {
    let cfg = CliConfig { clusters: vec![profile("prod", "https://p", "alice", "main")] };
    assert_eq!(
        encode_config(&cfg),
        "clusters:\n- name: prod\n  url: https://p\n  username: alice\n  comment: main\n"
    );
}

#[test]
fn parse_bare_header_is_empty_store() {
    let cfg = parse_config("clusters:\n").expect("the empty store parses");
    assert_eq!(cfg.clusters.len(), 0);
}

#[test]
fn parse_reads_fields_back() {
    let text = "clusters:\n- name: prod\n  url: https://p\n  username: alice\n  comment: \n";
    let cfg = parse_config(text).expect("well-formed text parses");
    assert_eq!(cfg.clusters.len(), 1);
    assert_eq!(cfg.clusters[0].name, "prod");
    assert_eq!(cfg.clusters[0].url, "https://p");
    assert_eq!(cfg.clusters[0].username, "alice");
    assert_eq!(cfg.clusters[0].comment, "");
}

#[test]
fn round_trip_empty_store() {
    let cfg = CliConfig { clusters: vec![] };
    let back = parse_config(&encode_config(&cfg)).expect("round-trip parses");
    assert!(same_profiles(&cfg, &back));
}

#[test]
fn round_trip_many_profiles_field_for_field() {
    let cfg = CliConfig {
        clusters: vec![
            profile("prod", "https://prod.example", "alice", "the main one"),
            profile("dev", "https://dev.example", "bob", ""),
            profile("edge case", "url with spaces", "user: colon", "trailing  "),
        ],
    };
    let back = parse_config(&encode_config(&cfg)).expect("round-trip parses");
    assert!(same_profiles(&cfg, &back));
}

#[test]
fn round_trip_preserves_order() {
    let cfg = CliConfig {
        clusters: vec![profile("z", "u1", "a", ""), profile("a", "u2", "b", ""), profile("m", "u3", "c", "")],
    };
    let back = parse_config(&encode_config(&cfg)).unwrap();
    let names: Vec<&str> = back.clusters.iter().map(|c| c.name.as_str()).collect();
    assert_eq!(names, vec!["z", "a", "m"]);
}

#[test]
fn parse_garbage_is_parse_error() {
    assert_eq!(parse_config("total nonsense").unwrap_err(), CliError::Parse);
}

#[test]
fn parse_empty_text_is_parse_error() {
    assert_eq!(parse_config("").unwrap_err(), CliError::Parse);
}

#[test]
fn parse_wrong_header_is_parse_error() {
    assert_eq!(
        parse_config("profiles:\n- name: prod\n").unwrap_err(),
        CliError::Parse
    );
}

#[test]
fn parse_truncated_profile_is_parse_error() {
    let text = "clusters:\n- name: prod\n  url: https://p\n";
    assert_eq!(parse_config(text).unwrap_err(), CliError::Parse);
}

#[test]
fn parse_missing_final_newline_is_parse_error() {
    let text = "clusters:\n- name: prod\n  url: u\n  username: a\n  comment: c";
    assert_eq!(parse_config(text).unwrap_err(), CliError::Parse);
}

#[test]
fn parse_misordered_fields_is_parse_error() {
    let text = "clusters:\n- name: prod\n  username: a\n  url: u\n  comment: c\n";
    assert_eq!(parse_config(text).unwrap_err(), CliError::Parse);
}

#[test]
fn field_with_line_break_does_not_round_trip_silently() {
    // The round-trip guarantee holds of well-formed profiles only: a line
    // break inside a field breaks the line structure, and the decoder
    // rejects the text instead of mis-reading it.
    let cfg = CliConfig { clusters: vec![profile("prod", "https://p", "alice", "two\nlines")] };
    assert_eq!(parse_config(&encode_config(&cfg)).unwrap_err(), CliError::Parse);
}

#[test]
fn parse_trailing_garbage_is_parse_error() {
    let text = "clusters:\n- name: prod\n  url: u\n  username: a\n  comment: c\nleftover";
    assert_eq!(parse_config(text).unwrap_err(), CliError::Parse);
}
