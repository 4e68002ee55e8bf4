use kubectl_cluster::cluster::{CliConfig, Cluster};
use kubectl_cluster::{run, Action, Args, CliError};

fn profile(name: &str, url: &str, username: &str, comment: &str) -> Cluster {
    Cluster {
        name: name.to_string(),
        url: url.to_string(),
        username: username.to_string(),
        comment: comment.to_string(),
    }
}

fn args(name: &str) -> Args {
    Args {
        cluster_name: name.to_string(),
        cluster_url: None,
        username: None,
        output: None,
        delete: false,
    }
}

#[test]
fn list_keyword_takes_priority_over_upsert() {
    let mut cfg = CliConfig { clusters: vec![profile("prod", "https://p", "alice", "")] };
    let mut a = args("list");
    a.cluster_url = Some("https://new".to_string());
    a.username = Some("eve".to_string());
    let action = run(a, &mut cfg).expect("list succeeds");
    assert!(matches!(action, Action::List(_)));
    assert_eq!(cfg.clusters.len(), 1);
    assert_eq!(cfg.clusters[0].url, "https://p");
    assert_eq!(cfg.clusters[0].username, "alice");
}

#[test]
fn edit_keyword_takes_priority_over_upsert() {
    let mut cfg = CliConfig { clusters: vec![] };
    let mut a = args("edit");
    a.cluster_url = Some("https://new".to_string());
    a.username = Some("eve".to_string());
    let action = run(a, &mut cfg).expect("edit succeeds");
    assert!(matches!(action, Action::Edit));
    assert_eq!(cfg.clusters.len(), 0);
}

#[test]
fn list_with_wide_format_lists_all_columns() {
    let mut cfg = CliConfig { clusters: vec![profile("prod", "https://p", "alice", "main")] };
    let mut a = args("list");
    a.output = Some("wide".to_string());
    let action = run(a, &mut cfg).unwrap();
    match action {
        Action::List(rows) => {
            assert_eq!(rows[0], vec!["CLUSTER NAME", "USERNAME", "URL", "COMMENT"]);
            assert_eq!(rows[1], vec!["prod", "alice", "https://p", "main"]);
        },
        _ => panic!("expected a listing"),
    }
}

#[test]
fn list_with_unknown_format_is_usage_error() {
    let mut cfg = CliConfig { clusters: vec![] };
    let mut a = args("list");
    a.output = Some("yaml".to_string());
    assert_eq!(run(a, &mut cfg).unwrap_err(), CliError::Usage);
}

#[test]
fn register_then_connect() {
    let mut cfg = CliConfig { clusters: vec![] };
    let mut a = args("prod");
    a.cluster_url = Some("https://prod.example".to_string());
    a.username = Some("alice".to_string());
    let action = run(a, &mut cfg).expect("upsert and connect succeed");
    match action {
        Action::SaveAndConnect(argv) => {
            assert_eq!(argv, vec!["oc", "login", "https://prod.example", "-u", "alice"]);
        },
        _ => panic!("expected a save-and-connect action"),
    }
    assert_eq!(cfg.clusters.len(), 1);
    assert_eq!(cfg.clusters[0].name, "prod");
    assert_eq!(cfg.clusters[0].url, "https://prod.example");
    assert_eq!(cfg.clusters[0].username, "alice");
}

#[test]
fn update_existing_profile_keeps_count() {
    let mut cfg = CliConfig { clusters: vec![profile("prod", "old", "bob", "")] };
    let mut a = args("prod");
    a.cluster_url = Some("new".to_string());
    a.username = Some("bob2".to_string());
    let action = run(a, &mut cfg).expect("update succeeds");
    assert!(matches!(action, Action::SaveAndConnect(_)));
    assert_eq!(cfg.clusters.len(), 1);
    assert_eq!(cfg.clusters[0].name, "prod");
    assert_eq!(cfg.clusters[0].url, "new");
    assert_eq!(cfg.clusters[0].username, "bob2");
}

#[test]
fn delete_existing_profile() {
    let mut cfg = CliConfig { clusters: vec![profile("prod", "https://p", "alice", "")] };
    let mut a = args("prod");
    a.delete = true;
    let action = run(a, &mut cfg).expect("delete succeeds");
    assert!(matches!(action, Action::SaveDeleted));
    assert_eq!(cfg.clusters.len(), 0);
}

#[test]
fn delete_missing_profile_is_reported_not_fatal() {
    let mut cfg = CliConfig { clusters: vec![profile("prod", "https://p", "alice", "")] };
    let mut a = args("staging");
    a.delete = true;
    let action = run(a, &mut cfg).expect("a missing profile is not an error");
    assert!(matches!(action, Action::DeleteMissing));
    assert_eq!(cfg.clusters.len(), 1);
    assert_eq!(cfg.clusters[0].name, "prod");
}

#[test]
fn connect_to_stored_profile() {
    let mut cfg = CliConfig { clusters: vec![profile("prod", "https://p", "alice", "")] };
    let action = run(args("prod"), &mut cfg).expect("connect succeeds");
    match action {
        Action::Connect(argv) => {
            assert_eq!(argv, vec!["oc", "login", "https://p", "-u", "alice"]);
        },
        _ => panic!("expected a connect action"),
    }
    assert_eq!(cfg.clusters.len(), 1);
}

#[test]
fn connect_to_missing_profile_is_not_found() {
    let mut cfg = CliConfig { clusters: vec![] };
    assert_eq!(run(args("prod"), &mut cfg).unwrap_err(), CliError::NotFound);
}

#[test]
fn url_without_username_falls_through_to_connect() {
    let mut cfg = CliConfig { clusters: vec![profile("prod", "https://p", "alice", "")] };
    let mut a = args("prod");
    a.cluster_url = Some("https://ignored".to_string());
    let action = run(a, &mut cfg).expect("connect succeeds");
    assert!(matches!(action, Action::Connect(_)));
    assert_eq!(cfg.clusters[0].url, "https://p");
}
