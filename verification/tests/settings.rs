use quil_shard::settings::{
    covered_app, fill_pattern, master_endpoint, master_port, min_active_provers_for_propose,
    reward_greedy, worker_count, worker_store_path, WorkerStorePath,
};

#[test]
fn greedy_strategy_is_named_exactly() {
    assert!(reward_greedy("reward-greedy"));
    assert!(!reward_greedy("reward-greedy "));
    assert!(!reward_greedy("data-greedy"));
    assert!(!reward_greedy(""));
}

#[test]
fn main_network_needs_three_provers() {
    assert_eq!(min_active_provers_for_propose(0), 3);
    assert_eq!(min_active_provers_for_propose(1), 1);
    assert_eq!(min_active_provers_for_propose(255), 1);
}

#[test]
fn master_port_follows_tcp() {
    assert_eq!(master_port(""), 8340);
    assert_eq!(master_port("/ip4/0.0.0.0/tcp/9000"), 9000);
    assert_eq!(master_port("/ip4/0.0.0.0/tcp/9000/tls"), 9000);
    assert_eq!(master_port("/ip4/0.0.0.0/udp/9000"), 8340);
    assert_eq!(master_port("/ip4/0.0.0.0/tcp"), 8340);
    assert_eq!(master_port("/ip4/0.0.0.0/tcp/70000"), 8340);
    assert_eq!(master_port("/ip4/0.0.0.0/tcp/x/tcp/9000"), 8340);
    assert_eq!(master_port("tcp/+80"), 80);
    assert_eq!(master_port("/tcp/65535"), 65535);
}

#[test]
fn master_endpoint_is_on_every_interface() {
    assert_eq!(master_endpoint(8340), "http://0.0.0.0:8340");
    assert_eq!(master_endpoint(0), "http://0.0.0.0:0");
}

#[test]
fn one_core_is_kept_for_the_master() {
    assert_eq!(worker_count(5, Some(2)), 5);
    assert_eq!(worker_count(0, Some(16)), 15);
    assert_eq!(worker_count(-3, Some(2)), 1);
    assert_eq!(worker_count(0, Some(1)), 1);
    assert_eq!(worker_count(0, Some(0)), 1);
    assert_eq!(worker_count(0, None), 3);
}

#[test]
fn worker_paths_go_before_the_pattern_and_the_node_store() {
    let paths = vec!["/data/one".to_string(), String::new()];
    let at = |path: &str| WorkerStorePath::At(path.to_string());
    assert_eq!(worker_store_path(1, &paths, "/w/%d", "/db"), at("/data/one"));
    assert_eq!(worker_store_path(0, &paths, "/w/%d", "/db"), at("/data/one"));
    assert_eq!(worker_store_path(2, &paths, "/w/%d", "/db"), at("/w/2"));
    assert_eq!(worker_store_path(3, &paths, "/w/%d", "/db"), at("/w/3"));
    assert_eq!(
        worker_store_path(3, &paths, "", "/db"),
        WorkerStorePath::Below { base: "/db".to_string(), leaf: "worker-3".to_string() }
    );
    assert_eq!(
        worker_store_path(12, &vec![], "", ""),
        WorkerStorePath::Below { base: ".config/store".to_string(), leaf: "worker-12".to_string() }
    );
}

#[test]
fn every_placeholder_of_a_pattern_is_filled() {
    assert_eq!(fill_pattern("/w/%d/%d-%s%", 17), "/w/17/17-%s%");
    assert_eq!(fill_pattern("/w", 1), "/w");
    assert_eq!(fill_pattern("%%d", 1), "%1");
    assert_eq!(fill_pattern("", 1), "");
}

#[test]
fn covered_app_is_the_first_half_of_a_filter() {
    let filter: Vec<u8> = (0..40).collect();
    let app = covered_app(&filter).unwrap();
    assert_eq!(app.to_vec(), (0..32).collect::<Vec<u8>>());
    assert!(covered_app(&filter[..31]).is_none());
    assert!(covered_app(&filter[..32]).is_some());
}

#[test]
fn workers_without_a_configured_path_have_stores_of_their_own() {
    let path = |core_id: u32| worker_store_path(core_id, &vec![], "", "/db");
    assert_ne!(path(1), path(2));
    assert_ne!(path(1), path(11));
    assert_ne!(path(0), path(u32::MAX));
}
