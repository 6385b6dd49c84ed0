use acknowledge::cache::MemoryCache;
use acknowledge::pacing::{
    after_reset, minutes_seconds, registry_wait_ms, take_request, wait_seconds, Quota, QuotaStep,
    REGISTRY_INTERVAL_MS,
};
use acknowledge::plan::{
    contributors_api_url, is_included, next_page, plural, project_api_url, registry_action, registry_cache_key,
    route_dependency, token_cache_key, Breadth, DepKind, DepRoute, RegistryAction,
};

#[test]
fn registry_wait_fills_the_interval() {
    assert_eq!(registry_wait_ms(1_000, 1_200, REGISTRY_INTERVAL_MS), 800);
    assert_eq!(registry_wait_ms(1_000, 2_000, REGISTRY_INTERVAL_MS), 0);
    assert_eq!(registry_wait_ms(1_000, 5_000, REGISTRY_INTERVAL_MS), 0);
}

#[test]
fn cache_round_trip_needs_no_fetch() {
    let mut c = MemoryCache::new();
    assert_eq!(c.read("registry,serde"), None);
    c.write("registry,serde", b"\"https://github.com/serde-rs/serde\"".to_vec());
    c.write("other", vec![1]);
    let got = c.read("registry,serde");
    assert_eq!(got, Some(b"\"https://github.com/serde-rs/serde\"".to_vec()));
    c.write("other", vec![2]);
    assert_eq!(c.read("other"), Some(vec![2]));
    assert_eq!(
        registry_action(Some("https://github.com/serde-rs/serde".to_string())),
        RegistryAction::Emit("https://github.com/serde-rs/serde".to_string())
    );
    assert_eq!(registry_action(None), RegistryAction::FetchLive);
    c.clear();
    assert_eq!(c.read("other"), None);
}

#[test]
fn quota_counts_down_then_waits() {
    let q = Quota { limit: 60, remaining: 1, reset: 1_700_000_000 };
    let q2 = match take_request(q) {
        QuotaStep::Proceed(q2) => q2,
        QuotaStep::WaitUntil(_) => panic!("quota left"),
    };
    assert_eq!(q2.remaining, 0);
    assert_eq!(take_request(q2), QuotaStep::WaitUntil(1_700_000_000));
    let fresh = Quota { limit: 60, remaining: 60, reset: 1_700_003_600 };
    let merged = after_reset(q2, fresh);
    assert_eq!(merged, Quota { limit: 120, remaining: 60, reset: 1_700_003_600 });
}

#[test]
fn countdown_parts() {
    assert_eq!(wait_seconds(1_000, 875), 125);
    assert_eq!(wait_seconds(1_000, 2_000), 0);
    assert_eq!(minutes_seconds(125), (2, 5));
}

#[test]
fn endpoints_and_keys() {
    assert_eq!(project_api_url("gitlab.com", "group", "proj"), "https://gitlab.com/api/v4/projects/group%2Fproj");
    assert_eq!(
        contributors_api_url("gitlab.com", "group", "proj"),
        "https://gitlab.com/api/v4/projects/group%2Fproj/repository/contributors"
    );
    assert_eq!(registry_cache_key("serde"), "registry,serde");
    assert_eq!(token_cache_key(), "github_access_token");
}

#[test]
fn dependency_routing_and_breadth() {
    assert_eq!(route_dependency(Some("https://x/y/z".to_string()), true), DepRoute::Source("https://x/y/z".to_string()));
    assert_eq!(route_dependency(None, true), DepRoute::Skip);
    assert_eq!(route_dependency(None, false), DepRoute::Registry);
    assert!(is_included(Breadth::NonOpt, DepKind::Normal, false));
    assert!(!is_included(Breadth::NonOpt, DepKind::Normal, true));
    assert!(!is_included(Breadth::NonOpt, DepKind::Dev, false));
    assert!(is_included(Breadth::All, DepKind::Normal, true));
    assert!(!is_included(Breadth::All, DepKind::Workspace, true));
    assert!(is_included(Breadth::BuildAndDev, DepKind::Build, true));
}

#[test]
fn plural_choice() {
    assert_eq!(plural(1, "contributor", "contributors"), "contributor");
    assert_eq!(plural(0, "contributor", "contributors"), "contributors");
    assert_eq!(plural(2, "contributor", "contributors"), "contributors");
}

#[test]
fn paging_stops_after_last_page() {
    assert_eq!(next_page(1, Some(3)), Some(2));
    assert_eq!(next_page(3, Some(3)), None);
    assert_eq!(next_page(1, None), None);
}
