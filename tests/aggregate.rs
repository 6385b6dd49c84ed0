use acknowledge::aggregate::{excluded, kept_flags, name_and_count, others_count, ContributorRecord};
use acknowledge::views::{dep_and_names, name_and_deps};

fn rec(project: &str, login: &str, contributions: u32) -> ContributorRecord {
    ContributorRecord {
        project: project.to_string(),
        login: login.to_string(),
        profile_url: format!("https://github.com/{login}"),
        contributions,
    }
}

#[test]
fn sole_contributor_is_kept() {
    let recs = vec![rec("a", "solo", 1)];
    assert_eq!(kept_flags(&recs, 5), vec![true]);
    let v = name_and_count(&recs, 5);
    assert_eq!(v.len(), 1);
    assert_eq!(v[0].name, "solo");
    assert_eq!(v[0].count, 1);
    assert_eq!(others_count(&recs, 5), 0);
}

#[test]
fn threshold_exclusion_then_reinstatement() {
    let recs = vec![rec("A", "x", 1), rec("A", "y", 7), rec("B", "x", 4), rec("B", "w", 3)];
    let counts = name_and_count(&recs, 3);
    let x = counts.iter().find(|e| e.name == "x").unwrap();
    assert_eq!(x.count, 4);
    assert_eq!(others_count(&recs, 3), 0);
    let deps = dep_and_names(&recs, 3);
    let a = deps.iter().find(|d| d.crate_name == "A").unwrap();
    assert!(a.contributors.iter().all(|(l, _)| l != "x"));
    let b = deps.iter().find(|d| d.crate_name == "B").unwrap();
    assert!(b.contributors.iter().any(|(l, _)| l == "x"));
}

#[test]
fn others_counts_logins_never_qualified() {
    let recs = vec![rec("A", "x", 1), rec("A", "y", 7), rec("B", "z", 1), rec("B", "y", 2), rec("B", "z", 1)];
    let ex = excluded(&recs, 3);
    assert_eq!(ex, vec!["x".to_string(), "z".to_string()]);
    assert_eq!(others_count(&recs, 3), 2);
}

#[test]
fn bots_never_appear() {
    let recs = vec![
        rec("A", "dependabot[bot]", 500),
        rec("A", "human", 1),
        rec("B", "renovate[bot]", 1),
        rec("B", "other", 9),
    ];
    let counts = name_and_count(&recs, 2);
    assert!(counts.iter().all(|e| !e.name.ends_with("[bot]")));
    // the human is the only non-bot contributor of A
    assert!(counts.iter().any(|e| e.name == "human"));
    let deps = dep_and_names(&recs, 2);
    assert!(deps.iter().all(|d| d.contributors.iter().all(|(l, _)| !l.ends_with("[bot]"))));
    let by_login = name_and_deps(&recs, 2);
    assert!(by_login.iter().all(|e| !e.name.ends_with("[bot]")));
    assert_eq!(others_count(&recs, 2), 0);
}

#[test]
fn count_view_sorted_by_count_then_login() {
    let recs = vec![rec("p1", "b", 5), rec("p2", "c", 3), rec("p3", "a", 5)];
    let v = name_and_count(&recs, 1);
    let order: Vec<&str> = v.iter().map(|e| e.name.as_str()).collect();
    assert_eq!(order, vec!["a", "b", "c"]);
    assert_eq!(v.iter().map(|e| e.count).collect::<Vec<_>>(), vec![5, 5, 3]);
}

#[test]
fn counts_sum_over_projects_and_keep_first_profile() {
    let mut r2 = rec("q", "a", 4);
    r2.profile_url = "other".to_string();
    let recs = vec![rec("p", "a", 2), rec("p", "b", 2), r2, rec("q", "c", 1)];
    let v = name_and_count(&recs, 2);
    assert_eq!(v.len(), 2);
    assert_eq!(v[0].name, "a");
    assert_eq!(v[0].count, 6);
    assert_eq!(v[0].profile_url, "https://github.com/a");
    assert_eq!(v[1].name, "b");
    assert_eq!(v[1].count, 2);
    assert_eq!(others_count(&recs, 2), 1);
}

#[test]
fn per_project_view_sorted_and_deduplicated() {
    let recs = vec![rec("zeta", "m", 3), rec("alpha", "q", 2), rec("alpha", "b", 9), rec("alpha", "b", 9), rec("zeta", "k", 1)];
    let v = dep_and_names(&recs, 2);
    let names: Vec<&str> = v.iter().map(|d| d.crate_name.as_str()).collect();
    assert_eq!(names, vec!["alpha", "zeta"]);
    let alpha: Vec<&str> = v[0].contributors.iter().map(|(l, _)| l.as_str()).collect();
    assert_eq!(alpha, vec!["b", "q"]);
    let zeta: Vec<&str> = v[1].contributors.iter().map(|(l, _)| l.as_str()).collect();
    assert_eq!(zeta, vec!["m"]);
}

#[test]
fn per_contributor_projects_view() {
    let recs = vec![rec("p", "a", 3), rec("p", "b", 3), rec("q", "b", 1), rec("r", "b", 1), rec("r", "c", 2)];
    let v = name_and_deps(&recs, 2);
    assert_eq!(v.len(), 3);
    assert_eq!(v[0].name, "b");
    assert_eq!(v[0].crates, vec!["p".to_string(), "q".to_string()]);
    assert_eq!(v[1].name, "a");
    assert_eq!(v[2].name, "c");
    assert_eq!(v[2].crates, vec!["r".to_string()]);
}

#[test]
fn empty_stream_gives_empty_views() {
    let recs: Vec<ContributorRecord> = vec![];
    assert!(name_and_count(&recs, 2).is_empty());
    assert!(dep_and_names(&recs, 2).is_empty());
    assert!(name_and_deps(&recs, 2).is_empty());
    assert_eq!(others_count(&recs, 2), 0);
}
