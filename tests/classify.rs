use acknowledge::source::{classify, source_url, Source};

fn gh(owner: &str, repo: &str) -> Source {
    Source::GitHub { owner: owner.to_string(), repo: repo.to_string() }
}

#[test]
fn https_github_url() {
    assert_eq!(classify("https://github.com/rust-lang/cargo"), gh("rust-lang", "cargo"));
}

#[test]
fn ssh_github_url_with_git_suffix() {
    assert_eq!(classify("git@github.com:serde-rs/serde.git"), gh("serde-rs", "serde"));
}

#[test]
fn monorepo_path_is_cut() {
    assert_eq!(
        classify("https://github.com/tokio-rs/tokio/tree/master/tokio-util"),
        gh("tokio-rs", "tokio")
    );
}

#[test]
fn generic_host_url() {
    assert_eq!(
        classify("https://gitlab.com/group/project.git"),
        Source::GenericHost {
            host: "gitlab.com".to_string(),
            owner: "group".to_string(),
            repo: "project".to_string(),
        }
    );
}

#[test]
fn unsupported_sources() {
    for s in ["ftp://example.org/a/b", "https://github.com/onlyowner", "", "https://host/owner/.git", "https:///a/b"] {
        assert_eq!(classify(s), Source::Unsupported { raw: s.to_string() });
    }
}

#[test]
fn canonical_url_round_trip() {
    for s in [
        "git@github.com:serde-rs/serde.git",
        "https://github.com/a/b/c/d",
        "https://gitlab.com/group/project.git",
        "not a url",
    ] {
        let c = classify(s);
        assert_eq!(classify(&source_url(&c)), c);
    }
    assert_eq!(source_url(&classify("git@github.com:serde-rs/serde.git")), "https://github.com/serde-rs/serde");
    assert_eq!(
        source_url(&classify("https://gitlab.com/group/project.git")),
        "https://gitlab.com/group/project"
    );
}
