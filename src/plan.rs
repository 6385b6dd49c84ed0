use vstd::prelude::*;

verus! {

/// The cache key of a registry lookup: `registry,<name>`.
pub open spec fn registry_key_spec(name: Seq<char>) -> Seq<char> {
    seq!['r', 'e', 'g', 'i', 's', 't', 'r', 'y', ','] + name
}

/// The cache key under which the repository URL of a package is kept.
pub fn registry_cache_key(name: &str) -> (r: String)
    ensures
        r@ == registry_key_spec(name@),
{
    let prefix = "registry,";
    proof {
        reveal_strlit("registry,");
        assert(prefix@ =~= seq!['r', 'e', 'g', 'i', 's', 't', 'r', 'y', ',']);
    }
    let mut k = prefix.to_string();
    k.append(name);
    k
}

/// The cache key of the optionally kept access token.
pub fn token_cache_key() -> (r: String)
    ensures
        r@ == "github_access_token"@,
{
    "github_access_token".to_string()
}

/// The project endpoint of a generic host:
/// `https://<host>/api/v4/projects/<owner>%2F<repo>`.
pub open spec fn project_api_spec(host: Seq<char>, owner: Seq<char>, repo: Seq<char>) -> Seq<char> {
    "https://"@ + host + "/api/v4/projects/"@ + owner + "%2F"@ + repo
}

/// The project endpoint of a generic host, with `owner/repo` percent-encoded.
pub fn project_api_url(host: &str, owner: &str, repo: &str) -> (r: String)
    ensures
        r@ == project_api_spec(host@, owner@, repo@),
{
    let mut u = "https://".to_string();
    u.append(host);
    u.append("/api/v4/projects/");
    u.append(owner);
    u.append("%2F");
    u.append(repo);
    u
}

/// The contributors endpoint of a generic host's project.
pub fn contributors_api_url(host: &str, owner: &str, repo: &str) -> (r: String)
    ensures
        r@ == project_api_spec(host@, owner@, repo@) + "/repository/contributors"@,
{
    let mut u = project_api_url(host, owner, repo);
    u.append("/repository/contributors");
    u
}

/// What to do for a package name once its cache entry was looked up.
#[derive(Debug, Clone, PartialEq, Eq)]
pub enum RegistryAction {
    /// The repository URL was cached: pass it on, with no request.
    Emit(String),
    /// Nothing was cached: ask the registry, paced.
    FetchLive,
}

/// A cache hit is passed on as it is; only a miss leads to a live request.
pub fn registry_action(cached: Option<String>) -> (r: RegistryAction)
    ensures
        match cached {
            Some(url) => r == RegistryAction::Emit(url),
            None => r == RegistryAction::FetchLive,
        },
{
    match cached {
        Some(url) => RegistryAction::Emit(url),
        None => RegistryAction::FetchLive,
    }
}

/// The contributor page to fetch after `page`, when the host reported `pages`
/// pages in all; none once the last page was fetched or the count is unknown.
pub fn next_page(page: u32, pages: Option<u32>) -> (r: Option<u32>)
    ensures
        match pages {
            Some(total) => if page < total {
                r == Some((page + 1) as u32)
            } else {
                r is None
            },
            None => r is None,
        },
{
    match pages {
        Some(total) => if page < total {
            Some(page + 1)
        } else {
            None
        },
        None => None,
    }
}

/// Which dependencies a scan takes in.
#[derive(Debug, Clone, Copy, PartialEq, Eq, Structural)]
pub enum Breadth {
    /// Non-optional dependencies.
    NonOpt,
    /// All dependencies.
    All,
    /// All dependencies, with build and dev dependencies.
    BuildAndDev,
}

/// The table of a manifest that a dependency stands in.
#[derive(Debug, Clone, Copy, PartialEq, Eq, Structural)]
pub enum DepKind {
    Normal,
    Dev,
    Build,
    Workspace,
}

/// Whether a dependency of the given table and optionality is scanned.
pub open spec fn included_spec(breadth: Breadth, kind: DepKind, optional: bool) -> bool {
    match breadth {
        Breadth::NonOpt => (kind == DepKind::Normal || kind == DepKind::Workspace) && !optional,
        Breadth::All => kind == DepKind::Normal || (kind == DepKind::Workspace && !optional),
        Breadth::BuildAndDev => true,
    }
}

/// Whether a dependency of the given table and optionality is scanned.
pub fn is_included(breadth: Breadth, kind: DepKind, optional: bool) -> (r: bool)
    ensures
        r == included_spec(breadth, kind, optional),
{
    match breadth {
        Breadth::NonOpt => (kind == DepKind::Normal || kind == DepKind::Workspace) && !optional,
        Breadth::All => kind == DepKind::Normal || (kind == DepKind::Workspace && !optional),
        Breadth::BuildAndDev => true,
    }
}

/// Where a dependency's contributor data is looked for.
#[derive(Debug, Clone, PartialEq, Eq)]
pub enum DepRoute {
    /// An explicit source URL.
    Source(String),
    /// The package registry, by name.
    Registry,
    /// A local path dependency: not looked up.
    Skip,
}

/// An explicit source URL wins; otherwise a dependency without a local path is
/// looked up in the registry.
pub fn route_dependency(git: Option<String>, has_path: bool) -> (r: DepRoute)
    ensures
        match git {
            Some(url) => r == DepRoute::Source(url),
            None => if has_path {
                r == DepRoute::Skip
            } else {
                r == DepRoute::Registry
            },
        },
{
    match git {
        Some(url) => DepRoute::Source(url),
        None => if has_path {
            DepRoute::Skip
        } else {
            DepRoute::Registry
        },
    }
}

/// The word to print beside a count: `singular` for exactly one, else `many`.
pub fn plural<'a>(count: u64, singular: &'a str, many: &'a str) -> (r: &'a str)
    ensures
        r@ == if count == 1 {
            singular@
        } else {
            many@
        },
{
    if count == 1 {
        singular
    } else {
        many
    }
}

} // verus!
