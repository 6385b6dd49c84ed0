use vstd::prelude::*;

use crate::text::{
    ends_with, find_slash, has_prefix, lemma_seg_end_at, lemma_seg_end_props, no_slash,
    range_eq, seg_end, starts_with,
};

verus! {

/// Where the contributor data of a project comes from.
#[derive(Debug, Clone, PartialEq, Eq)]
pub enum Source {
    GitHub { owner: String, repo: String },
    GenericHost { host: String, owner: String, repo: String },
    Unsupported { raw: String },
}

/// A `Source` with its strings seen as character sequences.
pub enum SourceView {
    GitHub { owner: Seq<char>, repo: Seq<char> },
    GenericHost { host: Seq<char>, owner: Seq<char>, repo: Seq<char> },
    Unsupported { raw: Seq<char> },
}

impl View for Source {
    type V = SourceView;

    open spec fn view(&self) -> SourceView {
        match self {
            Source::GitHub { owner, repo } => SourceView::GitHub { owner: owner@, repo: repo@ },
            Source::GenericHost { host, owner, repo } => SourceView::GenericHost {
                host: host@,
                owner: owner@,
                repo: repo@,
            },
            Source::Unsupported { raw } => SourceView::Unsupported { raw: raw@ },
        }
    }
}

pub open spec fn https_prefix() -> Seq<char> {
    seq!['h', 't', 't', 'p', 's', ':', '/', '/']
}

pub open spec fn github_host() -> Seq<char> {
    seq!['g', 'i', 't', 'h', 'u', 'b', '.', 'c', 'o', 'm']
}

/// `git@github.com:`
pub open spec fn ssh_prefix() -> Seq<char> {
    seq!['g', 'i', 't', '@'] + github_host() + seq![':']
}

/// `https://github.com/`
pub open spec fn github_base() -> Seq<char> {
    https_prefix() + github_host() + seq!['/']
}

pub open spec fn git_suffix() -> Seq<char> {
    seq!['.', 'g', 'i', 't']
}

/// The SSH form `git@github.com:owner/repo` rewritten to its HTTPS form.
pub open spec fn normalize_scheme(s: Seq<char>) -> Seq<char> {
    if starts_with(s, ssh_prefix()) {
        github_base() + s.subrange(ssh_prefix().len() as int, s.len() as int)
    } else {
        s
    }
}

/// A repository name without one trailing `.git`.
pub open spec fn strip_git(r: Seq<char>) -> Seq<char> {
    if ends_with(r, git_suffix()) {
        r.subrange(0, r.len() - 4)
    } else {
        r
    }
}

/// The classification of a source string: `https://<host>/<owner>/<repo>[/...]`
/// after the SSH form is rewritten; the host `github.com` makes a GitHub source.
pub open spec fn classify_spec(s: Seq<char>) -> SourceView {
    let t = normalize_scheme(s);
    let h_end = seg_end(t, 8);
    let o_start = h_end + 1;
    let o_end = seg_end(t, o_start);
    let r_start = o_end + 1;
    let r_end = seg_end(t, r_start);
    let host = t.subrange(8, h_end);
    let owner = t.subrange(o_start, o_end);
    let repo = strip_git(t.subrange(r_start, r_end));
    if !starts_with(t, https_prefix()) || h_end >= t.len() || o_end == o_start || o_end
        >= t.len() || repo.len() == 0 || host.len() == 0 {
        SourceView::Unsupported { raw: s }
    } else if host == github_host() {
        SourceView::GitHub { owner, repo }
    } else {
        SourceView::GenericHost { host, owner, repo }
    }
}

/// The canonical URL of a classified source; an unsupported one keeps its text.
pub open spec fn url_spec(v: SourceView) -> Seq<char> {
    match v {
        SourceView::GitHub { owner, repo } => github_base() + owner + seq!['/'] + repo,
        SourceView::GenericHost { host, owner, repo } => https_prefix() + host + seq!['/']
            + owner + seq!['/'] + repo,
        SourceView::Unsupported { raw } => raw,
    }
}

/// The repository name of a classified source, if it has one.
pub open spec fn repo_of(v: SourceView) -> Seq<char> {
    match v {
        SourceView::GitHub { repo, .. } => repo,
        SourceView::GenericHost { repo, .. } => repo,
        SourceView::Unsupported { .. } => Seq::empty(),
    }
}

/// Facts about the parts of a classified source.
proof fn lemma_classify_parts(s: Seq<char>)
    ensures
        match classify_spec(s) {
            SourceView::GitHub { owner, repo } => owner.len() > 0 && repo.len() > 0 && no_slash(
                owner,
                0,
                owner.len() as int,
            ) && no_slash(repo, 0, repo.len() as int),
            SourceView::GenericHost { host, owner, repo } => host.len() > 0 && owner.len() > 0
                && repo.len() > 0 && host != github_host() && no_slash(host, 0, host.len() as int)
                && no_slash(owner, 0, owner.len() as int) && no_slash(repo, 0, repo.len() as int),
            SourceView::Unsupported { raw } => raw == s,
        },
{
    let t = normalize_scheme(s);
    if starts_with(t, https_prefix()) && seg_end(t, 8) < t.len() {
        let h_end = seg_end(t, 8);
        lemma_seg_end_props(t, 8);
        lemma_seg_end_props(t, h_end + 1);
        let o_end = seg_end(t, h_end + 1);
        if o_end < t.len() {
            lemma_seg_end_props(t, o_end + 1);
            let r_end = seg_end(t, o_end + 1);
            let seg = t.subrange(o_end + 1, r_end);
            assert(no_slash(seg, 0, seg.len() as int));
            let repo = strip_git(seg);
            assert(no_slash(repo, 0, repo.len() as int));
            let host = t.subrange(8, h_end);
            assert(no_slash(host, 0, host.len() as int));
            let owner = t.subrange(h_end + 1, o_end);
            assert(no_slash(owner, 0, owner.len() as int));
        }
    }
}

/// Re-classifying the canonical URL of a classified source gives the same source,
/// unless its repository name still ends in `.git` after one suffix was stripped.
pub proof fn lemma_classify_url_idempotent(s: Seq<char>)
    requires
        !ends_with(repo_of(classify_spec(s)), git_suffix()),
    ensures
        classify_spec(url_spec(classify_spec(s))) == classify_spec(s),
{
    lemma_classify_parts(s);
    let v = classify_spec(s);
    match v {
        SourceView::GitHub { owner, repo } => {
            let u = url_spec(v);
            let ol = owner.len() as int;
            assert(u[0] == 'h');
            assert(ssh_prefix()[0] == 'g');
            if starts_with(u, ssh_prefix()) {
                assert(u.subrange(0, 15)[0] == u[0]);
            }
            assert(normalize_scheme(u) == u);
            assert(u.subrange(0, 8) =~= https_prefix());
            lemma_seg_end_at(u, 8, 18);
            lemma_seg_end_at(u, 19, 19 + ol);
            lemma_seg_end_at(u, 20 + ol, u.len() as int);
            assert(u.subrange(8, 18) =~= github_host());
            assert(u.subrange(19, 19 + ol) =~= owner);
            assert(u.subrange(20 + ol, u.len() as int) =~= repo);
        },
        SourceView::GenericHost { host, owner, repo } => {
            let u = url_spec(v);
            assert(u[0] == 'h');
            assert(ssh_prefix()[0] == 'g');
            if starts_with(u, ssh_prefix()) {
                assert(u.subrange(0, 15)[0] == u[0]);
            }
            assert(normalize_scheme(u) == u);
            assert(u.subrange(0, 8) =~= https_prefix());
            let ol = owner.len() as int;
            let h_end = 8 + host.len() as int;
            lemma_seg_end_at(u, 8, h_end);
            lemma_seg_end_at(u, h_end + 1, h_end + 1 + ol);
            lemma_seg_end_at(u, h_end + 2 + ol, u.len() as int);
            assert(u.subrange(8, h_end) =~= host);
            assert(u.subrange(h_end + 1, h_end + 1 + ol) =~= owner);
            assert(u.subrange(h_end + 2 + ol, u.len() as int) =~= repo);
        },
        SourceView::Unsupported { raw } => {},
    }
}

/// Rewrites the SSH GitHub form to the HTTPS one.
fn normalize(s: &str) -> (r: String)
    ensures
        r@ == normalize_scheme(s@),
{
    let ssh = "git@github.com:";
    proof {
        reveal_strlit("git@github.com:");
        assert(ssh@ =~= ssh_prefix());
    }
    if has_prefix(s, ssh) {
        let base = "https://github.com/";
        proof {
            reveal_strlit("https://github.com/");
            assert(base@ =~= github_base());
        }
        let n = s.unicode_len();
        let rest = s.substring_char(15, n);
        let mut t = base.to_string();
        t.append(rest);
        t
    } else {
        s.to_string()
    }
}

fn string_of(s: &str, from: usize, to: usize) -> (r: String)
    requires
        from <= to <= s@.len(),
    ensures
        r@ == s@.subrange(from as int, to as int),
{
    s.substring_char(from, to).to_string()
}

/// Classifies a source string.
pub fn classify(s: &str) -> (r: Source)
    ensures
        r@ == classify_spec(s@),
{
    let t = normalize(s);
    let ts = t.as_str();
    let n = ts.unicode_len();
    let https = "https://";
    proof {
        reveal_strlit("https://");
        assert(https@ =~= https_prefix());
    }
    if !has_prefix(ts, https) {
        return Source::Unsupported { raw: s.to_string() };
    }
    proof {
        lemma_seg_end_props(t@, 8);
    }
    let h_end = find_slash(ts, 8, n);
    if h_end >= n || h_end == 8 {
        return Source::Unsupported { raw: s.to_string() };
    }
    let o_start = h_end + 1;
    proof {
        lemma_seg_end_props(t@, o_start as int);
    }
    let o_end = find_slash(ts, o_start, n);
    if o_end == o_start || o_end >= n {
        return Source::Unsupported { raw: s.to_string() };
    }
    let r_start = o_end + 1;
    proof {
        lemma_seg_end_props(t@, r_start as int);
    }
    let r_end = find_slash(ts, r_start, n);
    let dot_git = ".git";
    proof {
        reveal_strlit(".git");
        assert(dot_git@ =~= git_suffix());
    }
    let mut r_stop = r_end;
    if r_end - r_start >= 4 && range_eq(ts, r_end - 4, r_end, dot_git) {
        r_stop = r_end - 4;
    }
    proof {
        let seg = t@.subrange(r_start as int, r_end as int);
        if ends_with(seg, git_suffix()) {
            assert(seg.subrange(seg.len() - 4, seg.len() as int) =~= t@.subrange(
                r_end - 4,
                r_end as int,
            ));
        }
        if r_end - r_start >= 4 && t@.subrange(r_end - 4, r_end as int) == git_suffix() {
            assert(seg.subrange(seg.len() - 4, seg.len() as int) =~= t@.subrange(
                r_end - 4,
                r_end as int,
            ));
        }
        assert(strip_git(seg) =~= t@.subrange(r_start as int, r_stop as int));
    }
    if r_stop == r_start {
        return Source::Unsupported { raw: s.to_string() };
    }
    let gh = "github.com";
    proof {
        reveal_strlit("github.com");
        assert(gh@ =~= github_host());
    }
    let owner = string_of(ts, o_start, o_end);
    let repo = string_of(ts, r_start, r_stop);
    if range_eq(ts, 8, h_end, gh) {
        Source::GitHub { owner, repo }
    } else {
        Source::GenericHost { host: string_of(ts, 8, h_end), owner, repo }
    }
}

/// The canonical URL of a source; an unsupported source keeps its text.
pub fn source_url(src: &Source) -> (r: String)
    ensures
        r@ == url_spec(src@),
{
    let slash = "/";
    proof {
        reveal_strlit("/");
        assert(slash@ =~= seq!['/']);
    }
    match src {
        Source::GitHub { owner, repo } => {
            let base = "https://github.com/";
            proof {
                reveal_strlit("https://github.com/");
                assert(base@ =~= github_base());
            }
            let mut u = base.to_string();
            u.append(owner.as_str());
            u.append(slash);
            u.append(repo.as_str());
            u
        },
        Source::GenericHost { host, owner, repo } => {
            let https = "https://";
            proof {
                reveal_strlit("https://");
                assert(https@ =~= https_prefix());
            }
            let mut u = https.to_string();
            u.append(host.as_str());
            u.append(slash);
            u.append(owner.as_str());
            u.append(slash);
            u.append(repo.as_str());
            u
        },
        Source::Unsupported { raw } => raw.clone(),
    }
}

} // verus!
