use vstd::prelude::*;

use crate::aggregate::{
    bot_suffix, count_before, count_totals, entry_among, entry_names, excluded_logins, is_bot,
    kept, kept_flags, names, profile_from_first, qualified_in, seen_in, sort_counts,
    ContributorRecord, NameAndCount,
};
use crate::text::{
    chars_lt, ends_with, lemma_chars_lt_irreflexive, lemma_chars_lt_total,
    lemma_chars_lt_transitive, str_eq, str_lt,
};

verus! {

/// Each string comes strictly before the next: sorted, without repeats.
pub open spec fn strictly_sorted(v: Seq<Seq<char>>) -> bool {
    forall|a: int, b: int| 0 <= a < b < v.len() ==> chars_lt(v[a], v[b])
}

/// Order of (login, profile) pairs: by login, then by profile.
pub open spec fn pair_lt(a: (Seq<char>, Seq<char>), b: (Seq<char>, Seq<char>)) -> bool {
    chars_lt(a.0, b.0) || (a.0 == b.0 && chars_lt(a.1, b.1))
}

pub open spec fn pair_views(v: Seq<(String, String)>) -> Seq<(Seq<char>, Seq<char>)> {
    v.map_values(|p: (String, String)| (p.0@, p.1@))
}

pub open spec fn pairs_sorted(v: Seq<(Seq<char>, Seq<char>)>) -> bool {
    forall|a: int, b: int| 0 <= a < b < v.len() ==> pair_lt(v[a], v[b])
}

proof fn lemma_pair_lt_total(a: (Seq<char>, Seq<char>), b: (Seq<char>, Seq<char>))
    requires
        a != b,
    ensures
        pair_lt(a, b) || pair_lt(b, a),
{
    if a.0 != b.0 {
        lemma_chars_lt_total(a.0, b.0);
    } else {
        lemma_chars_lt_total(a.1, b.1);
    }
}

proof fn lemma_pair_lt_transitive(
    a: (Seq<char>, Seq<char>),
    b: (Seq<char>, Seq<char>),
    c: (Seq<char>, Seq<char>),
)
    requires
        pair_lt(a, b),
        pair_lt(b, c),
    ensures
        pair_lt(a, c),
{
    if chars_lt(a.0, b.0) && chars_lt(b.0, c.0) {
        lemma_chars_lt_transitive(a.0, b.0, c.0);
    } else if a.0 == b.0 && b.0 == c.0 {
        lemma_chars_lt_transitive(a.1, b.1, c.1);
    }
}

/// Adds `s` to a strictly sorted list of strings, unless it is there already.
pub fn insert_sorted(v: &mut Vec<String>, s: String)
    requires
        strictly_sorted(names(old(v)@)),
    ensures
        strictly_sorted(names(final(v)@)),
        forall|l: Seq<char>|
            names(final(v)@).contains(l) <==> (names(old(v)@).contains(l) || l == s@),
{
    let mut pos: usize = 0;
    while pos < v.len() && str_lt(v[pos].as_str(), s.as_str())
        invariant
            pos <= v@.len(),
            forall|a: int| 0 <= a < pos ==> chars_lt(#[trigger] v@[a]@, s@),
        decreases v@.len() - pos,
    {
        pos = pos + 1;
    }
    if pos < v.len() && str_eq(v[pos].as_str(), s.as_str()) {
        proof {
            assert(names(v@)[pos as int] == s@);
        }
        return;
    }
    let ghost old_v = names(v@);
    proof {
        if pos < old_v.len() {
            lemma_chars_lt_total(old_v[pos as int], s@);
        }
        assert forall|b: int| pos <= b < old_v.len() implies chars_lt(s@, #[trigger] old_v[b]) by {
            if b > pos {
                lemma_chars_lt_transitive(s@, old_v[pos as int], old_v[b]);
            }
        }
    }
    v.insert(pos, s);
    proof {
        let nv = names(v@);
        assert forall|x: int| 0 <= x < nv.len() implies (x < pos ==> nv[x] == old_v[x]) && (x
            == pos ==> nv[x] == s@) && (x > pos ==> nv[x] == old_v[x - 1]) by {}
        assert forall|a: int, b: int| 0 <= a < b < nv.len() implies chars_lt(nv[a], nv[b]) by {
            if a < pos && b > pos {
                lemma_chars_lt_transitive(nv[a], s@, nv[b]);
            }
        }
        assert forall|l: Seq<char>| nv.contains(l) <==> (old_v.contains(l) || l == s@) by {
            if nv.contains(l) {
                let x = choose|x: int| 0 <= x < nv.len() && nv[x] == l;
                if x < pos {
                    assert(old_v[x] == l);
                } else if x > pos {
                    assert(old_v[x - 1] == l);
                }
            }
            if old_v.contains(l) {
                let x = choose|x: int| 0 <= x < old_v.len() && old_v[x] == l;
                if x < pos {
                    assert(nv[x] == l);
                } else {
                    assert(nv[x + 1] == l);
                }
            }
            if l == s@ {
                assert(nv[pos as int] == l);
            }
        }
    }
}

/// Adds a (login, profile) pair to a sorted list of pairs, unless it is there
/// already.
pub fn insert_sorted_pair(v: &mut Vec<(String, String)>, login: String, url: String)
    requires
        pairs_sorted(pair_views(old(v)@)),
    ensures
        pairs_sorted(pair_views(final(v)@)),
        forall|p: (Seq<char>, Seq<char>)|
            pair_views(final(v)@).contains(p) <==> (pair_views(old(v)@).contains(p) || p == (
            login@,
            url@,
        )),
{
    let ghost e = (login@, url@);
    let mut pos: usize = 0;
    while pos < v.len() && (str_lt(v[pos].0.as_str(), login.as_str()) || (str_eq(
        v[pos].0.as_str(),
        login.as_str(),
    ) && str_lt(v[pos].1.as_str(), url.as_str())))
        invariant
            pos <= v@.len(),
            e == (login@, url@),
            forall|a: int| 0 <= a < pos ==> pair_lt(#[trigger] pair_views(v@)[a], e),
        decreases v@.len() - pos,
    {
        proof {
            assert(pair_views(v@)[pos as int] == (v@[pos as int].0@, v@[pos as int].1@));
        }
        pos = pos + 1;
    }
    let ghost old_v = pair_views(v@);
    if pos < v.len() && str_eq(v[pos].0.as_str(), login.as_str()) && str_eq(
        v[pos].1.as_str(),
        url.as_str(),
    ) {
        proof {
            assert(old_v[pos as int] == e);
        }
        return;
    }
    proof {
        if pos < old_v.len() {
            assert(old_v[pos as int] == (v@[pos as int].0@, v@[pos as int].1@));
            lemma_pair_lt_total(old_v[pos as int], e);
        }
        assert forall|b: int| pos <= b < old_v.len() implies pair_lt(e, #[trigger] old_v[b]) by {
            if b > pos {
                lemma_pair_lt_transitive(e, old_v[pos as int], old_v[b]);
            }
        }
    }
    v.insert(pos, (login, url));
    proof {
        let nv = pair_views(v@);
        assert forall|x: int| 0 <= x < nv.len() implies (x < pos ==> nv[x] == old_v[x]) && (x
            == pos ==> nv[x] == e) && (x > pos ==> nv[x] == old_v[x - 1]) by {}
        assert forall|a: int, b: int| 0 <= a < b < nv.len() implies pair_lt(nv[a], nv[b]) by {
            if a < pos && b > pos {
                lemma_pair_lt_transitive(nv[a], e, nv[b]);
            }
        }
        assert forall|p: (Seq<char>, Seq<char>)| nv.contains(p) <==> (old_v.contains(p) || p == e) by {
            if nv.contains(p) {
                let x = choose|x: int| 0 <= x < nv.len() && nv[x] == p;
                if x < pos {
                    assert(old_v[x] == p);
                } else if x > pos {
                    assert(old_v[x - 1] == p);
                }
            }
            if old_v.contains(p) {
                let x = choose|x: int| 0 <= x < old_v.len() && old_v[x] == p;
                if x < pos {
                    assert(nv[x] == p);
                } else {
                    assert(nv[x + 1] == p);
                }
            }
            if p == e {
                assert(nv[pos as int] == p);
            }
        }
    }
}

/// Some non-bot record names project `p`.
pub open spec fn project_seen(recs: Seq<ContributorRecord>, p: Seq<char>) -> bool {
    exists|i: int| 0 <= i < recs.len() && !is_bot(recs[i]) && #[trigger] recs[i].project@ == p
}

/// Some kept record among the first `n` is by `pr.0` with profile `pr.1` on
/// project `p`.
pub open spec fn kept_pair(
    recs: Seq<ContributorRecord>,
    threshold: int,
    p: Seq<char>,
    n: int,
    pr: (Seq<char>, Seq<char>),
) -> bool {
    exists|i: int|
        0 <= i < n && kept(recs, threshold, i) && recs[i].project@ == p && #[trigger] recs[i].login@
            == pr.0 && recs[i].profile_url@ == pr.1
}

/// One line of the per-project view: a project and its kept contributors.
#[derive(Debug, Clone)]
pub struct DepAndNames {
    pub crate_name: String,
    pub contributors: Vec<(String, String)>,
}

pub open spec fn project_names(v: Seq<DepAndNames>) -> Seq<Seq<char>> {
    v.map_values(|d: DepAndNames| d.crate_name@)
}

/// The contributors of a per-project entry are exactly the (login, profile)
/// pairs of the kept records of its project among the first `n`.
pub open spec fn contributors_exact(
    recs: Seq<ContributorRecord>,
    threshold: int,
    n: int,
    d: DepAndNames,
) -> bool {
    forall|pr: (Seq<char>, Seq<char>)|
        pair_views(d.contributors@).contains(pr) <==> kept_pair(recs, threshold, d.crate_name@, n, pr)
}

/// The projects that have a non-bot record, sorted.
fn projects_of(recs: &Vec<ContributorRecord>) -> (r: Vec<String>)
    ensures
        strictly_sorted(names(r@)),
        forall|p: Seq<char>| names(r@).contains(p) <==> project_seen(recs@, p),
{
    let mut out: Vec<String> = Vec::new();
    let n = recs.len();
    let mut i: usize = 0;
    while i < n
        invariant
            n == recs@.len(),
            i <= n,
            strictly_sorted(names(out@)),
            forall|p: Seq<char>|
                names(out@).contains(p) <==> exists|k: int|
                    0 <= k < i && !is_bot(recs@[k]) && #[trigger] recs@[k].project@ == p,
        decreases n - i,
    {
        if !crate::aggregate::is_bot_login(&recs[i].login) {
            insert_sorted(&mut out, recs[i].project.clone());
        }
        proof {
            assert forall|p: Seq<char>|
                names(out@).contains(p) <==> exists|k: int|
                    0 <= k < i + 1 && !is_bot(recs@[k]) && #[trigger] recs@[k].project@ == p by {
                if exists|k: int| 0 <= k < i + 1 && !is_bot(recs@[k]) && #[trigger] recs@[k].project@ == p {
                    let k = choose|k: int| 0 <= k < i + 1 && !is_bot(recs@[k]) && #[trigger] recs@[k].project@ == p;
                    if k < i {
                        assert(exists|k: int| 0 <= k < i && !is_bot(recs@[k]) && #[trigger] recs@[k].project@ == p);
                    }
                }
                if exists|k: int| 0 <= k < i && !is_bot(recs@[k]) && #[trigger] recs@[k].project@ == p {
                    let k = choose|k: int| 0 <= k < i && !is_bot(recs@[k]) && #[trigger] recs@[k].project@ == p;
                    assert(0 <= k < i + 1);
                }
                if p == recs@[i as int].project@ && !is_bot(recs@[i as int]) {
                    assert(0 <= i < i + 1);
                }
            }
        }
        i = i + 1;
    }
    out
}

/// The per-project view: one entry per project that has a non-bot record, in
/// ascending order of name, each with the (login, profile) pairs of its kept
/// records, sorted and without repeats.
pub fn dep_and_names(recs: &Vec<ContributorRecord>, threshold: usize) -> (r: Vec<DepAndNames>)
    ensures
        strictly_sorted(project_names(r@)),
        forall|p: Seq<char>| project_names(r@).contains(p) <==> project_seen(recs@, p),
        forall|x: int| 0 <= x < r@.len() ==> pairs_sorted(pair_views((#[trigger] r@[x]).contributors@)),
        forall|x: int|
            0 <= x < r@.len() ==> contributors_exact(
                recs@,
                threshold as int,
                recs@.len() as int,
                #[trigger] r@[x],
            ),
{
    let flags = kept_flags(recs, threshold);
    let projects = projects_of(recs);
    let n = recs.len();
    let mut out: Vec<DepAndNames> = Vec::new();
    let mut x: usize = 0;
    while x < projects.len()
        invariant
            n == recs@.len(),
            flags@.len() == n,
            forall|j: int| 0 <= j < n ==> flags@[j] == kept(recs@, threshold as int, j),
            x <= projects@.len(),
            out@.len() == x,
            forall|y: int| 0 <= y < x ==> (#[trigger] out@[y]).crate_name@ == projects@[y]@,
            forall|y: int| 0 <= y < x ==> pairs_sorted(pair_views((#[trigger] out@[y]).contributors@)),
            forall|y: int|
                0 <= y < x ==> contributors_exact(recs@, threshold as int, n as int, #[trigger] out@[y]),
        decreases projects@.len() - x,
    {
        let p = &projects[x];
        let mut pairs: Vec<(String, String)> = Vec::new();
        let mut i: usize = 0;
        while i < n
            invariant
                n == recs@.len(),
                flags@.len() == n,
                forall|j: int| 0 <= j < n ==> flags@[j] == kept(recs@, threshold as int, j),
                i <= n,
                pairs_sorted(pair_views(pairs@)),
                forall|pr: (Seq<char>, Seq<char>)|
                    pair_views(pairs@).contains(pr) <==> kept_pair(recs@, threshold as int, p@, i as int, pr),
            decreases n - i,
        {
            if flags[i] && recs[i].project == *p {
                insert_sorted_pair(&mut pairs, recs[i].login.clone(), recs[i].profile_url.clone());
            }
            proof {
                assert forall|pr: (Seq<char>, Seq<char>)|
                    pair_views(pairs@).contains(pr) <==> kept_pair(recs@, threshold as int, p@, i + 1, pr) by {
                    if kept_pair(recs@, threshold as int, p@, i + 1, pr) {
                        let k = choose|k: int|
                            0 <= k < i + 1 && kept(recs@, threshold as int, k) && recs@[k].project@ == p@
                                && #[trigger] recs@[k].login@ == pr.0 && recs@[k].profile_url@ == pr.1;
                        if k < i {
                            assert(kept_pair(recs@, threshold as int, p@, i as int, pr));
                        }
                    }
                    if kept_pair(recs@, threshold as int, p@, i as int, pr) {
                        let k = choose|k: int|
                            0 <= k < i && kept(recs@, threshold as int, k) && recs@[k].project@ == p@
                                && #[trigger] recs@[k].login@ == pr.0 && recs@[k].profile_url@ == pr.1;
                        assert(kept_pair(recs@, threshold as int, p@, i + 1, pr));
                    }
                    if flags@[i as int] && recs@[i as int].project@ == p@ && pr == (
                        recs@[i as int].login@,
                        recs@[i as int].profile_url@,
                    ) {
                        assert(kept_pair(recs@, threshold as int, p@, i + 1, pr));
                    }
                }
            }
            i = i + 1;
        }
        out.push(DepAndNames { crate_name: p.clone(), contributors: pairs });
        proof {
            assert(out@[x as int].crate_name@ == projects@[x as int]@);
        }
        x = x + 1;
    }
    proof {
        assert(project_names(out@) =~= names(projects@));
    }
    out
}

/// Some kept record among the first `n` is by `login` on project `p`.
pub open spec fn kept_project(
    recs: Seq<ContributorRecord>,
    threshold: int,
    login: Seq<char>,
    n: int,
    p: Seq<char>,
) -> bool {
    exists|i: int|
        0 <= i < n && kept(recs, threshold, i) && recs[i].login@ == login && #[trigger] recs[i].project@
            == p
}

/// The projects on which `login` has a kept record.
pub open spec fn kept_projects(recs: Seq<ContributorRecord>, threshold: int, login: Seq<char>) -> Set<
    Seq<char>,
> {
    Set::new(|p: Seq<char>| kept_project(recs, threshold, login, recs.len() as int, p))
}

/// One line of the per-contributor view with projects.
#[derive(Debug, Clone)]
pub struct NameAndDeps {
    pub name: String,
    pub profile_url: String,
    pub crates: Vec<String>,
}

/// The order of that view: more projects first, then smaller login.
pub open spec fn deps_before(a: NameAndDeps, b: NameAndDeps) -> bool {
    a.crates@.len() > b.crates@.len() || (a.crates@.len() == b.crates@.len() && chars_lt(
        a.name@,
        b.name@,
    ))
}

pub open spec fn deps_names(v: Seq<NameAndDeps>) -> Seq<Seq<char>> {
    v.map_values(|d: NameAndDeps| d.name@)
}

/// An entry of that view lists exactly the projects of its login, sorted, and
/// the profile of the login's first kept record.
pub open spec fn deps_entry_ok(recs: Seq<ContributorRecord>, threshold: int, d: NameAndDeps) -> bool {
    &&& strictly_sorted(names(d.crates@))
    &&& forall|p: Seq<char>|
        names(d.crates@).contains(p) <==> #[trigger] kept_project(
            recs,
            threshold,
            d.name@,
            recs.len() as int,
            p,
        )
    &&& profile_from_first(recs, threshold, recs.len() as int, d.name@, d.profile_url@)
}

proof fn lemma_sorted_no_duplicates(v: Seq<Seq<char>>)
    requires
        strictly_sorted(v),
    ensures
        v.no_duplicates(),
{
    assert forall|a: int, b: int| 0 <= a < v.len() && 0 <= b < v.len() && a != b implies v[a]
        != v[b] by {
        if a < b {
            lemma_chars_lt_irreflexive(v[a]);
        } else {
            lemma_chars_lt_irreflexive(v[b]);
        }
    }
}

/// The projects on which `login` has a kept record, sorted.
fn crates_of(recs: &Vec<ContributorRecord>, flags: &Vec<bool>, threshold: usize, login: &String) -> (r: Vec<String>)
    requires
        flags@.len() == recs@.len(),
        forall|j: int| 0 <= j < recs@.len() ==> flags@[j] == kept(recs@, threshold as int, j),
    ensures
        strictly_sorted(names(r@)),
        forall|p: Seq<char>|
            names(r@).contains(p) <==> #[trigger] kept_project(
                recs@,
                threshold as int,
                login@,
                recs@.len() as int,
                p,
            ),
        r@.len() == kept_projects(recs@, threshold as int, login@).len(),
{
    let n = recs.len();
    let mut out: Vec<String> = Vec::new();
    let mut i: usize = 0;
    while i < n
        invariant
            n == recs@.len(),
            flags@.len() == n,
            forall|j: int| 0 <= j < n ==> flags@[j] == kept(recs@, threshold as int, j),
            i <= n,
            strictly_sorted(names(out@)),
            forall|p: Seq<char>|
                names(out@).contains(p) <==> #[trigger] kept_project(
                    recs@,
                    threshold as int,
                    login@,
                    i as int,
                    p,
                ),
        decreases n - i,
    {
        if flags[i] && recs[i].login == *login {
            insert_sorted(&mut out, recs[i].project.clone());
        }
        proof {
            assert forall|p: Seq<char>|
                names(out@).contains(p) <==> #[trigger] kept_project(
                    recs@,
                    threshold as int,
                    login@,
                    i + 1,
                    p,
                ) by {
                if kept_project(recs@, threshold as int, login@, i + 1, p) {
                    let k = choose|k: int|
                        0 <= k < i + 1 && kept(recs@, threshold as int, k) && recs@[k].login@ == login@
                            && #[trigger] recs@[k].project@ == p;
                    if k < i {
                        assert(kept_project(recs@, threshold as int, login@, i as int, p));
                    }
                }
                if kept_project(recs@, threshold as int, login@, i as int, p) {
                    let k = choose|k: int|
                        0 <= k < i && kept(recs@, threshold as int, k) && recs@[k].login@ == login@
                            && #[trigger] recs@[k].project@ == p;
                    assert(kept_project(recs@, threshold as int, login@, i + 1, p));
                }
                if flags@[i as int] && recs@[i as int].login@ == login@ && p == recs@[i as int].project@ {
                    assert(kept_project(recs@, threshold as int, login@, i + 1, p));
                }
            }
        }
        i = i + 1;
    }
    proof {
        lemma_sorted_no_duplicates(names(out@));
        names(out@).unique_seq_to_set();
        assert(names(out@).to_set() =~= kept_projects(recs@, threshold as int, login@));
    }
    out
}

/// The per-contributor view with projects: one entry per login that has a kept
/// record, with the projects where it was kept and the profile of its first
/// kept record, sorted by descending number of projects, then ascending login.
pub fn name_and_deps(recs: &Vec<ContributorRecord>, threshold: usize) -> (r: Vec<NameAndDeps>)
    requires
        recs@.len() <= u32::MAX,
    ensures
        forall|a: int, b: int|
            0 <= a < r@.len() && 0 <= b < r@.len() && a != b ==> r@[a].name@ != r@[b].name@,
        forall|l: Seq<char>|
            deps_names(r@).contains(l) <==> qualified_in(
                recs@,
                threshold as int,
                recs@.len() as int,
                l,
            ),
        forall|x: int| 0 <= x < r@.len() ==> deps_entry_ok(recs@, threshold as int, #[trigger] r@[x]),
        forall|a: int, b: int| 0 <= a < b < r@.len() ==> deps_before(r@[a], r@[b]),
{
    let flags = kept_flags(recs, threshold);
    let acc = count_totals(recs, threshold);
    let mut keys: Vec<NameAndCount> = Vec::new();
    let mut j: usize = 0;
    while j < acc.len()
        invariant
            flags@.len() == recs@.len(),
            forall|k: int| 0 <= k < recs@.len() ==> flags@[k] == kept(recs@, threshold as int, k),
            j <= acc@.len(),
            keys@.len() == j,
            forall|y: int|
                0 <= y < j ==> (#[trigger] keys@[y]).name@ == acc@[y].name@ && keys@[y].profile_url@
                    == acc@[y].profile_url@ && keys@[y].count == kept_projects(
                    recs@,
                    threshold as int,
                    acc@[y].name@,
                ).len(),
        decreases acc@.len() - j,
    {
        let c = crates_of(recs, &flags, threshold, &acc[j].name);
        keys.push(
            NameAndCount {
                name: acc[j].name.clone(),
                profile_url: acc[j].profile_url.clone(),
                count: c.len() as u64,
            },
        );
        j = j + 1;
    }
    proof {
        assert forall|a: int, b: int|
            0 <= a < keys@.len() && 0 <= b < keys@.len() && a != b implies keys@[a].name@
                != keys@[b].name@ by {
            assert(keys@[a].name@ == acc@[a].name@);
            assert(keys@[b].name@ == acc@[b].name@);
        }
    }
    let sorted = sort_counts(&keys);
    let mut out: Vec<NameAndDeps> = Vec::new();
    let mut y: usize = 0;
    while y < sorted.len()
        invariant
            flags@.len() == recs@.len(),
            forall|k: int| 0 <= k < recs@.len() ==> flags@[k] == kept(recs@, threshold as int, k),
            y <= sorted@.len(),
            out@.len() == y,
            keys@.len() == acc@.len(),
            forall|x: int|
                0 <= x < y ==> (#[trigger] out@[x]).name@ == sorted@[x].name@ && out@[x].profile_url@
                    == sorted@[x].profile_url@ && deps_entry_ok(recs@, threshold as int, out@[x])
                    && out@[x].crates@.len() == kept_projects(
                    recs@,
                    threshold as int,
                    out@[x].name@,
                ).len(),
            forall|x: int| 0 <= x < sorted@.len() ==> entry_among(keys@, keys@.len() as int, #[trigger] sorted@[x]),
            forall|y2: int|
                0 <= y2 < keys@.len() ==> (#[trigger] keys@[y2]).name@ == acc@[y2].name@ && keys@[y2].profile_url@
                    == acc@[y2].profile_url@ && keys@[y2].count == kept_projects(
                    recs@,
                    threshold as int,
                    acc@[y2].name@,
                ).len(),
            forall|x: int|
                0 <= x < acc@.len() ==> profile_from_first(
                    recs@,
                    threshold as int,
                    recs@.len() as int,
                    (#[trigger] acc@[x]).name@,
                    acc@[x].profile_url@,
                ),
        decreases sorted@.len() - y,
    {
        let c = crates_of(recs, &flags, threshold, &sorted[y].name);
        proof {
            assert(entry_among(keys@, keys@.len() as int, sorted@[y as int]));
            let k = choose|k: int|
                0 <= k < keys@.len() && #[trigger] keys@[k].name@ == sorted@[y as int].name@
                    && keys@[k].profile_url@ == sorted@[y as int].profile_url@ && keys@[k].count
                    == sorted@[y as int].count;
            assert(profile_from_first(
                recs@,
                threshold as int,
                recs@.len() as int,
                acc@[k].name@,
                acc@[k].profile_url@,
            ));
        }
        out.push(
            NameAndDeps {
                name: sorted[y].name.clone(),
                profile_url: sorted[y].profile_url.clone(),
                crates: c,
            },
        );
        y = y + 1;
    }
    proof {
        assert forall|x: int| 0 <= x < out@.len() implies out@[x].crates@.len() == sorted@[x].count by {
            assert(entry_among(keys@, keys@.len() as int, sorted@[x]));
            let k = choose|k: int|
                0 <= k < keys@.len() && #[trigger] keys@[k].name@ == sorted@[x].name@
                    && keys@[k].profile_url@ == sorted@[x].profile_url@ && keys@[k].count
                    == sorted@[x].count;
        }
        assert(deps_names(out@) =~= entry_names(sorted@));
        assert forall|l: Seq<char>| entry_names(keys@).contains(l) <==> entry_names(acc@).contains(l) by {
            if entry_names(keys@).contains(l) {
                let x = choose|x: int| 0 <= x < keys@.len() && entry_names(keys@)[x] == l;
                assert(entry_names(acc@)[x] == l);
            }
            if entry_names(acc@).contains(l) {
                let x = choose|x: int| 0 <= x < acc@.len() && entry_names(acc@)[x] == l;
                assert(entry_names(keys@)[x] == l);
            }
        }
        assert forall|a: int, b: int| 0 <= a < b < out@.len() implies deps_before(out@[a], out@[b]) by {
            assert(count_before(sorted@[a], sorted@[b]));
            assert(out@[a].name@ == sorted@[a].name@);
            assert(out@[b].name@ == sorted@[b].name@);
            assert(out@[a].crates@.len() == sorted@[a].count);
            assert(out@[b].crates@.len() == sorted@[b].count);
        }
    }
    out
}

/// A login with the bot suffix never reaches any view: it qualifies nowhere, is
/// not counted among the excluded logins, has no kept pair on any project and
/// no kept project.
pub proof fn lemma_bots_never_reported(recs: Seq<ContributorRecord>, threshold: int, login: Seq<char>)
    requires
        ends_with(login, bot_suffix()),
    ensures
        !qualified_in(recs, threshold, recs.len() as int, login),
        !excluded_logins(recs, threshold).contains(login),
        forall|p: Seq<char>, url: Seq<char>|
            !#[trigger] kept_pair(recs, threshold, p, recs.len() as int, (login, url)),
        forall|p: Seq<char>| !#[trigger] kept_project(recs, threshold, login, recs.len() as int, p),
{
    assert(!seen_in(recs, recs.len() as int, login));
}

} // verus!
