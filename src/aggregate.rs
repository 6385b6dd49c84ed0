use vstd::prelude::*;

use crate::text::{
    chars_lt, ends_with, has_suffix, lemma_chars_lt_total, lemma_chars_lt_transitive, str_lt,
};

verus! {

/// One contributor of one project, as a fetcher reports it.
#[derive(Debug, Clone)]
pub struct ContributorRecord {
    pub project: String,
    pub login: String,
    pub profile_url: String,
    pub contributions: u32,
}

/// `[bot]`: the suffix that marks automated accounts.
pub open spec fn bot_suffix() -> Seq<char> {
    seq!['[', 'b', 'o', 't', ']']
}

pub open spec fn is_bot(r: ContributorRecord) -> bool {
    ends_with(r.login@, bot_suffix())
}

/// Record `i` is the work of the only (non-bot) contributor of its project.
pub open spec fn sole_on(recs: Seq<ContributorRecord>, i: int) -> bool {
    forall|j: int|
        0 <= j < recs.len() && recs[j].project@ == recs[i].project@ && !is_bot(#[trigger] recs[j])
            ==> recs[j].login@ == recs[i].login@
}

/// Record `i` counts towards the report: it is not a bot's, and its contributor is
/// the sole one of the project or reaches the threshold there.
pub open spec fn kept(recs: Seq<ContributorRecord>, threshold: int, i: int) -> bool {
    !is_bot(recs[i]) && (sole_on(recs, i) || recs[i].contributions >= threshold)
}

/// Some record among the first `n` is kept and belongs to `login`.
pub open spec fn qualified_in(
    recs: Seq<ContributorRecord>,
    threshold: int,
    n: int,
    login: Seq<char>,
) -> bool {
    exists|k: int| 0 <= k < n && kept(recs, threshold, k) && #[trigger] recs[k].login@ == login
}

/// Some non-bot record among the first `n` belongs to `login`.
pub open spec fn seen_in(recs: Seq<ContributorRecord>, n: int, login: Seq<char>) -> bool {
    exists|k: int| 0 <= k < n && !is_bot(recs[k]) && #[trigger] recs[k].login@ == login
}

/// The logins that appear (not as bots) and qualify on no project.
pub open spec fn excluded_logins(recs: Seq<ContributorRecord>, threshold: int) -> Set<Seq<char>> {
    Set::new(
        |l: Seq<char>|
            seen_in(recs, recs.len() as int, l) && !qualified_in(
                recs,
                threshold,
                recs.len() as int,
                l,
            ),
    )
}

/// The views of a list of strings.
pub open spec fn names(v: Seq<String>) -> Seq<Seq<char>> {
    v.map_values(|s: String| s@)
}

/// Whether a login carries the bot suffix.
pub fn is_bot_login(login: &String) -> (r: bool)
    ensures
        r == ends_with(login@, bot_suffix()),
{
    let suffix = "[bot]";
    proof {
        reveal_strlit("[bot]");
        assert(suffix@ =~= bot_suffix());
    }
    has_suffix(login.as_str(), suffix)
}

/// For each record, whether it is kept under `threshold`.
pub fn kept_flags(recs: &Vec<ContributorRecord>, threshold: usize) -> (r: Vec<bool>)
    ensures
        r@.len() == recs@.len(),
        forall|i: int| 0 <= i < recs@.len() ==> r@[i] == kept(recs@, threshold as int, i),
{
    let n = recs.len();
    let mut bots: Vec<bool> = Vec::new();
    let mut i: usize = 0;
    while i < n
        invariant
            n == recs@.len(),
            i <= n,
            bots@.len() == i,
            forall|j: int| 0 <= j < i ==> bots@[j] == is_bot(recs@[j]),
        decreases n - i,
    {
        bots.push(is_bot_login(&recs[i].login));
        i = i + 1;
    }
    let mut r: Vec<bool> = Vec::new();
    i = 0;
    while i < n
        invariant
            n == recs@.len(),
            i <= n,
            bots@.len() == n,
            forall|j: int| 0 <= j < n ==> bots@[j] == is_bot(recs@[j]),
            r@.len() == i,
            forall|j: int| 0 <= j < i ==> r@[j] == kept(recs@, threshold as int, j),
        decreases n - i,
    {
        let mut sole = true;
        let mut j: usize = 0;
        while j < n
            invariant
                n == recs@.len(),
                i < n,
                j <= n,
                bots@.len() == n,
                forall|k: int| 0 <= k < n ==> bots@[k] == is_bot(recs@[k]),
                sole == (forall|k: int|
                    0 <= k < j && recs@[k].project@ == recs@[i as int].project@ && !is_bot(
                        #[trigger] recs@[k],
                    ) ==> recs@[k].login@ == recs@[i as int].login@),
            decreases n - j,
        {
            if recs[j].project == recs[i].project && !bots[j] && recs[j].login != recs[i].login {
                sole = false;
            }
            j = j + 1;
        }
        let keep = !bots[i] && (sole || recs[i].contributions as usize >= threshold);
        r.push(keep);
        i = i + 1;
    }
    r
}

/// Whether `l` is one of the strings of `v`.
pub fn contains_string(v: &Vec<String>, l: &String) -> (r: bool)
    ensures
        r == names(v@).contains(l@),
{
    let mut i: usize = 0;
    while i < v.len()
        invariant
            i <= v@.len(),
            forall|k: int| 0 <= k < i ==> v@[k]@ != l@,
        decreases v@.len() - i,
    {
        if v[i] == *l {
            assert(names(v@)[i as int] == l@);
            return true;
        }
        i = i + 1;
    }
    false
}

/// The logins that appear in the records, not as bots, and qualify on no project,
/// each once, in order of first appearance.
pub fn excluded(recs: &Vec<ContributorRecord>, threshold: usize) -> (r: Vec<String>)
    ensures
        names(r@).no_duplicates(),
        names(r@).to_set() == excluded_logins(recs@, threshold as int),
{
    let flags = kept_flags(recs, threshold);
    let n = recs.len();
    let mut out: Vec<String> = Vec::new();
    let mut i: usize = 0;
    while i < n
        invariant
            n == recs@.len(),
            i <= n,
            flags@.len() == n,
            forall|j: int| 0 <= j < n ==> flags@[j] == kept(recs@, threshold as int, j),
            names(out@).no_duplicates(),
            forall|l: Seq<char>|
                names(out@).contains(l) <==> (seen_in(recs@, i as int, l) && !qualified_in(
                    recs@,
                    threshold as int,
                    n as int,
                    l,
                )),
        decreases n - i,
    {
        let login = &recs[i].login;
        let bot = is_bot_login(login);
        let mut qualifies = false;
        let mut k: usize = 0;
        while k < n
            invariant
                n == recs@.len(),
                i < n,
                k <= n,
                login@ == recs@[i as int].login@,
                flags@.len() == n,
                forall|j: int| 0 <= j < n ==> flags@[j] == kept(recs@, threshold as int, j),
                qualifies == qualified_in(recs@, threshold as int, k as int, login@),
            decreases n - k,
        {
            if flags[k] && recs[k].login == *login {
                qualifies = true;
            }
            k = k + 1;
        }
        let ghost old_names = names(out@);
        let push = !bot && !qualifies && !contains_string(&out, login);
        if push {
            out.push(login.clone());
            proof {
                assert(names(out@) =~= old_names.push(login@));
            }
        }
        proof {
            assert forall|l: Seq<char>|
                names(out@).contains(l) <==> (seen_in(recs@, i + 1, l) && !qualified_in(
                    recs@,
                    threshold as int,
                    n as int,
                    l,
                )) by {
                if l == login@ {
                    if !bot {
                        assert(recs@[i as int].login@ == l);
                        assert(seen_in(recs@, i + 1, l));
                    } else if seen_in(recs@, i + 1, l) {
                        let k = choose|k: int|
                            0 <= k < i + 1 && !is_bot(recs@[k]) && #[trigger] recs@[k].login@
                                == l;
                        assert(k != i);
                        assert(seen_in(recs@, i as int, l));
                    }
                    if push {
                        assert(names(out@).contains(l)) by {
                            assert(names(out@)[old_names.len() as int] == l);
                        }
                    }
                } else {
                    if seen_in(recs@, i + 1, l) {
                        let k = choose|k: int|
                            0 <= k < i + 1 && !is_bot(recs@[k]) && #[trigger] recs@[k].login@
                                == l;
                        assert(k != i);
                        assert(seen_in(recs@, i as int, l));
                    }
                    if seen_in(recs@, i as int, l) {
                        let k = choose|k: int|
                            0 <= k < i && !is_bot(recs@[k]) && #[trigger] recs@[k].login@ == l;
                        assert(seen_in(recs@, i + 1, l));
                    }
                    if push {
                        if names(out@).contains(l) {
                            let x = choose|x: int| 0 <= x < names(out@).len() && names(out@)[x] == l;
                            assert(x < old_names.len());
                            assert(old_names.contains(l));
                        }
                        if old_names.contains(l) {
                            let x = choose|x: int| 0 <= x < old_names.len() && old_names[x] == l;
                            assert(names(out@)[x] == l);
                        }
                    }
                }
            }
        }
        i = i + 1;
    }
    proof {
        assert(names(out@).to_set() =~= excluded_logins(recs@, threshold as int));
    }
    out
}

/// The number of logins that qualify on no project: the "others" of the report.
pub fn others_count(recs: &Vec<ContributorRecord>, threshold: usize) -> (r: usize)
    ensures
        r == excluded_logins(recs@, threshold as int).len(),
{
    let v = excluded(recs, threshold);
    proof {
        names(v@).unique_seq_to_set();
    }
    v.len()
}

/// One line of the per-contributor view: a login, its profile and its kept
/// contributions over all projects.
#[derive(Debug, Clone)]
pub struct NameAndCount {
    pub name: String,
    pub profile_url: String,
    pub count: u64,
}

/// The kept contributions of `login` among the first `n` records.
pub open spec fn kept_sum(recs: Seq<ContributorRecord>, threshold: int, login: Seq<char>, n: int) -> nat
    decreases n,
{
    if n <= 0 {
        0
    } else {
        kept_sum(recs, threshold, login, n - 1) + if kept(recs, threshold, n - 1) && recs[n
            - 1].login@ == login {
            recs[n - 1].contributions as nat
        } else {
            0
        }
    }
}

/// Record `k` is the first kept record of `login`.
pub open spec fn first_kept(
    recs: Seq<ContributorRecord>,
    threshold: int,
    login: Seq<char>,
    k: int,
) -> bool {
    0 <= k < recs.len() && kept(recs, threshold, k) && recs[k].login@ == login && !qualified_in(
        recs,
        threshold,
        k,
        login,
    )
}

/// An entry of the count view states the login's kept total, and the profile of
/// its first kept record.
pub open spec fn count_entry_ok(
    recs: Seq<ContributorRecord>,
    threshold: int,
    e: NameAndCount,
) -> bool {
    &&& e.count == kept_sum(recs, threshold, e.name@, recs.len() as int)
    &&& profile_from_first(recs, threshold, recs.len() as int, e.name@, e.profile_url@)
}

/// `url` is the profile of the first kept record of `login`, which stands among
/// the first `n` records.
pub open spec fn profile_from_first(
    recs: Seq<ContributorRecord>,
    threshold: int,
    n: int,
    login: Seq<char>,
    url: Seq<char>,
) -> bool {
    exists|k: int| k < n && first_kept(recs, threshold, login, k) && recs[k].profile_url@ == url
}

/// The order of the count view: larger count first, then smaller login.
pub open spec fn count_before(a: NameAndCount, b: NameAndCount) -> bool {
    a.count > b.count || (a.count == b.count && chars_lt(a.name@, b.name@))
}

/// Some of the first `n` entries of `v` has the fields of `e`.
pub open spec fn entry_among(v: Seq<NameAndCount>, n: int, e: NameAndCount) -> bool {
    exists|j: int|
        0 <= j < n && #[trigger] v[j].name@ == e.name@ && v[j].profile_url@ == e.profile_url@
            && v[j].count == e.count
}

pub open spec fn entry_names(v: Seq<NameAndCount>) -> Seq<Seq<char>> {
    v.map_values(|e: NameAndCount| e.name@)
}

proof fn lemma_kept_sum_bound(recs: Seq<ContributorRecord>, threshold: int, login: Seq<char>, n: int)
    requires
        0 <= n <= recs.len(),
    ensures
        kept_sum(recs, threshold, login, n) <= n * 0xffff_ffff,
    decreases n,
{
    if n > 0 {
        lemma_kept_sum_bound(recs, threshold, login, n - 1);
    }
}

proof fn lemma_count_before_total(a: NameAndCount, b: NameAndCount)
    requires
        a.name@ != b.name@,
    ensures
        count_before(a, b) || count_before(b, a),
{
    lemma_chars_lt_total(a.name@, b.name@);
}

proof fn lemma_count_before_transitive(a: NameAndCount, b: NameAndCount, c: NameAndCount)
    requires
        count_before(a, b),
        count_before(b, c),
    ensures
        count_before(a, c),
{
    if a.count == b.count && b.count == c.count {
        lemma_chars_lt_transitive(a.name@, b.name@, c.name@);
    }
}

fn copy_count(e: &NameAndCount) -> (r: NameAndCount)
    ensures
        r.name@ == e.name@,
        r.profile_url@ == e.profile_url@,
        r.count == e.count,
{
    NameAndCount { name: e.name.clone(), profile_url: e.profile_url.clone(), count: e.count }
}

fn count_before_exec(a: &NameAndCount, b: &NameAndCount) -> (r: bool)
    ensures
        r == count_before(*a, *b),
{
    a.count > b.count || (a.count == b.count && str_lt(a.name.as_str(), b.name.as_str()))
}

/// Kept contribution totals per login, in order of first kept record.
pub fn count_totals(recs: &Vec<ContributorRecord>, threshold: usize) -> (r: Vec<NameAndCount>)
    requires
        recs@.len() <= u32::MAX,
    ensures
        forall|a: int, b: int|
            0 <= a < r@.len() && 0 <= b < r@.len() && a != b ==> r@[a].name@ != r@[b].name@,
        forall|l: Seq<char>|
            entry_names(r@).contains(l) <==> qualified_in(
                recs@,
                threshold as int,
                recs@.len() as int,
                l,
            ),
        forall|x: int| 0 <= x < r@.len() ==> count_entry_ok(recs@, threshold as int, #[trigger] r@[x]),
{
    let flags = kept_flags(recs, threshold);
    let n = recs.len();
    let mut acc: Vec<NameAndCount> = Vec::new();
    let mut i: usize = 0;
    while i < n
        invariant
            n == recs@.len(),
            n <= u32::MAX,
            i <= n,
            flags@.len() == n,
            forall|j: int| 0 <= j < n ==> flags@[j] == kept(recs@, threshold as int, j),
            forall|a: int, b: int|
                0 <= a < acc@.len() && 0 <= b < acc@.len() && a != b ==> acc@[a].name@
                    != acc@[b].name@,
            forall|l: Seq<char>|
                entry_names(acc@).contains(l) <==> qualified_in(recs@, threshold as int, i as int, l),
            forall|x: int|
                0 <= x < acc@.len() ==> (#[trigger] acc@[x]).count == kept_sum(
                    recs@,
                    threshold as int,
                    acc@[x].name@,
                    i as int,
                ),
            forall|x: int|
                0 <= x < acc@.len() ==> profile_from_first(
                    recs@,
                    threshold as int,
                    i as int,
                    (#[trigger] acc@[x]).name@,
                    acc@[x].profile_url@,
                ),
        decreases n - i,
    {
        let ghost old_acc = acc@;
        let ghost login = recs@[i as int].login@;
        let ghost mut pushed = false;
        if flags[i] {
            let mut j: usize = 0;
            while j < acc.len() && acc[j].name != recs[i].login
                invariant
                    j <= acc@.len(),
                    i < n,
                    n == recs@.len(),
                    forall|y: int| 0 <= y < j ==> acc@[y].name@ != recs@[i as int].login@,
                decreases acc@.len() - j,
            {
                j = j + 1;
            }
            let c = recs[i].contributions as u64;
            if j < acc.len() {
                proof {
                    lemma_kept_sum_bound(recs@, threshold as int, login, i as int);
                    assert(acc@[j as int].count <= i * 0xffff_ffff);
                    assert(i * 0xffff_ffff + 0xffff_ffff <= 0xffff_ffff * 0xffff_ffff) by (nonlinear_arith)
                        requires i < 0xffff_ffff;
                }
                let e = NameAndCount {
                    name: acc[j].name.clone(),
                    profile_url: acc[j].profile_url.clone(),
                    count: acc[j].count + c,
                };
                acc.set(j, e);
                proof {
                    assert(entry_names(acc@) =~= entry_names(old_acc));
                    assert(entry_names(old_acc)[j as int] == login);
                    assert(entry_names(old_acc).contains(login));
                    assert(forall|x: int| 0 <= x < acc@.len() && x != j ==> acc@[x] == old_acc[x]);
                }
            } else {
                proof {
                    assert(!entry_names(old_acc).contains(login)) by {
                        if entry_names(old_acc).contains(login) {
                            let y = choose|y: int| 0 <= y < old_acc.len() && entry_names(old_acc)[y] == login;
                            assert(old_acc[y].name@ == login);
                        }
                    }
                    assert(!qualified_in(recs@, threshold as int, i as int, login));
                    assert(first_kept(recs@, threshold as int, login, i as int));
                    lemma_kept_sum_zero(recs@, threshold as int, login, i as int);
                }
                let e = NameAndCount {
                    name: recs[i].login.clone(),
                    profile_url: recs[i].profile_url.clone(),
                    count: c,
                };
                acc.push(e);
                proof {
                    assert(entry_names(acc@) =~= entry_names(old_acc).push(login));
                    pushed = true;
                }
            }
        }
        proof {
            assert(pushed ==> flags@[i as int] && !entry_names(old_acc).contains(login)
                && entry_names(acc@) == entry_names(old_acc).push(login));
            assert(!pushed ==> entry_names(acc@) == entry_names(old_acc));
            assert(flags@[i as int] && !pushed ==> entry_names(old_acc).contains(login));
            assert forall|l: Seq<char>|
                entry_names(acc@).contains(l) <==> qualified_in(
                    recs@,
                    threshold as int,
                    i + 1,
                    l,
                ) by {
                assert(entry_names(old_acc).contains(l) <==> qualified_in(
                    recs@,
                    threshold as int,
                    i as int,
                    l,
                ));
                if qualified_in(recs@, threshold as int, i + 1, l) {
                    let k = choose|k: int|
                        0 <= k < i + 1 && kept(recs@, threshold as int, k) && #[trigger] recs@[k].login@ == l;
                    if k != i {
                        assert(qualified_in(recs@, threshold as int, i as int, l));
                    }
                }
                if qualified_in(recs@, threshold as int, i as int, l) {
                    let k = choose|k: int|
                        0 <= k < i && kept(recs@, threshold as int, k) && #[trigger] recs@[k].login@ == l;
                    assert(qualified_in(recs@, threshold as int, i + 1, l));
                }
                if l == login && flags@[i as int] {
                    assert(recs@[i as int].login@ == l);
                    assert(qualified_in(recs@, threshold as int, i + 1, l));
                    if entry_names(old_acc).contains(l) {
                        let y = choose|y: int| 0 <= y < old_acc.len() && entry_names(old_acc)[y] == l;
                        assert(entry_names(acc@)[y] == l);
                    } else {
                        assert(entry_names(acc@)[old_acc.len() as int] == l);
                    }
                }
                if entry_names(acc@).contains(l) && !(l == login && flags@[i as int]) {
                    let y = choose|y: int| 0 <= y < acc@.len() && entry_names(acc@)[y] == l;
                    assert(y < old_acc.len());
                    assert(entry_names(old_acc)[y] == l);
                }
                if entry_names(old_acc).contains(l) {
                    let y = choose|y: int| 0 <= y < old_acc.len() && entry_names(old_acc)[y] == l;
                    assert(entry_names(acc@)[y] == l);
                }
            }
            assert forall|x: int| 0 <= x < acc@.len() implies profile_from_first(
                recs@,
                threshold as int,
                i + 1,
                (#[trigger] acc@[x]).name@,
                acc@[x].profile_url@,
            ) by {
                if x < old_acc.len() {
                    assert(acc@[x].name@ == old_acc[x].name@);
                    assert(acc@[x].profile_url@ == old_acc[x].profile_url@);
                    let k = choose|k: int|
                        k < i && first_kept(recs@, threshold as int, old_acc[x].name@, k)
                            && recs@[k].profile_url@ == old_acc[x].profile_url@;
                    assert(k < i + 1);
                } else {
                    assert(first_kept(recs@, threshold as int, acc@[x].name@, i as int));
                    assert(recs@[i as int].profile_url@ == acc@[x].profile_url@);
                }
            }
        }
        i = i + 1;
    }
    acc
}

proof fn lemma_kept_sum_zero(recs: Seq<ContributorRecord>, threshold: int, login: Seq<char>, n: int)
    requires
        0 <= n <= recs.len(),
        !qualified_in(recs, threshold, n, login),
    ensures
        kept_sum(recs, threshold, login, n) == 0,
    decreases n,
{
    if n > 0 {
        if kept(recs, threshold, n - 1) && recs[n - 1].login@ == login {
            assert(qualified_in(recs, threshold, n, login));
        }
        lemma_kept_sum_zero(recs, threshold, login, n - 1);
    }
}

/// Entries with distinct names, reordered by descending count, then ascending name.
pub fn sort_counts(acc: &Vec<NameAndCount>) -> (r: Vec<NameAndCount>)
    requires
        forall|a: int, b: int|
            0 <= a < acc@.len() && 0 <= b < acc@.len() && a != b ==> acc@[a].name@
                != acc@[b].name@,
    ensures
        forall|a: int, b: int|
            0 <= a < r@.len() && 0 <= b < r@.len() && a != b ==> r@[a].name@ != r@[b].name@,
        forall|l: Seq<char>| entry_names(r@).contains(l) <==> entry_names(acc@).contains(l),
        forall|x: int| 0 <= x < r@.len() ==> entry_among(acc@, acc@.len() as int, #[trigger] r@[x]),
        forall|a: int, b: int| 0 <= a < b < r@.len() ==> count_before(r@[a], r@[b]),
{
    let m = acc.len();
    let mut out: Vec<NameAndCount> = Vec::new();
    let mut i: usize = 0;
    while i < m
        invariant
            m == acc@.len(),
            i <= m,
            out@.len() == i,
            forall|a: int, b: int|
                0 <= a < acc@.len() && 0 <= b < acc@.len() && a != b ==> acc@[a].name@
                    != acc@[b].name@,
            forall|x: int| 0 <= x < out@.len() ==> entry_among(acc@, i as int, #[trigger] out@[x]),
            forall|j: int| 0 <= j < i ==> entry_names(out@).contains(#[trigger] acc@[j].name@),
            forall|a: int, b: int|
                0 <= a < out@.len() && 0 <= b < out@.len() && a != b ==> out@[a].name@
                    != out@[b].name@,
            forall|a: int, b: int| 0 <= a < b < out@.len() ==> count_before(out@[a], out@[b]),
        decreases m - i,
    {
        let e = copy_count(&acc[i]);
        let mut pos: usize = 0;
        while pos < out.len() && !count_before_exec(&e, &out[pos])
            invariant
                pos <= out@.len(),
                forall|a: int| 0 <= a < pos ==> !count_before(e, #[trigger] out@[a]),
            decreases out@.len() - pos,
        {
            pos = pos + 1;
        }
        let ghost old_out = out@;
        proof {
            assert forall|x: int| 0 <= x < old_out.len() implies old_out[x].name@ != e.name@ by {
                assert(entry_among(acc@, i as int, old_out[x]));
                let j = choose|j: int|
                    0 <= j < i && #[trigger] acc@[j].name@ == old_out[x].name@
                        && acc@[j].profile_url@ == old_out[x].profile_url@ && acc@[j].count
                        == old_out[x].count;
                assert(j != i);
            }
            assert forall|a: int| 0 <= a < pos implies count_before(#[trigger] old_out[a], e) by {
                lemma_count_before_total(old_out[a], e);
            }
            assert forall|b: int| pos <= b < old_out.len() implies count_before(e, #[trigger] old_out[b]) by {
                if b > pos {
                    lemma_count_before_transitive(e, old_out[pos as int], old_out[b]);
                }
            }
        }
        out.insert(pos, e);
        proof {
            assert forall|x: int| 0 <= x < out@.len() implies (x < pos ==> out@[x] == old_out[x])
                && (x == pos ==> out@[x] == e) && (x > pos ==> out@[x] == old_out[x - 1]) by {}
            assert forall|a: int, b: int| 0 <= a < b < out@.len() implies count_before(out@[a], out@[b]) by {
                if b < pos {
                } else if b == pos {
                } else if a < pos {
                    lemma_count_before_transitive(old_out[a], e, old_out[b - 1]);
                } else if a == pos {
                } else {
                }
            }
            assert forall|x: int| 0 <= x < out@.len() implies entry_among(acc@, i + 1, #[trigger] out@[x]) by {
                if x < pos {
                    assert(entry_among(acc@, i as int, old_out[x]));
                    assert(out@[x] == old_out[x]);
                } else if x == pos {
                    assert(acc@[i as int].name@ == out@[x].name@);
                    assert(acc@[i as int].profile_url@ == out@[x].profile_url@);
                } else {
                    assert(entry_among(acc@, i as int, old_out[x - 1]));
                    assert(out@[x] == old_out[x - 1]);
                }
            }
            assert forall|j: int| 0 <= j < i + 1 implies entry_names(out@).contains(#[trigger] acc@[j].name@) by {
                if j == i {
                    assert(entry_names(out@)[pos as int] == acc@[j].name@);
                } else {
                    assert(entry_names(old_out).contains(acc@[j].name@));
                    let x = choose|x: int| 0 <= x < old_out.len() && entry_names(old_out)[x] == acc@[j].name@;
                    if x < pos {
                        assert(entry_names(out@)[x] == acc@[j].name@);
                    } else {
                        assert(entry_names(out@)[x + 1] == acc@[j].name@);
                    }
                }
            }
        }
        i = i + 1;
    }
    proof {
        assert forall|l: Seq<char>| entry_names(out@).contains(l) <==> entry_names(acc@).contains(l) by {
            if entry_names(out@).contains(l) {
                let x = choose|x: int| 0 <= x < out@.len() && entry_names(out@)[x] == l;
                assert(entry_among(acc@, m as int, out@[x]));
                let j = choose|j: int|
                    0 <= j < m && #[trigger] acc@[j].name@ == out@[x].name@
                        && acc@[j].profile_url@ == out@[x].profile_url@ && acc@[j].count
                        == out@[x].count;
                assert(entry_names(acc@)[j] == l);
            }
            if entry_names(acc@).contains(l) {
                let j = choose|j: int| 0 <= j < m && entry_names(acc@)[j] == l;
                assert(entry_names(out@).contains(acc@[j].name@));
            }
        }
    }
    out
}

/// The per-contributor view with counts: one entry per login that has a kept
/// record, with the sum of its kept contributions and the profile of its first
/// kept record, sorted by descending count, then ascending login.
pub fn name_and_count(recs: &Vec<ContributorRecord>, threshold: usize) -> (r: Vec<NameAndCount>)
    requires
        recs@.len() <= u32::MAX,
    ensures
        forall|a: int, b: int|
            0 <= a < r@.len() && 0 <= b < r@.len() && a != b ==> r@[a].name@ != r@[b].name@,
        forall|l: Seq<char>|
            entry_names(r@).contains(l) <==> qualified_in(
                recs@,
                threshold as int,
                recs@.len() as int,
                l,
            ),
        forall|x: int| 0 <= x < r@.len() ==> count_entry_ok(recs@, threshold as int, #[trigger] r@[x]),
        forall|a: int, b: int| 0 <= a < b < r@.len() ==> count_before(r@[a], r@[b]),
{
    let acc = count_totals(recs, threshold);
    let out = sort_counts(&acc);
    proof {
        assert forall|x: int| 0 <= x < out@.len() implies count_entry_ok(recs@, threshold as int, #[trigger] out@[x]) by {
            assert(entry_among(acc@, acc@.len() as int, out@[x]));
            let j = choose|j: int|
                0 <= j < acc@.len() && #[trigger] acc@[j].name@ == out@[x].name@
                    && acc@[j].profile_url@ == out@[x].profile_url@ && acc@[j].count
                    == out@[x].count;
            assert(count_entry_ok(recs@, threshold as int, acc@[j]));
        }
    }
    out
}

} // verus!
