use vstd::prelude::*;

verus! {

/// What a ranking reads of one candidate: whether it passed the filters, its
/// score (lower is more similar), its id and the project it belongs to.
pub struct RankKey {
    pub passes: bool,
    pub score: int,
    pub id: Seq<char>,
    pub project: Seq<char>,
}

/// One scored candidate.
#[derive(Clone, Debug)]
pub struct RankEntry {
    pub passes: bool,
    pub score: u128,
    pub id: String,
    pub project_id: String,
}

impl View for RankEntry {
    type V = RankKey;

    open spec fn view(&self) -> RankKey {
        RankKey { passes: self.passes, score: self.score as int, id: self.id@, project: self.project_id@ }
    }
}

/// The keys of a list of candidates.
pub open spec fn keys_of(es: Seq<RankEntry>) -> Seq<RankKey> {
    es.map_values(|e: RankEntry| e@)
}

/// Lexicographic order of character sequences, by code point.
pub open spec fn lex_lt(a: Seq<char>, b: Seq<char>) -> bool
    decreases a.len(),
{
    if a.len() == 0 {
        b.len() > 0
    } else if b.len() == 0 {
        false
    } else if a[0] != b[0] {
        (a[0] as int) < (b[0] as int)
    } else {
        lex_lt(a.drop_first(), b.drop_first())
    }
}

/// Ranking order: by score, then by id.
pub open spec fn key_lt(a: RankKey, b: RankKey) -> bool {
    a.score < b.score || (a.score == b.score && lex_lt(a.id, b.id))
}

/// No two candidates share an id.
pub open spec fn unique_ids(ks: Seq<RankKey>) -> bool {
    forall|i: int, j: int| 0 <= i < ks.len() && 0 <= j < ks.len() && i != j ==> #[trigger] ks[i].id != #[trigger] ks[j].id
}

/// Candidate `i` ranks before every other passing candidate of its project.
pub open spec fn best_of_project(ks: Seq<RankKey>, i: int) -> bool {
    forall|j: int|
        0 <= j < ks.len() && j != i && ks[j].passes && ks[j].project == ks[i].project ==> key_lt(ks[i], #[trigger] ks[j])
}

/// Candidate `i` may appear in a ranking: it passed, and, when each project
/// contributes at most one candidate, it is the best of its project.
pub open spec fn selectable(ks: Seq<RankKey>, per_project: bool, i: int) -> bool {
    0 <= i < ks.len() && ks[i].passes && (per_project ==> best_of_project(ks, i))
}

/// Candidate `i` ranks after candidate `lower`, if there is one.
pub open spec fn above(ks: Seq<RankKey>, lower: Option<int>, i: int) -> bool {
    match lower {
        None => true,
        Some(l) => key_lt(ks[l], ks[i]),
    }
}

/// Candidate `i` is the first selectable candidate after `lower`.
pub open spec fn least_after(ks: Seq<RankKey>, per_project: bool, lower: Option<int>, i: int) -> bool {
    &&& selectable(ks, per_project, i)
    &&& above(ks, lower, i)
    &&& forall|j: int|
        selectable(ks, per_project, j) && above(ks, lower, j) ==> j == i || key_lt(ks[i], #[trigger] ks[j])
}

/// The positions of the first `k` selectable candidates after `lower`, in
/// ranking order.
pub open spec fn ranking_from(ks: Seq<RankKey>, per_project: bool, lower: Option<int>, k: nat) -> Seq<int>
    decreases k,
{
    if k == 0 || !(exists|i: int| least_after(ks, per_project, lower, i)) {
        Seq::empty()
    } else {
        let m = choose|i: int| least_after(ks, per_project, lower, i);
        seq![m] + ranking_from(ks, per_project, Some(m), (k - 1) as nat)
    }
}

/// The positions of the `k` best selectable candidates, best first.
pub open spec fn ranking(ks: Seq<RankKey>, per_project: bool, k: nat) -> Seq<int> {
    ranking_from(ks, per_project, None, k)
}

pub proof fn lemma_lex_asymmetric(a: Seq<char>, b: Seq<char>)
    ensures
        !(lex_lt(a, b) && lex_lt(b, a)),
    decreases a.len(),
{
    if a.len() > 0 && b.len() > 0 && a[0] == b[0] {
        lemma_lex_asymmetric(a.drop_first(), b.drop_first());
    }
}

pub proof fn lemma_lex_transitive(a: Seq<char>, b: Seq<char>, c: Seq<char>)
    requires
        lex_lt(a, b),
        lex_lt(b, c),
    ensures
        lex_lt(a, c),
    decreases a.len(),
{
    if a.len() > 0 && b.len() > 0 && c.len() > 0 && a[0] == b[0] && b[0] == c[0] {
        lemma_lex_transitive(a.drop_first(), b.drop_first(), c.drop_first());
    }
}

pub proof fn lemma_lex_total(a: Seq<char>, b: Seq<char>)
    requires
        a != b,
    ensures
        lex_lt(a, b) || lex_lt(b, a),
    decreases a.len(),
{
    if a.len() == 0 {
        assert(b.len() > 0) by {
            if b.len() == 0 {
                assert(a =~= b);
            }
        }
    } else if b.len() > 0 && a[0] == b[0] {
        if a.drop_first() == b.drop_first() {
            assert(a =~= seq![a[0]] + a.drop_first());
            assert(b =~= seq![b[0]] + b.drop_first());
        }
        lemma_lex_total(a.drop_first(), b.drop_first());
    }
}

/// Ranking order is a strict total order on candidates with distinct ids.
pub proof fn lemma_key_order(a: RankKey, b: RankKey, c: RankKey)
    ensures
        !(key_lt(a, b) && key_lt(b, a)),
        key_lt(a, b) && key_lt(b, c) ==> key_lt(a, c),
        a.id != b.id ==> key_lt(a, b) || key_lt(b, a),
{
    lemma_lex_asymmetric(a.id, b.id);
    if key_lt(a, b) && key_lt(b, c) && a.score == b.score && b.score == c.score {
        lemma_lex_transitive(a.id, b.id, c.id);
    }
    if a.id != b.id {
        lemma_lex_total(a.id, b.id);
    }
}

/// A ranking never holds more than `k` positions.
pub proof fn lemma_ranking_len(ks: Seq<RankKey>, per_project: bool, lower: Option<int>, k: nat)
    ensures
        ranking_from(ks, per_project, lower, k).len() <= k,
    decreases k,
{
    if k > 0 && exists|i: int| least_after(ks, per_project, lower, i) {
        let m = choose|i: int| least_after(ks, per_project, lower, i);
        lemma_ranking_len(ks, per_project, Some(m), (k - 1) as nat);
    }
}

/// A ranking holds only positions of selectable candidates.
pub proof fn lemma_ranking_selectable(ks: Seq<RankKey>, per_project: bool, lower: Option<int>, k: nat)
    ensures
        forall|t: int|
            0 <= t < ranking_from(ks, per_project, lower, k).len() ==> selectable(
                ks,
                per_project,
                #[trigger] ranking_from(ks, per_project, lower, k)[t],
            ),
    decreases k,
{
    if k > 0 && exists|i: int| least_after(ks, per_project, lower, i) {
        let m = choose|i: int| least_after(ks, per_project, lower, i);
        lemma_ranking_selectable(ks, per_project, Some(m), (k - 1) as nat);
        let rest = ranking_from(ks, per_project, Some(m), (k - 1) as nat);
        assert forall|t: int| 0 <= t < (seq![m] + rest).len() implies selectable(ks, per_project, #[trigger] (seq![m] + rest)[t]) by {
            if t > 0 {
                assert((seq![m] + rest)[t] == rest[t - 1]);
            }
        }
    }
}

/// A ranking lists candidates after `lower` in strictly ascending ranking
/// order.
pub proof fn lemma_ranking_sorted(ks: Seq<RankKey>, per_project: bool, lower: Option<int>, k: nat)
    ensures
        forall|t: int|
            0 <= t < ranking_from(ks, per_project, lower, k).len() ==> above(
                ks,
                lower,
                #[trigger] ranking_from(ks, per_project, lower, k)[t],
            ),
        forall|a: int, b: int|
            0 <= a < b < ranking_from(ks, per_project, lower, k).len() ==> key_lt(
                ks[#[trigger] ranking_from(ks, per_project, lower, k)[a]],
                ks[#[trigger] ranking_from(ks, per_project, lower, k)[b]],
            ),
    decreases k,
{
    if k > 0 && exists|i: int| least_after(ks, per_project, lower, i) {
        let m = choose|i: int| least_after(ks, per_project, lower, i);
        lemma_ranking_sorted(ks, per_project, Some(m), (k - 1) as nat);
        let rest = ranking_from(ks, per_project, Some(m), (k - 1) as nat);
        let all = seq![m] + rest;
        assert(ranking_from(ks, per_project, lower, k) == all);
        assert forall|t: int| 0 <= t < all.len() implies above(ks, lower, #[trigger] all[t]) by {
            if t > 0 {
                assert(all[t] == rest[t - 1]);
                assert(key_lt(ks[m], ks[rest[t - 1]]));
                if let Some(l) = lower {
                    lemma_key_order(ks[l], ks[m], ks[rest[t - 1]]);
                }
            }
        }
        assert forall|a: int, b: int| 0 <= a < b < all.len() implies key_lt(
            ks[#[trigger] all[a]],
            ks[#[trigger] all[b]],
        ) by {
            assert(all[b] == rest[b - 1]);
            if a == 0 {
                assert(above(ks, Some(m), rest[b - 1]));
            } else {
                assert(all[a] == rest[a - 1]);
            }
        }
    }
}

/// With one candidate per project, no two ranked candidates share a project.
pub proof fn lemma_ranking_distinct_projects(ks: Seq<RankKey>, k: nat)
    ensures
        forall|a: int, b: int|
            0 <= a < b < ranking(ks, true, k).len() ==> ks[#[trigger] ranking(ks, true, k)[a]].project
                != ks[#[trigger] ranking(ks, true, k)[b]].project,
{
    lemma_ranking_sorted(ks, true, None, k);
    lemma_ranking_selectable(ks, true, None, k);
    let r = ranking(ks, true, k);
    assert forall|a: int, b: int| 0 <= a < b < r.len() implies ks[#[trigger] r[a]].project != ks[#[trigger] r[b]].project by {
        assert(key_lt(ks[r[a]], ks[r[b]]));
        assert(selectable(ks, true, r[a]));
        assert(selectable(ks, true, r[b]));
        lemma_key_order(ks[r[a]], ks[r[b]], ks[r[b]]);
        if ks[r[a]].project == ks[r[b]].project {
            assert(r[a] != r[b]);
            assert(key_lt(ks[r[b]], ks[r[a]]));
        }
    }
}

/// Lexicographic comparison of two strings.
pub fn str_lex_lt(a: &str, b: &str) -> (r: bool)
    ensures
        r == lex_lt(a@, b@),
{
    let n = a.unicode_len();
    let m = b.unicode_len();
    let mut i: usize = 0;
    proof {
        assert(a@.subrange(0, n as int) =~= a@);
        assert(b@.subrange(0, m as int) =~= b@);
    }
    while i < n && i < m
        invariant
            n == a@.len(),
            m == b@.len(),
            i <= n,
            i <= m,
            lex_lt(a@, b@) == lex_lt(a@.subrange(i as int, n as int), b@.subrange(i as int, m as int)),
        decreases n - i,
    {
        let c = a.get_char(i);
        let d = b.get_char(i);
        let ghost x = a@.subrange(i as int, n as int);
        let ghost y = b@.subrange(i as int, m as int);
        proof {
            assert(x[0] == c);
            assert(y[0] == d);
            assert(x.drop_first() =~= a@.subrange(i + 1, n as int));
            assert(y.drop_first() =~= b@.subrange(i + 1, m as int));
        }
        if c != d {
            return (c as u32) < (d as u32);
        }
        i = i + 1;
    }
    proof {
        let x = a@.subrange(i as int, n as int);
        let y = b@.subrange(i as int, m as int);
        assert(x.len() == n - i);
        assert(y.len() == m - i);
    }
    i == n && i < m
}

/// Ranking order of two candidates.
pub fn entry_lt(a: &RankEntry, b: &RankEntry) -> (r: bool)
    ensures
        r == key_lt(a@, b@),
{
    if a.score != b.score {
        a.score < b.score
    } else {
        str_lex_lt(a.id.as_str(), b.id.as_str())
    }
}

/// Whether some ranked candidate belongs to project `p`.
pub open spec fn project_taken(ks: Seq<RankKey>, out: Seq<usize>, p: Seq<char>) -> bool {
    exists|t: int| 0 <= t < out.len() && (#[trigger] ks[out[t] as int]).project == p
}

/// The positions in `out`, as integers.
pub open spec fn positions(out: Seq<usize>) -> Seq<int> {
    out.map_values(|i: usize| i as int)
}

/// The position of the last pick, as an integer.
pub open spec fn lower_of(last: Option<usize>) -> Option<int> {
    match last {
        Some(l) => Some(l as int),
        None => None,
    }
}

/// Candidate `i` may be the next pick: it passed, it ranks after `lower`,
/// and, with `per_project`, its project has no ranked candidate yet.
pub open spec fn eligible(ks: Seq<RankKey>, per_project: bool, out: Seq<usize>, lower: Option<int>, i: int) -> bool {
    &&& ks[i].passes
    &&& above(ks, lower, i)
    &&& per_project ==> !project_taken(ks, out, ks[i].project)
}

/// Whether a ranked candidate shares the project of candidate `j`.
fn project_is_taken(entries: &Vec<RankEntry>, out: &Vec<usize>, j: usize) -> (r: bool)
    requires
        j < entries@.len(),
        forall|u: int| 0 <= u < out@.len() ==> (out@[u] as int) < entries@.len(),
    ensures
        r == project_taken(keys_of(entries@), out@, keys_of(entries@)[j as int].project),
{
    let ghost ks = keys_of(entries@);
    let mut t: usize = 0;
    while t < out.len()
        invariant
            ks == keys_of(entries@),
            j < entries@.len(),
            t <= out@.len(),
            forall|u: int| 0 <= u < out@.len() ==> (out@[u] as int) < entries@.len(),
            forall|u: int| 0 <= u < t ==> (#[trigger] ks[out@[u] as int]).project != ks[j as int].project,
        decreases out@.len() - t,
    {
        proof {
            assert(ks[out@[t as int] as int] == entries@[out@[t as int] as int]@);
            assert(ks[j as int] == entries@[j as int]@);
        }
        if entries[out[t]].project_id == entries[j].project_id {
            return true;
        }
        t = t + 1;
    }
    false
}

/// Finds the least eligible candidate, if there is one.
fn least_eligible(entries: &Vec<RankEntry>, per_project: bool, out: &Vec<usize>, last: Option<usize>) -> (r: Option<usize>)
    requires
        unique_ids(keys_of(entries@)),
        forall|u: int| 0 <= u < out@.len() ==> (out@[u] as int) < entries@.len(),
        last is Some ==> (last->0 as int) < entries@.len(),
    ensures
        r is None ==> forall|i: int|
            0 <= i < entries@.len() ==> !eligible(keys_of(entries@), per_project, out@, lower_of(last), i),
        r is Some ==> (r->0 as int) < entries@.len(),
        r is Some ==> eligible(keys_of(entries@), per_project, out@, lower_of(last), r->0 as int),
        r is Some ==> forall|i: int|
            0 <= i < entries@.len() && eligible(keys_of(entries@), per_project, out@, lower_of(last), i) ==> i
                == r->0 as int || key_lt(keys_of(entries@)[r->0 as int], #[trigger] keys_of(entries@)[i]),
{
    let ghost ks = keys_of(entries@);
    let ghost lower: Option<int> = lower_of(last);
    let n = entries.len();
    let mut best: Option<usize> = None;
    let mut j: usize = 0;
    while j < n
        invariant
            ks == keys_of(entries@),
            n == entries@.len(),
            unique_ids(ks),
            j <= n,
            forall|u: int| 0 <= u < out@.len() ==> (out@[u] as int) < n,
            lower == lower_of(last),
            last is Some ==> (last->0 as int) < n,
            best is Some ==> (best->0 as int) < j && eligible(ks, per_project, out@, lower, best->0 as int),
            forall|i: int|
                0 <= i < j && eligible(ks, per_project, out@, lower, i) ==> best is Some && (i == best->0 as int
                    || key_lt(ks[best->0 as int], #[trigger] ks[i])),
        decreases n - j,
    {
        proof {
            assert(ks[j as int] == entries@[j as int]@);
            if last is Some {
                assert(ks[last->0 as int] == entries@[last->0 as int]@);
            }
        }
        let mut ok = entries[j].passes;
        if ok {
            if let Some(l) = last {
                ok = entry_lt(&entries[l], &entries[j]);
            }
        }
        if ok && per_project {
            ok = !project_is_taken(entries, out, j);
        }
        let take = match best {
            None => ok,
            Some(b) => ok && entry_lt(&entries[j], &entries[b]),
        };
        proof {
            if best is Some {
                let b = best->0 as int;
                assert(ks[b] == entries@[b]@);
                if ok && !take {
                    lemma_key_order(ks[j as int], ks[b], ks[b]);
                }
                if take {
                    assert forall|i: int|
                        0 <= i < j && eligible(ks, per_project, out@, lower, i) implies key_lt(ks[j as int], #[trigger] ks[i]) by {
                        lemma_key_order(ks[j as int], ks[b], ks[i]);
                    }
                }
            }
        }
        if take {
            best = Some(j);
        }
        j = j + 1;
    }
    best
}

/// A selectable candidate whose project already has a ranked candidate is
/// itself ranked, so it does not rank after the last pick.
proof fn lemma_taken_is_ranked(ks: Seq<RankKey>, out: Seq<usize>, i: int)
    requires
        unique_ids(ks),
        out.len() > 0,
        forall|t: int| 0 <= t < out.len() ==> (out[t] as int) < ks.len(),
        forall|t: int| 0 <= t < out.len() ==> selectable(ks, true, #[trigger] out[t] as int),
        forall|a: int, b: int| 0 <= a < b < out.len() ==> key_lt(#[trigger] ks[out[a] as int], #[trigger] ks[out[b] as int]),
        selectable(ks, true, i),
        project_taken(ks, out, ks[i].project),
    ensures
        !above(ks, Some(out.last() as int), i),
{
    let t = choose|t: int| 0 <= t < out.len() && (#[trigger] ks[out[t] as int]).project == ks[i].project;
    let o = out[t] as int;
    if o != i {
        lemma_key_order(ks[o], ks[i], ks[i]);
    }
    let l = out.last() as int;
    if t < out.len() - 1 {
        assert(key_lt(ks[o], ks[out[out.len() - 1] as int]));
    }
    lemma_key_order(ks[l], ks[i], ks[i]);
}

/// Ranks the candidates: the `k` best selectable ones, best first. With
/// `per_project`, a project contributes only its best passing candidate.
pub fn rank_entries(entries: &Vec<RankEntry>, per_project: bool, k: u64) -> (r: Vec<usize>)
    requires
        unique_ids(keys_of(entries@)),
    ensures
        positions(r@) == ranking(keys_of(entries@), per_project, k as nat),
        r@.len() <= k,
        forall|t: int| 0 <= t < r@.len() ==> (r@[t] as int) < entries@.len(),
{
    let ghost ks = keys_of(entries@);
    let n = entries.len();
    let mut out: Vec<usize> = Vec::new();
    let mut last: Option<usize> = None;
    let mut remaining: u64 = k;
    proof {
        assert(positions(out@) =~= Seq::<int>::empty());
    }
    loop
        invariant
            ks == keys_of(entries@),
            n == entries@.len(),
            unique_ids(ks),
            remaining <= k,
            positions(out@) + ranking_from(ks, per_project, lower_of(last), remaining as nat) == ranking(ks, per_project, k as nat),
            out@.len() + remaining == k,
            last is None <==> out@.len() == 0,
            last is Some ==> last->0 == out@.last(),
            forall|t: int| 0 <= t < out@.len() ==> (out@[t] as int) < n,
            forall|t: int| 0 <= t < out@.len() ==> selectable(ks, per_project, #[trigger] out@[t] as int),
            forall|a: int, b: int|
                0 <= a < b < out@.len() ==> key_lt(#[trigger] ks[out@[a] as int], #[trigger] ks[out@[b] as int]),
            per_project ==> forall|i: int|
                0 <= i < n && ks[i].passes && last is Some && !key_lt(ks[last->0 as int], #[trigger] ks[i])
                    ==> project_taken(ks, out@, ks[i].project),
        ensures
            positions(out@) == ranking(ks, per_project, k as nat),
            out@.len() <= k,
            forall|t: int| 0 <= t < out@.len() ==> (out@[t] as int) < n,
        decreases remaining,
    {
        let ghost lower: Option<int> = lower_of(last);
        if remaining == 0 {
            proof {
                assert(ranking_from(ks, per_project, lower, 0) =~= Seq::<int>::empty());
                assert(positions(out@) + Seq::<int>::empty() =~= positions(out@));
            }
            break;
        }
        let next = least_eligible(entries, per_project, &out, last);
        match next {
            None => {
                proof {
                    assert(forall|i: int| 0 <= i < ks.len() ==> !eligible(ks, per_project, out@, lower, i));
                    assert forall|i: int| !least_after(ks, per_project, lower, i) by {
                        if least_after(ks, per_project, lower, i) {
                            if per_project && project_taken(ks, out@, ks[i].project) {
                                lemma_taken_is_ranked(ks, out@, i);
                            }
                            assert(eligible(ks, per_project, out@, lower, i));
                        }
                    }
                    assert(ranking_from(ks, per_project, lower, remaining as nat) =~= Seq::<int>::empty());
                    assert(positions(out@) + Seq::<int>::empty() =~= positions(out@));
                }
                break;
            },
            Some(m) => {
                let ghost mi = m as int;
                proof {
                    if per_project {
                        assert forall|i: int|
                            0 <= i < ks.len() && i != mi && ks[i].passes && ks[i].project == ks[mi].project
                                implies key_lt(ks[mi], #[trigger] ks[i]) by {
                            if !above(ks, lower, i) {
                                assert(project_taken(ks, out@, ks[i].project));
                            }
                            assert(eligible(ks, per_project, out@, lower, i));
                        }
                    }
                    assert(selectable(ks, per_project, mi));
                    assert forall|i: int| selectable(ks, per_project, i) && above(ks, lower, i) implies i == mi
                        || key_lt(ks[mi], #[trigger] ks[i]) by {
                        if per_project && project_taken(ks, out@, ks[i].project) {
                            lemma_taken_is_ranked(ks, out@, i);
                        }
                        assert(eligible(ks, per_project, out@, lower, i));
                    }
                    assert(least_after(ks, per_project, lower, mi));
                    let c = choose|i: int| least_after(ks, per_project, lower, i);
                    assert(least_after(ks, per_project, lower, c));
                    if c != mi {
                        lemma_key_order(ks[c], ks[mi], ks[mi]);
                    }
                    assert(c == mi);
                    assert(ranking_from(ks, per_project, lower, remaining as nat) == seq![mi] + ranking_from(
                        ks,
                        per_project,
                        Some(mi),
                        (remaining - 1) as nat,
                    ));
                }
                let ghost old_out = out@;
                out.push(m);
                proof {
                    assert(positions(out@) =~= positions(old_out) + seq![mi]);
                    assert(positions(out@) + ranking_from(ks, per_project, Some(mi), (remaining - 1) as nat)
                        =~= positions(old_out) + (seq![mi] + ranking_from(
                        ks,
                        per_project,
                        Some(mi),
                        (remaining - 1) as nat,
                    )));
                    assert forall|a: int, b: int|
                        0 <= a < b < out@.len() implies key_lt(#[trigger] ks[out@[a] as int], #[trigger] ks[out@[b] as int]) by {
                        if b == out@.len() - 1 {
                            if a < old_out.len() - 1 {
                                assert(key_lt(ks[old_out[a] as int], ks[old_out[old_out.len() - 1] as int]));
                                lemma_key_order(ks[old_out[a] as int], ks[last->0 as int], ks[mi]);
                            }
                        } else {
                            assert(out@[a] == old_out[a] && out@[b] == old_out[b]);
                        }
                    }
                    assert forall|t: int| 0 <= t < out@.len() implies selectable(ks, per_project, #[trigger] out@[t] as int) by {
                        if t < old_out.len() {
                            assert(out@[t] == old_out[t]);
                        }
                    }
                    if per_project {
                        assert forall|i: int|
                            0 <= i < n && ks[i].passes && !key_lt(ks[mi], #[trigger] ks[i])
                                implies project_taken(ks, out@, ks[i].project) by {
                            if i == mi {
                                assert(ks[out@[out@.len() - 1] as int].project == ks[i].project);
                            } else if (last is Some && !key_lt(ks[last->0 as int], ks[i])) || project_taken(
                                ks,
                                old_out,
                                ks[i].project,
                            ) {
                                let t = choose|t: int| 0 <= t < old_out.len() && (#[trigger] ks[old_out[t] as int]).project == ks[i].project;
                                assert(out@[t] == old_out[t]);
                            } else {
                                assert(eligible(ks, per_project, old_out, lower, i));
                                lemma_key_order(ks[mi], ks[i], ks[i]);
                            }
                        }
                    }
                }
                last = Some(m);
                remaining = remaining - 1;
            },
        }
    }
    out
}

} // verus!
