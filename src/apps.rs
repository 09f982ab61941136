use vstd::prelude::*;
use fuzzy_matcher::FuzzyMatcher;

verus! {

/// An installed application as the launcher remembers it.
pub struct CachedApp {
    pub name: String,
    pub description: String,
    pub icon: String,
    pub id: String,
}

/// An application that matches a query, with its score.
pub struct AppResult {
    pub name: String,
    pub description: String,
    pub icon: String,
    pub id: String,
    pub score: i64,
}

/// The mathematical content of an `AppResult`.
pub ghost struct HitView {
    pub name: Seq<char>,
    pub description: Seq<char>,
    pub icon: Seq<char>,
    pub id: Seq<char>,
    pub score: i64,
}

impl View for AppResult {
    type V = HitView;

    open spec fn view(&self) -> HitView {
        HitView {
            name: self.name@,
            description: self.description@,
            icon: self.icon@,
            id: self.id@,
            score: self.score,
        }
    }
}

/// The fuzzy score of `pattern` against `choice`, absent when it does not match.
pub uninterp spec fn skim_score(choice: Seq<char>, pattern: Seq<char>) -> Option<i64>;

/// Relies on `fuzzy_matcher::FuzzyMatcher::fuzzy_match` of a default `SkimMatcherV2`:
/// its score depends on the choice and the pattern alone.
#[verifier::external_body]
fn fuzzy_score(choice: &str, pattern: &str) -> (r: Option<i64>)
    ensures
        r == skim_score(choice@, pattern@),
{
    fuzzy_matcher::skim::SkimMatcherV2::default().fuzzy_match(choice, pattern)
}

pub open spec fn score_or_zero(s: Option<i64>) -> i64 {
    match s {
        Some(v) => v,
        None => 0,
    }
}

/// An application's score: the better of its name's and its id's, no match counting 0.
pub open spec fn app_score(a: CachedApp, query: Seq<char>) -> i64 {
    let n = score_or_zero(skim_score(a.name@, query));
    let i = score_or_zero(skim_score(a.id@, query));
    if n >= i {
        n
    } else {
        i
    }
}

pub open spec fn hit_for(a: CachedApp, query: Seq<char>) -> HitView {
    HitView {
        name: a.name@,
        description: a.description@,
        icon: a.icon@,
        id: a.id@,
        score: app_score(a, query),
    }
}

/// The hits of a query in the order of the applications: those that score above 0.
pub open spec fn hits_for(apps: Seq<CachedApp>, query: Seq<char>) -> Seq<HitView> {
    apps.map_values(|a: CachedApp| hit_for(a, query)).filter(|h: HitView| h.score > 0)
}

pub open spec fn hit_views(s: Seq<AppResult>) -> Seq<HitView> {
    s.map_values(|r: AppResult| r@)
}

/// Best score first.
pub open spec fn by_score(s: Seq<HitView>) -> bool {
    forall|i: int, j: int| 0 <= i < j < s.len() ==> (#[trigger] s[i]).score >= (#[trigger] s[j]).score
}

pub open spec fn score_class(s: Seq<HitView>, k: i64) -> Seq<HitView> {
    s.filter(|h: HitView| h.score == k)
}

proof fn lemma_insert_score_class(out: Seq<HitView>, p: int, e: HitView, k: i64)
    requires
        0 <= p <= out.len(),
        forall|q: int| 0 <= q < p ==> (#[trigger] out[q]).score >= e.score,
        forall|q: int| p <= q < out.len() ==> (#[trigger] out[q]).score < e.score,
    ensures
        score_class(out.insert(p, e), k) == score_class(out.push(e), k),
{
    let pred = |x: HitView| x.score == k;
    let a = out.subrange(0, p);
    let b = out.subrange(p, out.len() as int);
    assert(out =~= a + b);
    assert(out.insert(p, e) =~= a.push(e) + b);
    Seq::filter_distributes_over_add(a, b, pred);
    Seq::filter_distributes_over_add(a.push(e), b, pred);
    a.lemma_filter_push(e, pred);
    out.lemma_filter_push(e, pred);
    if pred(e) {
        if b.filter(pred).len() > 0 {
            b.lemma_filter_pred(pred, 0);
            b.lemma_filter_contains_rev(pred, b.filter(pred)[0]);
            let q = choose|q: int| 0 <= q < b.len() && b[q] == b.filter(pred)[0];
            assert(out[p + q] == b[q]);
        }
        assert(b.filter(pred) =~= Seq::<HitView>::empty());
        assert(a.filter(pred).push(e) + b.filter(pred) =~= (a.filter(pred) + b.filter(pred)).push(
            e,
        ));
    }
}

fn score_position(out: &Vec<AppResult>, s: i64) -> (p: usize)
    ensures
        p <= out.len(),
        forall|q: int| 0 <= q < p ==> (#[trigger] out@[q]).score >= s,
        p < out.len() ==> out@[p as int].score < s,
{
    let mut p: usize = 0;
    while p < out.len()
        invariant
            p <= out.len(),
            forall|q: int| 0 <= q < p ==> (#[trigger] out@[q]).score >= s,
        decreases out.len() - p,
    {
        if out[p].score < s {
            return p;
        }
        p += 1;
    }
    p
}

fn score_of(a: &CachedApp, query: &str) -> (s: i64)
    ensures
        s == app_score(*a, query@),
{
    let n = match fuzzy_score(a.name.as_str(), query) {
        Some(v) => v,
        None => 0,
    };
    let i = match fuzzy_score(a.id.as_str(), query) {
        Some(v) => v,
        None => 0,
    };
    if n >= i {
        n
    } else {
        i
    }
}

/// The applications that match `query`, best score first; applications with equal
/// scores keep their order.
pub fn search(apps: &Vec<CachedApp>, query: &str) -> (out: Vec<AppResult>)
    ensures
        by_score(hit_views(out@)),
        forall|k: i64| #[trigger] score_class(hit_views(out@), k) == score_class(hits_for(apps@, query@), k),
        forall|i: int| 0 <= i < out.len() ==> (#[trigger] out@[i]).score > 0,
{
    let mut out: Vec<AppResult> = Vec::new();
    let mut i: usize = 0;
    proof {
        assert forall|k: i64| #[trigger] score_class(hit_views(out@), k) == score_class(
            hits_for(apps@.subrange(0, 0), query@),
            k,
        ) by {
            reveal(Seq::filter);
            assert(hit_views(out@) =~= Seq::<HitView>::empty());
            assert(apps@.subrange(0, 0).map_values(|a: CachedApp| hit_for(a, query@))
                =~= Seq::<HitView>::empty());
        }
    }
    while i < apps.len()
        invariant
            i <= apps.len(),
            by_score(hit_views(out@)),
            forall|k: i64| #[trigger] score_class(hit_views(out@), k) == score_class(
                hits_for(apps@.subrange(0, i as int), query@),
                k,
            ),
            forall|j: int| 0 <= j < out.len() ==> (#[trigger] out@[j]).score > 0,
        decreases apps.len() - i,
    {
        let s = score_of(&apps[i], query);
        let ghost prev_all = apps@.subrange(0, i as int).map_values(|a: CachedApp| hit_for(a, query@));
        let ghost h = hit_for(apps@[i as int], query@);
        proof {
            let pos = |x: HitView| x.score > 0;
            assert(apps@.subrange(0, i + 1).map_values(|a: CachedApp| hit_for(a, query@)) =~= prev_all.push(h));
            prev_all.lemma_filter_push(h, pos);
        }
        if s > 0 {
            let a = &apps[i];
            let hit = AppResult {
                name: a.name.clone(),
                description: a.description.clone(),
                icon: a.icon.clone(),
                id: a.id.clone(),
                score: s,
            };
            let p = score_position(&out, s);
            let ghost before = hit_views(out@);
            let ghost old_out = out@;
            proof {
                assert forall|q: int| p <= q < before.len() implies (#[trigger] before[q]).score < s by {
                    if q > p {
                        assert(before[p as int].score >= before[q].score);
                    }
                }
            }
            out.insert(p, hit);
            proof {
                let prev = hits_for(apps@.subrange(0, i as int), query@);
                let next = hits_for(apps@.subrange(0, i + 1), query@);
                assert(hit@ == h);
                assert(next == prev.push(h));
                assert(hit_views(out@) =~= before.insert(p as int, h));
                assert forall|k: i64| #[trigger] score_class(hit_views(out@), k) == score_class(next, k) by {
                    lemma_insert_score_class(before, p as int, h, k);
                    let pred = |x: HitView| x.score == k;
                    before.lemma_filter_push(h, pred);
                    prev.lemma_filter_push(h, pred);
                    assert(score_class(before, k) == score_class(prev, k));
                }
                let now = hit_views(out@);
                assert forall|x: int, y: int| 0 <= x < y < now.len() implies (#[trigger] now[x]).score
                    >= (#[trigger] now[y]).score by {
                    if x < p && y < p {
                        assert(before[x].score >= before[y].score);
                    } else if x < p && y > p {
                        assert(before[x].score >= before[y - 1].score);
                    } else if x == p && y > p {
                    } else if x > p {
                        assert(before[x - 1].score >= before[y - 1].score);
                    }
                }
                assert forall|j: int| 0 <= j < out.len() implies (#[trigger] out@[j]).score > 0 by {
                    if j < p {
                        assert(out@[j] == old_out[j]);
                    } else if j > p {
                        assert(out@[j] == old_out[j - 1]);
                    }
                }
            }
        } else {
            proof {
                let prev = hits_for(apps@.subrange(0, i as int), query@);
                let next = hits_for(apps@.subrange(0, i + 1), query@);
                assert(next == prev);
            }
        }
        i += 1;
    }
    assert(apps@.subrange(0, apps.len() as int) =~= apps@);
    out
}

} // verus!
