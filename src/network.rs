use vstd::prelude::*;

verus! {

/// Connectivity code reported for the network that is currently active.
pub const STATE_ACTIVATED: u32 = 4;

/// Connectivity code reported for every other network.
pub const STATE_UNKNOWN: u32 = 0;

/// One access point seen by a live scan.
pub struct ScanResult {
    pub ssid: String,
    pub bssid: Option<String>,
    pub strength: Option<u8>,
}

/// One row of the display-ready network list.
pub struct NetworkEntry {
    pub ssid: String,
    pub object_path: String,
    pub strength: u8,
    pub is_secure: bool,
    pub is_active: bool,
    pub is_known: bool,
    pub connectivity_state: u32,
}

/// The mathematical content of a `NetworkEntry`.
pub ghost struct EntryView {
    pub ssid: Seq<char>,
    pub object_path: Seq<char>,
    pub strength: u8,
    pub is_secure: bool,
    pub is_active: bool,
    pub is_known: bool,
    pub connectivity_state: u32,
}

impl View for NetworkEntry {
    type V = EntryView;

    open spec fn view(&self) -> EntryView {
        EntryView {
            ssid: self.ssid@,
            object_path: self.object_path@,
            strength: self.strength,
            is_secure: self.is_secure,
            is_active: self.is_active,
            is_known: self.is_known,
            connectivity_state: self.connectivity_state,
        }
    }
}

/// Whether some string of `v` reads exactly `s`.
pub open spec fn contains_text(v: Seq<String>, s: Seq<char>) -> bool {
    exists|i: int| 0 <= i < v.len() && (#[trigger] v[i])@ == s
}

/// Whether `ssid` is the identifier of the active network.
pub open spec fn is_active_ssid(active: Option<String>, ssid: Seq<char>) -> bool {
    match active {
        Some(a) => a@ == ssid,
        None => false,
    }
}

/// The entry that a scan result becomes, given the active identifier and the saved ones.
pub open spec fn entry_for(r: ScanResult, active: Option<String>, saved: Seq<String>) -> EntryView {
    let act = is_active_ssid(active, r.ssid@);
    EntryView {
        ssid: r.ssid@,
        object_path: match r.bssid {
            Some(b) => b@,
            None => Seq::empty(),
        },
        strength: match r.strength {
            Some(s) => s,
            None => 0,
        },
        is_secure: true,
        is_active: act,
        is_known: contains_text(saved, r.ssid@),
        connectivity_state: if act {
            STATE_ACTIVATED
        } else {
            STATE_UNKNOWN
        },
    }
}

/// The entries of a scan, in scan order, before sorting.
pub open spec fn entries_for(scan: Seq<ScanResult>, active: Option<String>, saved: Seq<String>) -> Seq<
    EntryView,
> {
    scan.map_values(|r: ScanResult| entry_for(r, active, saved))
}

pub open spec fn views(s: Seq<NetworkEntry>) -> Seq<EntryView> {
    s.map_values(|e: NetworkEntry| e@)
}

/// The sort key: active first, then known, then stronger.
pub open spec fn sort_key(e: EntryView) -> (bool, bool, u8) {
    (e.is_active, e.is_known, e.strength)
}

/// `a` may stand before `b`: it is not behind `b` on (active, known, strength), all descending.
pub open spec fn not_after(a: EntryView, b: EntryView) -> bool {
    if a.is_active != b.is_active {
        a.is_active
    } else if a.is_known != b.is_known {
        a.is_known
    } else {
        a.strength >= b.strength
    }
}

/// Every entry stands no later than the ones after it.
pub open spec fn is_ordered(s: Seq<EntryView>) -> bool {
    forall|i: int, j: int| 0 <= i < j < s.len() ==> not_after(#[trigger] s[i], #[trigger] s[j])
}

/// The entries of `s` whose sort key is `k`, in the order of `s`.
pub open spec fn key_class(s: Seq<EntryView>, k: (bool, bool, u8)) -> Seq<EntryView> {
    s.filter(|e: EntryView| sort_key(e) == k)
}

/// `out` is the stable sort of `input`: each class of equal keys keeps its members and their order.
pub open spec fn same_classes(out: Seq<EntryView>, input: Seq<EntryView>) -> bool {
    forall|k: (bool, bool, u8)| #[trigger] key_class(out, k) == key_class(input, k)
}

/// How many entries are marked active.
pub open spec fn active_count(s: Seq<EntryView>) -> nat {
    s.filter(|e: EntryView| e.is_active).len()
}

/// How many scan results carry the active identifier.
pub open spec fn matching_count(scan: Seq<ScanResult>, active: Option<String>) -> nat {
    scan.filter(|r: ScanResult| is_active_ssid(active, r.ssid@)).len()
}

proof fn lemma_two_in_filter<A>(s: Seq<A>, pred: spec_fn(A) -> bool, i: int, j: int)
    requires
        0 <= i < j < s.len(),
        pred(s[i]),
        pred(s[j]),
    ensures
        s.filter(pred).len() >= 2,
    decreases s.len(),
{
    reveal(Seq::filter);
    let rest = s.drop_last();
    if j == s.len() - 1 {
        rest.lemma_filter_contains(pred, i);
    } else {
        lemma_two_in_filter(rest, pred, i, j);
    }
}

/// When at most one scan result carries the active identifier, at most one entry of a list
/// that counts its active entries as the scan does is active.
pub proof fn lemma_at_most_one_active(
    out: Seq<EntryView>,
    scan: Seq<ScanResult>,
    active: Option<String>,
)
    requires
        active_count(out) == matching_count(scan, active),
        matching_count(scan, active) <= 1,
    ensures
        forall|i: int, j: int|
            0 <= i < out.len() && 0 <= j < out.len() && (#[trigger] out[i]).is_active && (
            #[trigger] out[j]).is_active ==> i == j,
{
    assert forall|i: int, j: int|
        0 <= i < out.len() && 0 <= j < out.len() && (#[trigger] out[i]).is_active && (
        #[trigger] out[j]).is_active implies i == j by {
        if i < j {
            lemma_two_in_filter(out, |e: EntryView| e.is_active, i, j);
        } else if j < i {
            lemma_two_in_filter(out, |e: EntryView| e.is_active, j, i);
        }
    }
}

pub open spec fn rank(e: EntryView) -> int {
    (if e.is_active {
        512int
    } else {
        0int
    }) + (if e.is_known {
        256int
    } else {
        0int
    }) + e.strength as int
}

proof fn lemma_rank_orders(a: EntryView, b: EntryView)
    ensures
        not_after(a, b) <==> rank(a) >= rank(b),
        sort_key(a) == sort_key(b) <==> rank(a) == rank(b),
{
}

/// Inserting `e` after every entry that ranks at least as high keeps the classes of `out + [e]`.
proof fn lemma_insert_classes(out: Seq<EntryView>, p: int, e: EntryView, k: (bool, bool, u8))
    requires
        0 <= p <= out.len(),
        forall|q: int| 0 <= q < p ==> rank(#[trigger] out[q]) >= rank(e),
        forall|q: int| p <= q < out.len() ==> rank(#[trigger] out[q]) < rank(e),
    ensures
        key_class(out.insert(p, e), k) == key_class(out.push(e), k),
{
    let pred = |x: EntryView| sort_key(x) == k;
    let a = out.subrange(0, p);
    let b = out.subrange(p, out.len() as int);
    assert(out =~= a + b);
    assert(out.insert(p, e) =~= a.push(e) + b);
    Seq::filter_distributes_over_add(a, b, pred);
    Seq::filter_distributes_over_add(a.push(e), b, pred);
    a.lemma_filter_push(e, pred);
    out.lemma_filter_push(e, pred);
    if pred(e) {
        if b.filter(pred).len() > 0 {
            b.lemma_filter_pred(pred, 0);
            b.lemma_filter_contains_rev(pred, b.filter(pred)[0]);
            let q = choose|q: int| 0 <= q < b.len() && b[q] == b.filter(pred)[0];
            assert(out[p + q] == b[q]);
            lemma_rank_orders(b[q], e);
        }
        assert(b.filter(pred) =~= Seq::<EntryView>::empty());
        assert(a.filter(pred).push(e) + b.filter(pred) =~= (a.filter(pred) + b.filter(pred)).push(
            e,
        ));
    } else {
    }
}

/// An entry of a stable sort is one of the input's entries.
proof fn lemma_class_member(out: Seq<EntryView>, input: Seq<EntryView>, i: int)
    requires
        same_classes(out, input),
        0 <= i < out.len(),
    ensures
        input.contains(out[i]),
{
    let k = sort_key(out[i]);
    let pred = |x: EntryView| sort_key(x) == k;
    out.lemma_filter_contains(pred, i);
    assert(key_class(out, k) == key_class(input, k));
    input.lemma_filter_contains_rev(pred, out[i]);
}

/// Whether `ssid` is among the saved identifiers.
pub fn contains_ssid(saved: &Vec<String>, ssid: &String) -> (r: bool)
    ensures
        r == contains_text(saved@, ssid@),
{
    let mut i: usize = 0;
    while i < saved.len()
        invariant
            i <= saved.len(),
            forall|j: int| 0 <= j < i ==> (#[trigger] saved@[j])@ != ssid@,
        decreases saved.len() - i,
    {
        if saved[i] == *ssid {
            return true;
        }
        i += 1;
    }
    false
}

fn rank_of(e: &NetworkEntry) -> (r: u32)
    ensures
        r as int == rank(e@),
{
    let a: u32 = if e.is_active {
        512
    } else {
        0
    };
    let k: u32 = if e.is_known {
        256
    } else {
        0
    };
    a + k + e.strength as u32
}

/// The first position whose entry ranks below `re`, or the length if there is none.
fn insertion_point(out: &Vec<NetworkEntry>, re: u32) -> (p: usize)
    ensures
        p <= out.len(),
        forall|q: int| 0 <= q < p ==> rank((#[trigger] out@[q])@) >= re,
        p < out.len() ==> rank(out@[p as int]@) < re,
{
    let mut p: usize = 0;
    while p < out.len()
        invariant
            p <= out.len(),
            forall|q: int| 0 <= q < p ==> rank((#[trigger] out@[q])@) >= re,
        decreases out.len() - p,
    {
        if rank_of(&out[p]) < re {
            return p;
        }
        p += 1;
    }
    p
}

/// Builds the display entry of one scan result.
pub fn build_entry(r: &ScanResult, active: &Option<String>, saved: &Vec<String>) -> (e: NetworkEntry)
    ensures
        e@ == entry_for(*r, *active, saved@),
{
    let is_active = match active {
        Some(a) => *a == r.ssid,
        None => false,
    };
    let object_path = match &r.bssid {
        Some(b) => b.clone(),
        None => String::new(),
    };
    let strength: u8 = match r.strength {
        Some(s) => s,
        None => 0,
    };
    NetworkEntry {
        ssid: r.ssid.clone(),
        object_path,
        strength,
        is_secure: true,
        is_active,
        is_known: contains_ssid(saved, &r.ssid),
        connectivity_state: if is_active {
            STATE_ACTIVATED
        } else {
            STATE_UNKNOWN
        },
    }
}

/// Merges a live scan with the active identifier and the saved identifiers into the
/// display-ready list: one entry per scan result, active first, then known, then
/// stronger, ties kept in scan order.
pub fn merge_networks(scan: &Vec<ScanResult>, active: &Option<String>, saved: &Vec<String>) -> (out:
    Vec<NetworkEntry>)
    ensures
        out.len() == scan.len(),
        is_ordered(views(out@)),
        same_classes(views(out@), entries_for(scan@, *active, saved@)),
        active_count(views(out@)) == matching_count(scan@, *active),
        forall|i: int|
            0 <= i < out.len() ==> (#[trigger] out@[i]).is_known == contains_text(
                saved@,
                out@[i].ssid@,
            ),
        forall|i: int|
            0 <= i < out.len() ==> (#[trigger] out@[i]).is_active == is_active_ssid(
                *active,
                out@[i].ssid@,
            ),
{
    let mut out: Vec<NetworkEntry> = Vec::new();
    let mut i: usize = 0;
    proof {
        assert forall|k: (bool, bool, u8)| #[trigger] key_class(views(out@), k) == key_class(
            entries_for(scan@.subrange(0, 0), *active, saved@),
            k,
        ) by {
            reveal(Seq::filter);
            assert(views(out@) =~= Seq::<EntryView>::empty());
            assert(scan@.subrange(0, 0) =~= Seq::<ScanResult>::empty());
            assert(entries_for(scan@.subrange(0, 0), *active, saved@) =~= Seq::<EntryView>::empty());
        }
    }
    while i < scan.len()
        invariant
            i <= scan.len(),
            out.len() == i,
            is_ordered(views(out@)),
            same_classes(views(out@), entries_for(scan@.subrange(0, i as int), *active, saved@)),
            active_count(views(out@)) == matching_count(scan@.subrange(0, i as int), *active),
        decreases scan.len() - i,
    {
        let e = build_entry(&scan[i], active, saved);
        let re = rank_of(&e);
        let p = insertion_point(&out, re);
        let ghost before = views(out@);
        let ghost ev = e@;
        proof {
            assert forall|q: int| p <= q < before.len() implies rank(#[trigger] before[q]) < rank(ev) by {
                lemma_rank_orders(before[p as int], before[q]);
                if q > p {
                    assert(not_after(before[p as int], before[q]));
                }
            }
        }
        out.insert(p, e);
        proof {
            let prev = entries_for(scan@.subrange(0, i as int), *active, saved@);
            let next = entries_for(scan@.subrange(0, i + 1), *active, saved@);
            assert(next =~= prev.push(ev));
            assert(views(out@) =~= before.insert(p as int, ev));
            assert forall|k: (bool, bool, u8)| #[trigger] key_class(views(out@), k) == key_class(next, k) by {
                lemma_insert_classes(before, p as int, ev, k);
                let pred = |x: EntryView| sort_key(x) == k;
                before.lemma_filter_push(ev, pred);
                prev.lemma_filter_push(ev, pred);
                assert(key_class(before, k) == key_class(prev, k));
            }
            let is_act = |x: EntryView| x.is_active;
            let a = before.subrange(0, p as int);
            let b = before.subrange(p as int, before.len() as int);
            assert(before =~= a + b);
            assert(views(out@) =~= a.push(ev) + b);
            Seq::filter_distributes_over_add(a, b, is_act);
            Seq::filter_distributes_over_add(a.push(ev), b, is_act);
            a.lemma_filter_len_push(is_act, ev);
            let matches = |r: ScanResult| is_active_ssid(*active, r.ssid@);
            assert(scan@.subrange(0, i + 1) =~= scan@.subrange(0, i as int).push(scan@[i as int]));
            scan@.subrange(0, i as int).lemma_filter_len_push(matches, scan@[i as int]);
            let now = views(out@);
            assert forall|a: int, b: int| 0 <= a < b < now.len() implies not_after(
                #[trigger] now[a],
                #[trigger] now[b],
            ) by {
                lemma_rank_orders(now[a], now[b]);
                if a < p && b < p {
                    assert(not_after(before[a], before[b]));
                } else if a < p && b == p {
                } else if a < p {
                    lemma_rank_orders(before[a], before[b - 1]);
                    assert(not_after(before[a], before[b - 1]));
                } else if a == p {
                    lemma_rank_orders(ev, before[b - 1]);
                } else {
                    assert(not_after(before[a - 1], before[b - 1]));
                }
            }
        }
        i += 1;
    }
    proof {
        assert(scan@.subrange(0, scan.len() as int) =~= scan@);
        let exp = entries_for(scan@, *active, saved@);
        assert forall|j: int| 0 <= j < out.len() implies (#[trigger] out@[j]).is_known
            == contains_text(saved@, out@[j].ssid@) && out@[j].is_active == is_active_ssid(
            *active,
            out@[j].ssid@,
        ) by {
            lemma_class_member(views(out@), exp, j);
            let m = choose|m: int| 0 <= m < exp.len() && exp[m] == views(out@)[j];
            assert(exp[m] == entry_for(scan@[m], *active, saved@));
        }
    }
    out
}

} // verus!
