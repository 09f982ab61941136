use vstd::prelude::*;
use crate::network::{
    ScanResult, NetworkEntry, merge_networks, views, is_ordered, is_active_ssid, same_classes,
    entries_for, contains_text,
};
use crate::profile::{SettingsGroup, saved_ssids, saved_has};

verus! {

/// The controller handle that the foreign caller creates once and passes to every operation.
pub struct RsContext {
    dummy: usize,
}

impl RsContext {
    /// A handle holds no state of its own: every operation resolves what it needs afresh.
    pub closed spec fn is_fresh(&self) -> bool {
        self.dummy == 0
    }

    pub fn new() -> (r: RsContext)
        ensures
            r.is_fresh(),
    {
        RsContext { dummy: 0 }
    }
}

/// Whether a saved profile (of those that could be listed) has the identifier `t`.
pub open spec fn known_in(profiles: Option<Vec<Vec<SettingsGroup>>>, t: Seq<char>) -> bool {
    match profiles {
        Some(p) => saved_has(p@, t),
        None => false,
    }
}

/// The network list from what the three queries returned: the scan (absent when the
/// service was unreachable or the scan failed), the active identifier, and the settings
/// of every saved profile (absent when they could not be listed). A failed query
/// degrades to an empty result; the list itself never fails.
pub fn collect_networks(
    scan: Option<Vec<ScanResult>>,
    active: Option<String>,
    profiles: Option<Vec<Vec<SettingsGroup>>>,
) -> (out: Vec<NetworkEntry>)
    ensures
        scan is None ==> out.len() == 0,
        scan matches Some(s) ==> {
            &&& out.len() == s.len()
            &&& is_ordered(views(out@))
            &&& forall|i: int| 0 <= i < out.len() ==> (#[trigger] out@[i]).is_active == is_active_ssid(active, out@[i].ssid@)
            &&& forall|i: int| 0 <= i < out.len() ==> (#[trigger] out@[i]).is_known == known_in(profiles, out@[i].ssid@)
            &&& exists|saved: Seq<String>| {
                &&& forall|t: Seq<char>| #[trigger] contains_text(saved, t) <==> known_in(profiles, t)
                &&& same_classes(views(out@), entries_for(s@, active, saved))
            }
        },
{
    match scan {
        None => Vec::new(),
        Some(s) => {
            let saved = match &profiles {
                Some(p) => saved_ssids(p),
                None => Vec::new(),
            };
            let out = merge_networks(&s, &active, &saved);
            assert(forall|t: Seq<char>| #[trigger] contains_text(saved@, t) <==> known_in(profiles, t));
            out
        },
    }
}

} // verus!
