use vstd::prelude::*;
use vstd::string::*;
use vstd::utf8::*;

verus! {

/// The value of one setting of a connection profile, as far as the controller reads it.
pub enum SettingValue {
    Text(String),
    Bytes(Vec<u8>),
    Other,
}

/// One named setting inside a settings group.
pub struct Setting {
    pub key: String,
    pub value: SettingValue,
}

/// One named group of settings ("connection", "802-11-wireless", ...).
///
/// The network service keys groups by name, and settings by key within a group, so
/// names and keys it reports are unique. This model does not require that: where a
/// name or a key repeats, every lookup here takes the first.
pub struct SettingsGroup {
    pub name: String,
    pub settings: Vec<Setting>,
}

pub open spec fn wireless_group_name() -> Seq<char> {
    "802-11-wireless"@
}

pub open spec fn ssid_key() -> Seq<char> {
    "ssid"@
}

/// The value of the first setting named `key`.
pub open spec fn setting_value(settings: Seq<Setting>, key: Seq<char>) -> Option<SettingValue>
    decreases settings.len(),
{
    if settings.len() == 0 {
        None
    } else if settings[0].key@ == key {
        Some(settings[0].value)
    } else {
        setting_value(settings.drop_first(), key)
    }
}

/// The value of `key` in the first group named `name`.
pub open spec fn group_value(groups: Seq<SettingsGroup>, name: Seq<char>, key: Seq<char>) -> Option<
    SettingValue,
>
    decreases groups.len(),
{
    if groups.len() == 0 {
        None
    } else if groups[0].name@ == name {
        setting_value(groups[0].settings@, key)
    } else {
        group_value(groups.drop_first(), name, key)
    }
}

/// The raw wireless identifier stored in a profile's settings, if it holds one as bytes.
pub open spec fn stored_ssid_bytes(groups: Seq<SettingsGroup>) -> Option<Seq<u8>> {
    match group_value(groups, wireless_group_name(), ssid_key()) {
        Some(SettingValue::Bytes(b)) => Some(b@),
        _ => None,
    }
}

/// The wireless identifier of a profile: its stored bytes, when they are valid UTF-8.
pub open spec fn profile_ssid_of(groups: Seq<SettingsGroup>) -> Option<Seq<char>> {
    match stored_ssid_bytes(groups) {
        Some(b) => if valid_utf8(b) {
            Some(decode_utf8(b))
        } else {
            None
        },
        None => None,
    }
}

/// Relies on `String::from_utf8`: `Ok` exactly for valid UTF-8, holding the decoded text.
#[verifier::external_body]
fn text_from_utf8(bytes: Vec<u8>) -> (r: Option<String>)
    ensures
        r is Some <==> valid_utf8(bytes@),
        r is Some ==> r->0@ == decode_utf8(bytes@),
{
    String::from_utf8(bytes).ok()
}

fn find_setting<'a>(settings: &'a Vec<Setting>, key: &String) -> (r: Option<&'a SettingValue>)
    ensures
        match r {
            Some(v) => setting_value(settings@, key@) == Some(*v),
            None => setting_value(settings@, key@) is None,
        },
{
    let mut i: usize = 0;
    assert(settings@.subrange(0, settings.len() as int) =~= settings@);
    while i < settings.len()
        invariant
            i <= settings.len(),
            setting_value(settings@, key@) == setting_value(
                settings@.subrange(i as int, settings.len() as int),
                key@,
            ),
        decreases settings.len() - i,
    {
        let ghost rest = settings@.subrange(i as int, settings.len() as int);
        assert(rest.drop_first() =~= settings@.subrange(i + 1, settings.len() as int));
        if settings[i].key == *key {
            return Some(&settings[i].value);
        }
        i += 1;
    }
    assert(settings@.subrange(i as int, settings.len() as int) =~= Seq::<Setting>::empty());
    None
}

/// The value of `key` in the first group named `name`.
pub fn find_group_value<'a>(groups: &'a Vec<SettingsGroup>, name: &String, key: &String) -> (r:
    Option<&'a SettingValue>)
    ensures
        match r {
            Some(v) => group_value(groups@, name@, key@) == Some(*v),
            None => group_value(groups@, name@, key@) is None,
        },
{
    let mut i: usize = 0;
    assert(groups@.subrange(0, groups.len() as int) =~= groups@);
    while i < groups.len()
        invariant
            i <= groups.len(),
            group_value(groups@, name@, key@) == group_value(
                groups@.subrange(i as int, groups.len() as int),
                name@,
                key@,
            ),
        decreases groups.len() - i,
    {
        let ghost rest = groups@.subrange(i as int, groups.len() as int);
        assert(rest.drop_first() =~= groups@.subrange(i + 1, groups.len() as int));
        if groups[i].name == *name {
            return find_setting(&groups[i].settings, key);
        }
        i += 1;
    }
    assert(groups@.subrange(i as int, groups.len() as int) =~= Seq::<SettingsGroup>::empty());
    None
}

/// The wireless identifier a saved profile was created for: the "ssid" bytes of its
/// "802-11-wireless" group decoded as UTF-8; absent when missing or not valid text.
pub fn profile_ssid(groups: &Vec<SettingsGroup>) -> (r: Option<String>)
    ensures
        match r {
            Some(s) => profile_ssid_of(groups@) == Some(s@),
            None => profile_ssid_of(groups@) is None,
        },
{
    let name = String::from_str("802-11-wireless");
    let key = String::from_str("ssid");
    match find_group_value(groups, &name, &key) {
        Some(SettingValue::Bytes(b)) => text_from_utf8(b.clone()),
        _ => None,
    }
}

/// Whether some profile decodes to the identifier `s`.
pub open spec fn saved_has(profiles: Seq<Vec<SettingsGroup>>, s: Seq<char>) -> bool {
    exists|i: int| 0 <= i < profiles.len() && profile_ssid_of((#[trigger] profiles[i])@) == Some(s)
}

/// The identifiers of all saved profiles, skipping those without a readable identifier.
pub fn saved_ssids(profiles: &Vec<Vec<SettingsGroup>>) -> (r: Vec<String>)
    ensures
        forall|s: Seq<char>|
            #[trigger] crate::network::contains_text(r@, s) <==> saved_has(profiles@, s),
{
    let mut r: Vec<String> = Vec::new();
    let mut i: usize = 0;
    while i < profiles.len()
        invariant
            i <= profiles.len(),
            forall|s: Seq<char>|
                #[trigger] crate::network::contains_text(r@, s) <==> saved_has(
                    profiles@.subrange(0, i as int),
                    s,
                ),
        decreases profiles.len() - i,
    {
        let found = profile_ssid(&profiles[i]);
        let ghost old_r = r@;
        let ghost pre = profiles@.subrange(0, i as int);
        let ghost post = profiles@.subrange(0, i + 1);
        match found {
            Some(s) => {
                r.push(s);
            },
            None => {},
        }
        proof {
            assert forall|t: Seq<char>|
                #[trigger] crate::network::contains_text(r@, t) <==> saved_has(post, t) by {
                if saved_has(post, t) {
                    let j = choose|j: int|
                        0 <= j < post.len() && profile_ssid_of((#[trigger] post[j])@) == Some(t);
                    if j < i {
                        assert(pre[j] == post[j]);
                        assert(saved_has(pre, t));
                        assert(crate::network::contains_text(old_r, t));
                        let m = choose|m: int| 0 <= m < old_r.len() && (#[trigger] old_r[m])@ == t;
                        assert(r@[m] == old_r[m]);
                    } else {
                        assert(r@[r@.len() - 1]@ == t);
                    }
                }
                if crate::network::contains_text(r@, t) {
                    let m = choose|m: int| 0 <= m < r@.len() && (#[trigger] r@[m])@ == t;
                    if m < old_r.len() {
                        assert(old_r[m] == r@[m]);
                        assert(crate::network::contains_text(old_r, t));
                        let j = choose|j: int|
                            0 <= j < pre.len() && profile_ssid_of((#[trigger] pre[j])@) == Some(t);
                        assert(post[j] == pre[j]);
                    } else {
                        assert(post[i as int] == profiles@[i as int]);
                    }
                }
            }
        }
        i += 1;
    }
    assert(profiles@.subrange(0, profiles.len() as int) =~= profiles@);
    r
}

/// Whether a saved profile was created for exactly the identifier `ssid`.
pub fn profile_matches(ssid: &String, groups: &Vec<SettingsGroup>) -> (r: bool)
    ensures
        r == (profile_ssid_of(groups@) == Some(ssid@)),
{
    match profile_ssid(groups) {
        Some(s) => s == *ssid,
        None => false,
    }
}

/// The position of the first profile whose identifier is exactly `ssid`; absent when no
/// profile matches, in which case nothing is to be deleted.
pub fn forget_target(ssid: &String, profiles: &Vec<Vec<SettingsGroup>>) -> (r: Option<usize>)
    ensures
        r is None <==> !saved_has(profiles@, ssid@),
        r matches Some(i) ==> {
            &&& i < profiles.len()
            &&& profile_ssid_of(profiles@[i as int]@) == Some(ssid@)
            &&& forall|j: int| 0 <= j < i ==> profile_ssid_of((#[trigger] profiles@[j])@) != Some(ssid@)
        },
{
    let mut i: usize = 0;
    while i < profiles.len()
        invariant
            i <= profiles.len(),
            forall|j: int| 0 <= j < i ==> profile_ssid_of((#[trigger] profiles@[j])@) != Some(ssid@),
        decreases profiles.len() - i,
    {
        if profile_matches(ssid, &profiles[i]) {
            return Some(i);
        }
        i += 1;
    }
    None
}

} // verus!
