use vstd::prelude::*;
use vstd::string::*;
use vstd::utf8::*;
use crate::network::ScanResult;
use crate::profile::{Setting, SettingValue, SettingsGroup};

verus! {

/// The security to connect with.
pub enum Security {
    Open,
    WpaPsk(String),
}

/// What a connect request turns into.
pub enum ConnectPlan {
    /// A secured network without a credential: add a profile for it and activate it.
    AddAndActivate,
    /// A single high-level connect call with this security.
    Connect(Security),
}

/// The security a request asks for: open, or a pre-shared key holding the credential.
pub open spec fn security_for(password: Seq<char>, is_secure: bool, s: Security) -> bool {
    if is_secure {
        s matches Security::WpaPsk(k) && k@ == password
    } else {
        s is Open
    }
}

fn security_of(password: &String, is_secure: bool) -> (s: Security)
    ensures
        security_for(password@, is_secure, s),
{
    if is_secure {
        Security::WpaPsk(password.clone())
    } else {
        Security::Open
    }
}

/// Decides how to connect to a network: a secured network requested without a
/// credential falls back to add-and-activate; anything else is one connect call.
pub fn plan_connect(password: &String, is_secure: bool) -> (p: ConnectPlan)
    ensures
        is_secure && password@.len() == 0 <==> p is AddAndActivate,
        p matches ConnectPlan::Connect(s) ==> security_for(password@, is_secure, s),
{
    if is_secure && password.as_str().unicode_len() == 0 {
        ConnectPlan::AddAndActivate
    } else {
        ConnectPlan::Connect(security_of(password, is_secure))
    }
}

/// Whether the scan result is seen through the access point `bssid`.
pub open spec fn has_bssid(r: ScanResult, bssid: Seq<char>) -> bool {
    r.bssid matches Some(b) && b@ == bssid
}

/// Activating by address token: the first scanned network seen through `bssid` gives
/// the identifier to connect to, with the requested security; none when it is not seen.
pub fn plan_activate(networks: &Vec<ScanResult>, bssid: &String, password: &String, is_secure: bool) -> (r:
    Option<(String, Security)>)
    ensures
        r is None <==> forall|j: int| 0 <= j < networks.len() ==> !has_bssid(#[trigger] networks@[j], bssid@),
        r matches Some((ssid, s)) ==> {
            &&& security_for(password@, is_secure, s)
            &&& exists|j: int|
                0 <= j < networks.len() && has_bssid(#[trigger] networks@[j], bssid@)
                    && networks@[j].ssid@ == ssid@ && forall|m: int|
                    0 <= m < j ==> !has_bssid(#[trigger] networks@[m], bssid@)
        },
{
    let mut i: usize = 0;
    while i < networks.len()
        invariant
            i <= networks.len(),
            forall|m: int| 0 <= m < i ==> !has_bssid(#[trigger] networks@[m], bssid@),
        decreases networks.len() - i,
    {
        let found = match &networks[i].bssid {
            Some(b) => *b == *bssid,
            None => false,
        };
        if found {
            assert(has_bssid(networks@[i as int], bssid@));
            return Some((networks[i].ssid.clone(), security_of(password, is_secure)));
        }
        i += 1;
    }
    None
}

/// The position of the first wireless device among the devices' kinds (`true` for wireless).
pub fn first_wifi_device(is_wifi: &Vec<bool>) -> (r: Option<usize>)
    ensures
        r is None <==> forall|j: int| 0 <= j < is_wifi.len() ==> !(#[trigger] is_wifi@[j]),
        r matches Some(i) ==> {
            &&& i < is_wifi.len()
            &&& is_wifi@[i as int]
            &&& forall|j: int| 0 <= j < i ==> !(#[trigger] is_wifi@[j])
        },
{
    let mut i: usize = 0;
    while i < is_wifi.len()
        invariant
            i <= is_wifi.len(),
            forall|j: int| 0 <= j < i ==> !(#[trigger] is_wifi@[j]),
        decreases is_wifi.len() - i,
    {
        if is_wifi[i] {
            return Some(i);
        }
        i += 1;
    }
    None
}

/// The object path to target: the one the device lookup found, else the root path "/".
pub fn device_object_path(found: Option<String>) -> (r: String)
    ensures
        r@ == match found {
            Some(p) => p@,
            None => "/"@,
        },
{
    match found {
        Some(p) => p,
        None => String::from_str("/"),
    }
}

pub open spec fn text_setting(s: Setting, key: Seq<char>, value: Seq<char>) -> bool {
    &&& s.key@ == key
    &&& s.value matches SettingValue::Text(t) && t@ == value
}

/// The connection descriptor of add-and-activate for `ssid`: a "connection" group naming
/// it as a wireless connection, an "802-11-wireless" group with its bytes and the
/// infrastructure mode, and a "802-11-wireless-security" group with WPA-PSK and open
/// authentication.
pub open spec fn is_add_descriptor(g: Seq<SettingsGroup>, ssid: Seq<char>) -> bool {
    &&& g.len() == 3
    &&& g[0].name@ == "connection"@
    &&& g[0].settings@.len() == 2
    &&& text_setting(g[0].settings@[0], "id"@, ssid)
    &&& text_setting(g[0].settings@[1], "type"@, "802-11-wireless"@)
    &&& g[1].name@ == "802-11-wireless"@
    &&& g[1].settings@.len() == 2
    &&& g[1].settings@[0].key@ == "ssid"@
    &&& g[1].settings@[0].value matches SettingValue::Bytes(b) && b@ == encode_utf8(ssid)
    &&& text_setting(g[1].settings@[1], "mode"@, "infrastructure"@)
    &&& g[2].name@ == "802-11-wireless-security"@
    &&& g[2].settings@.len() == 2
    &&& text_setting(g[2].settings@[0], "key-mgmt"@, "wpa-psk"@)
    &&& text_setting(g[2].settings@[1], "auth-alg"@, "open"@)
}

fn text_entry(key: &str, value: &str) -> (s: Setting)
    ensures
        text_setting(s, key@, value@),
{
    Setting { key: String::from_str(key), value: SettingValue::Text(String::from_str(value)) }
}

/// Builds the connection descriptor that add-and-activate hands to the network service.
pub fn add_and_activate_settings(ssid: &String) -> (g: Vec<SettingsGroup>)
    ensures
        is_add_descriptor(g@, ssid@),
{
    let mut con: Vec<Setting> = Vec::new();
    con.push(text_entry("id", ssid.as_str()));
    con.push(text_entry("type", "802-11-wireless"));
    let mut wifi: Vec<Setting> = Vec::new();
    wifi.push(
        Setting {
            key: String::from_str("ssid"),
            value: SettingValue::Bytes(ssid.as_str().as_bytes_vec()),
        },
    );
    wifi.push(text_entry("mode", "infrastructure"));
    let mut sec: Vec<Setting> = Vec::new();
    sec.push(text_entry("key-mgmt", "wpa-psk"));
    sec.push(text_entry("auth-alg", "open"));
    let mut g: Vec<SettingsGroup> = Vec::new();
    g.push(SettingsGroup { name: String::from_str("connection"), settings: con });
    g.push(SettingsGroup { name: String::from_str("802-11-wireless"), settings: wifi });
    g.push(SettingsGroup { name: String::from_str("802-11-wireless-security"), settings: sec });
    g
}

} // verus!
