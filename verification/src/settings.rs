//! Settings kept in the store as text: how each stored text is read back,
//! with its default, and the texts written for each setting.

use vstd::prelude::*;
use crate::text::{decimal, parse_u32, spec_parse_u32, str_eq, u64_to_decimal};

verus! {

/// `"1"` for on, `"0"` for off: how flags are stored.
pub open spec fn flag_text(b: bool) -> Seq<char> {
    if b { "1"@ } else { "0"@ }
}

pub fn flag_string(b: bool) -> (r: String)
    ensures
        r@ == flag_text(b),
{
    if b { String::from_str("1") } else { String::from_str("0") }
}

/// A stored flag: on exactly when it is `"1"`; the default when unset.
pub open spec fn flag_value(stored: Option<Seq<char>>, default: bool) -> bool {
    match stored {
        Some(v) => v == "1"@,
        None => default,
    }
}

pub open spec fn opt_seq(o: Option<String>) -> Option<Seq<char>> {
    match o {
        Some(s) => Some(s@),
        None => None,
    }
}

pub fn read_flag(stored: &Option<String>, default: bool) -> (r: bool)
    ensures
        r == flag_value(opt_seq(*stored), default),
{
    match stored {
        Some(v) => str_eq(v.as_str(), "1"),
        None => default,
    }
}

/// A stored number of minutes: the number it reads as, else 5; never less
/// than 1.
pub open spec fn minutes_value(stored: Option<Seq<char>>) -> u32 {
    let n: u32 = match stored {
        Some(v) => match spec_parse_u32(v) {
            Some(n) => n,
            None => 5,
        },
        None => 5,
    };
    if n < 1 { 1 } else { n }
}

pub fn read_minutes(stored: &Option<String>) -> (r: u32)
    ensures
        r == minutes_value(opt_seq(*stored)),
{
    let n: u32 = match stored {
        Some(v) => match parse_u32(v.as_str()) {
            Some(n) => n,
            None => 5,
        },
        None => 5,
    };
    if n < 1 { 1 } else { n }
}

/// A setting to write: its key and its text.
pub open spec fn writes_view(w: Seq<(String, String)>) -> Seq<(Seq<char>, Seq<char>)> {
    w.map_values(|p: (String, String)| (p.0@, p.1@))
}

fn pair(k: &str, v: String) -> (r: (String, String))
    ensures
        r.0@ == k@,
        r.1@ == v@,
{
    (String::from_str(k), v)
}

// ---------------------------------------------------------------------------
// Browser auto-sync
// ---------------------------------------------------------------------------

/// When browser bookmarks are imported by themselves.
#[derive(Debug, Clone, PartialEq, Eq)]
pub struct BrowserAutoSyncSettings {
    pub startup_enabled: bool,
    pub interval_enabled: bool,
    pub interval_minutes: u32,
}

/// Both switches default to on, the interval to 5 minutes.
pub fn browser_auto_sync_settings(
    startup: &Option<String>,
    interval_enabled: &Option<String>,
    interval_minutes: &Option<String>,
) -> (r: BrowserAutoSyncSettings)
    ensures
        r.startup_enabled == flag_value(opt_seq(*startup), true),
        r.interval_enabled == flag_value(opt_seq(*interval_enabled), true),
        r.interval_minutes == minutes_value(opt_seq(*interval_minutes)),
{
    BrowserAutoSyncSettings {
        startup_enabled: read_flag(startup, true),
        interval_enabled: read_flag(interval_enabled, true),
        interval_minutes: read_minutes(interval_minutes),
    }
}

/// The texts written for the browser auto-sync settings (an interval below
/// one minute is stored as one).
pub fn browser_auto_sync_writes(startup_enabled: bool, interval_enabled: bool, interval_minutes: u32) -> (r: Vec<(String, String)>)
    ensures
        writes_view(r@) == seq![
            ("browser_auto_sync_startup"@, flag_text(startup_enabled)),
            ("browser_auto_sync_interval_enabled"@, flag_text(interval_enabled)),
            ("browser_auto_sync_interval_minutes"@, decimal((if interval_minutes < 1 { 1u32 } else { interval_minutes }) as nat)),
        ],
{
    let minutes: u32 = if interval_minutes < 1 { 1 } else { interval_minutes };
    let v = vec![
        pair("browser_auto_sync_startup", flag_string(startup_enabled)),
        pair("browser_auto_sync_interval_enabled", flag_string(interval_enabled)),
        pair("browser_auto_sync_interval_minutes", u64_to_decimal(minutes as u64)),
    ];
    assert(writes_view(v@) =~= seq![
        ("browser_auto_sync_startup"@, flag_text(startup_enabled)),
        ("browser_auto_sync_interval_enabled"@, flag_text(interval_enabled)),
        ("browser_auto_sync_interval_minutes"@, decimal(minutes as nat)),
    ]);
    v
}

// ---------------------------------------------------------------------------
// Event auto-sync
// ---------------------------------------------------------------------------

/// When the event log is synchronised by itself.
#[derive(Debug, Clone, PartialEq, Eq)]
pub struct EventAutoSyncSettings {
    pub startup_pull_enabled: bool,
    pub interval_enabled: bool,
    pub interval_minutes: u32,
    pub close_push_enabled: bool,
}

/// All switches default to on, the interval to 5 minutes.
pub fn event_auto_sync_settings(
    startup_pull: &Option<String>,
    interval_enabled: &Option<String>,
    interval_minutes: &Option<String>,
    close_push: &Option<String>,
) -> (r: EventAutoSyncSettings)
    ensures
        r.startup_pull_enabled == flag_value(opt_seq(*startup_pull), true),
        r.interval_enabled == flag_value(opt_seq(*interval_enabled), true),
        r.interval_minutes == minutes_value(opt_seq(*interval_minutes)),
        r.close_push_enabled == flag_value(opt_seq(*close_push), true),
{
    EventAutoSyncSettings {
        startup_pull_enabled: read_flag(startup_pull, true),
        interval_enabled: read_flag(interval_enabled, true),
        interval_minutes: read_minutes(interval_minutes),
        close_push_enabled: read_flag(close_push, true),
    }
}

/// The texts written for the event auto-sync settings.
pub fn event_auto_sync_writes(
    startup_pull_enabled: bool,
    interval_enabled: bool,
    interval_minutes: u32,
    close_push_enabled: bool,
) -> (r: Vec<(String, String)>)
    ensures
        writes_view(r@) == seq![
            ("event_sync_startup_pull"@, flag_text(startup_pull_enabled)),
            ("event_sync_interval_enabled"@, flag_text(interval_enabled)),
            ("event_sync_interval_minutes"@, decimal((if interval_minutes < 1 { 1u32 } else { interval_minutes }) as nat)),
            ("event_sync_close_push"@, flag_text(close_push_enabled)),
        ],
{
    let minutes: u32 = if interval_minutes < 1 { 1 } else { interval_minutes };
    let v = vec![
        pair("event_sync_startup_pull", flag_string(startup_pull_enabled)),
        pair("event_sync_interval_enabled", flag_string(interval_enabled)),
        pair("event_sync_interval_minutes", u64_to_decimal(minutes as u64)),
        pair("event_sync_close_push", flag_string(close_push_enabled)),
    ];
    assert(writes_view(v@) =~= seq![
        ("event_sync_startup_pull"@, flag_text(startup_pull_enabled)),
        ("event_sync_interval_enabled"@, flag_text(interval_enabled)),
        ("event_sync_interval_minutes"@, decimal(minutes as nat)),
        ("event_sync_close_push"@, flag_text(close_push_enabled)),
    ]);
    v
}

// ---------------------------------------------------------------------------
// Appearance
// ---------------------------------------------------------------------------

/// How the window looks.
#[derive(Debug, Clone, PartialEq, Eq)]
pub struct UiAppearanceSettings {
    pub theme_mode: String,
    pub background_enabled: bool,
    pub background_image_data_url: Option<String>,
    pub background_overlay_opacity: u32,
}

/// A stored opacity: the number it reads as, else 45; never more than 90.
pub open spec fn opacity_value(stored: Option<Seq<char>>) -> u32 {
    let n: u32 = match stored {
        Some(v) => match spec_parse_u32(v) {
            Some(n) => n,
            None => 45,
        },
        None => 45,
    };
    if n > 90 { 90 } else { n }
}

/// The theme defaults to `system`, the background to off, the opacity to 45.
pub fn ui_appearance_settings(
    theme_mode: Option<String>,
    background_enabled: &Option<String>,
    background_image_data_url: Option<String>,
    background_overlay_opacity: &Option<String>,
) -> (r: UiAppearanceSettings)
    ensures
        r.theme_mode@ == match theme_mode {
            Some(t) => t@,
            None => "system"@,
        },
        r.background_enabled == flag_value(opt_seq(*background_enabled), false),
        r.background_image_data_url == background_image_data_url,
        r.background_overlay_opacity == opacity_value(opt_seq(*background_overlay_opacity)),
{
    let theme = match theme_mode {
        Some(t) => t,
        None => String::from_str("system"),
    };
    let n: u32 = match background_overlay_opacity {
        Some(v) => match parse_u32(v.as_str()) {
            Some(n) => n,
            None => 45,
        },
        None => 45,
    };
    UiAppearanceSettings {
        theme_mode: theme,
        background_enabled: read_flag(background_enabled, false),
        background_image_data_url,
        background_overlay_opacity: if n > 90 { 90 } else { n },
    }
}

/// A theme as stored: `light`, `dark` and `system` are kept, anything else
/// becomes `system`.
pub open spec fn normalized_theme(t: Seq<char>) -> Seq<char> {
    if t == "light"@ || t == "dark"@ || t == "system"@ {
        t
    } else {
        "system"@
    }
}

/// What writing the appearance settings does: the texts written, in order
/// (theme, background switch, image when there is one, opacity capped at
/// 90), and whether the stored image is removed (when none is given).
pub fn ui_appearance_writes(
    theme_mode: &str,
    background_enabled: bool,
    background_image_data_url: &Option<String>,
    background_overlay_opacity: u32,
) -> (r: (Vec<(String, String)>, bool))
    ensures
        writes_view(r.0@) == seq![("ui_theme_mode"@, normalized_theme(theme_mode@)), ("ui_background_enabled"@, flag_text(background_enabled))]
            + match background_image_data_url {
                Some(v) => seq![("ui_background_image_data_url"@, v@)],
                None => Seq::empty(),
            } + seq![
                ("ui_background_overlay_opacity"@, decimal((if background_overlay_opacity > 90 { 90u32 } else { background_overlay_opacity }) as nat)),
            ],
        r.1 == background_image_data_url.is_none(),
{
    let theme = if str_eq(theme_mode, "light") || str_eq(theme_mode, "dark") || str_eq(theme_mode, "system") {
        String::from_str(theme_mode)
    } else {
        String::from_str("system")
    };
    let opacity: u32 = if background_overlay_opacity > 90 { 90 } else { background_overlay_opacity };
    let mut v: Vec<(String, String)> = Vec::new();
    v.push(pair("ui_theme_mode", theme));
    v.push(pair("ui_background_enabled", flag_string(background_enabled)));
    let ghost head = writes_view(v@);
    let remove = match background_image_data_url {
        Some(url) => {
            v.push(pair("ui_background_image_data_url", url.clone()));
            false
        },
        None => true,
    };
    let ghost mid = writes_view(v@);
    v.push(pair("ui_background_overlay_opacity", u64_to_decimal(opacity as u64)));
    proof {
        let img: Seq<(Seq<char>, Seq<char>)> = match background_image_data_url {
            Some(u) => seq![("ui_background_image_data_url"@, u@)],
            None => Seq::empty(),
        };
        assert(head =~= seq![("ui_theme_mode"@, normalized_theme(theme_mode@)), ("ui_background_enabled"@, flag_text(background_enabled))]);
        assert(mid =~= head + img);
        assert(writes_view(v@) =~= mid.push(("ui_background_overlay_opacity"@, decimal(opacity as nat))));
    }
    (v, remove)
}

/// The statement that removes the stored background image.
pub fn remove_background_image_sql() -> (r: String)
    ensures
        r@ == "DELETE FROM app_settings WHERE key = 'ui_background_image_data_url'"@,
{
    String::from_str("DELETE FROM app_settings WHERE key = 'ui_background_image_data_url'")
}

// ---------------------------------------------------------------------------
// Deletion mirrored to browsers, the sync repository, this device
// ---------------------------------------------------------------------------

/// An ASCII letter in lower case; other characters as they are.
pub open spec fn ascii_lower(c: char) -> char {
    if 'A' <= c && c <= 'Z' {
        ((c as u32) + 32) as char
    } else {
        c
    }
}

/// `str::eq_ignore_ascii_case`: equal once ASCII letters are put in one case.
pub open spec fn eq_ignore_ascii_case(a: Seq<char>, b: Seq<char>) -> bool {
    a.len() == b.len() && forall|i: int| 0 <= i < a.len() ==> ascii_lower(#[trigger] a[i]) == ascii_lower(b[i])
}

fn ascii_lower_char(c: char) -> (r: char)
    ensures
        r == ascii_lower(c),
{
    if 'A' <= c && c <= 'Z' {
        let b: u8 = c as u8;
        (b + 32) as char
    } else {
        c
    }
}

pub fn str_eq_ignore_ascii_case(a: &str, b: &str) -> (r: bool)
    ensures
        r == eq_ignore_ascii_case(a@, b@),
{
    let av = crate::text::chars_of(a);
    let bv = crate::text::chars_of(b);
    if av.len() != bv.len() {
        return false;
    }
    let mut i: usize = 0;
    while i < av.len()
        invariant
            i <= av.len() == bv.len(),
            av@ == a@,
            bv@ == b@,
            forall|k: int| 0 <= k < i ==> ascii_lower(#[trigger] av@[k]) == ascii_lower(bv@[k]),
        decreases av.len() - i,
    {
        if ascii_lower_char(av[i]) != ascii_lower_char(bv[i]) {
            return false;
        }
        i = i + 1;
    }
    true
}

/// Deletions are mirrored into browsers when the stored switch is `"1"` or
/// `true` in any case (off when unset).
pub open spec fn delete_sync_value(stored: Option<Seq<char>>) -> bool {
    let raw = match stored {
        Some(v) => v,
        None => "0"@,
    };
    raw == "1"@ || eq_ignore_ascii_case(raw, "true"@)
}

pub fn delete_sync_setting(stored: &Option<String>) -> (r: bool)
    ensures
        r == delete_sync_value(opt_seq(*stored)),
{
    proof {
        reveal_strlit("0");
        reveal_strlit("1");
    }
    match stored {
        Some(v) => {
            let one = str_eq(v.as_str(), "1");
            let t = str_eq_ignore_ascii_case(v.as_str(), "true");
            one || t
        },
        None => {
            assert(!eq_ignore_ascii_case("0"@, "true"@)) by {
                reveal_strlit("true");
            }
            assert("0"@[0] != "1"@[0]);
            assert(!delete_sync_value(None));
            false
        },
    }
}

/// A push is owed when the stored flag is `"1"` (none when unset).
pub fn pending_push_setting(stored: &Option<String>) -> (r: bool)
    ensures
        r == flag_value(opt_seq(*stored), false),
{
    read_flag(stored, false)
}

/// The configured sync repository, or the empty text.
pub fn git_sync_repo_dir(stored: Option<String>) -> (r: String)
    ensures
        r@ == match stored {
            Some(s) => s@,
            None => Seq::empty(),
        },
{
    match stored {
        Some(s) => s,
        None => String::new(),
    }
}

/// This device's id: the stored one, else the given fresh id, which is then
/// stored (the flag says whether to write it).
pub fn device_id_or_new(stored: Option<String>, fresh: String) -> (r: (String, bool))
    ensures
        match stored {
            Some(s) => r.0 == s && !r.1,
            None => r.0 == fresh && r.1,
        },
{
    match stored {
        Some(s) => (s, false),
        None => (fresh, true),
    }
}


// ---------------------------------------------------------------------------
// Laws
// ---------------------------------------------------------------------------

/// What the settings commands write reads back as the value written, after
/// the same clamping: a flag as itself, an interval of at least one minute
/// as itself, an opacity of at most 90 as itself, and a theme as its
/// normalised form.
pub proof fn lemma_settings_round_trip(b: bool, default: bool, minutes: u32, opacity: u32, theme: Seq<char>)
    ensures
        flag_value(Some(flag_text(b)), default) == b,
        minutes_value(Some(decimal((if minutes < 1 { 1u32 } else { minutes }) as nat))) == (if minutes < 1 { 1u32 } else { minutes }),
        opacity_value(Some(decimal((if opacity > 90 { 90u32 } else { opacity }) as nat))) == (if opacity > 90 { 90u32 } else { opacity }),
        normalized_theme(normalized_theme(theme)) == normalized_theme(theme),
{
    reveal_strlit("1");
    reveal_strlit("0");
    assert("0"@[0] != "1"@[0]);
    let m: u32 = if minutes < 1 { 1u32 } else { minutes };
    let o: u32 = if opacity > 90 { 90u32 } else { opacity };
    crate::text::lemma_parse_decimal(m);
    crate::text::lemma_parse_decimal(o);
}

} // verus!
