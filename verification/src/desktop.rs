use vstd::prelude::*;

use crate::platform::{is_white_space, white_space};
use crate::text::{contains_text, has_prefix, push_char, text_contains, text_eq, text_starts_with};

verus! {

/// The name, version and provenance of the application, as its About view shows them.
pub struct ApplicationInfo {
    pub name: &'static str,
    pub version: &'static str,
    pub author: &'static str,
    pub copyright: &'static str,
    pub license: &'static str,
    pub description: &'static str,
    pub signature_status: &'static str,
}

pub const APP_NAME: &'static str = "Camellia Nexus";
pub const APP_AUTHOR: &'static str = "Camellia Computing";
pub const APP_COPYRIGHT: &'static str = "Copyright © 2026 Camellia Computing";
pub const APP_LICENSE: &'static str = "Proprietary";

/// The signature status of the running executable: verified, not verified, or not checked
/// where the platform has no embedded signatures to check.
pub open spec fn signature_status_name(verified: Option<bool>) -> Seq<char> {
    match verified {
        Some(true) => "verified"@,
        Some(false) => "notVerified"@,
        None => "notChecked"@,
    }
}

/// What the About view shows for a build with `version` and `description`.
pub fn application_info(
    version: &'static str,
    description: &'static str,
    signature_verified: Option<bool>,
) -> (info: ApplicationInfo)
    ensures
        info.name@ == APP_NAME@,
        info.version@ == version@,
        info.author@ == APP_AUTHOR@,
        info.copyright@ == APP_COPYRIGHT@,
        info.license@ == APP_LICENSE@,
        info.description@ == description@,
        info.signature_status@ == signature_status_name(signature_verified),
{
    let signature_status = match signature_verified {
        Some(true) => "verified",
        Some(false) => "notVerified",
        None => "notChecked",
    };
    ApplicationInfo {
        name: APP_NAME,
        version,
        author: APP_AUTHOR,
        copyright: APP_COPYRIGHT,
        license: APP_LICENSE,
        description,
        signature_status,
    }
}

/// The argument with which the operating system starts the application at login.
pub const AUTOSTART_ARGUMENT: &'static str = "--autostart";

/// Whether the application was started at login: one argument is exactly the autostart one.
pub fn has_autostart_argument(arguments: &Vec<String>) -> (autostart: bool)
    ensures
        autostart == exists|i: int| 0 <= i < arguments@.len() && #[trigger] arguments@[i]@ == AUTOSTART_ARGUMENT@,
{
    let mut i: usize = 0;
    while i < arguments.len()
        invariant
            i <= arguments@.len(),
            forall|j: int| 0 <= j < i ==> #[trigger] arguments@[j]@ != AUTOSTART_ARGUMENT@,
        decreases arguments@.len() - i,
    {
        if text_eq(arguments[i].as_str(), AUTOSTART_ARGUMENT) {
            return true;
        }
        i = i + 1;
    }
    false
}

/// How the license service names an operating system.
pub open spec fn platform_display_name_of(os: Seq<char>) -> Seq<char> {
    if os == "windows"@ {
        "Windows"@
    } else if os == "macos"@ {
        "macOS"@
    } else if os == "linux"@ {
        "Linux"@
    } else if os == "freebsd"@ {
        "FreeBSD"@
    } else {
        "Desktop"@
    }
}

/// How the license service names the operating system `os` (as Rust names it).
pub fn platform_display_name(os: &str) -> (name: &'static str)
    ensures
        name@ == platform_display_name_of(os@),
{
    if text_eq(os, "windows") {
        "Windows"
    } else if text_eq(os, "macos") {
        "macOS"
    } else if text_eq(os, "linux") {
        "Linux"
    } else if text_eq(os, "freebsd") {
        "FreeBSD"
    } else {
        "Desktop"
    }
}

/// How a local device names its platform: the operating systems the application ships for by
/// their names, any other by Rust's name for it.
pub open spec fn current_platform_name_of(os: Seq<char>) -> Seq<char> {
    if os == "windows"@ {
        "Windows"@
    } else if os == "macos"@ {
        "macOS"@
    } else if os == "linux"@ {
        "Linux"@
    } else {
        os
    }
}

/// How a local device names its platform.
pub fn current_platform_name(os: &'static str) -> (name: &'static str)
    ensures
        name@ == current_platform_name_of(os@),
{
    if text_eq(os, "windows") {
        "Windows"
    } else if text_eq(os, "macos") {
        "macOS"
    } else if text_eq(os, "linux") {
        "Linux"
    } else {
        os
    }
}

/// Whether a character is a control character (`char::is_control`).
pub open spec fn is_control(c: char) -> bool {
    (c as u32) <= 0x1f || (0x7f <= (c as u32) && (c as u32) <= 0x9f)
}

/// The text with runs of white space collapsed into single spaces and none at either end,
/// control characters dropped, read from position `i` on, where `pending` says that a space is
/// due before the next character that is kept.
pub open spec fn collapse_from(s: Seq<char>, i: int, started: bool, pending: bool) -> Seq<char>
    decreases s.len() - i,
{
    if i >= s.len() || i < 0 {
        Seq::empty()
    } else if is_control(s[i]) {
        collapse_from(s, i + 1, started, pending)
    } else if is_white_space(s[i]) {
        collapse_from(s, i + 1, started, started)
    } else if pending {
        seq![' ', s[i]] + collapse_from(s, i + 1, true, false)
    } else {
        seq![s[i]] + collapse_from(s, i + 1, true, false)
    }
}

/// Whether a character is trimmed from the ends of a device name.
pub open spec fn is_name_edge(c: char) -> bool {
    c == '-' || c == '_' || c == '.'
}

/// The first position from which no edge characters are left to trim.
pub open spec fn trim_start(s: Seq<char>, i: int) -> int
    decreases s.len() - i,
{
    if i < s.len() && 0 <= i && is_name_edge(s[i]) {
        trim_start(s, i + 1)
    } else {
        i
    }
}

/// The last position, exclusive, up to which edge characters are trimmed.
pub open spec fn trim_end(s: Seq<char>, j: int, lower: int) -> int
    decreases j - lower,
{
    if j > lower && j <= s.len() && is_name_edge(s[j - 1]) {
        trim_end(s, j - 1, lower)
    } else {
        j
    }
}

/// The longest device name, in characters.
pub const MAX_DEVICE_NAME_CHARS: usize = 64;

/// A host name made presentable: control characters dropped, white space collapsed, dashes,
/// underscores and dots trimmed from both ends, at most the longest name.
pub open spec fn cleaned_device_name(value: Seq<char>) -> Seq<char> {
    let collapsed = collapse_from(value, 0, false, false);
    let start = trim_start(collapsed, 0);
    let end = trim_end(collapsed, collapsed.len() as int, start);
    let trimmed = collapsed.subrange(start, end);
    if trimmed.len() > MAX_DEVICE_NAME_CHARS {
        trimmed.subrange(0, MAX_DEVICE_NAME_CHARS as int)
    } else {
        trimmed
    }
}

fn is_control_char(c: char) -> (control: bool)
    ensures
        control == is_control(c),
{
    let code = c as u32;
    code <= 0x1f || (0x7f <= code && code <= 0x9f)
}

proof fn lemma_trim_start(s: Seq<char>, i: int)
    requires
        0 <= i <= s.len(),
    ensures
        i <= trim_start(s, i) <= s.len(),
    decreases s.len() - i,
{
    if i < s.len() && is_name_edge(s[i]) {
        lemma_trim_start(s, i + 1);
    }
}

proof fn lemma_trim_end(s: Seq<char>, j: int, lower: int)
    requires
        0 <= lower <= j <= s.len(),
    ensures
        lower <= trim_end(s, j, lower) <= j,
    decreases j - lower,
{
    if j > lower && is_name_edge(s[j - 1]) {
        lemma_trim_end(s, j - 1, lower);
    }
}

/// A host name made presentable as a device name.
pub fn clean_device_name(value: &str) -> (name: String)
    ensures
        name@ == cleaned_device_name(value@),
{
    let n = value.unicode_len();
    let mut collapsed: Vec<char> = Vec::new();
    let mut started = false;
    let mut pending = false;
    let mut i: usize = 0;
    while i < n
        invariant
            n == value@.len(),
            i <= n,
            collapsed@ + collapse_from(value@, i as int, started, pending) == collapse_from(value@, 0, false, false),
        decreases n - i,
    {
        let c = value.get_char(i);
        let ghost before = collapsed@;
        let ghost rest = collapse_from(value@, i + 1, true, false);
        if is_control_char(c) {
        } else if white_space(c) {
            pending = started;
        } else {
            if pending {
                collapsed.push(' ');
            }
            collapsed.push(c);
            proof {
                if pending {
                    assert(collapsed@ + rest =~= before + (seq![' ', c] + rest));
                } else {
                    assert(collapsed@ + rest =~= before + (seq![c] + rest));
                }
            }
            started = true;
            pending = false;
        }
        i = i + 1;
    }
    let ghost c = collapsed@;
    assert(c + collapse_from(value@, n as int, started, pending) =~= c);
    let m = collapsed.len();
    let mut start: usize = 0;
    while start < m && (collapsed[start] == '-' || collapsed[start] == '_' || collapsed[start] == '.')
        invariant
            m == c.len(),
            c == collapsed@,
            start <= m,
            trim_start(c, 0) == trim_start(c, start as int),
        decreases m - start,
    {
        start = start + 1;
    }
    let mut end: usize = m;
    while end > start && (collapsed[end - 1] == '-' || collapsed[end - 1] == '_' || collapsed[end - 1] == '.')
        invariant
            m == c.len(),
            c == collapsed@,
            start <= end <= m,
            trim_end(c, m as int, start as int) == trim_end(c, end as int, start as int),
        decreases end - start,
    {
        end = end - 1;
    }
    let mut name = String::new();
    let mut k: usize = start;
    while k < end && k - start < MAX_DEVICE_NAME_CHARS
        invariant
            start <= k <= end <= m,
            k - start <= MAX_DEVICE_NAME_CHARS,
            m == c.len(),
            c == collapsed@,
            name@ == c.subrange(start as int, k as int),
        decreases end - k,
    {
        push_char(&mut name, collapsed[k]);
        k = k + 1;
        assert(name@ =~= c.subrange(start as int, k as int));
    }
    proof {
        let trimmed = c.subrange(start as int, end as int);
        if trimmed.len() > MAX_DEVICE_NAME_CHARS {
            assert(name@ =~= trimmed.subrange(0, MAX_DEVICE_NAME_CHARS as int));
        } else {
            assert(name@ =~= trimmed);
        }
    }
    name
}

/// Whether a text starts with the loopback address or host of a development service.
pub open spec fn is_loopback_development_url(url: Seq<char>) -> bool {
    has_prefix(url, "http://127.0.0.1"@) || has_prefix(url, "http://localhost"@)
}

/// Whether the license service runs on this machine, for development.
pub fn loopback_development(base_url: Option<&str>) -> (loopback: bool)
    ensures
        loopback == match base_url {
            Some(url) => is_loopback_development_url(url@),
            None => false,
        },
{
    match base_url {
        Some(url) => text_starts_with(url, "http://127.0.0.1") || text_starts_with(url, "http://localhost"),
        None => false,
    }
}

/// Whether a text is empty or white space only.
pub open spec fn is_blank(value: Seq<char>) -> bool {
    forall|i: int| 0 <= i < value.len() ==> is_white_space(#[trigger] value[i])
}

/// Whether a text is empty or white space only (`str::trim` leaves nothing of it).
pub fn blank(value: &str) -> (is_blank_text: bool)
    ensures
        is_blank_text == is_blank(value@),
{
    let n = value.unicode_len();
    let mut i: usize = 0;
    while i < n
        invariant
            n == value@.len(),
            i <= n,
            forall|j: int| 0 <= j < i ==> is_white_space(#[trigger] value@[j]),
        decreases n - i,
    {
        if !white_space(value.get_char(i)) {
            return false;
        }
        i = i + 1;
    }
    true
}

/// A configured value: the runtime override, otherwise the value built in; blank values count
/// as missing.
pub open spec fn configured_value_of(runtime: Option<Seq<char>>, built_in: Option<Seq<char>>) -> Option<Seq<char>> {
    match runtime {
        Some(v) if !is_blank(v) => Some(v),
        _ => match built_in {
            Some(v) if !is_blank(v) => Some(v),
            _ => None,
        },
    }
}

/// A configured value from a runtime override or the value built in, blank ones ignored.
pub fn configured_value(runtime: Option<String>, built_in: Option<&str>) -> (value: Option<String>)
    ensures
        match value {
            Some(v) => configured_value_of(
                match runtime {
                    Some(r) => Some(r@),
                    None => None,
                },
                match built_in {
                    Some(b) => Some(b@),
                    None => None,
                },
            ) == Some(v@),
            None => configured_value_of(
                match runtime {
                    Some(r) => Some(r@),
                    None => None,
                },
                match built_in {
                    Some(b) => Some(b@),
                    None => None,
                },
            ) is None,
        },
{
    match runtime {
        Some(r) => {
            if !blank(r.as_str()) {
                return Some(r);
            }
        },
        None => {},
    }
    match built_in {
        Some(b) => if !blank(b) {
            Some(b.to_owned())
        } else {
            None
        },
        None => None,
    }
}

/// A runtime override of the license configuration. Overrides are for development builds
/// only; this library is the configuration of a release, which takes none.
pub fn development_runtime_value(name: &str) -> (value: Option<String>)
    ensures
        value is None,
{
    None
}

/// The client identifier of the application with the license service.
pub const DEFAULT_OAUTH_CLIENT_ID: &'static str = "camellia-nexus-desktop";

/// The client identifier: the one configured, or the application's own.
pub fn oauth_client_id(built_in: Option<&str>) -> (id: String)
    ensures
        match configured_value_of(
            None,
            match built_in {
                Some(b) => Some(b@),
                None => None,
            },
        ) {
            Some(v) => id@ == v,
            None => id@ == DEFAULT_OAUTH_CLIENT_ID@,
        },
{
    match configured_value(development_runtime_value("CAMELLIA_NEXUS_OAUTH_CLIENT_ID"), built_in) {
        Some(v) => v,
        None => DEFAULT_OAUTH_CLIENT_ID.to_owned(),
    }
}

/// Where the license service sends the browser back by default.
pub fn default_redirect_uri() -> (uri: String)
    ensures
        uri@ == "camellia-nexus://auth/callback"@,
{
    "camellia-nexus://auth/callback".to_owned()
}

/// Where the license service sends the browser back: the one configured, or the default.
pub fn oauth_redirect_uri(built_in: Option<&str>) -> (uri: String)
    ensures
        match configured_value_of(
            None,
            match built_in {
                Some(b) => Some(b@),
                None => None,
            },
        ) {
            Some(v) => uri@ == v,
            None => uri@ == "camellia-nexus://auth/callback"@,
        },
{
    match configured_value(development_runtime_value("CAMELLIA_NEXUS_OAUTH_REDIRECT_URI"), built_in) {
        Some(v) => v,
        None => default_redirect_uri(),
    }
}

/// ASCII letters in lower case, everything else as it is (`str::to_ascii_lowercase`).
pub open spec fn ascii_lower(s: Seq<char>) -> Seq<char> {
    Seq::new(s.len(), |i: int| if 'A' <= s[i] <= 'Z' { ((s[i] as u32) + 32) as char } else { s[i] })
}

/// A text with its ASCII letters in lower case.
pub fn to_ascii_lowercase(s: &str) -> (lower: String)
    ensures
        lower@ == ascii_lower(s@),
{
    let n = s.unicode_len();
    let mut lower = String::new();
    let mut i: usize = 0;
    while i < n
        invariant
            n == s@.len(),
            i <= n,
            lower@ == ascii_lower(s@).subrange(0, i as int),
        decreases n - i,
    {
        let c = s.get_char(i);
        let l = if 'A' <= c && c <= 'Z' {
            (((c as u32) + 32) as u8) as char
        } else {
            c
        };
        push_char(&mut lower, l);
        i = i + 1;
        assert(lower@ =~= ascii_lower(s@).subrange(0, i as int));
    }
    assert(ascii_lower(s@).subrange(0, n as int) =~= ascii_lower(s@));
    lower
}

/// The name suggested for this device: its cleaned host name, followed by the platform unless
/// the name already mentions it; the platform alone when there is no usable host name.
pub open spec fn suggested_device_name_of(hostname: Option<Seq<char>>, platform: Seq<char>) -> Seq<char> {
    let name = match hostname {
        Some(h) => cleaned_device_name(h),
        None => Seq::empty(),
    };
    if name.len() == 0 {
        platform + " device"@
    } else if contains_text(ascii_lower(name), ascii_lower(platform)) {
        name
    } else {
        name + " · "@ + platform
    }
}

/// The name suggested for this device.
pub fn suggested_device_name(hostname: Option<&str>, platform: &str) -> (name: String)
    ensures
        name@ == suggested_device_name_of(
            match hostname {
                Some(h) => Some(h@),
                None => None,
            },
            platform@,
        ),
{
    let cleaned = match hostname {
        Some(h) => clean_device_name(h),
        None => String::new(),
    };
    if cleaned.unicode_len() == 0 {
        let mut name = platform.to_owned();
        let suffix = " device";
        let mut i: usize = 0;
        let m = suffix.unicode_len();
        proof {
            reveal_strlit(" device");
        }
        while i < m
            invariant
                m == suffix@.len(),
                i <= m,
                name@ == platform@ + suffix@.subrange(0, i as int),
            decreases m - i,
        {
            push_char(&mut name, suffix.get_char(i));
            i = i + 1;
            assert(name@ =~= platform@ + suffix@.subrange(0, i as int));
        }
        assert(suffix@.subrange(0, m as int) =~= suffix@);
        return name;
    }
    let lower_name = to_ascii_lowercase(cleaned.as_str());
    let lower_platform = to_ascii_lowercase(platform);
    if text_contains(lower_name.as_str(), lower_platform.as_str()) {
        return cleaned;
    }
    let mut name = cleaned;
    let ghost base = name@;
    push_char(&mut name, ' ');
    push_char(&mut name, '·');
    push_char(&mut name, ' ');
    proof {
        reveal_strlit(" · ");
        assert(name@ =~= base + " · "@);
    }
    let ghost joined = name@;
    let m = platform.unicode_len();
    let mut i: usize = 0;
    while i < m
        invariant
            m == platform@.len(),
            i <= m,
            name@ == joined + platform@.subrange(0, i as int),
        decreases m - i,
    {
        push_char(&mut name, platform.get_char(i));
        i = i + 1;
        assert(name@ =~= joined + platform@.subrange(0, i as int));
    }
    assert(platform@.subrange(0, m as int) =~= platform@);
    name
}

} // verus!
