use vstd::prelude::*;

use crate::json::{
    entries_well_formed, keys_sorted, view_members, well_formed, Entries, JsonView, Member,
    Value,
};
use crate::desktop::{ascii_lower, to_ascii_lowercase};
use crate::managed::{ConfigError, ConfigSource, ManagedConfig, ProgramKind};
use crate::text::{contains_text, push_text, text_contains};
use crate::mihomo::{merge_mapping, merge_yaml_entries, mihomo_features_applied};
use crate::sing_box::{features_applied, merge_entries};
use crate::xray::{merge_xray_entries, xray_features_applied};
use crate::yaml::{untagged, view_yaml_entries, YamlEntries, YamlEntry, YamlValue, YamlView};

verus! {

/// The largest configuration one source may hold, and the largest merged configuration.
pub const MAX_CONFIG_BYTES: usize = 4194304;

/// The largest total of all sources of one merge.
pub const MAX_TOTAL_SOURCE_BYTES: usize = 16777216;

/// The format in which a program's configuration sources are written.
#[derive(PartialEq, Eq, Structural, Clone, Copy, Debug)]
pub enum SourceFormat {
    Json,
    Yaml,
}

/// The format of the sources of a program of this kind; generic programs take no sources.
pub open spec fn kind_source_format(kind: ProgramKind) -> Result<SourceFormat, ConfigError> {
    match kind {
        ProgramKind::Mihomo => Ok(SourceFormat::Yaml),
        ProgramKind::SingBox | ProgramKind::Xray => Ok(SourceFormat::Json),
        ProgramKind::Generic => Err(ConfigError::GenericSourcesUnsupported),
    }
}

/// The format in which the sources of a program of this kind are read.
pub fn source_format(kind: ProgramKind) -> (format: Result<SourceFormat, ConfigError>)
    ensures
        format == kind_source_format(kind),
{
    match kind {
        ProgramKind::Mihomo => Ok(SourceFormat::Yaml),
        ProgramKind::SingBox | ProgramKind::Xray => Ok(SourceFormat::Json),
        ProgramKind::Generic => Err(ConfigError::GenericSourcesUnsupported),
    }
}

/// A JSON configuration source after it was read, and whether it is a tail source
/// (one whose name marks its Xray outbounds to go last).
pub struct JsonSource {
    pub document: Value,
    pub append_xray_outbounds: bool,
}

pub open spec fn json_source_views(sources: Seq<JsonSource>) -> Seq<(JsonView, bool)> {
    Seq::new(sources.len(), |i: int| (sources[i].document.view(), sources[i].append_xray_outbounds))
}

/// One source merged into what was merged so far: its root must be an object, merged by
/// the rules of the program kind.
pub open spec fn json_merge_step(kind: ProgramKind, merged: Entries, document: JsonView, append: bool) -> Result<
    Entries,
    ConfigError,
> {
    match document {
        JsonView::Object(source) => match kind {
            ProgramKind::SingBox => Ok(merge_entries(merged, source)),
            ProgramKind::Xray => Ok(merge_xray_entries(merged, source, append)),
            _ => Err(ConfigError::SourceFormatMismatch),
        },
        _ => Err(ConfigError::RootNotObject),
    }
}

/// All sources merged in order into an empty object; the first refusal ends the merge.
pub open spec fn json_sources_merged(kind: ProgramKind, sources: Seq<(JsonView, bool)>) -> Result<
    Entries,
    ConfigError,
>
    decreases sources.len(),
{
    if sources.len() == 0 {
        Ok(Seq::empty())
    } else {
        match json_sources_merged(kind, sources.drop_last()) {
            Ok(merged) => json_merge_step(kind, merged, sources.last().0, sources.last().1),
            Err(e) => Err(e),
        }
    }
}

/// Merges one parsed JSON source into the configuration merged so far.
pub fn merge_json_source(kind: ProgramKind, merged: &mut Vec<Member>, source: JsonSource) -> (outcome:
    Result<(), ConfigError>)
    requires
        keys_sorted(view_members(old(merged)@)),
        entries_well_formed(view_members(old(merged)@)),
        well_formed(source.document.view()),
    ensures
        match json_merge_step(
            kind,
            view_members(old(merged)@),
            source.document.view(),
            source.append_xray_outbounds,
        ) {
            Ok(m) => outcome is Ok && view_members(final(merged)@) == m,
            Err(e) => outcome == Err::<(), ConfigError>(e) && final(merged)@ == old(merged)@,
        },
        keys_sorted(view_members(final(merged)@)),
        entries_well_formed(view_members(final(merged)@)),
{
    match source.document {
        Value::Object(members) => match kind {
            ProgramKind::SingBox => {
                crate::sing_box::merge_object(merged, members);
                Ok(())
            },
            ProgramKind::Xray => {
                crate::xray::merge_object(merged, members, source.append_xray_outbounds);
                Ok(())
            },
            _ => Err(ConfigError::SourceFormatMismatch),
        },
        _ => Err(ConfigError::RootNotObject),
    }
}

/// Merges parsed JSON sources, in order, into one configuration object.
pub fn merge_json_sources(kind: ProgramKind, sources: Vec<JsonSource>) -> (merged: Result<
    Vec<Member>,
    ConfigError,
>)
    requires
        forall|i: int| 0 <= i < sources@.len() ==> well_formed(#[trigger] sources@[i].document.view()),
    ensures
        match json_sources_merged(kind, json_source_views(sources@)) {
            Ok(m) => merged is Ok && view_members(merged->Ok_0@) == m && keys_sorted(m)
                && entries_well_formed(m),
            Err(e) => merged == Err::<Vec<Member>, ConfigError>(e),
        },
{
    let ghost all = json_source_views(sources@);
    let count = sources.len();
    assert(all.len() == count);
    let mut rest = sources;
    let mut merged: Vec<Member> = Vec::new();
    let mut done: usize = 0;
    proof {
        assert(all.subrange(0, 0) =~= Seq::<(JsonView, bool)>::empty());
        assert(view_members(merged@) =~= Seq::<(Seq<char>, JsonView)>::empty());
    }
    while rest.len() > 0
        invariant
            done + rest@.len() == all.len(),
            all.len() <= usize::MAX,
            all == json_source_views(sources@),
            forall|i: int| 0 <= i < rest@.len() ==> well_formed(#[trigger] rest@[i].document.view()),
            forall|i: int|
                0 <= i < rest@.len() ==> (#[trigger] rest@[i].document.view(), rest@[i].append_xray_outbounds)
                    == all[done + i],
            json_sources_merged(kind, all.subrange(0, done as int)) == Ok::<Entries, ConfigError>(
                view_members(merged@),
            ),
            keys_sorted(view_members(merged@)),
            entries_well_formed(view_members(merged@)),
        decreases rest.len(),
    {
        let source = rest.remove(0);
        let ghost step = (source.document.view(), source.append_xray_outbounds);
        assert(step == all[done as int]);
        let ghost before = view_members(merged@);
        let outcome = merge_json_source(kind, &mut merged, source);
        proof {
            let prefix = all.subrange(0, done + 1);
            assert(prefix.drop_last() =~= all.subrange(0, done as int));
            assert(prefix.last() == step);
            assert(json_sources_merged(kind, prefix) == json_merge_step(kind, before, step.0, step.1));
        }
        if let Err(e) = outcome {
            proof {
                assert(json_merge_step(kind, before, step.0, step.1) == Err::<Entries, ConfigError>(e));
                assert(json_sources_merged(kind, all.subrange(0, done + 1)) == Err::<Entries, ConfigError>(e));
                lemma_json_failure_persists(kind, all, done + 1);
            }
            return Err(e);
        }
        done = done + 1;
    }
    assert(all.subrange(0, done as int) =~= all);
    Ok(merged)
}

/// Once a prefix of the sources is refused, the whole list is refused with that error.
proof fn lemma_json_failure_persists(kind: ProgramKind, all: Seq<(JsonView, bool)>, n: int)
    requires
        0 <= n <= all.len(),
        json_sources_merged(kind, all.subrange(0, n)) is Err,
    ensures
        json_sources_merged(kind, all) == json_sources_merged(kind, all.subrange(0, n)),
    decreases all.len() - n,
{
    if n < all.len() {
        let next = all.subrange(0, n + 1);
        assert(next.drop_last() =~= all.subrange(0, n));
        lemma_json_failure_persists(kind, all, n + 1);
    } else {
        assert(all.subrange(0, n) =~= all);
    }
}


/// The mapping at the root of a YAML document, tags aside.
pub open spec fn yaml_root(document: YamlView) -> Result<YamlEntries, ConfigError> {
    match untagged(document) {
        YamlView::Mapping(m) => Ok(m),
        _ => Err(ConfigError::RootNotMapping),
    }
}

/// All YAML sources merged in order into an empty mapping; the first refusal ends the merge.
pub open spec fn yaml_sources_merged(sources: Seq<YamlView>) -> Result<YamlEntries, ConfigError>
    decreases sources.len(),
{
    if sources.len() == 0 {
        Ok(Seq::empty())
    } else {
        match yaml_sources_merged(sources.drop_last()) {
            Ok(merged) => match yaml_root(sources.last()) {
                Ok(source) => Ok(merge_yaml_entries(merged, source)),
                Err(e) => Err(e),
            },
            Err(e) => Err(e),
        }
    }
}

pub open spec fn yaml_views(sources: Seq<YamlValue>) -> Seq<YamlView> {
    Seq::new(sources.len(), |i: int| sources[i].view())
}

/// The mapping at the root of a YAML document, tags aside (`serde_yaml_ng::Value::as_mapping`).
pub fn yaml_source_root(document: YamlValue) -> (root: Result<Vec<YamlEntry>, ConfigError>)
    ensures
        match yaml_root(document.view()) {
            Ok(m) => root is Ok && view_yaml_entries(root->Ok_0@) == m,
            Err(e) => root == Err::<Vec<YamlEntry>, ConfigError>(e),
        },
    decreases document,
{
    match document {
        YamlValue::Tagged(_, inner) => yaml_source_root(*inner),
        YamlValue::Mapping(entries) => Ok(entries),
        _ => Err(ConfigError::RootNotMapping),
    }
}

/// Merges parsed YAML sources, in order, into one Mihomo configuration mapping.
pub fn merge_yaml_sources(sources: Vec<YamlValue>) -> (merged: Result<Vec<YamlEntry>, ConfigError>)
    ensures
        match yaml_sources_merged(yaml_views(sources@)) {
            Ok(m) => merged is Ok && view_yaml_entries(merged->Ok_0@) == m,
            Err(e) => merged == Err::<Vec<YamlEntry>, ConfigError>(e),
        },
{
    let ghost all = yaml_views(sources@);
    let count = sources.len();
    assert(all.len() == count);
    let mut rest = sources;
    let mut merged: Vec<YamlEntry> = Vec::new();
    let mut done: usize = 0;
    proof {
        assert(all.subrange(0, 0) =~= Seq::<YamlView>::empty());
        assert(view_yaml_entries(merged@) =~= Seq::<(YamlView, YamlView)>::empty());
    }
    while rest.len() > 0
        invariant
            done + rest@.len() == all.len(),
            all.len() <= usize::MAX,
            all == yaml_views(sources@),
            forall|i: int| 0 <= i < rest@.len() ==> #[trigger] rest@[i].view() == all[done + i],
            yaml_sources_merged(all.subrange(0, done as int)) == Ok::<YamlEntries, ConfigError>(
                view_yaml_entries(merged@),
            ),
        decreases rest.len(),
    {
        let document = rest.remove(0);
        let ghost step = document.view();
        assert(step == all[done as int]);
        let ghost before = view_yaml_entries(merged@);
        proof {
            let prefix = all.subrange(0, done + 1);
            assert(prefix.drop_last() =~= all.subrange(0, done as int));
            assert(prefix.last() == step);
        }
        match yaml_source_root(document) {
            Ok(source) => {
                merge_mapping(&mut merged, source);
            },
            Err(e) => {
                proof {
                    lemma_yaml_failure_persists(all, done + 1);
                }
                return Err(e);
            },
        }
        done = done + 1;
    }
    assert(all.subrange(0, done as int) =~= all);
    Ok(merged)
}

/// Once a prefix of the YAML sources is refused, the whole list is refused with that error.
proof fn lemma_yaml_failure_persists(all: Seq<YamlView>, n: int)
    requires
        0 <= n <= all.len(),
        yaml_sources_merged(all.subrange(0, n)) is Err,
    ensures
        yaml_sources_merged(all) == yaml_sources_merged(all.subrange(0, n)),
    decreases all.len() - n,
{
    if n < all.len() {
        let next = all.subrange(0, n + 1);
        assert(next.drop_last() =~= all.subrange(0, n));
        lemma_yaml_failure_persists(all, n + 1);
    } else {
        assert(all.subrange(0, n) =~= all);
    }
}

pub open spec fn has_sing_box_dashboard(managed: ManagedConfig) -> bool {
    managed.sing_box_dashboard is Some || managed.sing_box_clash_dashboard is Some
}

pub open spec fn has_xray_dashboard(managed: ManagedConfig) -> bool {
    managed.xray_dashboard is Some
}

pub open spec fn has_mihomo_dashboard(managed: ManagedConfig) -> bool {
    managed.mihomo_dashboard is Some
}

/// How a program's configuration is read before its managed features are applied.
#[derive(PartialEq, Eq, Structural, Clone, Copy, Debug)]
pub enum FeatureFormat {
    /// Nothing is managed: the configuration is used as it is.
    Unmanaged,
    Json,
    Yaml,
}

pub open spec fn features_format(kind: ProgramKind, managed: Option<ManagedConfig>) -> Result<
    FeatureFormat,
    ConfigError,
> {
    match managed {
        None => Ok(FeatureFormat::Unmanaged),
        Some(m) => if kind == ProgramKind::Mihomo {
            if has_sing_box_dashboard(m) || has_xray_dashboard(m) {
                Err(ConfigError::MihomoDashboardOnly)
            } else {
                Ok(FeatureFormat::Yaml)
            }
        } else {
            Ok(FeatureFormat::Json)
        },
    }
}

/// How the configuration of a program of this kind is read for its managed features;
/// a Mihomo program with a dashboard of another program is refused before anything is read.
pub fn managed_features_format(kind: ProgramKind, managed: &Option<ManagedConfig>) -> (format: Result<
    FeatureFormat,
    ConfigError,
>)
    ensures
        format == features_format(kind, *managed),
{
    match managed {
        None => Ok(FeatureFormat::Unmanaged),
        Some(m) => {
            if kind == ProgramKind::Mihomo {
                if m.sing_box_dashboard.is_some() || m.sing_box_clash_dashboard.is_some()
                    || m.xray_dashboard.is_some() {
                    Err(ConfigError::MihomoDashboardOnly)
                } else {
                    Ok(FeatureFormat::Yaml)
                }
            } else {
                Ok(FeatureFormat::Json)
            }
        },
    }
}

/// The root after the features were applied, when they changed it; or the error.
pub open spec fn changed_root(applied: (Entries, Result<bool, ConfigError>)) -> Result<Option<Entries>, ConfigError> {
    match applied.1 {
        Err(e) => Err(e),
        Ok(changed) => if changed {
            Ok(Some(applied.0))
        } else {
            Ok(None)
        },
    }
}

/// The managed features applied to a JSON configuration: the new root when it changed,
/// nothing when it stayed as it was, or why the features could not be applied.
pub open spec fn json_features_outcome(kind: ProgramKind, managed: ManagedConfig, document: JsonView) -> Result<
    Option<Entries>,
    ConfigError,
> {
    match document {
        JsonView::Object(root) => match kind {
            ProgramKind::SingBox => if has_xray_dashboard(managed) || has_mihomo_dashboard(managed) {
                Err(ConfigError::SingBoxDashboardsOnly)
            } else {
                changed_root(features_applied(root, managed))
            },
            ProgramKind::Xray => if has_sing_box_dashboard(managed) || has_mihomo_dashboard(managed) {
                Err(ConfigError::XrayDashboardOnly)
            } else {
                changed_root(xray_features_applied(root, managed))
            },
            ProgramKind::Generic => if has_sing_box_dashboard(managed) || has_xray_dashboard(managed)
                || has_mihomo_dashboard(managed) {
                Err(ConfigError::DashboardsUnsupported)
            } else {
                Ok(None)
            },
            ProgramKind::Mihomo => Err(ConfigError::MihomoRequiresYaml),
        },
        _ => Err(ConfigError::RootNotObject),
    }
}

/// Applies the managed dashboards to a parsed JSON configuration of a program of this kind.
/// Returns the new root when the configuration changed, and nothing when it is to be kept as
/// it was read.
pub fn apply_json_managed_features(kind: ProgramKind, managed: &ManagedConfig, document: Value) -> (outcome:
    Result<Option<Vec<Member>>, ConfigError>)
    requires
        well_formed(document.view()),
    ensures
        match json_features_outcome(kind, *managed, document.view()) {
            Ok(Some(root)) => outcome matches Ok(Some(r)) && view_members(r@) == root && keys_sorted(root)
                && entries_well_formed(root),
            Ok(None) => outcome matches Ok(None),
            Err(e) => outcome == Err::<Option<Vec<Member>>, ConfigError>(e),
        },
{
    let has_sing_box = managed.sing_box_dashboard.is_some() || managed.sing_box_clash_dashboard.is_some();
    let has_xray = managed.xray_dashboard.is_some();
    let has_mihomo = managed.mihomo_dashboard.is_some();
    let mut root = match document {
        Value::Object(members) => members,
        _ => {
            return Err(ConfigError::RootNotObject);
        },
    };
    let changed = match kind {
        ProgramKind::SingBox => {
            if has_xray || has_mihomo {
                return Err(ConfigError::SingBoxDashboardsOnly);
            }
            crate::sing_box::apply_features(&mut root, managed)
        },
        ProgramKind::Xray => {
            if has_sing_box || has_mihomo {
                return Err(ConfigError::XrayDashboardOnly);
            }
            crate::xray::apply_features(&mut root, managed)
        },
        ProgramKind::Generic => {
            if has_sing_box || has_xray || has_mihomo {
                return Err(ConfigError::DashboardsUnsupported);
            }
            Ok(false)
        },
        ProgramKind::Mihomo => {
            return Err(ConfigError::MihomoRequiresYaml);
        },
    };
    match changed {
        Err(e) => Err(e),
        Ok(true) => Ok(Some(root)),
        Ok(false) => Ok(None),
    }
}

/// The Mihomo dashboard applied to a parsed YAML configuration: the new root when it changed,
/// nothing when it stayed as it was, or why it could not be applied.
pub open spec fn yaml_features_outcome(managed: ManagedConfig, document: YamlView) -> Result<
    Option<YamlEntries>,
    ConfigError,
> {
    if has_sing_box_dashboard(managed) || has_xray_dashboard(managed) {
        Err(ConfigError::MihomoDashboardOnly)
    } else {
        match yaml_root(document) {
            Err(e) => Err(e),
            Ok(root) => {
                let (r, changed) = mihomo_features_applied(root, managed);
                if changed {
                    Ok(Some(r))
                } else {
                    Ok(None)
                }
            },
        }
    }
}

/// Applies the managed Mihomo dashboard to a parsed YAML configuration. Returns the new root
/// when the configuration changed, and nothing when it is to be kept as it was read.
pub fn apply_mihomo_managed_features(managed: &ManagedConfig, document: YamlValue) -> (outcome: Result<
    Option<Vec<YamlEntry>>,
    ConfigError,
>)
    ensures
        match yaml_features_outcome(*managed, document.view()) {
            Ok(Some(root)) => outcome matches Ok(Some(r)) && view_yaml_entries(r@) == root,
            Ok(None) => outcome matches Ok(None),
            Err(e) => outcome == Err::<Option<Vec<YamlEntry>>, ConfigError>(e),
        },
{
    if managed.sing_box_dashboard.is_some() || managed.sing_box_clash_dashboard.is_some()
        || managed.xray_dashboard.is_some() {
        return Err(ConfigError::MihomoDashboardOnly);
    }
    let mut root = match yaml_source_root(document) {
        Ok(root) => root,
        Err(e) => {
            return Err(e);
        },
    };
    if crate::mihomo::apply_features(&mut root, managed) {
        Ok(Some(root))
    } else {
        Ok(None)
    }
}


/// Whether a file name or URL path marks a tail source: it holds `tail` in any letter case.
pub open spec fn is_tail_marker(value: Seq<char>) -> bool {
    contains_text(ascii_lower(value), seq!['t', 'a', 'i', 'l'])
}

/// Whether a file name or URL path marks a tail source, whose Xray outbounds go last.
pub fn contains_tail_marker(value: &str) -> (tail: bool)
    ensures
        tail == is_tail_marker(value@),
{
    let lower = to_ascii_lowercase(value);
    let marker = "tail";
    proof {
        reveal_strlit("tail");
        assert(marker@ =~= seq!['t', 'a', 'i', 'l']);
    }
    text_contains(lower.as_str(), marker)
}

/// The parts of an absolute URL that the source rules read.
pub struct UrlParts {
    pub scheme: String,
    pub username: String,
    pub password: Option<String>,
    pub host: Option<String>,
    pub path: String,
}

pub type UrlView = (Seq<char>, Seq<char>, Option<Seq<char>>, Option<Seq<char>>, Seq<char>);

impl UrlParts {
    pub open spec fn view(&self) -> UrlView {
        (
            self.scheme@,
            self.username@,
            match self.password {
                Some(p) => Some(p@),
                None => None,
            },
            match self.host {
                Some(h) => Some(h@),
                None => None,
            },
            self.path@,
        )
    }
}

/// What `url::Url::parse` makes of a text: nothing when it is no absolute URL, else its
/// scheme, user name, password, host and path, as `scheme`, `username`, `password`,
/// `host_str` and `path` give them.
pub uninterp spec fn parsed_url(text: Seq<char>) -> Option<(Seq<char>, Seq<char>, Option<Seq<char>>, Option<Seq<char>>, Seq<char>)>;

/// Parses an absolute URL with `url::Url::parse`, and reads its scheme, user name, password,
/// host and path. The contract claims only that the parts are the named value [`parsed_url`]
/// of the text: how the text is parsed is left to the `url` crate.
#[verifier::external_body]
pub(crate) fn parse_url(text: &str) -> (parts: Option<UrlParts>)
    ensures
        match parts {
            Some(p) => parsed_url(text@) == Some(p.view()),
            None => parsed_url(text@) is None,
        },
{
    match url::Url::parse(text) {
        Ok(url) => Some(UrlParts {
            scheme: url.scheme().to_owned(),
            username: url.username().to_owned(),
            password: url.password().map(str::to_owned),
            host: url.host_str().map(str::to_owned),
            path: url.path().to_owned(),
        }),
        Err(_) => None,
    }
}

pub open spec fn https_scheme() -> Seq<char> {
    seq!['h', 't', 't', 'p', 's']
}

/// Whether a remote source URL may be fetched: HTTPS, with a host, and no user name or
/// password in it.
pub open spec fn remote_url_allowed(url: UrlView) -> bool {
    url.0 == https_scheme() && url.1.len() == 0 && url.2 is None && url.3 is Some
}

/// Whether the URL a download ended at after redirects is still HTTPS without credentials.
pub open spec fn redirect_allowed(url: UrlView) -> bool {
    url.0 == https_scheme() && url.1.len() == 0 && url.2 is None
}

fn is_https(scheme: &str) -> (https: bool)
    ensures
        https == (scheme@ == https_scheme()),
{
    let expected = "https";
    proof {
        reveal_strlit("https");
        assert(expected@ =~= https_scheme());
    }
    crate::text::text_eq(scheme, expected)
}

/// Checks a remote source URL before anything is downloaded: it must parse as an absolute URL,
/// use HTTPS, name a host, and hold no user name or password.
pub fn check_remote_url(url: &str) -> (checked: Result<(), ConfigError>)
    ensures
        match parsed_url(url@) {
            None => checked == Err::<(), ConfigError>(ConfigError::InvalidRemoteUrl),
            Some(parts) => if remote_url_allowed(parts) {
                checked is Ok
            } else {
                checked == Err::<(), ConfigError>(ConfigError::InsecureRemoteUrl)
            },
        },
{
    match parse_url(url) {
        None => Err(ConfigError::InvalidRemoteUrl),
        Some(parts) => {
            if is_https(parts.scheme.as_str()) && parts.username.as_str().unicode_len() == 0 && parts.password.is_none()
                && parts.host.is_some() {
                Ok(())
            } else {
                Err(ConfigError::InsecureRemoteUrl)
            }
        },
    }
}

/// Checks the URL a download ended at: it must still be HTTPS without credentials.
pub fn check_redirect_url(final_url: &str) -> (checked: Result<(), ConfigError>)
    ensures
        match parsed_url(final_url@) {
            Some(parts) => checked is Ok <==> redirect_allowed(parts),
            None => checked is Err,
        },
        checked is Err ==> checked == Err::<(), ConfigError>(ConfigError::InsecureRedirect),
{
    match parse_url(final_url) {
        Some(parts) => {
            if is_https(parts.scheme.as_str()) && parts.username.as_str().unicode_len() == 0 && parts.password.is_none() {
                Ok(())
            } else {
                Err(ConfigError::InsecureRedirect)
            }
        },
        None => Err(ConfigError::InsecureRedirect),
    }
}

/// Whether a remote source is a tail source: its URL path marks it, and a URL that does not
/// parse has an empty path.
pub fn remote_source_is_tail(url: &str) -> (tail: bool)
    ensures
        tail == match parsed_url(url@) {
            Some(parts) => is_tail_marker(parts.4),
            None => is_tail_marker(Seq::empty()),
        },
{
    match parse_url(url) {
        Some(parts) => contains_tail_marker(parts.path.as_str()),
        None => {
            let empty = "";
            proof {
                reveal_strlit("");
                assert(empty@ =~= Seq::<char>::empty());
            }
            contains_tail_marker(empty)
        },
    }
}


/// The positions of the enabled sources, in list order.
pub open spec fn enabled_positions(sources: Seq<ConfigSource>) -> Seq<usize>
    decreases sources.len(),
{
    if sources.len() == 0 {
        Seq::empty()
    } else {
        let rest = enabled_positions(sources.drop_last());
        if sources.last().is_enabled() {
            rest.push((sources.len() - 1) as usize)
        } else {
            rest
        }
    }
}

/// What producing a managed configuration takes.
pub enum MaterializePlan {
    /// No source is enabled: the configuration is this text.
    Fallback(String),
    /// The enabled sources, by their position in the list, to be read and merged in this order.
    Merge(Vec<usize>),
}

pub open spec fn fallback_text(fallback: Option<String>) -> Seq<char> {
    match fallback {
        Some(text) => text@,
        None => seq!['{', '}'],
    }
}

/// Decides how a managed configuration is produced: refused when the program has no managed
/// configuration, or when sources are required and none is enabled; the fallback text (an empty
/// object when there is none) when no source is enabled; else the enabled sources in order.
pub fn materialize_plan(managed: &Option<ManagedConfig>, fallback: Option<String>, require_sources: bool) -> (plan:
    Result<MaterializePlan, ConfigError>)
    ensures
        match *managed {
            None => plan == Err::<MaterializePlan, ConfigError>(ConfigError::ManagedConfigDisabled),
            Some(m) => {
                let positions = enabled_positions(m.sources@);
                if positions.len() == 0 {
                    if require_sources {
                        plan == Err::<MaterializePlan, ConfigError>(ConfigError::NoEnabledSources)
                    } else {
                        plan matches Ok(MaterializePlan::Fallback(text)) && text@ == fallback_text(fallback)
                    }
                } else {
                    plan matches Ok(MaterializePlan::Merge(p)) && p@ == positions
                }
            },
        },
{
    let m = match managed {
        None => {
            return Err(ConfigError::ManagedConfigDisabled);
        },
        Some(m) => m,
    };
    let mut positions: Vec<usize> = Vec::new();
    let mut i: usize = 0;
    while i < m.sources.len()
        invariant
            i <= m.sources@.len(),
            positions@ == enabled_positions(m.sources@.subrange(0, i as int)),
        decreases m.sources@.len() - i,
    {
        proof {
            let next = m.sources@.subrange(0, i + 1);
            assert(next.drop_last() =~= m.sources@.subrange(0, i as int));
        }
        if m.sources[i].enabled() {
            positions.push(i);
        }
        i = i + 1;
    }
    assert(m.sources@.subrange(0, i as int) =~= m.sources@);
    if positions.len() == 0 {
        if require_sources {
            return Err(ConfigError::NoEnabledSources);
        }
        let text = match fallback {
            Some(text) => text,
            None => {
                let empty = "{}";
                proof {
                    reveal_strlit("{}");
                }
                empty.to_string()
            },
        };
        return Ok(MaterializePlan::Fallback(text));
    }
    Ok(MaterializePlan::Merge(positions))
}

/// Refuses a merged configuration larger than the limit of one configuration.
pub fn check_merged_size(byte_len: usize) -> (checked: Result<(), ConfigError>)
    ensures
        checked is Ok <==> byte_len <= MAX_CONFIG_BYTES,
        checked is Err ==> checked == Err::<(), ConfigError>(ConfigError::MergedTooLarge),
{
    if byte_len > MAX_CONFIG_BYTES {
        Err(ConfigError::MergedTooLarge)
    } else {
        Ok(())
    }
}

/// Refuses a local source that is no file, or larger than one configuration may be.
pub fn check_local_source(is_file: bool, byte_len: u64) -> (checked: Result<(), ConfigError>)
    ensures
        checked is Ok <==> is_file && byte_len <= MAX_CONFIG_BYTES,
        checked is Err ==> checked == Err::<(), ConfigError>(ConfigError::LocalSourceNotSmallFile),
{
    if !is_file || byte_len > MAX_CONFIG_BYTES as u64 {
        Err(ConfigError::LocalSourceNotSmallFile)
    } else {
        Ok(())
    }
}

/// Refuses the content read from a local source when it grew past the limit while it was read.
pub fn check_local_content(byte_len: usize) -> (checked: Result<(), ConfigError>)
    ensures
        checked is Ok <==> byte_len <= MAX_CONFIG_BYTES,
        checked is Err ==> checked == Err::<(), ConfigError>(ConfigError::LocalSourceTooLarge),
{
    if byte_len > MAX_CONFIG_BYTES {
        Err(ConfigError::LocalSourceTooLarge)
    } else {
        Ok(())
    }
}

/// Refuses a download whose announced length is past the limit of one source.
pub fn check_remote_length(content_length: Option<u64>) -> (checked: Result<(), ConfigError>)
    ensures
        checked is Ok <==> match content_length {
            Some(n) => n <= MAX_CONFIG_BYTES,
            None => true,
        },
        checked is Err ==> checked == Err::<(), ConfigError>(ConfigError::RemoteSourceTooLarge),
{
    match content_length {
        Some(n) => if n > MAX_CONFIG_BYTES as u64 {
            Err(ConfigError::RemoteSourceTooLarge)
        } else {
            Ok(())
        },
        None => Ok(()),
    }
}

/// The body of a download, collected chunk by chunk and never past the limit of one source.
pub struct RemoteBody {
    content: Vec<u8>,
}

impl RemoteBody {
    pub closed spec fn bytes(&self) -> Seq<u8> {
        self.content@
    }

    pub fn new() -> (body: Self)
        ensures
            body.bytes() == Seq::<u8>::empty(),
    {
        RemoteBody { content: Vec::new() }
    }

    /// Adds a chunk of the download; refused, with the body unchanged, when the body would grow
    /// past the limit of one source.
    pub fn append(&mut self, chunk: &[u8]) -> (appended: Result<(), ConfigError>)
        requires
            old(self).bytes().len() <= MAX_CONFIG_BYTES,
        ensures
            appended is Ok <==> old(self).bytes().len() + chunk@.len() <= MAX_CONFIG_BYTES,
            appended is Ok ==> final(self).bytes() == old(self).bytes() + chunk@,
            appended is Err ==> appended == Err::<(), ConfigError>(ConfigError::RemoteSourceTooLarge)
                && final(self).bytes() == old(self).bytes(),
            final(self).bytes().len() <= MAX_CONFIG_BYTES,
    {
        if chunk.len() > MAX_CONFIG_BYTES - self.content.len() {
            return Err(ConfigError::RemoteSourceTooLarge);
        }
        let ghost start = self.content@;
        let mut i: usize = 0;
        while i < chunk.len()
            invariant
                i <= chunk@.len(),
                self.content@ == start + chunk@.subrange(0, i as int),
            decreases chunk@.len() - i,
        {
            self.content.push(chunk[i]);
            proof {
                assert(chunk@.subrange(0, i + 1) =~= chunk@.subrange(0, i as int).push(chunk@[i as int]));
            }
            i = i + 1;
        }
        assert(chunk@.subrange(0, i as int) =~= chunk@);
        Ok(())
    }

    /// The bytes downloaded.
    pub fn into_content(self) -> (content: Vec<u8>)
        ensures
            content@ == self.bytes(),
    {
        self.content
    }
}

/// A configuration source after it was read.
pub struct ResolvedSource {
    pub name: String,
    pub content: Vec<u8>,
    pub append_xray_outbounds: bool,
}

/// Collects the sources of one merge as they are read, in whatever order they complete, and
/// refuses the merge once their total passes the aggregate limit.
pub struct SourceCollector {
    slots: Vec<Option<ResolvedSource>>,
    total: usize,
}

impl SourceCollector {
    /// The sources read so far, each at its position in the merge.
    pub closed spec fn slots(&self) -> Seq<Option<ResolvedSource>> {
        self.slots@
    }

    /// The bytes read so far, counted up to the largest `usize`.
    pub closed spec fn total(&self) -> usize {
        self.total
    }

    /// A collector for `count` sources, none read yet.
    pub fn new(count: usize) -> (collector: Self)
        ensures
            collector.slots().len() == count,
            forall|i: int| 0 <= i < count ==> #[trigger] collector.slots()[i] is None,
            collector.total() == 0,
    {
        let mut slots: Vec<Option<ResolvedSource>> = Vec::new();
        let mut i: usize = 0;
        while i < count
            invariant
                i <= count,
                slots@.len() == i,
                forall|j: int| 0 <= j < i ==> #[trigger] slots@[j] is None,
            decreases count - i,
        {
            slots.push(None);
            i = i + 1;
        }
        SourceCollector { slots, total: 0 }
    }

    /// Records the source read for position `index`. The total grows by its length (saturating);
    /// when it then passes the aggregate limit the merge is refused and the source not kept.
    pub fn record(&mut self, index: usize, source: ResolvedSource) -> (recorded: Result<(), ConfigError>)
        requires
            index < old(self).slots().len(),
        ensures
            final(self).total() == if old(self).total() + source.content@.len() > usize::MAX {
                usize::MAX as int
            } else {
                old(self).total() + source.content@.len()
            },
            recorded is Ok <==> final(self).total() <= MAX_TOTAL_SOURCE_BYTES,
            recorded is Ok ==> final(self).slots() == old(self).slots().update(index as int, Some(source)),
            recorded is Err ==> recorded == Err::<(), ConfigError>(ConfigError::SourcesTooLarge)
                && final(self).slots() == old(self).slots(),
    {
        self.total = self.total.saturating_add(source.content.len());
        if self.total > MAX_TOTAL_SOURCE_BYTES {
            return Err(ConfigError::SourcesTooLarge);
        }
        self.slots.set(index, Some(source));
        Ok(())
    }

    /// The sources in merge order, once every position was read; refused when one is missing.
    pub fn finish(self) -> (sources: Result<Vec<ResolvedSource>, ConfigError>)
        ensures
            (forall|i: int| 0 <= i < self.slots().len() ==> #[trigger] self.slots()[i] is Some) ==> (
            sources matches Ok(v) && v@.len() == self.slots().len() && forall|i: int|
                0 <= i < v@.len() ==> self.slots()[i] == Some(#[trigger] v@[i])),
            !(forall|i: int| 0 <= i < self.slots().len() ==> #[trigger] self.slots()[i] is Some) ==> sources
                == Err::<Vec<ResolvedSource>, ConfigError>(ConfigError::SourceTaskLost),
    {
        let ghost all = self.slots@;
        let mut rest = self.slots;
        let mut out: Vec<ResolvedSource> = Vec::new();
        while rest.len() > 0
            invariant
                out@.len() + rest@.len() == all.len(),
                all == self.slots(),
                forall|i: int| 0 <= i < out@.len() ==> all[i] == Some(#[trigger] out@[i]),
                forall|i: int| 0 <= i < rest@.len() ==> #[trigger] rest@[i] == all[out@.len() + i],
            decreases rest.len(),
        {
            let slot = rest.remove(0);
            assert(slot == all[out@.len() as int]);
            match slot {
                Some(source) => out.push(source),
                None => {
                    assert(!(all[out@.len() as int] is Some));
                    return Err(ConfigError::SourceTaskLost);
                },
            }
        }
        assert forall|i: int| 0 <= i < all.len() implies #[trigger] all[i] is Some by {
            assert(all[i] == Some(out@[i]));
        }
        Ok(out)
    }
}

/// The details of a source's error once it is annotated with the source's name: the name, then
/// a colon and the error's own details where it has any.
pub fn source_error_details(name: &str, details: Option<String>) -> (annotated: String)
    ensures
        annotated@ == match details {
            Some(d) => name@ + ": "@ + d@,
            None => name@,
        },
{
    let mut annotated = String::new();
    push_text(&mut annotated, name);
    if let Some(d) = details {
        push_text(&mut annotated, ": ");
        push_text(&mut annotated, d.as_str());
    }
    annotated
}

} // verus!
