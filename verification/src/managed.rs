use vstd::prelude::*;

use crate::license_policy::ErrorCode;

verus! {

/// How a remote configuration source authenticates.
pub enum SourceAuthentication {
    Basic { username: String, credential_id: Option<String>, password: Option<String> },
}

/// One configuration source of a managed configuration.
pub enum ConfigSource {
    Local { id: String, name: String, enabled: bool, path: String },
    Remote {
        id: String,
        name: String,
        enabled: bool,
        url: String,
        authentication: Option<SourceAuthentication>,
    },
}

impl ConfigSource {
    pub open spec fn is_enabled(&self) -> bool {
        match self {
            ConfigSource::Local { enabled, .. } => *enabled,
            ConfigSource::Remote { enabled, .. } => *enabled,
        }
    }

    /// Whether the source takes part in a merge.
    pub fn enabled(&self) -> (enabled: bool)
        ensures
            enabled == self.is_enabled(),
    {
        match self {
            ConfigSource::Local { enabled, .. } => *enabled,
            ConfigSource::Remote { enabled, .. } => *enabled,
        }
    }
}

/// The sing-box API service with its built-in dashboard.
pub struct SingBoxDashboard {
    pub listen_port: u16,
    pub update_interval: String,
}

/// The sing-box Clash API with an external dashboard.
pub struct SingBoxClashDashboard {
    pub listen_port: u16,
    pub download_url: Option<String>,
}

/// The Xray API and metrics services.
pub struct XrayDashboard {
    pub api_port: u16,
    pub metrics_port: u16,
}

/// The Mihomo external controller with its dashboard.
pub struct MihomoDashboard {
    pub listen_port: u16,
    pub download_url: Option<String>,
}

/// What the application manages in a program's configuration.
pub struct ManagedConfig {
    pub sources: Vec<ConfigSource>,
    pub sing_box_dashboard: Option<SingBoxDashboard>,
    pub sing_box_clash_dashboard: Option<SingBoxClashDashboard>,
    pub xray_dashboard: Option<XrayDashboard>,
    pub mihomo_dashboard: Option<MihomoDashboard>,
}

/// The kinds of program the application knows.
#[derive(PartialEq, Eq, Structural, Clone, Copy, Debug)]
pub enum ProgramKind {
    Generic,
    SingBox,
    Xray,
    Mihomo,
}

/// Why a managed configuration could not be produced.
#[derive(PartialEq, Eq, Structural, Clone, Copy, Debug)]
pub enum ConfigError {
    ManagedConfigDisabled,
    NoEnabledSources,
    MergedTooLarge,
    GenericSourcesUnsupported,
    SourceFormatMismatch,
    SingBoxServicesNotArray,
    SingBoxExperimentalNotObject,
    SingBoxClashApiNotObject,
    XrayApiNotObject,
    XrayApiServicesNotArray,
    XrayMetricsNotObject,
    XrayStatsNotObject,
    XrayPolicyNotObject,
    XrayPolicySystemNotObject,
    MihomoDashboardOnly,
    SingBoxDashboardsOnly,
    XrayDashboardOnly,
    DashboardsUnsupported,
    MihomoRequiresYaml,
    RootNotObject,
    RootNotMapping,
    SourcesTooLarge,
    SourceTaskLost,
    InvalidRemoteUrl,
    InsecureRemoteUrl,
    InsecureRedirect,
    RemoteSourceTooLarge,
    LocalSourceNotSmallFile,
    LocalSourceTooLarge,
    RelativeSourceNeedsFolder,
}

/// The error code of each configuration error: a missing managed configuration is a state
/// error, an unreadable document root is invalid configuration, a lost source task is internal,
/// a relative source without a folder is a path error, and every other refusal is an invalid
/// program specification.
pub open spec fn config_error_code(e: ConfigError) -> ErrorCode {
    match e {
        ConfigError::ManagedConfigDisabled => ErrorCode::InvalidState,
        ConfigError::RootNotObject | ConfigError::RootNotMapping => ErrorCode::ConfigInvalid,
        ConfigError::SourceTaskLost => ErrorCode::Internal,
        ConfigError::RelativeSourceNeedsFolder => ErrorCode::InvalidPath,
        _ => ErrorCode::InvalidSpec,
    }
}

impl ConfigError {
    /// The message shown for this error.
    pub fn message(&self) -> (text: &'static str)
        ensures
            text@ == match *self {
                ConfigError::ManagedConfigDisabled => "Managed configuration is not enabled"@,
                ConfigError::NoEnabledSources => "Enable at least one configuration source before updating"@,
                ConfigError::MergedTooLarge => "Merged configuration exceeds the 4 MiB limit"@,
                ConfigError::GenericSourcesUnsupported => "Generic programs do not support managed configuration sources"@,
                ConfigError::SourceFormatMismatch => "Program configuration format does not match JSON sources"@,
                ConfigError::SingBoxServicesNotArray => "sing-box services must be an array"@,
                ConfigError::SingBoxExperimentalNotObject => "sing-box experimental must be an object"@,
                ConfigError::SingBoxClashApiNotObject => "sing-box clash_api must be an object"@,
                ConfigError::XrayApiNotObject => "Xray api must be an object"@,
                ConfigError::XrayApiServicesNotArray => "Xray api.services must be an array"@,
                ConfigError::XrayMetricsNotObject => "Xray metrics must be an object"@,
                ConfigError::XrayStatsNotObject => "Xray stats must be an object"@,
                ConfigError::XrayPolicyNotObject => "Xray policy must be an object"@,
                ConfigError::XrayPolicySystemNotObject => "Xray policy.system must be an object"@,
                ConfigError::MihomoDashboardOnly => "Only the Mihomo Dashboard service is available for Mihomo"@,
                ConfigError::SingBoxDashboardsOnly => "Only sing-box Dashboard services are available for sing-box"@,
                ConfigError::XrayDashboardOnly => "Only the Xray Dashboard service is available for Xray"@,
                ConfigError::DashboardsUnsupported => "Dashboard services are only available for supported program types"@,
                ConfigError::MihomoRequiresYaml => "Mihomo managed configuration must use YAML"@,
                ConfigError::RootNotObject => "Configuration source root must be an object"@,
                ConfigError::RootNotMapping => "Configuration source root must be a mapping"@,
                ConfigError::SourcesTooLarge => "Configuration sources exceed the 16 MiB aggregate limit"@,
                ConfigError::SourceTaskLost => "Configuration source task was lost"@,
                ConfigError::InvalidRemoteUrl => "Invalid remote configuration URL"@,
                ConfigError::InsecureRemoteUrl => "Remote configuration URLs must use HTTPS without embedded credentials"@,
                ConfigError::InsecureRedirect => "Remote configuration redirects must remain on HTTPS without embedded credentials"@,
                ConfigError::RemoteSourceTooLarge => "Remote configuration source exceeds the 4 MiB limit"@,
                ConfigError::LocalSourceNotSmallFile => "Local configuration source must be a file no larger than 4 MiB"@,
                ConfigError::LocalSourceTooLarge => "Local configuration source must be no larger than 4 MiB"@,
                ConfigError::RelativeSourceNeedsFolder => "A relative configuration source requires a working folder"@,
            },
    {
        match self {
            ConfigError::ManagedConfigDisabled => "Managed configuration is not enabled",
            ConfigError::NoEnabledSources => "Enable at least one configuration source before updating",
            ConfigError::MergedTooLarge => "Merged configuration exceeds the 4 MiB limit",
            ConfigError::GenericSourcesUnsupported => "Generic programs do not support managed configuration sources",
            ConfigError::SourceFormatMismatch => "Program configuration format does not match JSON sources",
            ConfigError::SingBoxServicesNotArray => "sing-box services must be an array",
            ConfigError::SingBoxExperimentalNotObject => "sing-box experimental must be an object",
            ConfigError::SingBoxClashApiNotObject => "sing-box clash_api must be an object",
            ConfigError::XrayApiNotObject => "Xray api must be an object",
            ConfigError::XrayApiServicesNotArray => "Xray api.services must be an array",
            ConfigError::XrayMetricsNotObject => "Xray metrics must be an object",
            ConfigError::XrayStatsNotObject => "Xray stats must be an object",
            ConfigError::XrayPolicyNotObject => "Xray policy must be an object",
            ConfigError::XrayPolicySystemNotObject => "Xray policy.system must be an object",
            ConfigError::MihomoDashboardOnly => "Only the Mihomo Dashboard service is available for Mihomo",
            ConfigError::SingBoxDashboardsOnly => "Only sing-box Dashboard services are available for sing-box",
            ConfigError::XrayDashboardOnly => "Only the Xray Dashboard service is available for Xray",
            ConfigError::DashboardsUnsupported => "Dashboard services are only available for supported program types",
            ConfigError::MihomoRequiresYaml => "Mihomo managed configuration must use YAML",
            ConfigError::RootNotObject => "Configuration source root must be an object",
            ConfigError::RootNotMapping => "Configuration source root must be a mapping",
            ConfigError::SourcesTooLarge => "Configuration sources exceed the 16 MiB aggregate limit",
            ConfigError::SourceTaskLost => "Configuration source task was lost",
            ConfigError::InvalidRemoteUrl => "Invalid remote configuration URL",
            ConfigError::InsecureRemoteUrl => "Remote configuration URLs must use HTTPS without embedded credentials",
            ConfigError::InsecureRedirect => "Remote configuration redirects must remain on HTTPS without embedded credentials",
            ConfigError::RemoteSourceTooLarge => "Remote configuration source exceeds the 4 MiB limit",
            ConfigError::LocalSourceNotSmallFile => "Local configuration source must be a file no larger than 4 MiB",
            ConfigError::LocalSourceTooLarge => "Local configuration source must be no larger than 4 MiB",
            ConfigError::RelativeSourceNeedsFolder => "A relative configuration source requires a working folder",
        }
    }

    /// The error code under which this error is reported.
    pub fn code(&self) -> (code: ErrorCode)
        ensures
            code == config_error_code(*self),
    {
        match self {
            ConfigError::ManagedConfigDisabled => ErrorCode::InvalidState,
            ConfigError::RootNotObject | ConfigError::RootNotMapping => ErrorCode::ConfigInvalid,
            ConfigError::SourceTaskLost => ErrorCode::Internal,
            ConfigError::RelativeSourceNeedsFolder => ErrorCode::InvalidPath,
            _ => ErrorCode::InvalidSpec,
        }
    }
}

} // verus!
