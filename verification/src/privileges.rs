use vstd::prelude::*;

use crate::license_policy::{AppError, ErrorCode};

verus! {

/// How a program's launch chooses its privileges.
#[derive(PartialEq, Eq, Structural, Clone, Copy, Debug)]
pub enum PrivilegePolicy {
    /// Elevate exactly when the program's configuration or executable asks for it.
    Automatic,
    Standard,
    Elevated,
}

/// The privileges a program needs, as far as they are known.
#[derive(PartialEq, Eq, Structural, Clone, Copy, Debug)]
pub enum PrivilegeRequirement {
    Unknown,
    Standard,
    Elevated,
}

/// Why a program needs elevated privileges, or why that could not be told.
#[derive(PartialEq, Eq, Structural, Clone, Copy, Debug)]
pub enum PrivilegeReason {
    ConfigurationUnavailable,
    ExplicitPolicy,
    ExecutableManifest,
    TunInterface,
    TransparentProxy,
}

/// What inspecting a program's executable and configuration found.
pub struct PrivilegeDetection {
    pub requirement: PrivilegeRequirement,
    pub reasons: Vec<PrivilegeReason>,
    /// Whether the finding rests on inputs that could be read completely.
    pub authoritative: bool,
}

/// The privileges a launch will use, with what was detected and why.
pub struct PrivilegeAssessment {
    pub detected: PrivilegeRequirement,
    pub effective: PrivilegeRequirement,
    pub reasons: Vec<PrivilegeReason>,
    pub authoritative: bool,
}

/// The most configuration bytes one privilege assessment reads, over all its files.
pub const ASSESSMENT_INPUT_LIMIT: u64 = 4194304;

/// Whether a file name has the extension `json`, in any ASCII case, as `Path::extension` finds
/// it: the part after the last dot, when the name has a dot that does not only start it.
pub open spec fn has_json_extension(name: Seq<char>) -> bool {
    let n = name.len();
    &&& n >= 6
    &&& name[n - 5] == '.'
    &&& name[n - 4] == 'j' || name[n - 4] == 'J'
    &&& name[n - 3] == 's' || name[n - 3] == 'S'
    &&& name[n - 2] == 'o' || name[n - 2] == 'O'
    &&& name[n - 1] == 'n' || name[n - 1] == 'N'
}

/// Whether a file of a configuration directory is read for the assessment: its name has the
/// extension `json`, in any ASCII case.
pub fn is_json_file_name(name: &str) -> (json: bool)
    ensures
        json == has_json_extension(name@),
{
    let n = name.unicode_len();
    if n < 6 {
        return false;
    }
    let dot = name.get_char(n - 5);
    let j = name.get_char(n - 4);
    let s = name.get_char(n - 3);
    let o = name.get_char(n - 2);
    let last = name.get_char(n - 1);
    dot == '.' && (j == 'j' || j == 'J') && (s == 's' || s == 'S') && (o == 'o' || o == 'O') && (last == 'n'
        || last == 'N')
}

/// Checks a configuration file before it is read for the assessment: it must be a regular file
/// (not a link), no longer than what the assessment may still read.
pub fn check_assessment_file(is_regular_file: bool, length: u64, remaining: u64) -> (checked: Result<(), AppError>)
    ensures
        checked is Ok <==> is_regular_file && length <= remaining,
        checked matches Err(e) ==> e.code == ErrorCode::PrivilegeConfigUnsafe,
{
    if !is_regular_file {
        return Err(AppError {
            code: ErrorCode::PrivilegeConfigUnsafe,
            message: "Privilege assessment requires a regular configuration file".to_owned(),
            details: None,
        });
    }
    if length > remaining {
        return Err(AppError {
            code: ErrorCode::PrivilegeConfigUnsafe,
            message: "Configuration exceeds the privilege assessment limit".to_owned(),
            details: None,
        });
    }
    Ok(())
}

/// Checks what was read of a configuration file, up to one byte past what the assessment may
/// still read, and gives what it may read afterwards.
pub fn charge_assessment_bytes(read: u64, remaining: u64) -> (left: Result<u64, AppError>)
    ensures
        match left {
            Ok(l) => read <= remaining && l == remaining - read,
            Err(e) => read > remaining && e.code == ErrorCode::PrivilegeConfigUnsafe,
        },
{
    if read > remaining {
        return Err(AppError {
            code: ErrorCode::PrivilegeConfigUnsafe,
            message: "Configuration exceeds the privilege assessment limit".to_owned(),
            details: None,
        });
    }
    Ok(remaining - read)
}

/// The finding when the configuration could not be assessed.
pub fn unavailable_detection() -> (detection: PrivilegeDetection)
    ensures
        detection.requirement == PrivilegeRequirement::Unknown,
        detection.reasons@ == seq![PrivilegeReason::ConfigurationUnavailable],
        !detection.authoritative,
{
    PrivilegeDetection {
        requirement: PrivilegeRequirement::Unknown,
        reasons: vec![PrivilegeReason::ConfigurationUnavailable],
        authoritative: false,
    }
}

/// The privileges a launch uses under its policy: a forced policy wins, and an automatic one
/// elevates exactly when elevation was detected.
pub open spec fn effective_requirement(policy: PrivilegePolicy, detected: PrivilegeRequirement) -> PrivilegeRequirement {
    match policy {
        PrivilegePolicy::Standard => PrivilegeRequirement::Standard,
        PrivilegePolicy::Elevated => PrivilegeRequirement::Elevated,
        PrivilegePolicy::Automatic => if detected == PrivilegeRequirement::Elevated {
            PrivilegeRequirement::Elevated
        } else {
            PrivilegeRequirement::Standard
        },
    }
}

/// The reasons reported under a policy: a forced elevation adds the explicit policy once.
pub open spec fn reported_reasons(policy: PrivilegePolicy, reasons: Seq<PrivilegeReason>) -> Seq<PrivilegeReason> {
    if policy == PrivilegePolicy::Elevated && !reasons.contains(PrivilegeReason::ExplicitPolicy) {
        reasons.push(PrivilegeReason::ExplicitPolicy)
    } else {
        reasons
    }
}

/// Assesses a launch from what detection found. When detection failed, a forced policy still
/// decides (the configuration counts as unavailable), while an automatic one fails with the
/// detection's error.
pub fn assess_detection<E>(policy: PrivilegePolicy, detection: Result<PrivilegeDetection, E>) -> (assessment:
    Result<PrivilegeAssessment, E>)
    ensures
        match detection {
            Ok(d) => assessment matches Ok(a) && a.detected == d.requirement && a.effective
                == effective_requirement(policy, d.requirement) && a.reasons@ == reported_reasons(
                policy,
                d.reasons@,
            ) && a.authoritative == d.authoritative,
            Err(e) => if policy == PrivilegePolicy::Automatic {
                assessment matches Err(x) && x == e
            } else {
                assessment matches Ok(a) && a.detected == PrivilegeRequirement::Unknown && a.effective
                    == effective_requirement(policy, PrivilegeRequirement::Unknown) && a.reasons@
                    == reported_reasons(policy, seq![PrivilegeReason::ConfigurationUnavailable])
                    && !a.authoritative
            },
        },
{
    let found = match detection {
        Ok(d) => d,
        Err(e) => {
            if policy == PrivilegePolicy::Automatic {
                return Err(e);
            }
            unavailable_detection()
        },
    };
    let PrivilegeDetection { requirement: detected, reasons, authoritative } = found;
    let mut reasons = reasons;
    let effective = match policy {
        PrivilegePolicy::Standard => PrivilegeRequirement::Standard,
        PrivilegePolicy::Elevated => {
            if !contains_reason(&reasons, PrivilegeReason::ExplicitPolicy) {
                reasons.push(PrivilegeReason::ExplicitPolicy);
            }
            PrivilegeRequirement::Elevated
        },
        PrivilegePolicy::Automatic => {
            if detected == PrivilegeRequirement::Elevated {
                PrivilegeRequirement::Elevated
            } else {
                PrivilegeRequirement::Standard
            }
        },
    };
    Ok(PrivilegeAssessment { detected, effective, reasons, authoritative })
}

fn contains_reason(reasons: &Vec<PrivilegeReason>, reason: PrivilegeReason) -> (found: bool)
    ensures
        found == reasons@.contains(reason),
{
    let mut i: usize = 0;
    while i < reasons.len()
        invariant
            i <= reasons@.len(),
            forall|j: int| 0 <= j < i ==> reasons@[j] != reason,
        decreases reasons@.len() - i,
    {
        if reasons[i] == reason {
            return true;
        }
        i = i + 1;
    }
    false
}

/// The requirement of one configuration from the reasons found in it: unknown when it could not
/// be assessed, elevated when any reason was found, standard otherwise.
pub fn requirement_for_reasons(reasons: Option<Vec<PrivilegeReason>>) -> (assessed: (
    PrivilegeRequirement,
    Vec<PrivilegeReason>,
))
    ensures
        match reasons {
            None => assessed.0 == PrivilegeRequirement::Unknown && assessed.1@.len() == 0,
            Some(r) => assessed.1@ == r@ && assessed.0 == if r@.len() == 0 {
                PrivilegeRequirement::Standard
            } else {
                PrivilegeRequirement::Elevated
            },
        },
{
    match reasons {
        None => (PrivilegeRequirement::Unknown, Vec::new()),
        Some(r) => {
            let requirement = if r.len() == 0 {
                PrivilegeRequirement::Standard
            } else {
                PrivilegeRequirement::Elevated
            };
            (requirement, r)
        },
    }
}

/// An ASCII upper-case letter folded to lower case; every other code unit unchanged.
pub open spec fn fold_unit(unit: u32) -> u32 {
    if 65 <= unit <= 90 {
        (unit + 32) as u32
    } else {
        unit
    }
}

/// Whether `needle` occurs in `units` at `start`, letter case aside.
pub open spec fn occurs_folded(units: Seq<u32>, needle: Seq<u32>, start: int) -> bool {
    0 <= start && start + needle.len() <= units.len() && forall|j: int|
        0 <= j < needle.len() ==> fold_unit(#[trigger] units[start + j]) == needle[j]
}

pub open spec fn contains_folded(units: Seq<u32>, needle: Seq<u32>) -> bool {
    exists|start: int| occurs_folded(units, needle, start)
}

/// `requireadministrator`, as code units.
pub open spec fn require_administrator() -> Seq<u32> {
    seq![114, 101, 113, 117, 105, 114, 101, 97, 100, 109, 105, 110, 105, 115, 116, 114, 97, 116, 111, 114]
}

/// `highestavailable`, as code units.
pub open spec fn highest_available() -> Seq<u32> {
    seq![104, 105, 103, 104, 101, 115, 116, 97, 118, 97, 105, 108, 97, 98, 108, 101]
}

/// The bytes of a manifest read one unit per byte.
pub open spec fn narrow_units(bytes: Seq<u8>) -> Seq<u32> {
    Seq::new(bytes.len(), |i: int| bytes[i] as u32)
}

/// The bytes of a manifest read as little-endian UTF-16 code units; an odd last byte is left out.
pub open spec fn wide_units(bytes: Seq<u8>) -> Seq<u32> {
    Seq::new(bytes.len() / 2, |i: int| (bytes[2 * i] + 256 * bytes[2 * i + 1]) as u32)
}

/// Whether an executable's manifest asks for elevation: it names the `requireAdministrator` or
/// `highestAvailable` execution level, in any letter case, written in UTF-8 (or any ASCII-based
/// encoding) or in little-endian UTF-16.
pub open spec fn manifest_requests_elevation(bytes: Seq<u8>) -> bool {
    contains_folded(narrow_units(bytes), require_administrator()) || contains_folded(
        narrow_units(bytes),
        highest_available(),
    ) || contains_folded(wide_units(bytes), require_administrator()) || contains_folded(
        wide_units(bytes),
        highest_available(),
    )
}

fn fold(unit: u32) -> (folded: u32)
    ensures
        folded == fold_unit(unit),
{
    if 65 <= unit && unit <= 90 {
        unit + 32
    } else {
        unit
    }
}

fn find_folded(units: &Vec<u32>, needle: &Vec<u32>) -> (found: bool)
    ensures
        found == contains_folded(units@, needle@),
{
    if needle.len() > units.len() {
        assert forall|start: int| !occurs_folded(units@, needle@, start) by {}
        return false;
    }
    let n = units.len();
    let last = n - needle.len();
    let mut start: usize = 0;
    while start <= last
        invariant
            n == units@.len(),
            needle@.len() <= units@.len(),
            last == units@.len() - needle@.len(),
            forall|s: int| 0 <= s < start ==> !occurs_folded(units@, needle@, s),
        decreases last + 1 - start,
    {
        let mut j: usize = 0;
        let mut mismatch = false;
        while !mismatch && j < needle.len()
            invariant
                start <= last,
                n == units@.len(),
                needle@.len() <= units@.len(),
                last == units@.len() - needle@.len(),
                j <= needle@.len(),
                mismatch ==> j < needle@.len() && fold_unit(units@[start + j]) != needle@[j as int],
                forall|k: int| 0 <= k < j ==> fold_unit(#[trigger] units@[start + k]) == needle@[k],
            decreases needle@.len() - j + if mismatch { 0int } else { 1int },
        {
            if fold(units[start + j]) != needle[j] {
                mismatch = true;
            } else {
                j = j + 1;
            }
        }
        if !mismatch {
            assert(occurs_folded(units@, needle@, start as int));
            return true;
        }
        assert(!occurs_folded(units@, needle@, start as int));
        if start == last {
            assert forall|s: int| !occurs_folded(units@, needle@, s) by {
                if 0 <= s < start {
                }
            }
            return false;
        }
        start = start + 1;
    }
    assert forall|s: int| !occurs_folded(units@, needle@, s) by {
        if 0 <= s < start {
        }
    }
    false
}

/// Whether an executable's embedded manifest asks for elevation (`requireAdministrator` or
/// `highestAvailable`, in any letter case, in UTF-8 or little-endian UTF-16).
pub fn manifest_bytes_request_elevation(bytes: &[u8]) -> (elevated: bool)
    ensures
        elevated == manifest_requests_elevation(bytes@),
{
    let require: Vec<u32> = vec![114, 101, 113, 117, 105, 114, 101, 97, 100, 109, 105, 110, 105, 115, 116, 114, 97, 116, 111, 114];
    let highest: Vec<u32> = vec![104, 105, 103, 104, 101, 115, 116, 97, 118, 97, 105, 108, 97, 98, 108, 101];
    assert(require@ =~= require_administrator());
    assert(highest@ =~= highest_available());
    let mut narrow: Vec<u32> = Vec::new();
    let mut i: usize = 0;
    while i < bytes.len()
        invariant
            i <= bytes@.len(),
            narrow@ =~= narrow_units(bytes@).subrange(0, i as int),
        decreases bytes@.len() - i,
    {
        narrow.push(bytes[i] as u32);
        i = i + 1;
    }
    assert(narrow@ =~= narrow_units(bytes@));
    if find_folded(&narrow, &require) || find_folded(&narrow, &highest) {
        return true;
    }
    let len = bytes.len();
    let pairs = len / 2;
    let mut wide: Vec<u32> = Vec::new();
    let mut k: usize = 0;
    while k < pairs
        invariant
            len == bytes@.len(),
            pairs == bytes@.len() / 2,
            k <= pairs,
            wide@ =~= wide_units(bytes@).subrange(0, k as int),
        decreases pairs - k,
    {
        assert(2 * k + 1 < bytes@.len());
        let low = bytes[2 * k] as u32;
        let high = bytes[2 * k + 1] as u32;
        wide.push(low + 256 * high);
        k = k + 1;
    }
    assert(wide@ =~= wide_units(bytes@));
    find_folded(&wide, &require) || find_folded(&wide, &highest)
}

} // verus!
