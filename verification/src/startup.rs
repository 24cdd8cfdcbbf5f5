//! Startup choices: where the application keeps its data, read from the
//! command line and the per-user preference, and the debug-only QA options.
use vstd::prelude::*;

use crate::decimal::{parse_unsigned, parse_unsigned_text};
use crate::history::opt_text;
use crate::settings_store::StorageError;
use crate::text::{has_prefix, str_equal, strip_prefix};

verus! {

/// The command-line option that overrides the data directory.
pub const DATA_DIR_ARGUMENT: &'static str = "--data-dir";
/// Its `=` form.
pub const DATA_DIR_ASSIGNMENT: &'static str = "--data-dir=";

/// Whether the application runs.
#[derive(Debug, Clone, Copy, PartialEq, Eq, Structural)]
pub enum ApplicationStatus {
    Running,
}

/// Why the data directory could not be chosen at startup.
#[derive(Debug, Clone, PartialEq, Eq)]
pub enum ApplicationRuntimeError {
    MissingDataDirectoryOverride,
    DuplicateDataDirectoryOverride,
    CurrentExecutable(String),
    ExecutableDirectory(String),
    AmbiguousDataDirectoryOverride(String),
}

/// Why moving to a new data directory failed.
#[derive(Debug, Clone, Copy, PartialEq, Eq, Structural)]
pub enum DataDirectoryChangeError {
    Storage(StorageError),
    Preference(DataDirectoryPreferenceError),
}

/// Why the data directory preference could not be read or saved.
#[derive(Debug, Clone, Copy, PartialEq, Eq, Structural)]
pub enum DataDirectoryPreferenceError {
    LockPoisoned,
    Registry { status: u32 },
}

/// One step of scanning the command line for `--data-dir`: the override
/// found so far, and where scanning continues.
pub open spec fn data_dir_scan(arguments: Seq<Seq<char>>, start: int, found: Option<Seq<char>>) -> Result<
    Option<Seq<char>>,
    ApplicationRuntimeError,
>
    decreases arguments.len() - start,
{
    if start >= arguments.len() {
        Ok(found)
    } else {
        let argument = arguments[start];
        if argument == DATA_DIR_ARGUMENT@ {
            if start + 1 >= arguments.len() {
                Err(ApplicationRuntimeError::MissingDataDirectoryOverride)
            } else {
                let value = arguments[start + 1];
                if value.len() == 0 || has_prefix(value, "--"@) {
                    Err(ApplicationRuntimeError::MissingDataDirectoryOverride)
                } else if found is Some {
                    Err(ApplicationRuntimeError::DuplicateDataDirectoryOverride)
                } else {
                    data_dir_scan(arguments, start + 2, Some(value))
                }
            }
        } else if has_prefix(argument, DATA_DIR_ASSIGNMENT@) {
            let value = argument.subrange(DATA_DIR_ASSIGNMENT@.len() as int, argument.len() as int);
            if value.len() == 0 {
                Err(ApplicationRuntimeError::MissingDataDirectoryOverride)
            } else if found is Some {
                Err(ApplicationRuntimeError::DuplicateDataDirectoryOverride)
            } else {
                data_dir_scan(arguments, start + 1, Some(value))
            }
        } else {
            data_dir_scan(arguments, start + 1, found)
        }
    }
}

/// The text views of strings.
pub open spec fn texts(values: Seq<String>) -> Seq<Seq<char>> {
    Seq::new(values.len(), |i: int| values[i]@)
}

/// The data directory the command line asks for: `--data-dir PATH` or
/// `--data-dir=PATH`, at most once, with a non-empty path that does not look
/// like another option. The first argument (the executable) is skipped.
pub fn parse_data_dir_override(arguments: &[String]) -> (result: Result<Option<String>, ApplicationRuntimeError>)
    ensures
        match data_dir_scan(texts(arguments@), 1, None) {
            Ok(Some(path)) => result matches Ok(Some(found)) && found@ == path,
            Ok(None) => result matches Ok(None),
            Err(error) => result == Err::<Option<String>, ApplicationRuntimeError>(error),
        },
{
    let ghost args = texts(arguments@);
    let mut found: Option<String> = None;
    let mut i: usize = 1;
    proof {
        reveal_strlit("--data-dir");
        reveal_strlit("--data-dir=");
        reveal_strlit("--");
    }
    while i < arguments.len()
        invariant
            1 <= i,
            args == texts(arguments@),
            data_dir_scan(args, 1, None) == data_dir_scan(args, i as int, opt_text(found)),
        decreases arguments.len() - i,
    {
        let argument = arguments[i].as_str();
        assert(args[i as int] == argument@);
        if str_equal(argument, DATA_DIR_ARGUMENT) {
            if i + 1 >= arguments.len() {
                return Err(ApplicationRuntimeError::MissingDataDirectoryOverride);
            }
            let value = arguments[i + 1].as_str();
            assert(args[i + 1] == value@);
            let starts_option = match strip_prefix(value, "--") {
                Some(_) => true,
                None => false,
            };
            if value.is_empty() || starts_option {
                return Err(ApplicationRuntimeError::MissingDataDirectoryOverride);
            }
            if found.is_some() {
                return Err(ApplicationRuntimeError::DuplicateDataDirectoryOverride);
            }
            found = Some(value.to_owned());
            i += 2;
        } else {
            match strip_prefix(argument, DATA_DIR_ASSIGNMENT) {
                Some(value) => {
                    if value.as_str().is_empty() {
                        return Err(ApplicationRuntimeError::MissingDataDirectoryOverride);
                    }
                    if found.is_some() {
                        return Err(ApplicationRuntimeError::DuplicateDataDirectoryOverride);
                    }
                    found = Some(value);
                },
                None => {},
            }
            i += 1;
        }
    }
    Ok(found)
}

/// Whether a path starts with a drive prefix or a root (`std::path`
/// components `Prefix` or `RootDir`), by the path rules of the platform the
/// library is built for.
pub uninterp spec fn path_is_anchored(path: Seq<char>) -> bool;

/// The directory a path names its file in (`Path::parent`), if any, by
/// the path rules of the platform the library is built for.
pub uninterp spec fn path_parent(path: Seq<char>) -> Option<Seq<char>>;

/// `base` joined with `relative` (`Path::join`), by the path rules of the
/// platform the library is built for.
pub uninterp spec fn path_joined(base: Seq<char>, relative: Seq<char>) -> Seq<char>;

/// Whether the first component of `path` is a prefix or a root; a prefix or
/// a root can only come first.
#[verifier::external_body]
fn first_component_anchors(path: &str) -> (anchored: bool)
    ensures
        anchored == path_is_anchored(path@),
{
    matches!(
        std::path::Path::new(path).components().next(),
        Some(std::path::Component::Prefix(_)) | Some(std::path::Component::RootDir)
    )
}

/// `Path::new(path).parent()`, as text.
#[verifier::external_body]
fn parent_directory(path: &str) -> (parent: Option<String>)
    ensures
        match parent {
            Some(text) => path_parent(path@) == Some(text@),
            None => path_parent(path@) is None,
        },
{
    std::path::Path::new(path).parent().map(|parent| parent.to_string_lossy().into_owned())
}

/// `Path::new(base).join(relative)`, as text.
#[verifier::external_body]
fn join_path(base: &str, relative: &str) -> (joined: String)
    ensures
        joined@ == path_joined(base@, relative@),
{
    std::path::Path::new(base).join(relative).to_string_lossy().into_owned()
}

/// Where a relative data directory lies: beside the executable. A path with
/// a drive prefix or a root is refused as ambiguous.
pub fn resolve_relative_data_root(executable: &str, relative_path: &str) -> (result: Result<String, ApplicationRuntimeError>)
    ensures
        if path_is_anchored(relative_path@) {
            result matches Err(ApplicationRuntimeError::AmbiguousDataDirectoryOverride(path)) && path@ == relative_path@
        } else {
            match path_parent(executable@) {
                Some(directory) => if directory.len() == 0 {
                    result matches Err(ApplicationRuntimeError::ExecutableDirectory(path)) && path@ == executable@
                } else {
                    result matches Ok(root) && root@ == path_joined(directory, relative_path@)
                },
                None => result matches Err(ApplicationRuntimeError::ExecutableDirectory(path)) && path@ == executable@,
            }
        },
{
    if first_component_anchors(relative_path) {
        return Err(ApplicationRuntimeError::AmbiguousDataDirectoryOverride(relative_path.to_owned()));
    }
    match parent_directory(executable) {
        Some(directory) => {
            if directory.as_str().is_empty() {
                Err(ApplicationRuntimeError::ExecutableDirectory(executable.to_owned()))
            } else {
                Ok(join_path(directory.as_str(), relative_path))
            }
        },
        None => Err(ApplicationRuntimeError::ExecutableDirectory(executable.to_owned())),
    }
}

// ---------------------------------------------------------------------------
// The data directory preference.

/// Where the per-user data directory preference is kept.
pub trait DataDirectoryRegistry {
    /// The stored directory, if any.
    fn read(&self) -> Result<Option<String>, DataDirectoryPreferenceError>;
    /// Stores the directory.
    fn write(&mut self, directory: &str) -> Result<(), DataDirectoryPreferenceError>;
}

/// A registry for platforms without one: nothing is stored, and nothing is
/// read back.
#[derive(Debug, Clone, Copy, PartialEq, Eq, Structural)]
pub struct NoopDataDirectoryRegistry;

impl DataDirectoryRegistry for NoopDataDirectoryRegistry {
    fn read(&self) -> (result: Result<Option<String>, DataDirectoryPreferenceError>)
        ensures
            result == Ok::<Option<String>, DataDirectoryPreferenceError>(None),
    {
        Ok(None)
    }

    fn write(&mut self, directory: &str) -> (result: Result<(), DataDirectoryPreferenceError>)
        ensures
            result == Ok::<(), DataDirectoryPreferenceError>(()),
    {
        Ok(())
    }
}

/// The per-user data directory preference.
pub struct DataDirectoryPreference<R: DataDirectoryRegistry> {
    registry: R,
}

impl DataDirectoryPreference<NoopDataDirectoryRegistry> {
    /// The preference on a platform without a registry.
    pub fn for_system() -> (preference: Self)
        ensures
            preference.registry() == NoopDataDirectoryRegistry,
    {
        DataDirectoryPreference { registry: NoopDataDirectoryRegistry }
    }
}

impl<R: DataDirectoryRegistry> DataDirectoryPreference<R> {
    /// The registry the preference is kept in.
    pub closed spec fn registry(&self) -> R {
        self.registry
    }

    /// The preference kept in `registry`.
    pub fn new(registry: R) -> (preference: Self)
        ensures
            preference.registry() == registry,
    {
        DataDirectoryPreference { registry }
    }

    /// The stored data directory, if any.
    pub fn read(&self) -> (result: Result<Option<String>, DataDirectoryPreferenceError>) {
        self.registry.read()
    }

    /// Stores the data directory for the next start.
    pub fn set(&mut self, directory: &str) -> (result: Result<(), DataDirectoryPreferenceError>) {
        self.registry.write(directory)
    }
}

// ---------------------------------------------------------------------------
// QA options.

/// Opens the clipboard surface after a delay.
pub const OPEN_CLIPBOARD_SURFACE_AFTER_MS: &'static str = "--qa-open-clipboard-surface-after-ms";
/// Its `=` form.
pub const OPEN_CLIPBOARD_SURFACE_AFTER_MS_ASSIGNMENT: &'static str = "--qa-open-clipboard-surface-after-ms=";
/// Runs the screenshot probe.
pub const SCREENSHOT_PROBE: &'static str = "--qa-screenshot-probe";
/// Longest delay, in milliseconds.
pub const MAX_QA_DELAY_MS: u64 = 300_000;

/// The debug-only QA options.
#[derive(Debug, Clone, Copy, PartialEq, Eq, Default, Structural)]
pub struct DebugQaOptions {
    pub open_clipboard_surface_after_ms: Option<u64>,
    pub screenshot_probe: bool,
}

/// Why the QA options were refused.
#[derive(Debug, Clone, Copy, PartialEq, Eq, Structural)]
pub enum DebugQaArgumentError {
    UnavailableInRelease,
    MissingDelay,
    DuplicateDelay,
    DuplicateScreenshotProbe,
    InvalidDelay,
}

/// The delay a QA value gives: decimal digits (an optional `+`) of at most
/// 300000 milliseconds (`u64` parsing, then the limit).
pub open spec fn qa_delay(value: Seq<char>) -> Option<u64> {
    match parse_unsigned(value, MAX_QA_DELAY_MS as int) {
        Some(ms) => Some(ms as u64),
        None => None,
    }
}

/// Scanning the command line for QA options from `start`.
pub open spec fn qa_scan(
    arguments: Seq<Seq<char>>,
    start: int,
    debug_enabled: bool,
    delay: Option<u64>,
    probe: bool,
) -> Result<DebugQaOptions, DebugQaArgumentError>
    decreases arguments.len() - start,
{
    if start >= arguments.len() {
        Ok(DebugQaOptions { open_clipboard_surface_after_ms: delay, screenshot_probe: probe })
    } else {
        let argument = arguments[start];
        if argument == SCREENSHOT_PROBE@ {
            if !debug_enabled {
                Err(DebugQaArgumentError::UnavailableInRelease)
            } else if probe {
                Err(DebugQaArgumentError::DuplicateScreenshotProbe)
            } else {
                qa_scan(arguments, start + 1, debug_enabled, delay, true)
            }
        } else {
            let separate = argument == OPEN_CLIPBOARD_SURFACE_AFTER_MS@;
            let joined = !separate && has_prefix(argument, OPEN_CLIPBOARD_SURFACE_AFTER_MS_ASSIGNMENT@);
            if !separate && !joined {
                qa_scan(arguments, start + 1, debug_enabled, delay, probe)
            } else if separate && start + 1 >= arguments.len() {
                Err(DebugQaArgumentError::MissingDelay)
            } else if !debug_enabled {
                Err(DebugQaArgumentError::UnavailableInRelease)
            } else if delay is Some {
                Err(DebugQaArgumentError::DuplicateDelay)
            } else {
                let value = if separate {
                    arguments[start + 1]
                } else {
                    argument.subrange(OPEN_CLIPBOARD_SURFACE_AFTER_MS_ASSIGNMENT@.len() as int, argument.len() as int)
                };
                match qa_delay(value) {
                    None => Err(DebugQaArgumentError::InvalidDelay),
                    Some(ms) => qa_scan(arguments, start + if separate { 2int } else { 1int }, debug_enabled, Some(ms), probe),
                }
            }
        }
    }
}

/// Reads the QA options (the first argument, the executable, is skipped);
/// outside debug builds any QA option is refused.
pub fn parse_with_build_mode(arguments: &[String], debug_enabled: bool) -> (result: Result<
    DebugQaOptions,
    DebugQaArgumentError,
>)
    ensures
        result == qa_scan(texts(arguments@), 1, debug_enabled, None, false),
{
    let ghost args = texts(arguments@);
    let mut delay: Option<u64> = None;
    let mut screenshot_probe = false;
    let mut i: usize = 1;
    while i < arguments.len()
        invariant
            1 <= i,
            args == texts(arguments@),
            qa_scan(args, 1, debug_enabled, None, false) == qa_scan(args, i as int, debug_enabled, delay, screenshot_probe),
        decreases arguments.len() - i,
    {
        let argument = arguments[i].as_str();
        assert(args[i as int] == argument@);
        if str_equal(argument, SCREENSHOT_PROBE) {
            if !debug_enabled {
                return Err(DebugQaArgumentError::UnavailableInRelease);
            }
            if screenshot_probe {
                return Err(DebugQaArgumentError::DuplicateScreenshotProbe);
            }
            screenshot_probe = true;
            i += 1;
        } else {
            let separate = str_equal(argument, OPEN_CLIPBOARD_SURFACE_AFTER_MS);
            let joined_value = if separate {
                None
            } else {
                strip_prefix(argument, OPEN_CLIPBOARD_SURFACE_AFTER_MS_ASSIGNMENT)
            };
            if !separate && joined_value.is_none() {
                i += 1;
            } else {
                if separate && i + 1 >= arguments.len() {
                    return Err(DebugQaArgumentError::MissingDelay);
                }
                if !debug_enabled {
                    return Err(DebugQaArgumentError::UnavailableInRelease);
                }
                if delay.is_some() {
                    return Err(DebugQaArgumentError::DuplicateDelay);
                }
                let value = match joined_value {
                    Some(value) => value,
                    None => arguments[i + 1].clone(),
                };
                let ms = match parse_unsigned_text(value.as_str(), 300_000) {
                    Some(ms) => ms as u64,
                    None => {
                        return Err(DebugQaArgumentError::InvalidDelay);
                    },
                };
                delay = Some(ms);
                i += if separate { 2 } else { 1 };
            }
        }
    }
    Ok(DebugQaOptions { open_clipboard_surface_after_ms: delay, screenshot_probe })
}

} // verus!
