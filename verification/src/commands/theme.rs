//! Theme commands: their inputs and results, and the stable codes of their
//! failures.
use vstd::prelude::*;


verus! {

/// A theme change request as the frontend sends it.
#[derive(Debug, Clone, PartialEq, Eq, Default)]
pub struct ThemePreferencesPatchInput {
    pub expected_revision: u64,
    pub mode: Option<String>,
    pub accent: Option<String>,
    pub animation_speed: Option<String>,
    pub reduce_transparency: Option<bool>,
    pub background_fit: Option<String>,
    pub background_dim: Option<u8>,
    pub background_blur: Option<u8>,
    pub panel_opacity: Option<u8>,
}

/// A background change request.
#[derive(Debug, Clone, Copy, PartialEq, Eq, Structural)]
pub struct ThemeBackgroundMutationInput {
    pub expected_revision: u64,
}

/// A theme failure as the frontend sees it.
#[derive(Debug, Clone, Copy, PartialEq, Eq)]
pub struct ThemeCommandErrorDto {
    pub code: &'static str,
    pub message: &'static str,
    pub field: Option<&'static str>,
    pub retryable: bool,
    pub applied: bool,
}

/// A saved theme that some windows may not show yet.
#[derive(Debug, Clone, Copy, PartialEq, Eq)]
pub struct ThemeBroadcastWarningDto {
    pub code: &'static str,
    pub message: &'static str,
}

/// A saved theme snapshot, with a warning when broadcasting it failed.
#[derive(Debug, Clone, PartialEq, Eq)]
pub struct ThemeUpdateResultDto<S> {
    pub snapshot: S,
    pub broadcast_warning: Option<ThemeBroadcastWarningDto>,
}

/// Why theme preferences were refused.
#[derive(Debug, Clone, PartialEq, Eq)]
pub enum ThemeValidationError {
    InvalidThemeMode(String),
    InvalidAccent(String),
    InvalidAnimationSpeed(String),
    InvalidBackgroundFit(String),
    InvalidBackgroundAsset,
    InvalidBackgroundDim,
    InvalidBackgroundBlur,
    InvalidPanelOpacity,
    EmptyPatch,
}

/// Why a background image was refused.
#[derive(Debug, Clone, PartialEq, Eq)]
pub enum ThemeAssetError {
    UnsupportedFormat,
    TooLarge,
    InvalidSource,
    InvalidMetadata,
    Corrupt,
    Decode(String),
    Missing,
    Io(String),
    Storage(String),
}

/// Why a theme change failed.
#[derive(Debug, Clone, PartialEq, Eq)]
pub enum ThemeError {
    RevisionConflict { expected: u64, actual: u64 },
    Asset(ThemeAssetError),
    Validation(ThemeValidationError),
    Storage(String),
    LockPoisoned,
}

/// A theme failure as values: code, message, field, retryable, applied.
pub open spec fn theme_dto_view(dto: ThemeCommandErrorDto) -> (Seq<char>, Seq<char>, Option<Seq<char>>, bool, bool) {
    (
        dto.code@,
        dto.message@,
        match dto.field {
            Some(field) => Some(field@),
            None => None,
        },
        dto.retryable,
        dto.applied,
    )
}

/// The message and field of each refused theme preference.
pub open spec fn theme_validation_contract(error: ThemeValidationError) -> (Seq<char>, Seq<char>) {
    match error {
        ThemeValidationError::InvalidThemeMode(_) => ("Unsupported theme mode."@, "mode"@),
        ThemeValidationError::InvalidAccent(_) => ("Unsupported accent color."@, "accent"@),
        ThemeValidationError::InvalidAnimationSpeed(_) => ("Unsupported animation speed."@, "animationSpeed"@),
        ThemeValidationError::InvalidBackgroundFit(_) => ("Unsupported background fit."@, "backgroundFit"@),
        ThemeValidationError::InvalidBackgroundAsset => ("Invalid background image metadata."@, "background"@),
        ThemeValidationError::InvalidBackgroundDim => ("Background dim is outside the supported range."@, "backgroundDim"@),
        ThemeValidationError::InvalidBackgroundBlur => ("Background blur is outside the supported range."@, "backgroundBlur"@),
        ThemeValidationError::InvalidPanelOpacity => ("Panel opacity is outside the supported range."@, "panelOpacity"@),
        ThemeValidationError::EmptyPatch => ("Theme update must include at least one field."@, "patch"@),
    }
}

/// The frontend error for refused theme preferences.
pub fn validation_error(error: ThemeValidationError) -> (dto: ThemeCommandErrorDto)
    ensures
        theme_dto_view(dto) == (
            "invalid_theme_preferences"@,
            theme_validation_contract(error).0,
            Some(theme_validation_contract(error).1),
            false,
            false,
        ),
{
    let (message, field): (&'static str, &'static str) = match error {
        ThemeValidationError::InvalidThemeMode(_) => ("Unsupported theme mode.", "mode"),
        ThemeValidationError::InvalidAccent(_) => ("Unsupported accent color.", "accent"),
        ThemeValidationError::InvalidAnimationSpeed(_) => ("Unsupported animation speed.", "animationSpeed"),
        ThemeValidationError::InvalidBackgroundFit(_) => ("Unsupported background fit.", "backgroundFit"),
        ThemeValidationError::InvalidBackgroundAsset => ("Invalid background image metadata.", "background"),
        ThemeValidationError::InvalidBackgroundDim => ("Background dim is outside the supported range.", "backgroundDim"),
        ThemeValidationError::InvalidBackgroundBlur => ("Background blur is outside the supported range.", "backgroundBlur"),
        ThemeValidationError::InvalidPanelOpacity => ("Panel opacity is outside the supported range.", "panelOpacity"),
        ThemeValidationError::EmptyPatch => ("Theme update must include at least one field.", "patch"),
    };
    ThemeCommandErrorDto { code: "invalid_theme_preferences", message, field: Some(field), retryable: false, applied: false }
}

/// The frontend error for a failed theme change: a revision conflict, a
/// refused background image by its kind, or a failed save.
pub fn theme_update_error(error: &ThemeError) -> (dto: ThemeCommandErrorDto)
    ensures
        theme_dto_view(dto) == match *error {
            ThemeError::RevisionConflict { .. } => (
                "theme_revision_conflict"@,
                "Theme preferences changed; reload and retry."@,
                Some("expectedRevision"@),
                true,
                false,
            ),
            ThemeError::Asset(ThemeAssetError::UnsupportedFormat) => (
                "theme_background_format_unsupported"@,
                "Choose a PNG, JPEG, or WebP image."@,
                Some("background"@),
                false,
                false,
            ),
            ThemeError::Asset(ThemeAssetError::TooLarge) => (
                "theme_background_too_large"@,
                "The selected background image is too large."@,
                Some("background"@),
                false,
                false,
            ),
            ThemeError::Asset(ThemeAssetError::InvalidSource) | ThemeError::Asset(ThemeAssetError::InvalidMetadata)
            | ThemeError::Asset(ThemeAssetError::Corrupt) | ThemeError::Asset(ThemeAssetError::Decode(_)) => (
                "theme_background_invalid"@,
                "The selected background image is invalid or damaged."@,
                Some("background"@),
                false,
                false,
            ),
            ThemeError::Asset(_) => (
                "theme_background_import_failed"@,
                "Unable to import the selected background image."@,
                Some("background"@),
                true,
                false,
            ),
            _ => ("theme_update_failed"@, "Unable to save theme preferences."@, None, true, false),
        },
{
    match error {
        ThemeError::RevisionConflict { .. } => ThemeCommandErrorDto {
            code: "theme_revision_conflict",
            message: "Theme preferences changed; reload and retry.",
            field: Some("expectedRevision"),
            retryable: true,
            applied: false,
        },
        ThemeError::Asset(asset_error) => {
            let (code, message, retryable): (&'static str, &'static str, bool) = match asset_error {
                ThemeAssetError::UnsupportedFormat => (
                    "theme_background_format_unsupported",
                    "Choose a PNG, JPEG, or WebP image.",
                    false,
                ),
                ThemeAssetError::TooLarge => (
                    "theme_background_too_large",
                    "The selected background image is too large.",
                    false,
                ),
                ThemeAssetError::InvalidSource | ThemeAssetError::InvalidMetadata | ThemeAssetError::Corrupt
                | ThemeAssetError::Decode(_) => (
                    "theme_background_invalid",
                    "The selected background image is invalid or damaged.",
                    false,
                ),
                ThemeAssetError::Missing | ThemeAssetError::Io(_) | ThemeAssetError::Storage(_) => (
                    "theme_background_import_failed",
                    "Unable to import the selected background image.",
                    true,
                ),
            };
            ThemeCommandErrorDto { code, message, field: Some("background"), retryable, applied: false }
        },
        _ => ThemeCommandErrorDto {
            code: "theme_update_failed",
            message: "Unable to save theme preferences.",
            field: None,
            retryable: true,
            applied: false,
        },
    }
}

/// The frontend error when the active background cannot be read.
pub fn theme_background_read_error() -> (dto: ThemeCommandErrorDto)
    ensures
        theme_dto_view(dto) == (
            "theme_background_unavailable"@,
            "The active theme background is unavailable."@,
            Some("background"@),
            true,
            false,
        ),
{
    ThemeCommandErrorDto {
        code: "theme_background_unavailable",
        message: "The active theme background is unavailable.",
        field: Some("background"),
        retryable: true,
        applied: false,
    }
}

/// A saved snapshot with a warning when broadcasting it failed.
pub fn result_with_broadcast<S>(updated: S, broadcast_succeeded: bool) -> (dto: ThemeUpdateResultDto<S>)
    ensures
        dto.snapshot == updated,
        broadcast_succeeded ==> dto.broadcast_warning is None,
        !broadcast_succeeded ==> (dto.broadcast_warning matches Some(warning) && warning.code@ == "theme_broadcast_failed"@
            && warning.message@ == "Theme saved, but some windows may not update immediately."@),
{
    let broadcast_warning = if broadcast_succeeded {
        None
    } else {
        Some(
            ThemeBroadcastWarningDto {
                code: "theme_broadcast_failed",
                message: "Theme saved, but some windows may not update immediately.",
            },
        )
    };
    ThemeUpdateResultDto { snapshot: updated, broadcast_warning }
}

} // verus!
