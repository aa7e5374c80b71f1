//! The notice banner: which message is shown when several compete.

use vstd::prelude::*;
use crate::i18n::TextKey;
use crate::services::scanner::{ScanError, ScanFailureKind};

verus! {

/// Severity of a notice; an error outranks a warning.
#[derive(Debug, Clone, Copy, PartialEq, Eq, PartialOrd, Ord, Structural)]
pub enum NoticeLevel {
    Warning,
    Error,
}

/// What raised a notice.
#[derive(Debug, Clone, Copy, PartialEq, Eq, Structural)]
pub enum NoticeSource {
    Navigation,
    Scan,
}

/// A message for the user. A sticky notice stays until the navigation that
/// raised it succeeds.
#[derive(Debug, Clone, Copy, PartialEq, Eq, Structural)]
pub struct AppNotice {
    pub level: NoticeLevel,
    pub text_key: TextKey,
    pub source: NoticeSource,
    pub sticky: bool,
}

/// The rank of a level in the order of severity.
pub open spec fn level_rank(level: NoticeLevel) -> int {
    match level {
        NoticeLevel::Warning => 0,
        NoticeLevel::Error => 1,
    }
}

/// The priority of a source when two notices are otherwise alike.
pub open spec fn source_priority(source: NoticeSource) -> int {
    match source {
        NoticeSource::Navigation => 3,
        NoticeSource::Scan => 1,
    }
}

/// `new` takes the place of `current`: a more severe notice wins; at equal
/// severity a notice from the same source wins; then a transient notice
/// wins over a sticky one; then the source of higher priority wins, ties
/// going to the newcomer.
pub open spec fn replaces(new: AppNotice, current: AppNotice) -> bool {
    if new.level != current.level {
        level_rank(new.level) > level_rank(current.level)
    } else if new.source == current.source {
        true
    } else if new.sticky != current.sticky {
        current.sticky && !new.sticky
    } else {
        source_priority(new.source) >= source_priority(current.source)
    }
}

/// The text shown when opening a directory failed with `err`.
pub open spec fn open_error_text(err: ScanError) -> TextKey {
    match err {
        ScanError::ReadDir { access_denied, .. } => if access_denied {
            TextKey::OpeningFolderAccessDenied
        } else {
            TextKey::OpeningFolderFailed
        },
        ScanError::Cancelled => TextKey::OpeningFolderFailed,
    }
}

/// The text shown for a scan that met an issue of `kind`.
pub open spec fn scan_issue_text(kind: ScanFailureKind) -> TextKey {
    match kind {
        ScanFailureKind::AccessDenied => TextKey::PartialScanWarningAccessDenied,
        ScanFailureKind::SymlinkSkipped => TextKey::PartialScanWarningSymlinkSkipped,
        ScanFailureKind::ReadDir => TextKey::PartialScanWarning,
    }
}

fn level_order(level: NoticeLevel) -> (r: u8)
    ensures
        r == level_rank(level),
{
    match level {
        NoticeLevel::Warning => 0,
        NoticeLevel::Error => 1,
    }
}

/// The priority of a notice's source.
pub fn notice_source_priority(source: NoticeSource) -> (p: u8)
    ensures
        p == source_priority(source),
{
    match source {
        NoticeSource::Navigation => 3,
        NoticeSource::Scan => 1,
    }
}

impl AppNotice {
    /// Whether this notice should take the place of `current`.
    pub fn should_replace(self, current: Self) -> (r: bool)
        ensures
            r == replaces(self, current),
    {
        if self.level != current.level {
            return level_order(self.level) > level_order(current.level);
        }
        if self.source == current.source {
            return true;
        }
        if self.sticky != current.sticky {
            return current.sticky && !self.sticky;
        }
        notice_source_priority(self.source) >= notice_source_priority(current.source)
    }

    /// The sticky error notice for a directory that could not be opened.
    pub fn from_open_directory_error(err: &ScanError) -> (n: Self)
        ensures
            n == (AppNotice {
                level: NoticeLevel::Error,
                text_key: open_error_text(*err),
                source: NoticeSource::Navigation,
                sticky: true,
            }),
    {
        let text_key = match err {
            ScanError::ReadDir { access_denied, .. } => if *access_denied {
                TextKey::OpeningFolderAccessDenied
            } else {
                TextKey::OpeningFolderFailed
            },
            ScanError::Cancelled => TextKey::OpeningFolderFailed,
        };
        AppNotice {
            level: NoticeLevel::Error,
            text_key,
            source: NoticeSource::Navigation,
            sticky: true,
        }
    }

    /// The transient warning for a scan that could not see everything.
    pub fn from_scan_failure(kind: ScanFailureKind) -> (n: Self)
        ensures
            n == (AppNotice {
                level: NoticeLevel::Warning,
                text_key: scan_issue_text(kind),
                source: NoticeSource::Scan,
                sticky: false,
            }),
    {
        let text_key = match kind {
            ScanFailureKind::AccessDenied => TextKey::PartialScanWarningAccessDenied,
            ScanFailureKind::SymlinkSkipped => TextKey::PartialScanWarningSymlinkSkipped,
            ScanFailureKind::ReadDir => TextKey::PartialScanWarning,
        };
        AppNotice { level: NoticeLevel::Warning, text_key, source: NoticeSource::Scan, sticky: false }
    }
}

/// A notice always takes the place of itself.
pub proof fn lemma_notice_replaces_itself(n: AppNotice)
    ensures
        replaces(n, n),
{
}

/// An error is never displaced by a warning, and a warning always gives way
/// to an error.
pub proof fn lemma_errors_outrank_warnings(new: AppNotice, current: AppNotice)
    ensures
        new.level == NoticeLevel::Warning && current.level == NoticeLevel::Error ==> !replaces(
            new,
            current,
        ),
        new.level == NoticeLevel::Error && current.level == NoticeLevel::Warning ==> replaces(
            new,
            current,
        ),
{
}

/// Of two distinct notices of equal severity, at least one would take the
/// place of the other: a shown notice can always be refreshed by a notice
/// like it.
pub proof fn lemma_replacement_is_total(a: AppNotice, b: AppNotice)
    requires
        a.level == b.level,
    ensures
        replaces(a, b) || replaces(b, a),
{
}

} // verus!
