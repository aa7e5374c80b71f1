use frostscan::app::notice::{notice_source_priority, AppNotice, NoticeLevel, NoticeSource};
use frostscan::app::state::FrostScanApp;
use frostscan::i18n::TextKey;
use frostscan::services::scanner::{ScanError, ScanFailureKind};

fn notice(level: NoticeLevel, source: NoticeSource, sticky: bool) -> AppNotice {
    AppNotice { level, text_key: TextKey::PartialScanWarning, source, sticky }
}

#[test]
fn errors_outrank_warnings() {
    let warning = notice(NoticeLevel::Warning, NoticeSource::Scan, false);
    let error = notice(NoticeLevel::Error, NoticeSource::Navigation, true);
    assert!(error.should_replace(warning));
    assert!(!warning.should_replace(error));
}

#[test]
fn same_source_replaces() {
    let a = notice(NoticeLevel::Warning, NoticeSource::Scan, false);
    let b = notice(NoticeLevel::Warning, NoticeSource::Scan, true);
    assert!(a.should_replace(b));
    assert!(b.should_replace(a));
}

#[test]
fn transient_beats_sticky_then_priority_decides() {
    let sticky_nav = notice(NoticeLevel::Warning, NoticeSource::Navigation, true);
    let scan = notice(NoticeLevel::Warning, NoticeSource::Scan, false);
    assert!(scan.should_replace(sticky_nav));
    assert!(!sticky_nav.should_replace(scan));
    let nav = notice(NoticeLevel::Warning, NoticeSource::Navigation, false);
    assert!(nav.should_replace(scan));
    assert!(!scan.should_replace(nav));
    assert_eq!(notice_source_priority(NoticeSource::Navigation), 3);
    assert_eq!(notice_source_priority(NoticeSource::Scan), 1);
}

#[test]
fn notices_for_errors_and_scan_issues() {
    let denied = ScanError::ReadDir { path: "/x".to_string(), access_denied: true, detail: String::new() };
    let n = AppNotice::from_open_directory_error(&denied);
    assert_eq!(n.text_key, TextKey::OpeningFolderAccessDenied);
    assert_eq!(n.source, NoticeSource::Navigation);
    assert_eq!(n.level, NoticeLevel::Error);
    assert!(n.sticky);
    assert_eq!(AppNotice::from_open_directory_error(&ScanError::Cancelled).text_key, TextKey::OpeningFolderFailed);

    let s = AppNotice::from_scan_failure(ScanFailureKind::SymlinkSkipped);
    assert_eq!(s.text_key, TextKey::PartialScanWarningSymlinkSkipped);
    assert_eq!(s.level, NoticeLevel::Warning);
    assert!(!s.sticky);
    assert_eq!(AppNotice::from_scan_failure(ScanFailureKind::ReadDir).text_key, TextKey::PartialScanWarning);
    assert_eq!(
        AppNotice::from_scan_failure(ScanFailureKind::AccessDenied).text_key,
        TextKey::PartialScanWarningAccessDenied
    );
}

#[test]
fn push_keeps_the_stronger_notice() {
    let mut app = FrostScanApp::new(Vec::new());
    let error = notice(NoticeLevel::Error, NoticeSource::Navigation, true);
    app.push_notice(error);
    app.push_notice(notice(NoticeLevel::Warning, NoticeSource::Scan, false));
    assert_eq!(app.notice, Some(error));
}
