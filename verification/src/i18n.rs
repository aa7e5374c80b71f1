//! The languages of the interface and the keys of its texts.

use vstd::prelude::*;

verus! {

/// A language of the interface.
#[derive(Debug, Clone, Copy, PartialEq, Eq, Structural)]
pub enum Locale {
    En,
    Fr,
}

impl Default for Locale {
    /// English is the default language.
    fn default() -> (l: Locale)
        ensures
            l == Locale::En,
    {
        Locale::En
    }
}

/// The key of a text of the interface, translated per locale by the
/// presentation layer.
#[derive(Debug, Clone, Copy, PartialEq, Eq, Structural)]
pub enum TextKey {
    Title,
    Description,
    Version,
    NavigationTabHome,
    NavigationTabExplorer,
    NavigationTabTreeMap,
    NavigationTabSettings,
    NavigationTabHelp,
    DiskSelectorTitle,
    DiskSelectorDescription,
    DiskSelectorSelect,
    DiskSelectorButton,
    ActionBtnGoBack,
    ActionBtnRefresh,
    PathViewText,
    ExplorerNumberOfElements,
    ExplorerTableHeaderNameRow,
    ExplorerTableHeaderTypeRow,
    ExplorerTableHeaderSizeRow,
    ExplorerTableTypeFolder,
    ExplorerTableTypeFile,
    ExplorerTableTypeSymlink,
    ExplorerTableCalculatingSize,
    ExplorerTablePartialSize,
    ExplorerExtensionOverviewTitle,
    ExplorerExtensionOverviewEmpty,
    ExplorerExtensionNoExtension,
    ExplorerExtensionFilesCount,
    ExplorerExtensionPercentage,
    TreeMapTitle,
    TreeMapDescription,
    TreeMapNoFolder,
    TreeMapEmpty,
    TreeMapFilesCount,
    TreeMapHint,
    TreeMapScanLock,
    TreeMapHiddenItems,
    TreeMapPartialItems,
    TreeMapPending,
    TreeMapLegendFolders,
    TreeMapLegendFiles,
    TreeMapLegendOthers,
    TreeMapHoverFolder,
    TreeMapHoverFile,
    TreeMapHoverGroup,
    TreeMapHoverLevel,
    TreeMapHoverPartial,
    TreeMapHoverPending,
    ScanFooterProgress,
    OptionsOptionsTitle,
    OptionsLanguageLabel,
    OptionsLanguageHelp,
    OptionsLanguageEn,
    OptionsLanguageFr,
    PlaceholderHelp,
    OpeningFolderFailed,
    OpeningFolderAccessDenied,
    PartialScanWarning,
    PartialScanWarningAccessDenied,
    PartialScanWarningSymlinkSkipped,
}

} // verus!
