//! What the user (or the refresh timer) asks of the application.

use vstd::prelude::*;
use crate::app::state::Tab;
use crate::i18n::Locale;
use crate::services::disk::SystemDisk;

verus! {

/// A request to the application.
#[derive(Debug, Clone)]
pub enum Message {
    SwitchTab(Tab),
    SelectDisk(SystemDisk),
    OpenSelectedDisk,
    OpenEntry(String),
    OpenEntryInTab(String, Tab),
    GoUp,
    Refresh,
    SortByName,
    SortBySize,
    Tick,
    SetLocale(Locale),
}

} // verus!
