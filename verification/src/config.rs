//! The application's settings.
use vstd::prelude::*;
use crate::text::owned;

verus! {

broadcast use vstd::string::group_string_axioms;

/// The settings of the application.
#[derive(Debug, Clone)]
pub struct AppSettings {
    pub max_history_count: usize,
    pub auto_cleanup_days: usize,
    pub keep_starred: bool,
    pub global_shortcut: String,
    pub ignore_apps: Vec<String>,
    pub theme: String,
    pub master_password_hash: String,
}

impl Default for AppSettings {
    /// Keep 1000 records for 30 days, keep starred ones, shortcut
    /// `CmdOrCtrl+Shift+V`, no ignored applications, the system theme and no
    /// master password.
    fn default() -> (s: Self)
        ensures
            s.max_history_count == 1000,
            s.auto_cleanup_days == 30,
            s.keep_starred,
            s.global_shortcut@ == "CmdOrCtrl+Shift+V"@,
            s.ignore_apps@.len() == 0,
            s.theme@ == "system"@,
            s.master_password_hash@ == Seq::<char>::empty(),
    {
        AppSettings {
            max_history_count: 1000,
            auto_cleanup_days: 30,
            keep_starred: true,
            global_shortcut: owned("CmdOrCtrl+Shift+V"),
            ignore_apps: Vec::new(),
            theme: owned("system"),
            master_password_hash: String::new(),
        }
    }
}

/// A change to some of the settings; `None` leaves a setting as it is.
#[derive(Debug, Clone)]
pub struct SettingsUpdate {
    pub max_history_count: Option<usize>,
    pub auto_cleanup_days: Option<usize>,
    pub keep_starred: Option<bool>,
    pub global_shortcut: Option<String>,
    pub theme: Option<String>,
    pub master_password_hash: Option<String>,
    pub ignore_apps: Option<Vec<String>>,
}

} // verus!
