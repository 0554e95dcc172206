//! Application state: settings, the selected repositories and the scan
//! results per repository.

pub mod app_settings;
pub mod scan_result;
pub mod selected_repos;
