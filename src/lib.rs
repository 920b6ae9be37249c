//! Layout and synchronisation engine for a shared gaming-session calendar whose
//! day may begin at any hour.

pub mod time_window;
pub mod model;
pub mod stacking;
pub mod event_store;
pub mod sync;
pub mod records;
pub mod url_params;
pub mod igdb;
pub mod catalog;
