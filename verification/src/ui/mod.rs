//! The decisions and texts of the review screens.
pub mod csv_work;
pub mod csv_workflow;
pub mod dialogs;
pub mod menu;
