//! Record-by-record review and sanitisation of CSV data: the verified core.
//!
//! `csv` reads CSV contents, builds output rows and names session files;
//! `ui` decides what the screens show and how a review moves on;
//! `calendar`, `text` and `paths` supply dates, number formatting and path arithmetic.
pub mod calendar;
pub mod csv;
pub mod paths;
pub mod text;
pub mod ui;
