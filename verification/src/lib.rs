//! Portfolio logic for the real-estate allocation service: the domain model of
//! buildings and their lots, the snapshot-sync decisions, layout seeds, and the
//! small text and encoding routines the dashboard relies on.

pub mod error;
pub mod text;
pub mod domain;
pub mod sync;
pub mod entry_order;
pub mod roster;
pub mod layout;
pub mod portfolio;
pub mod nav;
pub mod ui;
pub mod series;
pub mod places;
pub mod i18n;
pub mod translations;
pub mod archive;
pub mod seed;
pub mod storage;
