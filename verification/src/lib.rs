//! EveMon: a live monitor of file activity.

pub mod capture;
pub mod capture_laws;
pub mod config;
pub mod etw;
pub mod etw_laws;
pub mod filter;
pub mod filter_laws;
pub mod glob;
pub mod like;
pub mod listing_laws;
pub mod outcome_laws;
pub mod rank;
pub mod rank_laws;
pub mod sqlite;
pub mod store;
pub mod table;
pub mod table_laws;
pub mod text;
pub mod text_laws;
pub mod view;
