//! Verified core of the LucidPM project-management record.
pub mod text;
pub mod chars;
pub mod seqs;
pub mod payload;
pub mod schema;
pub mod record;
pub mod status;
pub mod links;
pub mod sync_parse;
pub mod sync;
pub mod ontology;
pub mod slug;
pub mod export;
pub mod priority;
pub mod calendar;
pub mod report;
pub mod extract;
pub mod journal;
pub mod state;
pub mod task;
pub mod projects;
pub mod yaml;
