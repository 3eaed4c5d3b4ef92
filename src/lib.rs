//! Daily math practice: question bank, question selection, answer checking,
//! skill classification, weekly statistics and their summaries.
pub mod text;
pub mod skill;
pub mod stats;
pub mod answer;
pub mod grade;
pub mod questions;
pub mod ai_day;
pub mod selector;
pub mod storage;
pub mod summary;
pub mod days;
