//! Recurring work items: due dates, completion statistics, reminders and
//! issue-tracker notifications.

pub mod calendar;
pub mod checks;
pub mod classify_laws;
pub mod days;
pub mod due_laws;
pub mod hotkey;
pub mod jira;
pub mod jira_laws;
pub mod json;
pub mod label;
pub mod label_laws;
pub mod model;
pub mod moment;
pub mod notice_laws;
pub mod notify;
pub mod pages;
pub mod poll;
pub mod poll_laws;
pub mod ranking;
pub mod recur;
pub mod recur_laws;
pub mod scan;
pub mod schema;
pub mod settings;
pub mod stats;
pub mod stats_laws;
pub mod text;
pub mod text_laws;
pub mod today;
pub mod today_laws;
pub mod tray;
pub mod wording_laws;
