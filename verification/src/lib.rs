//! A task manager's core: tasks, projects and reminders held in a verified
//! in-memory store, fuzzy due dates, list and notification views, the
//! line-based edit format, and the scroll logic of the follow view.
pub mod text;
pub mod date;
pub mod model;
pub mod order;
pub mod keyword;
pub mod db;
pub mod laws;
pub mod date_parser;
pub mod table;
pub mod commands;
