//! Weekly class timetables: reading them out of spreadsheets, publishing them,
//! and answering the questions students ask a chat bot about them.

pub mod access;
pub mod action;
pub mod calendar;
pub mod callback;
pub mod cards;
pub mod chains;
pub mod clock;
pub mod compound;
pub mod conversation;
pub mod dashboard;
pub mod date;
pub mod dialogue;
pub mod domain;
pub mod draw;
pub mod fields;
pub mod files;
pub mod format;
pub mod group;
pub mod handlers;
pub mod identity;
pub mod layout;
pub mod lesson;
pub mod measures;
pub mod metrics;
pub mod panel;
pub mod parser;
pub mod parts;
pub mod phrases;
pub mod pretty;
pub mod printing;
pub mod private;
pub mod private_talk;
pub mod rate_limit;
pub mod reading;
pub mod records;
pub mod refusals;
pub mod service;
pub mod showing;
pub mod states;
pub mod stats;
pub mod store;
pub mod text;
pub mod upload;
pub mod wording;
pub mod workbook;
