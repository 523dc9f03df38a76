//! todotui: a terminal to-do manager's tasks, views, commands and key
//! handling, with every public function's behaviour stated and proved.
use vstd::prelude::*;

pub mod text;
pub mod calendar;
pub mod models;
pub mod tree;
pub mod error;
pub mod commands;
pub mod filters;
pub mod export;
pub mod input;
pub mod pomodoro;
pub mod config;
pub mod store;
pub mod app;
pub mod keys;
pub mod screen;
