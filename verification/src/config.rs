//! Configuration values and their defaults.
use vstd::prelude::*;

use crate::models::strings_view;
use crate::text::copy_str;
use std::collections::HashMap;

verus! {

#[derive(Debug, Clone)]
pub struct Config {
    pub tags: TagsConfig,
    pub projects: ProjectsConfig,
    pub ui: UiConfig,
    pub keys: HashMap<String, String>,
    pub pomodoro: PomodoroConfig,
}

#[derive(Debug, Clone)]
pub struct TagsConfig {
    pub default: Vec<String>,
}

#[derive(Debug, Clone)]
pub struct ProjectsConfig {
    pub default: Vec<String>,
}

#[derive(Debug, Clone, Copy, PartialEq, Eq, Structural)]
pub struct UiConfig {
    pub show_done_in_all: bool,
    pub week_days: i64,
}

#[derive(Debug, Clone, Copy, PartialEq, Eq, Structural)]
pub struct PomodoroConfig {
    pub minutes: u64,
}

/// The tags offered when the config names none.
pub open spec fn seed_tags() -> Seq<Seq<char>> {
    seq!["work"@, "personal"@, "urgent"@, "idea"@, "learning"@, "followup"@]
}

/// The projects ensured when the config names none.
pub open spec fn seed_projects() -> Seq<Seq<char>> {
    seq!["Inbox"@, "Work"@, "Personal"@, "Learning"@]
}

pub fn default_tags() -> (res: Vec<String>)
    ensures
        strings_view(res@) == seed_tags(),
{
    let v = vec![
        copy_str("work"),
        copy_str("personal"),
        copy_str("urgent"),
        copy_str("idea"),
        copy_str("learning"),
        copy_str("followup"),
    ];
    proof {
        assert(strings_view(v@) =~= seed_tags());
    }
    v
}

pub fn default_projects() -> (res: Vec<String>)
    ensures
        strings_view(res@) == seed_projects(),
{
    let v = vec![copy_str("Inbox"), copy_str("Work"), copy_str("Personal"), copy_str("Learning")];
    proof {
        assert(strings_view(v@) =~= seed_projects());
    }
    v
}

pub fn default_show_done() -> (res: bool)
    ensures
        res == false,
{
    false
}

pub fn default_week_days() -> (res: i64)
    ensures
        res == 7,
{
    7
}

pub fn default_pomo_minutes() -> (res: u64)
    ensures
        res == 25,
{
    25
}

impl Default for TagsConfig {
    fn default() -> (res: Self)
        ensures
            strings_view(res.default@) == seed_tags(),
    {
        TagsConfig { default: default_tags() }
    }
}

impl Default for ProjectsConfig {
    fn default() -> (res: Self)
        ensures
            strings_view(res.default@) == seed_projects(),
    {
        ProjectsConfig { default: default_projects() }
    }
}

impl Default for UiConfig {
    fn default() -> (res: Self)
        ensures
            res.show_done_in_all == false,
            res.week_days == 7,
    {
        UiConfig { show_done_in_all: default_show_done(), week_days: default_week_days() }
    }
}

impl Default for PomodoroConfig {
    fn default() -> (res: Self)
        ensures
            res.minutes == 25,
    {
        PomodoroConfig { minutes: default_pomo_minutes() }
    }
}

impl Default for Config {
    fn default() -> (res: Self)
        ensures
            strings_view(res.tags.default@) == seed_tags(),
            strings_view(res.projects.default@) == seed_projects(),
            res.ui.show_done_in_all == false,
            res.ui.week_days == 7,
            res.keys@ == Map::<String, String>::empty(),
            res.pomodoro.minutes == 25,
    {
        Config {
            tags: TagsConfig::default(),
            projects: ProjectsConfig::default(),
            ui: UiConfig::default(),
            keys: HashMap::new(),
            pomodoro: PomodoroConfig::default(),
        }
    }
}

} // verus!
