//! State that every worker shares.

use std::time::Duration;

use vstd::prelude::*;

use crate::config::{Config, TeamFilterMode, TeamList};

verus! {

/// What `Duration::from_secs` returns.
pub uninterp spec fn whole_seconds(secs: u64) -> Duration;

/// `std::time::Duration::from_secs`: the duration of that many whole seconds, a
/// function of the number alone.
pub assume_specification[ Duration::from_secs ](secs: u64) -> (duration: Duration)
    ensures
        duration == whole_seconds(secs),
;

/// Shared state handed to every worker loop.
pub struct AppContext {
    pub filter_mode: TeamFilterMode,
    pub filtered_teams: TeamList,
    pub flush_interval: Duration,
    pub max_entries_per_partition: usize,
}

impl AppContext {
    /// The shared state that a configuration asks for.
    pub fn new(config: &Config) -> (context: AppContext)
        ensures
            context.filter_mode == config.filter_mode,
            context.filtered_teams.teams@ == config.filtered_teams.teams@,
            context.flush_interval == whole_seconds(config.flush_interval_secs),
            context.max_entries_per_partition == config.max_entries_per_partition,
            forall|team_id: i64| #[trigger]
                context.processes(team_id) == config.filter_mode.processes(
                    config.filtered_teams.teams@,
                    team_id,
                ),
    {
        AppContext {
            filter_mode: config.filter_mode,
            filtered_teams: config.filtered_teams.clone(),
            flush_interval: Duration::from_secs(config.flush_interval_secs),
            max_entries_per_partition: config.max_entries_per_partition,
        }
    }

    /// Whether events of a team are processed.
    pub open spec fn processes(&self, team_id: i64) -> bool {
        self.filter_mode.processes(self.filtered_teams.teams@, team_id)
    }

    /// Whether events of a team are processed.
    pub fn should_process(&self, team_id: i64) -> (process: bool)
        ensures
            process == self.processes(team_id),
            process <==> match self.filter_mode {
                TeamFilterMode::OptIn => exists|i: int|
                    0 <= i < self.filtered_teams.teams@.len()
                        && #[trigger] self.filtered_teams.teams@[i] == team_id,
                TeamFilterMode::OptOut => forall|i: int|
                    0 <= i < self.filtered_teams.teams@.len()
                        ==> #[trigger] self.filtered_teams.teams@[i] != team_id,
            },
    {
        self.filter_mode.should_process(self.filtered_teams.teams.as_slice(), team_id)
    }
}

/// A context processes, in opt-in mode, the teams that stand somewhere in its list and no
/// others; in opt-out mode, those that stand nowhere in it and no others.
pub proof fn lemma_context_goes_by_its_list(context: AppContext, team_id: i64)
    ensures
        context.filter_mode is OptIn ==> (context.processes(team_id) <==> exists|i: int|
            0 <= i < context.filtered_teams.teams@.len()
                && #[trigger] context.filtered_teams.teams@[i] == team_id),
        context.filter_mode is OptOut ==> (context.processes(team_id) <==> forall|i: int|
            0 <= i < context.filtered_teams.teams@.len()
                ==> #[trigger] context.filtered_teams.teams@[i] != team_id),
{
}

} // verus!
