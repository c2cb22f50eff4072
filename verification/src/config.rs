//! Settings that decide which teams are aggregated and when buffers are flushed.

use vstd::prelude::*;

verus! {

/// How the list of teams is read.
#[derive(Debug, Clone, Copy, PartialEq, Eq, Structural)]
pub enum TeamFilterMode {
    /// Only the listed teams are processed.
    OptIn,
    /// All teams but the listed ones are processed.
    OptOut,
}

impl TeamFilterMode {
    /// Whether events of a team are processed.
    pub open spec fn processes(self, teams: Seq<i64>, team_id: i64) -> bool {
        match self {
            TeamFilterMode::OptIn => teams.contains(team_id),
            TeamFilterMode::OptOut => !teams.contains(team_id),
        }
    }

    /// Whether events of a team are processed.
    pub fn should_process(&self, teams: &[i64], team_id: i64) -> (process: bool)
        ensures
            process == self.processes(teams@, team_id),
            *self is OptIn ==> (process <==> exists|i: int|
                0 <= i < teams@.len() && #[trigger] teams@[i] == team_id),
            *self is OptOut ==> (process <==> forall|i: int|
                0 <= i < teams@.len() ==> #[trigger] teams@[i] != team_id),
    {
        let listed = is_listed(teams, team_id);
        match self {
            TeamFilterMode::OptIn => listed,
            TeamFilterMode::OptOut => !listed,
        }
    }
}

/// Over one list, either mode processes exactly the teams that the other leaves out.
pub proof fn lemma_filter_modes_are_complementary(teams: Seq<i64>, team_id: i64)
    ensures
        TeamFilterMode::OptIn.processes(teams, team_id) <==> !TeamFilterMode::OptOut.processes(
            teams,
            team_id,
        ),
{
}

/// Every place of the list counts: in opt-in mode the team at any place is processed, in
/// opt-out mode it is not.
pub proof fn lemma_every_listed_team_counts(teams: Seq<i64>, i: int)
    requires
        0 <= i < teams.len(),
    ensures
        TeamFilterMode::OptIn.processes(teams, teams[i]),
        !TeamFilterMode::OptOut.processes(teams, teams[i]),
{
}

/// A team that stands at no place of the list is left out in opt-in mode and processed
/// in opt-out mode.
pub proof fn lemma_no_other_team_counts(teams: Seq<i64>, team_id: i64)
    requires
        forall|i: int| 0 <= i < teams.len() ==> #[trigger] teams[i] != team_id,
    ensures
        !TeamFilterMode::OptIn.processes(teams, team_id),
        TeamFilterMode::OptOut.processes(teams, team_id),
{
}

fn is_listed(teams: &[i64], team_id: i64) -> (listed: bool)
    ensures
        listed == teams@.contains(team_id),
{
    for i in 0..teams.len()
        invariant
            forall|j: int| 0 <= j < i ==> teams@[j] != team_id,
    {
        if teams[i] == team_id {
            return true;
        }
    }
    false
}

/// A list of teams.
#[derive(Debug)]
pub struct TeamList {
    pub teams: Vec<i64>,
}

impl Clone for TeamList {
    fn clone(&self) -> (copy: Self)
        ensures
            copy.teams@ == self.teams@,
    {
        let teams = self.teams.clone();
        assert(teams@ =~= self.teams@);
        TeamList { teams }
    }
}

/// The settings that the workers read.
#[derive(Debug)]
pub struct Config {
    pub filter_mode: TeamFilterMode,
    pub filtered_teams: TeamList,
    pub flush_interval_secs: u64,
    pub max_entries_per_partition: usize,
}

} // verus!
