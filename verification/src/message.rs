//! Messages exchanged with the game endpoint.
use crate::action::Action;
use crate::disk::DiskColor;
use crate::judge::JudgeResult;
use crate::position::Position;
use crate::table::Table;
use vstd::prelude::*;

verus! {

/// A request message to execute an action on the table.
pub struct StepRequestMessage {
    /// A table of the game.
    table: Table,
    /// An action to execute.
    action: Action,
}

impl StepRequestMessage {
    /// The table of this request.
    pub closed spec fn table_of(self) -> Table {
        self.table
    }

    /// The action of this request.
    pub closed spec fn action_of(self) -> Action {
        self.action
    }

    /// Creates a new [`StepRequestMessage`].
    pub fn new(table: Table, action: Action) -> (res: Self)
        ensures
            res.table_of() == table,
            res.action_of() == action,
    {
        Self { table, action }
    }

    /// Returns a reference to the table of this [`StepRequestMessage`].
    pub fn table(&self) -> (res: &Table)
        ensures
            *res == self.table_of(),
    {
        &self.table
    }

    /// Returns a reference to the action of this [`StepRequestMessage`].
    pub fn action(&self) -> (res: &Action)
        ensures
            *res == self.action_of(),
    {
        &self.action
    }
}

/// A response message from the game endpoint.
pub struct StateResponseMessage {
    /// A table of the game.
    table: Table,
    /// Next puttable positions.
    puttable_positions: Vec<Position>,
    /// A player colors.
    player_colors: Option<Vec<DiskColor>>,
    /// A result of the game.
    judge_result: Option<JudgeResult>,
}

impl StateResponseMessage {
    /// The table of this response.
    pub closed spec fn table_of(self) -> Table {
        self.table
    }

    /// The puttable positions of this response.
    pub closed spec fn puttable_positions_of(self) -> Seq<Position> {
        self.puttable_positions@
    }

    /// The player colors of this response.
    pub closed spec fn player_colors_of(self) -> Option<Seq<DiskColor>> {
        match self.player_colors {
            Some(colors) => Some(colors@),
            None => None,
        }
    }

    /// The judge result of this response.
    pub closed spec fn judge_result_of(self) -> Option<JudgeResult> {
        self.judge_result
    }

    /// Creates a new [`StateResponseMessage`].
    pub fn new(
        table: Table,
        puttable_positions: Vec<Position>,
        player_colors: Option<Vec<DiskColor>>,
        judge_result: Option<JudgeResult>,
    ) -> (res: Self)
        ensures
            res.table_of() == table,
            res.puttable_positions_of() == puttable_positions@,
            res.player_colors_of() == match player_colors {
                Some(colors) => Some(colors@),
                None => None,
            },
            res.judge_result_of() == judge_result,
    {
        Self { table, puttable_positions, player_colors, judge_result }
    }

    /// Returns a reference to the table of this [`StateResponseMessage`].
    pub fn table(&self) -> (res: &Table)
        ensures
            *res == self.table_of(),
    {
        &self.table
    }

    /// Returns a reference to the puttable positions of this [`StateResponseMessage`].
    pub fn puttable_positions(&self) -> (res: &Vec<Position>)
        ensures
            res@ == self.puttable_positions_of(),
    {
        &self.puttable_positions
    }

    /// Returns a reference to the judge result of this [`StateResponseMessage`].
    pub fn judge_result(&self) -> (res: &Option<JudgeResult>)
        ensures
            *res == self.judge_result_of(),
    {
        &self.judge_result
    }

    /// Returns a reference to the player colors of this [`StateResponseMessage`].
    pub fn player_colors(&self) -> (res: &Option<Vec<DiskColor>>)
        ensures
            self.player_colors_of() == match *res {
                Some(colors) => Some(colors@),
                None => None,
            },
    {
        &self.player_colors
    }

    /// Sets the player colors of this [`StateResponseMessage`].
    pub fn set_player_colors(&mut self, player_colors: Vec<DiskColor>)
        ensures
            final(self).player_colors_of() == Some(player_colors@),
            final(self).table_of() == old(self).table_of(),
            final(self).puttable_positions_of() == old(self).puttable_positions_of(),
            final(self).judge_result_of() == old(self).judge_result_of(),
    {
        self.player_colors = Some(player_colors);
    }
}

} // verus!
