use vstd::prelude::*;

use super::{actions_view, Action, ActionView, Line, LineView};
use crate::ss::LineType;

verus! {

/// When its pair closes, a remote gate connection is shut down both ways;
/// other connections do nothing.
pub open spec fn pair_close_actions(lt: LineType) -> Seq<ActionView> {
    if lt is MainLand {
        seq![ActionView::ShutdownBoth]
    } else {
        Seq::empty()
    }
}

impl Line {
    pub fn set_pair_id(&mut self, id: usize)
        ensures
            final(self)@ == (LineView { pair_id: id, ..old(self)@ }),
    {
        self.pair_id = id;
    }

    /// The pair `id` of this line has closed.
    pub fn on_pair_close(&mut self, id: usize) -> (acts: Vec<Action>)
        ensures
            final(self)@ == old(self)@,
            actions_view(acts@) == pair_close_actions(old(self).line_type),
    {
        let mut acts: Vec<Action> = Vec::new();
        match self.line_type {
            LineType::MainLand => acts.push(Action::ShutdownBoth),
            _ => {},
        }
        proof {
            assert(actions_view(acts@) =~= pair_close_actions(old(self).line_type));
        }
        acts
    }
}

} // verus!
