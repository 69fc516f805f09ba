//! The action ledger: an ordered, append-only list of edit and creation
//! actions, later attached to a manifest as one `ActionSet` assertion.

use vstd::prelude::*;
use crate::clock::{now_clamped, rfc3339_of, iso8601_of, MAX_RENDERED_TIMESTAMP};
use crate::error::Error;

verus! {

/// Mathematical view of a list of key/value pairs.
pub open spec fn pairs_view(v: Seq<(String, String)>) -> Seq<(Seq<char>, Seq<char>)> {
    v.map_values(|p: (String, String)| (p.0@, p.1@))
}

/// Mathematical view of an optional string.
pub open spec fn opt_str_view(o: Option<String>) -> Option<Seq<char>> {
    match o {
        Some(s) => Some(s@),
        None => None,
    }
}

/// Mathematical view of one recorded action.
#[verifier::ext_equal]
pub ghost struct ActionModel {
    pub action_type: Seq<char>,
    pub when: u64,
    pub software_agent: Seq<char>,
    pub source_type: Option<Seq<char>>,
    pub reason: Option<Seq<char>>,
    pub parameters: Seq<(Seq<char>, Seq<char>)>,
}

/// One edit or creation action: an open-vocabulary type identifier, the time
/// it happened (seconds since the Unix epoch), the software that performed
/// it, and optional context.
pub struct Action {
    pub action_type: String,
    pub when: u64,
    pub software_agent: String,
    pub source_type: Option<String>,
    pub reason: Option<String>,
    pub parameters: Vec<(String, String)>,
}

impl View for Action {
    type V = ActionModel;

    open spec fn view(&self) -> ActionModel {
        ActionModel {
            action_type: self.action_type@,
            when: self.when,
            software_agent: self.software_agent@,
            source_type: opt_str_view(self.source_type),
            reason: opt_str_view(self.reason),
            parameters: pairs_view(self.parameters@),
        }
    }
}

impl Action {
    /// Builds an action from its parts. The type vocabulary is open: no
    /// identifier is rejected here.
    pub fn new(
        action_type: String,
        when: u64,
        software_agent: String,
        source_type: Option<String>,
        reason: Option<String>,
        parameters: Vec<(String, String)>,
    ) -> (a: Action)
        ensures
            a@ == (ActionModel {
                action_type: action_type@,
                when: when,
                software_agent: software_agent@,
                source_type: opt_str_view(source_type),
                reason: opt_str_view(reason),
                parameters: pairs_view(parameters@),
            }),
    {
        Action { action_type, when, software_agent, source_type, reason, parameters }
    }

    /// The ISO-8601 rendering of this action's time, when the time is within
    /// the renderable calendar range.
    pub fn when_rfc3339(&self) -> (r: Option<String>)
        ensures
            r is Some <==> self@.when <= MAX_RENDERED_TIMESTAMP,
            r is Some ==> r->0@ == iso8601_of(self@.when),
    {
        if self.when <= MAX_RENDERED_TIMESTAMP {
            Some(rfc3339_of(self.when))
        } else {
            None
        }
    }
}

/// Timestamps along a list of actions never decrease, and stay renderable.
pub open spec fn ledger_wf(s: Seq<ActionModel>) -> bool {
    &&& forall|i: int, j: int| 0 <= i <= j < s.len() ==> s[i].when <= s[j].when
    &&& forall|i: int| 0 <= i < s.len() ==> s[i].when <= MAX_RENDERED_TIMESTAMP
}

/// An in-progress, append-only list of actions. Each recorded action is
/// stamped with the current time; the stamp never runs backwards within one
/// ledger.
pub struct ActionLedger {
    actions: Vec<Action>,
}

impl View for ActionLedger {
    type V = Seq<ActionModel>;

    closed spec fn view(&self) -> Seq<ActionModel> {
        self.actions@.map_values(|a: Action| a@)
    }
}

impl ActionLedger {
    /// An empty ledger.
    pub fn new() -> (l: ActionLedger)
        ensures
            l@ =~= Seq::<ActionModel>::empty(),
            ledger_wf(l@),
    {
        ActionLedger { actions: Vec::new() }
    }

    /// Appends one action, stamped with the current time, pushed forward if
    /// needed so that stamps never decrease within the ledger. An empty
    /// action type is the one rejected input; a failed call leaves the
    /// ledger unchanged.
    pub fn record_action(
        &mut self,
        action_type: String,
        software_agent: String,
        source_type: Option<String>,
        reason: Option<String>,
        parameters: Vec<(String, String)>,
    ) -> (r: Result<(), Error>)
        ensures
            r is Ok <==> action_type@.len() > 0,
            r is Err ==> ({
                &&& final(self)@ == old(self)@
                &&& r matches Err(Error::InvalidAssertion { field }) && field@ == "action_type"@
            }),
            r is Ok ==> ({
                &&& final(self)@.len() == old(self)@.len() + 1
                &&& final(self)@.drop_last() =~= old(self)@
                &&& final(self)@.last().action_type == action_type@
                &&& final(self)@.last().software_agent == software_agent@
                &&& final(self)@.last().source_type == opt_str_view(source_type)
                &&& final(self)@.last().reason == opt_str_view(reason)
                &&& final(self)@.last().parameters == pairs_view(parameters@)
                &&& final(self)@.last().when <= MAX_RENDERED_TIMESTAMP
                &&& (ledger_wf(old(self)@) && old(self)@.len() > 0) ==> final(self)@.last().when
                    >= old(self)@.last().when
                &&& ledger_wf(old(self)@) ==> ledger_wf(final(self)@)
            }),
    {
        if action_type.as_str().is_empty() {
            return Err(Error::InvalidAssertion { field: "action_type".to_owned() });
        }
        let mut when = now_clamped();
        let n = self.actions.len();
        if n > 0 {
            let prev = self.actions[n - 1].when;
            if prev > when && prev <= MAX_RENDERED_TIMESTAMP {
                when = prev;
            }
        }
        let a = Action::new(action_type, when, software_agent, source_type, reason, parameters);
        self.actions.push(a);
        proof {
            assert(self@ =~= old(self)@.push(a@));
            assert(self@.drop_last() =~= old(self)@);
        }
        Ok(())
    }

    /// How many actions are recorded.
    pub fn len(&self) -> (n: usize)
        ensures
            n == self@.len(),
    {
        self.actions.len()
    }

    /// The recorded actions, oldest first.
    pub fn actions(&self) -> (r: &Vec<Action>)
        ensures
            r@.map_values(|a: Action| a@) == self@,
    {
        &self.actions
    }

    /// Hands the recorded actions over, for attachment to a manifest.
    pub fn into_actions(self) -> (r: Vec<Action>)
        ensures
            r@.map_values(|a: Action| a@) == self@,
    {
        self.actions
    }
}

} // verus!
