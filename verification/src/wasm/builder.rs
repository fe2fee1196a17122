//! The connection builder of the browser bindings.
//!
//! Every step that talks to the indexer is in two parts. The first checks the state and hands
//! out what the step needs; the second takes the outcome and sets the new state. In between
//! there is no state, so no other step can begin.

use vstd::prelude::*;
use vstd::string::*;

use crate::builder::{
    awaits_approval, awaits_connection, awaits_registration, take_approved, take_disconnected,
    take_requesting, BuilderState, State,
};
use crate::ids::{hash_error, hash_value, parse_hash};

verus! {

/// A step is refused for want of any state where there is none, and otherwise for want of the
/// state that it needs.
pub proof fn lemma_refusal<D, R, A>(state: State<D, R, A>, expected: Seq<char>)
    ensures
        state is None ==> refusal(state, expected) == "invalid builder state"@,
        state is Some ==> refusal(state, expected) == expected,
{
}

/// Why a step that needs another state is refused.
pub open spec fn refusal<D, R, A>(state: State<D, R, A>, expected: Seq<char>) -> Seq<char> {
    if state is None {
        "invalid builder state"@
    } else {
        expected
    }
}

fn refuse<D, R, A>(state: &State<D, R, A>, expected: &str) -> (message: String)
    ensures
        message@ == refusal(*state, expected@),
{
    if state.is_none() {
        "invalid builder state".to_string()
    } else {
        expected.to_string()
    }
}

/// A connection builder.
pub struct Builder<D, R, A> {
    pub state: State<D, R, A>,
}

impl<D, R, A> Builder<D, R, A> {
    /// A builder that has not contacted the indexer.
    pub fn new(builder: D) -> (result: Builder<D, R, A>)
        ensures
            result.state == Some(BuilderState::<D, R, A>::Disconnected(builder)),
    {
        Builder { state: Some(BuilderState::Disconnected(builder)) }
    }

    /// Begins to request a new app connection.
    pub fn request_connection(&mut self) -> (result: Result<D, String>)
        ensures
            result is Ok ==> awaits_connection(old(self).state),
            match old(self).state {
                Some(BuilderState::Disconnected(builder)) => {
                    &&& result == Ok::<D, String>(builder)
                    &&& final(self).state is None
                },
                _ => {
                    &&& result is Err
                    &&& result->Err_0@ == refusal(
                        old(self).state,
                        "invalid state: expected Disconnected"@,
                    )
                    &&& result->Err_0@ == if old(self).state is None {
                        "invalid builder state"@
                    } else {
                        "invalid state: expected Disconnected"@
                    }
                    &&& final(self).state == old(self).state
                },
            },
    {
        match take_disconnected(&mut self.state) {
            Some(builder) => Ok(builder),
            None => Err(refuse(&self.state, "invalid state: expected Disconnected")),
        }
    }

    /// Begins to take a connection response that was fetched out of band. `response` is the
    /// response as it was read, or what is wrong with it.
    pub fn set_connection_response<T>(
        &mut self,
        app_id_hex: &str,
        response: Result<T, String>,
    ) -> (result: Result<(D, [u8; 32], T), String>)
        ensures
            result is Ok ==> awaits_connection(old(self).state),
            match hash_value(app_id_hex@) {
                None => {
                    &&& result is Err
                    &&& result->Err_0@ == hash_error(app_id_hex@)
                    &&& final(self).state == old(self).state
                },
                Some(app_id) => match response {
                    Err(e) => {
                        &&& result == Err::<(D, [u8; 32], T), String>(e)
                        &&& final(self).state == old(self).state
                    },
                    Ok(response) => match old(self).state {
                        Some(BuilderState::Disconnected(builder)) => {
                            &&& final(self).state is None
                            &&& result is Ok
                            &&& result->Ok_0.0 == builder
                            &&& result->Ok_0.1@ == app_id
                            &&& result->Ok_0.2 == response
                        },
                        _ => {
                            &&& result is Err
                            &&& result->Err_0@ == refusal(
                                old(self).state,
                                "invalid state: expected Disconnected"@,
                            )
                    &&& result->Err_0@ == if old(self).state is None {
                        "invalid builder state"@
                    } else {
                        "invalid state: expected Disconnected"@
                    }
                            &&& final(self).state == old(self).state
                        },
                    },
                },
            },
    {
        let app_id = match parse_hash(app_id_hex) {
            Ok(app_id) => app_id,
            Err(e) => {
                return Err(e);
            },
        };
        let response = match response {
            Ok(response) => response,
            Err(e) => {
                return Err(e);
            },
        };
        match self.request_connection() {
            Ok(builder) => Ok((builder, app_id, response)),
            Err(e) => Err(e),
        }
    }

    /// Ends `request_connection` or `set_connection_response`: the app waits for approval, or
    /// the step failed.
    pub fn connection_requested(&mut self, outcome: Result<R, String>) -> (result: Result<
        (),
        String,
    >)
        ensures
            match outcome {
                Ok(builder) => {
                    &&& result is Ok
                    &&& final(self).state == Some(
                        BuilderState::<D, R, A>::RequestingApproval(builder),
                    )
                },
                Err(e) => {
                    &&& result == Err::<(), String>(e)
                    &&& final(self).state == old(self).state
                },
            },
    {
        match outcome {
            Ok(builder) => {
                self.state = Some(BuilderState::RequestingApproval(builder));
                Ok(())
            },
            Err(e) => Err(e),
        }
    }

    /// What knows the URL that the user must visit to approve the app.
    pub fn response_url(&self) -> (result: Result<&R, String>)
        ensures
            result is Ok ==> awaits_approval(self.state),
            match self.state {
                Some(BuilderState::RequestingApproval(builder)) => result is Ok && *result->Ok_0
                    == builder,
                _ => {
                    &&& result is Err
                    &&& result->Err_0@ == "invalid state: expected RequestingApproval"@
                },
            },
    {
        match &self.state {
            Some(BuilderState::RequestingApproval(builder)) => Ok(builder),
            _ => Err("invalid state: expected RequestingApproval".to_string()),
        }
    }

    /// Begins to poll for approval.
    pub fn wait_for_approval(&mut self) -> (result: Result<R, String>)
        ensures
            result is Ok ==> awaits_approval(old(self).state),
            match old(self).state {
                Some(BuilderState::RequestingApproval(builder)) => {
                    &&& result == Ok::<R, String>(builder)
                    &&& final(self).state is None
                },
                _ => {
                    &&& result is Err
                    &&& result->Err_0@ == refusal(
                        old(self).state,
                        "invalid state: expected RequestingApproval"@,
                    )
                    &&& result->Err_0@ == if old(self).state is None {
                        "invalid builder state"@
                    } else {
                        "invalid state: expected RequestingApproval"@
                    }
                    &&& final(self).state == old(self).state
                },
            },
    {
        match take_requesting(&mut self.state) {
            Some(builder) => Ok(builder),
            None => Err(refuse(&self.state, "invalid state: expected RequestingApproval")),
        }
    }

    /// Ends `wait_for_approval`.
    pub fn approved(&mut self, outcome: Result<A, String>) -> (result: Result<(), String>)
        ensures
            match outcome {
                Ok(builder) => {
                    &&& result is Ok
                    &&& final(self).state == Some(BuilderState::<D, R, A>::Approved(builder))
                },
                Err(e) => {
                    &&& result == Err::<(), String>(e)
                    &&& final(self).state == old(self).state
                },
            },
    {
        match outcome {
            Ok(builder) => {
                self.state = Some(BuilderState::Approved(builder));
                Ok(())
            },
            Err(e) => Err(e),
        }
    }

    /// Begins to connect using an existing app key.
    pub fn connected(&mut self) -> (result: Result<D, String>)
        ensures
            result is Ok ==> awaits_connection(old(self).state),
            match old(self).state {
                Some(BuilderState::Disconnected(builder)) => {
                    &&& result == Ok::<D, String>(builder)
                    &&& final(self).state is None
                },
                _ => {
                    &&& result is Err
                    &&& result->Err_0@ == refusal(
                        old(self).state,
                        "invalid state: expected Disconnected"@,
                    )
                    &&& result->Err_0@ == if old(self).state is None {
                        "invalid builder state"@
                    } else {
                        "invalid state: expected Disconnected"@
                    }
                    &&& final(self).state == old(self).state
                },
            },
    {
        match take_disconnected(&mut self.state) {
            Some(builder) => Ok(builder),
            None => Err(refuse(&self.state, "invalid state: expected Disconnected")),
        }
    }

    /// Ends `connected`. Where the key is not recognized nothing is returned, and the builder can
    /// be used again.
    pub fn connect_finished<S>(
        &mut self,
        builder: D,
        outcome: Result<Option<S>, String>,
    ) -> (result: Result<Option<S>, String>)
        ensures
            result == outcome,
            match outcome {
                Ok(Some(_)) => final(self).state == Some(BuilderState::<D, R, A>::Finalized),
                Ok(None) => final(self).state == Some(
                    BuilderState::<D, R, A>::Disconnected(builder),
                ),
                Err(_) => final(self).state == old(self).state,
            },
    {
        match outcome {
            Ok(Some(sdk)) => {
                self.state = Some(BuilderState::Finalized);
                Ok(Some(sdk))
            },
            Ok(None) => {
                self.state = Some(BuilderState::Disconnected(builder));
                Ok(None)
            },
            Err(e) => Err(e),
        }
    }

    /// Begins to register the app with the user's recovery phrase.
    pub fn register(&mut self) -> (result: Result<A, String>)
        ensures
            result is Ok ==> awaits_registration(old(self).state),
            match old(self).state {
                Some(BuilderState::Approved(builder)) => {
                    &&& result == Ok::<A, String>(builder)
                    &&& final(self).state is None
                },
                _ => {
                    &&& result is Err
                    &&& result->Err_0@ == refusal(
                        old(self).state,
                        "invalid state: expected Approved"@,
                    )
                    &&& result->Err_0@ == if old(self).state is None {
                        "invalid builder state"@
                    } else {
                        "invalid state: expected Approved"@
                    }
                    &&& final(self).state == old(self).state
                },
            },
    {
        match take_approved(&mut self.state) {
            Some(builder) => Ok(builder),
            None => Err(refuse(&self.state, "invalid state: expected Approved")),
        }
    }

    /// Ends `register`.
    pub fn registered<S>(&mut self, outcome: Result<S, String>) -> (result: Result<S, String>)
        ensures
            result == outcome,
            match outcome {
                Ok(_) => final(self).state == Some(BuilderState::<D, R, A>::Finalized),
                Err(_) => final(self).state == old(self).state,
            },
    {
        match outcome {
            Ok(sdk) => {
                self.state = Some(BuilderState::Finalized);
                Ok(sdk)
            },
            Err(e) => Err(e),
        }
    }
}

} // verus!
