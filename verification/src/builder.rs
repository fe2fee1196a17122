//! The life cycle of a connection: from the first contact with an indexer to a registered app.

use vstd::prelude::*;

verus! {

/// Where a connection stands. The states carry what the next step needs.
pub enum BuilderState<D, R, A> {
    Disconnected(D),
    RequestingApproval(R),
    Approved(A),
    Finalized,
}

/// The state of a connection. There is none while a step is under way, and after a step that
/// failed.
pub type State<D, R, A> = Option<BuilderState<D, R, A>>;

/// Whether a connection can be requested, or an app key tried.
pub open spec fn awaits_connection<D, R, A>(state: State<D, R, A>) -> bool {
    state is Some && state->0 is Disconnected
}

/// Whether the user's approval can be waited for.
pub open spec fn awaits_approval<D, R, A>(state: State<D, R, A>) -> bool {
    state is Some && state->0 is RequestingApproval
}

/// Whether the app can be registered.
pub open spec fn awaits_registration<D, R, A>(state: State<D, R, A>) -> bool {
    state is Some && state->0 is Approved
}

/// The steps come one after the other: in every state at most one kind of step can begin, and
/// none while a step is under way, after one that failed, or once the connection is made.
pub proof fn lemma_one_step_at_a_time<D, R, A>(state: State<D, R, A>)
    ensures
        !(awaits_connection(state) && awaits_approval(state)),
        !(awaits_connection(state) && awaits_registration(state)),
        !(awaits_approval(state) && awaits_registration(state)),
        state is None || state->0 is Finalized ==> {
            &&& !awaits_connection(state)
            &&& !awaits_approval(state)
            &&& !awaits_registration(state)
        },
{
}

/// Takes the state out where it is `Disconnected`.
pub fn take_disconnected<D, R, A>(state: &mut State<D, R, A>) -> (taken: Option<D>)
    ensures
        match *old(state) {
            Some(BuilderState::Disconnected(d)) => taken == Some(d) && *final(state) is None,
            _ => taken is None && *final(state) == *old(state),
        },
{
    match state.take() {
        Some(BuilderState::Disconnected(d)) => Some(d),
        other => {
            *state = other;
            None
        },
    }
}

/// Takes the state out where it is `RequestingApproval`.
pub fn take_requesting<D, R, A>(state: &mut State<D, R, A>) -> (taken: Option<R>)
    ensures
        match *old(state) {
            Some(BuilderState::RequestingApproval(r)) => taken == Some(r) && *final(
                state) is None,
            _ => taken is None && *final(state) == *old(state),
        },
{
    match state.take() {
        Some(BuilderState::RequestingApproval(r)) => Some(r),
        other => {
            *state = other;
            None
        },
    }
}

/// Takes the state out where it is `Approved`.
pub fn take_approved<D, R, A>(state: &mut State<D, R, A>) -> (taken: Option<A>)
    ensures
        match *old(state) {
            Some(BuilderState::Approved(a)) => taken == Some(a) && *final(state) is None,
            _ => taken is None && *final(state) == *old(state),
        },
{
    match state.take() {
        Some(BuilderState::Approved(a)) => Some(a),
        other => {
            *state = other;
            None
        },
    }
}

} // verus!
