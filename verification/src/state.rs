//! What is kept of the accounts between runs, and how a sign-in enters it.

use vstd::prelude::*;
use crate::localtime::{expiry, expiry_after};
use crate::types::{token_views, GoogleAuthToken, GoogleAuthTokenView, StateToken, StateTokenView};

verus! {

/// The views of a list of stored tokens, in order.
pub open spec fn state_views(state: Seq<StateToken>) -> Seq<StateTokenView> {
    state.map_values(|s: StateToken| s@)
}

/// The tokens of `state` that say whom they belong to, in order.
pub open spec fn identified(state: Seq<StateTokenView>) -> Seq<GoogleAuthTokenView> {
    state.filter(|s: StateTokenView| s.token.user is Some).map_values(|s: StateTokenView| s.token)
}

/// The tokens to restore the registry from: those of `state` that say whom
/// they belong to.
pub fn signed_in_tokens(state: &Vec<StateToken>) -> (tokens: Vec<GoogleAuthToken>)
    ensures
        token_views(tokens@) == identified(state_views(state@)),
        forall|i: int| 0 <= i < tokens.len() ==> (#[trigger] tokens[i])@.user is Some,
{
    let ghost all = state_views(state@);
    let ghost pred = |s: StateTokenView| s.token.user is Some;
    let mut tokens: Vec<GoogleAuthToken> = Vec::new();
    let mut i: usize = 0;
    proof {
        reveal(Seq::filter);
        assert(all.take(0) =~= Seq::empty());
        assert(token_views(tokens@) =~= identified(all.take(0)));
    }
    while i < state.len()
        invariant
            i <= state.len(),
            all == state_views(state@),
            pred == (|s: StateTokenView| s.token.user is Some),
            token_views(tokens@) == identified(all.take(i as int)),
            forall|k: int| 0 <= k < tokens.len() ==> (#[trigger] tokens[k])@.user is Some,
        decreases state.len() - i,
    {
        proof {
            reveal(Seq::filter);
            let next = all.take(i + 1);
            assert(next.drop_last() =~= all.take(i as int));
            assert(next.last() == state[i as int]@);
        }
        if state[i].token.user.is_some() {
            let ghost earlier = token_views(tokens@);
            tokens.push(state[i].token.clone());
            proof {
                assert(all.take(i + 1).filter(pred) == all.take(i as int).filter(pred).push(
                    state[i as int]@,
                ));
                assert(token_views(tokens@) =~= earlier.push(state[i as int]@.token));
                assert(identified(all.take(i + 1)) =~= earlier.push(state[i as int]@.token));
            }
        } else {
            assert(all.take(i + 1).filter(pred) == all.take(i as int).filter(pred));
        }
        i += 1;
    }
    assert(all.take(i as int) =~= all);
    tokens
}

/// What is stored for a token: the token, and no flag beside it.
pub open spec fn stored(token: GoogleAuthTokenView) -> StateTokenView {
    StateTokenView { token, disabled: None }
}

/// What is stored for `tokens`: one entry for each, in order.
pub fn state_of(tokens: &Vec<GoogleAuthToken>) -> (state: Vec<StateToken>)
    ensures
        state_views(state@) == token_views(tokens@).map_values(|t: GoogleAuthTokenView| stored(t)),
{
    let mut state: Vec<StateToken> = Vec::new();
    let mut i: usize = 0;
    while i < tokens.len()
        invariant
            i <= tokens.len(),
            state.len() == i,
            forall|k: int| 0 <= k < i ==> (#[trigger] state[k])@ == stored(tokens[k]@),
        decreases tokens.len() - i,
    {
        state.push(StateToken { token: tokens[i].clone(), disabled: None });
        i += 1;
    }
    assert(state_views(state@) =~= token_views(tokens@).map_values(
        |t: GoogleAuthTokenView| stored(t),
    ));
    state
}

/// What to store when an installation is found that kept a single token:
/// nothing where the list of accounts exists already or no token could be
/// read, else a list with that token alone.
pub fn migrated_state(has_accounts: bool, single: Option<GoogleAuthToken>) -> (state: Option<
    Vec<StateToken>,
>)
    ensures
        match state {
            Some(list) => {
                &&& !has_accounts
                &&& single matches Some(token)
                &&& state_views(list@) == seq![stored(token@)]
            },
            None => has_accounts || single is None,
        },
{
    if has_accounts {
        return None;
    }
    match single {
        Some(token) => {
            let mut list: Vec<StateToken> = Vec::new();
            list.push(StateToken { token, disabled: None });
            assert(state_views(list@) =~= seq![stored(token@)]);
            Some(list)
        },
        None => None,
    }
}

/// `token` as it enters at a sign-in at `now`, `nanos` nanoseconds into
/// that second: with the expiry that follows from its lifetime.
pub fn stamp_expiry(token: GoogleAuthToken, now: i64, nanos: u32) -> (stamped: GoogleAuthToken)
    ensures
        stamped@ == (GoogleAuthTokenView {
            expires_at: Some(expiry(now as int, nanos as int, token@.expires_in as int) as i64),
            ..token@
        }),
{
    let mut stamped = token;
    stamped.expires_at = Some(expiry_after(now, nanos, stamped.expires_in));
    stamped
}

} // verus!
