//! Cancellation of long operations.
//!
//! A token is shared by every clone of it; cancelling one clone cancels
//! them all. A scope names the token that the work running inside it
//! answers to, and work checks its scope at safe points.

use std::sync::atomic::AtomicBool;
use std::sync::atomic::Ordering;
use std::sync::Arc;

use vstd::prelude::*;

use crate::error::CoreError;

verus! {

/// A shared cancellation flag.
#[derive(Clone, Default)]
pub struct CancellationToken {
    flag: Arc<AtomicBool>,
}

/// Whether two handles share one allocation (`Arc::ptr_eq`).
///
/// Nothing is stated of the result: it is a question of addresses.
#[verifier::external_body]
fn shares_allocation(a: &Arc<AtomicBool>, b: &Arc<AtomicBool>) -> bool {
    Arc::ptr_eq(a, b)
}

impl CancellationToken {
    /// A fresh token that is not cancelled.
    ///
    /// The flag lives in an atomic shared by every clone; vstd gives its
    /// operations no contract on the value, so nothing is stated here.
    pub fn new() -> Self {
        CancellationToken { flag: Arc::new(AtomicBool::new(false)) }
    }

    /// Cancels the token and every clone of it.
    pub fn cancel(&self) {
        self.flag.store(true, Ordering::Release);
    }

    /// Whether the token, or a clone of it, has been cancelled.
    ///
    /// Any clone may set the flag at any moment, so the answer depends on
    /// when it is read, and no clause fixes it.
    pub fn is_cancelled(&self) -> bool {
        self.flag.load(Ordering::Acquire)
    }

    /// Whether `other` is a clone of this token.
    ///
    /// This is a question of allocation identity, which the contracts do
    /// not model, so nothing is stated of the answer.
    pub fn same_operation(&self, other: &Self) -> bool {
        shares_allocation(&self.flag, &other.flag)
    }

    /// Runs `operation` inside a scope of this token, checking for
    /// cancellation before and after it: the scope handed to the operation
    /// answers to this token.
    pub fn run<T, F>(&self, operation: F) -> (r: Result<T, CoreError>)
        where
            F: FnOnce(&CancellationScope) -> Result<T, CoreError>,
        requires
            forall|scope: &CancellationScope| scope.active() == Some(*self) ==> call_requires(
                operation,
                (scope,),
            ),
        ensures
            r matches Ok(value) ==> exists|scope: &CancellationScope|
                scope.active() == Some(*self) && call_ensures(
                    operation,
                    (scope,),
                    Ok::<T, CoreError>(value),
                ),
            r matches Err(e) ==> e == CoreError::Cancelled || exists|scope: &CancellationScope|
                scope.active() == Some(*self) && call_ensures(
                    operation,
                    (scope,),
                    Err::<T, CoreError>(e),
                ),
    {
        let scope = CancellationScope::enter(self);
        check_cancelled(&scope)?;
        let result = operation(&scope);
        match result {
            Ok(value) => {
                match check_cancelled(&scope) {
                    Ok(()) => Ok(value),
                    Err(e) => Err(e),
                }
            },
            Err(e) => Err(e),
        }
    }
}

/// The token that the work running inside a scope answers to.
pub struct CancellationScope<'a> {
    active: Option<&'a CancellationToken>,
}

impl<'a> CancellationScope<'a> {
    /// The scope of work that answers to no token.
    pub fn unscoped() -> (r: Self)
        ensures
            r.active() is None,
    {
        CancellationScope { active: None }
    }

    /// A scope whose work answers to `token`.
    pub fn enter(token: &'a CancellationToken) -> (r: Self)
        ensures
            r.active() == Some(*token),
    {
        CancellationScope { active: Some(token) }
    }

    /// The token of the scope, if any.
    pub closed spec fn active(&self) -> Option<CancellationToken> {
        match self.active {
            Some(t) => Some(*t),
            None => None,
        }
    }
}

/// What a check answers once the token's flag has been read: `Cancelled`
/// when it is set, success otherwise.
pub fn cancellation_outcome(cancelled: bool) -> (r: Result<(), CoreError>)
    ensures
        r == if cancelled {
            Err::<(), CoreError>(CoreError::Cancelled)
        } else {
            Ok::<(), CoreError>(())
        },
{
    if cancelled {
        Err(CoreError::Cancelled)
    } else {
        Ok(())
    }
}

/// Fails with `Cancelled` when the scope's token has been cancelled.
///
/// Work outside any token is never cancelled. Within a token, the answer
/// is `cancellation_outcome` of the flag as read at the time of the call,
/// which other clones may set at any moment, so no clause fixes it.
pub fn check_cancelled(scope: &CancellationScope) -> (r: Result<(), CoreError>)
    ensures
        scope.active() is None ==> r is Ok,
        r matches Err(e) ==> e == CoreError::Cancelled,
{
    match &scope.active {
        Some(token) => cancellation_outcome(token.is_cancelled()),
        None => Ok(()),
    }
}

} // verus!
