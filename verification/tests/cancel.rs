use line_backup_native::cancel::{
    cancellation_outcome, check_cancelled, CancellationScope, CancellationToken,
};
use line_backup_native::error::CoreError;

#[test]
fn cancellation_is_scoped_and_shared_across_clones() {
    let token = CancellationToken::new();
    let clone = token.clone();
    let outside = CancellationScope::unscoped();
    {
        let scope = CancellationScope::enter(&token);
        assert!(check_cancelled(&scope).is_ok());
        clone.cancel();
        assert!(check_cancelled(&scope).is_err());
    }
    assert!(check_cancelled(&outside).is_ok());
}

#[test]
fn clones_share_one_operation_and_fresh_tokens_do_not() {
    let token = CancellationToken::new();
    let clone = token.clone();
    let other = CancellationToken::new();
    assert!(token.same_operation(&clone));
    assert!(!token.same_operation(&other));
    assert!(!token.is_cancelled());
    clone.cancel();
    assert!(token.is_cancelled());
    assert!(!other.is_cancelled());
}

#[test]
fn run_returns_the_result_or_the_cancellation() {
    let token = CancellationToken::new();
    let value = token.run(|scope| {
        check_cancelled(scope)?;
        Ok(41 + 1)
    });
    assert_eq!(value, Ok(42));
    let cancelled = CancellationToken::new();
    cancelled.cancel();
    let refused: Result<u32, CoreError> = cancelled.run(|_| Ok(1));
    assert_eq!(refused, Err(CoreError::Cancelled));
}

#[test]
fn a_set_flag_answers_cancelled() {
    assert_eq!(cancellation_outcome(true), Err(CoreError::Cancelled));
    assert_eq!(cancellation_outcome(false), Ok(()));
}

#[test]
fn the_scope_run_hands_out_answers_to_the_running_token() {
    let token = CancellationToken::default();
    let other = token.clone();
    let mut saw_cancellation = false;
    let result: Result<(), CoreError> = token.run(|scope| {
        other.cancel();
        saw_cancellation = check_cancelled(scope).is_err();
        Ok(())
    });
    assert!(saw_cancellation);
    assert_eq!(result, Err(CoreError::Cancelled));
    let fresh = CancellationToken::default();
    assert!(!fresh.is_cancelled());
}
