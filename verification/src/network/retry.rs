//! What to do when a request has failed: send it again, or give up.

use vstd::prelude::*;
use crate::error::{retry_views, Error, ErrorView, RetryReasonView, RetryReasons};

verus! {

/// What becomes of a request that has failed.
#[derive(Debug, PartialEq, Eq)]
pub enum Verdict {
    /// The request is sent again, with these reasons for the router.
    Retry(RetryReasons),
    /// The request would be sent again, but it has been sent as often as
    /// allowed: the caller gets the last error.
    Exhausted(Error),
    /// The caller gets the error.
    Surface(Error),
}

/// Mathematical form of a [`Verdict`].
pub enum VerdictView {
    Retry(Seq<RetryReasonView>),
    Exhausted(ErrorView),
    Surface(ErrorView),
}

impl View for Verdict {
    type V = VerdictView;

    open spec fn view(&self) -> VerdictView {
        match *self {
            Verdict::Retry(reasons) => VerdictView::Retry(retry_views(reasons@)),
            Verdict::Exhausted(e) => VerdictView::Exhausted(e@),
            Verdict::Surface(e) => VerdictView::Surface(e@),
        }
    }
}

/// The error is one after which a request is sent again: a redirection
/// always, a disconnect where the request asks for it.
pub open spec fn calls_for_retry(error: ErrorView, retry_on_error: bool) -> bool {
    error is Retry || (error is Disconnected && retry_on_error)
}

/// What becomes of a request that has failed with `error` after it was sent
/// `attempts` times, where it may be sent `max_command_attempts` times in
/// all.
pub open spec fn verdict(
    error: ErrorView,
    attempts: usize,
    max_command_attempts: usize,
    retry_on_error: bool,
) -> VerdictView {
    if !calls_for_retry(error, retry_on_error) {
        VerdictView::Surface(error)
    } else if attempts >= max_command_attempts {
        VerdictView::Exhausted(error)
    } else {
        match error {
            ErrorView::Retry(reasons) => VerdictView::Retry(reasons),
            _ => VerdictView::Retry(Seq::empty()),
        }
    }
}

/// What becomes of a request that has failed.
pub fn after_failure(
    error: Error,
    attempts: usize,
    max_command_attempts: usize,
    retry_on_error: bool,
) -> (r: Verdict)
    ensures
        r@ == verdict(error@, attempts, max_command_attempts, retry_on_error),
{
    match error {
        Error::Retry(reasons) => {
            if attempts >= max_command_attempts {
                Verdict::Exhausted(Error::Retry(reasons))
            } else {
                Verdict::Retry(reasons)
            }
        },
        Error::Disconnected => {
            if !retry_on_error {
                Verdict::Surface(Error::Disconnected)
            } else if attempts >= max_command_attempts {
                Verdict::Exhausted(Error::Disconnected)
            } else {
                let none = RetryReasons::new();
                assert(retry_views(none@) =~= Seq::<RetryReasonView>::empty());
                Verdict::Retry(none)
            }
        },
        other => Verdict::Surface(other),
    }
}

} // verus!
