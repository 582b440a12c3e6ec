//! Trusted declarations for tokio_util's cancellation token, the cooperative
//! stop signal the search polls at every recursion frame.

use vstd::prelude::*;

verus! {

/// Declares tokio_util's `CancellationToken` so that verified code can hold,
/// pass and poll one.  Its state is shared with clones on other threads.
#[verifier::external_type_specification]
#[verifier::external_body]
pub struct ExCancellationToken(tokio_util::sync::CancellationToken);

/// Relies on `CancellationToken::new`: a fresh token.  Whether a later poll
/// sees it cancelled depends on calls from other threads, so nothing is
/// promised of it.
pub assume_specification[ tokio_util::sync::CancellationToken::new ]() -> tokio_util::sync::CancellationToken;

/// Relies on `CancellationToken::is_cancelled`: polls the shared flag.  The
/// result depends on asynchronous `cancel` calls, so nothing is promised of
/// the returned value.
pub assume_specification[ tokio_util::sync::CancellationToken::is_cancelled ](
    t: &tokio_util::sync::CancellationToken,
) -> bool;

/// Relies on `CancellationToken::cancel`: requests cancellation on the token
/// and all its clones.
pub assume_specification[ tokio_util::sync::CancellationToken::cancel ](
    t: &tokio_util::sync::CancellationToken,
);

/// Relies on `Clone for CancellationToken`: a clone cancelled together with
/// the original.
pub assume_specification[ <tokio_util::sync::CancellationToken as Clone>::clone ](
    t: &tokio_util::sync::CancellationToken,
) -> tokio_util::sync::CancellationToken;

} // verus!
