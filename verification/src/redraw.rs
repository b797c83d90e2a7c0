//! Signals that control when the editor redraws.
//!
//! The signal is a `tokio::sync::Notify`; the editor owns one per runtime and hands it to
//! these functions.

use vstd::prelude::*;

use tokio::sync::futures::Notified;
use tokio::sync::Notify;

verus! {

/// `tokio::sync::Notify`, carried through as an opaque value.
#[verifier::external_type_specification]
#[verifier::external_body]
pub struct ExNotify(tokio::sync::Notify);

/// `tokio::sync::futures::Notified`, the future that `Notify::notified` returns.
#[verifier::external_type_specification]
#[verifier::external_body]
pub struct ExNotified<'a>(tokio::sync::futures::Notified<'a>);

/// `Notify::notify_one`: wakes one waiting task, or stores the single permit that the next
/// wait consumes. The effect lies inside the `Notify`, shared with other threads, so
/// nothing is stated of it.
pub assume_specification[ tokio::sync::Notify::notify_one ](notify: &tokio::sync::Notify);

/// `Notify::notified`: a future that completes once the `Notify` is notified. Nothing is
/// stated of the future.
pub assume_specification<'a>[ tokio::sync::Notify::notified ](
    notify: &'a tokio::sync::Notify,
) -> tokio::sync::futures::Notified<'a>;

/// Requests that the editor is redrawn. The redraws are debounced (currently to
/// 30FPS) so this can be called many times without causing a ton of frames to
/// be rendered.
pub fn request_redraw(notify: &Notify) {
    notify.notify_one();
}

/// Creates a redraw callback that can run outside the current runtime: it notifies the
/// given signal, wherever it is called from.
pub fn request_redraw_callback(notify: &'static Notify) -> impl Fn() {
    move || notify.notify_one()
}

/// Returns a future that will yield once a redraw has been asynchronously
/// requested using [`request_redraw`].
pub fn redraw_requested(notify: &Notify) -> Notified<'_> {
    notify.notified()
}

} // verus!
