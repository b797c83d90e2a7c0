use std::future::Future;
use std::task::{Context, Poll, Waker};

use helix_base::redraw::{redraw_requested, request_redraw, request_redraw_callback};
use tokio::sync::Notify;

#[test]
fn a_request_wakes_the_next_wait_only() {
    let notify = Notify::new();
    let mut context = Context::from_waker(Waker::noop());
    assert_eq!(Box::pin(redraw_requested(&notify)).as_mut().poll(&mut context), Poll::Pending);
    request_redraw(&notify);
    request_redraw(&notify);
    assert_eq!(Box::pin(redraw_requested(&notify)).as_mut().poll(&mut context), Poll::Ready(()));
    assert_eq!(Box::pin(redraw_requested(&notify)).as_mut().poll(&mut context), Poll::Pending);
}

#[test]
fn the_callback_requests_a_redraw() {
    let notify: &'static Notify = Box::leak(Box::new(Notify::new()));
    let callback = request_redraw_callback(notify);
    callback();
    let mut context = Context::from_waker(Waker::noop());
    assert_eq!(Box::pin(redraw_requested(notify)).as_mut().poll(&mut context), Poll::Ready(()));
}
