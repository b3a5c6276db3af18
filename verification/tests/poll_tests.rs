use tuber_lib::display::fit_label;
use tuber_lib::poll::{poll_start, poll_step, PollAction, PollEvent, PollState};

fn names(actions: &[PollAction]) -> Vec<String> {
    actions
        .iter()
        .map(|a| match a {
            PollAction::Connect => "connect".to_string(),
            PollAction::Fetch => "fetch".to_string(),
            PollAction::Deliver => "deliver".to_string(),
            PollAction::Report(m) => format!("report {m}"),
            PollAction::WaitInterval => "wait interval".to_string(),
            PollAction::WaitRetry => "wait retry".to_string(),
            PollAction::Stop => "stop".to_string(),
        })
        .collect()
}

#[test]
fn poller_starts_by_connecting() {
    let (state, actions) = poll_start();
    assert_eq!(state, PollState::Disconnected);
    assert_eq!(names(&actions), vec!["connect"]);
}

#[test]
fn poller_steps() {
    let (s, a) = poll_step(PollState::Disconnected, PollEvent::ConnectOk);
    assert_eq!(s, PollState::Connected);
    assert_eq!(names(&a), vec!["fetch"]);

    let (s, a) = poll_step(PollState::Disconnected, PollEvent::ConnectFailed("refused".to_string()));
    assert_eq!(s, PollState::Disconnected);
    assert_eq!(names(&a), vec!["report Connect failed: refused", "wait retry", "connect"]);

    let (s, a) = poll_step(PollState::Connected, PollEvent::FetchOk);
    assert_eq!(s, PollState::Connected);
    assert_eq!(names(&a), vec!["deliver"]);

    let (s, a) = poll_step(PollState::Connected, PollEvent::Delivered);
    assert_eq!(s, PollState::Connected);
    assert_eq!(names(&a), vec!["wait interval", "fetch"]);

    let (s, a) = poll_step(PollState::Connected, PollEvent::FetchFailed("connection closed".to_string()));
    assert_eq!(s, PollState::Disconnected);
    assert_eq!(names(&a), vec!["report connection closed", "connect"]);

    let (s, a) = poll_step(PollState::Connected, PollEvent::ReceiverGone);
    assert_eq!(s, PollState::Connected);
    assert_eq!(names(&a), vec!["stop"]);

    let (s, a) = poll_step(PollState::Disconnected, PollEvent::FetchOk);
    assert_eq!(s, PollState::Disconnected);
    assert!(a.is_empty());
}

#[test]
fn labels_fit_segments() {
    assert_eq!(fit_label("12", 6), "  12  ");
    assert_eq!(fit_label("12", 5), " 12  ");
    assert_eq!(fit_label("1.5K", 4), "1.5K");
    assert_eq!(fit_label("1.5K", 2), "1.");
    assert_eq!(fit_label("", 0), "");
}
