use gunny_launcher::availability::{availability_step, Availability, AvailabilityAction};

#[test]
fn found_at_once() {
    let (s, a) = availability_step(Availability::Unchecked, true);
    assert!(s == Availability::Done(true));
    assert!(a == AvailabilityAction::ReportFound);
}

#[test]
fn downloaded_then_found() {
    let (s, a) = availability_step(Availability::Unchecked, false);
    assert!(s == Availability::Downloaded);
    assert!(a == AvailabilityAction::Download);
    let (s, a) = availability_step(s, true);
    assert!(s == Availability::Done(true));
    assert!(a == AvailabilityAction::ReportDownloaded);
}

#[test]
fn download_did_not_help() {
    let (s, _) = availability_step(Availability::Unchecked, false);
    let (s, a) = availability_step(s, false);
    assert!(s == Availability::Done(false));
    assert!(a == AvailabilityAction::ReportFailed);
}

#[test]
fn finished_check_stays_finished() {
    let (s, a) = availability_step(Availability::Done(false), true);
    assert!(s == Availability::Done(false));
    assert!(a == AvailabilityAction::Stop);
}
