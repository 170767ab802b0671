//! The decisions of making sure the player is at hand: look for it, download it
//! once when it is missing, look again.
use vstd::prelude::*;

verus! {

/// Where the check stands.
#[derive(PartialEq, Eq, Structural, Clone, Copy)]
pub enum Availability {
    /// Nothing has been looked at yet.
    Unchecked,
    /// The player was missing and a download has been asked for.
    Downloaded,
    /// The check is over: whether the player is at hand.
    Done(bool),
}

/// What the caller does next.
#[derive(PartialEq, Eq, Structural, Clone, Copy)]
pub enum AvailabilityAction {
    /// Report that the player was found where expected.
    ReportFound,
    /// Download the player, then look again.
    Download,
    /// Report that the download brought the player.
    ReportDownloaded,
    /// Report that the player could not be obtained.
    ReportFailed,
    /// Nothing more to do.
    Stop,
}

/// One step: the state before, and whether the player's file exists now.
pub open spec fn availability_step_spec(state: Availability, exists: bool) -> (Availability, AvailabilityAction) {
    match state {
        Availability::Unchecked => if exists {
            (Availability::Done(true), AvailabilityAction::ReportFound)
        } else {
            (Availability::Downloaded, AvailabilityAction::Download)
        },
        Availability::Downloaded => if exists {
            (Availability::Done(true), AvailabilityAction::ReportDownloaded)
        } else {
            (Availability::Done(false), AvailabilityAction::ReportFailed)
        },
        Availability::Done(v) => (Availability::Done(v), AvailabilityAction::Stop),
    }
}

/// The next state and action, given whether the player's file exists now.
pub fn availability_step(state: Availability, exists: bool) -> (r: (Availability, AvailabilityAction))
    ensures
        r == availability_step_spec(state, exists),
{
    match state {
        Availability::Unchecked => if exists {
            (Availability::Done(true), AvailabilityAction::ReportFound)
        } else {
            (Availability::Downloaded, AvailabilityAction::Download)
        },
        Availability::Downloaded => if exists {
            (Availability::Done(true), AvailabilityAction::ReportDownloaded)
        } else {
            (Availability::Done(false), AvailabilityAction::ReportFailed)
        },
        Availability::Done(v) => (Availability::Done(v), AvailabilityAction::Stop),
    }
}

/// From the start, the check ends after at most two looks: found at once, or
/// after exactly one download, whose outcome is what the second look saw.
pub proof fn law_at_most_one_download(first: bool, second: bool)
    ensures
        ({
            let (s1, a1) = availability_step_spec(Availability::Unchecked, first);
            let (s2, a2) = availability_step_spec(s1, second);
            &&& first ==> s1 == Availability::Done(true) && a1 == AvailabilityAction::ReportFound
            &&& !first ==> a1 == AvailabilityAction::Download && s2 == Availability::Done(second)
                && a2 != AvailabilityAction::Download
        }),
{
}

} // verus!
