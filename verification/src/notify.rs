use vstd::prelude::*;
use crate::level::Level;

verus! {

/// A desktop notification the caller is asked to deliver.  Delivery itself
/// is outside this crate; the debouncer below only decides when one is due.
#[derive(Clone, Copy, PartialEq, Eq, Structural, Debug)]
pub enum NotifyAction {
    /// announce an upcoming visibility window, at low urgency
    AnnounceSoon,
    /// announce a window that is open right now; the notification should
    /// expire after the remaining visible duration, in milliseconds
    AnnounceWatch { timeout_ms: u64 },
}

/// Debouncer state: turns level transitions into at most one notification
/// per contiguous run of a given level.
pub struct Notify {
    suppress: bool,
    soon: bool,
    visible: bool,
}

/// Ghost image of a [`Notify`] state.
pub ghost struct NotifyView {
    pub suppress: bool,
    pub soon: bool,
    pub visible: bool,
}

impl View for Notify {
    type V = NotifyView;

    closed spec fn view(&self) -> NotifyView {
        NotifyView { suppress: self.suppress, soon: self.soon, visible: self.visible }
    }
}

/// One step of the debouncer: from a state and the level just evaluated to
/// the successor state and the notification due, if any.
pub open spec fn notify_step(s: NotifyView, duration_ms: u64, level: Level) -> (NotifyView, Option<
    NotifyAction,
>) {
    match level {
        Level::SOON => if !s.suppress && s.soon {
            (
                NotifyView { soon: false, visible: true, ..s },
                Some(NotifyAction::AnnounceSoon),
            )
        } else {
            (s, None)
        },
        Level::WATCH => if !s.suppress && s.visible {
            (NotifyView { visible: false, ..s }, Some(NotifyAction::AnnounceWatch { timeout_ms: duration_ms }))
        } else {
            (s, None)
        },
        _ => (NotifyView { soon: true, visible: true, ..s }, None),
    }
}

/// Number of notifications emitted over `n` consecutive evaluations at the
/// same level, starting from state `s`.
pub open spec fn notify_run_count(s: NotifyView, duration_ms: u64, level: Level, n: nat) -> nat
    decreases n,
{
    if n == 0 {
        0
    } else {
        let (s2, a) = notify_step(s, duration_ms, level);
        (if a is Some {
            1nat
        } else {
            0nat
        }) + notify_run_count(s2, duration_ms, level, (n - 1) as nat)
    }
}

impl Notify {
    /// Fresh debouncer state.  With `suppress` set it never asks for a
    /// notification; otherwise both announcement kinds start armed.
    pub fn new(suppress: bool) -> (r: Notify)
        ensures
            r@ == (NotifyView { suppress, soon: true, visible: true }),
    {
        Notify { suppress, soon: true, visible: true }
    }

    /// Observe one evaluated level and report the notification that is due,
    /// if any.  `duration_ms` is the remaining visible duration, used as the
    /// expiry of a `WATCH` announcement.
    pub fn notification(&mut self, duration_ms: u64, level: Level) -> (r: Option<NotifyAction>)
        ensures
            (final(self)@, r) == notify_step(old(self)@, duration_ms, level),
    {
        match level {
            Level::SOON => {
                if !self.suppress && self.soon {
                    self.soon = false;
                    self.visible = true;
                    Some(NotifyAction::AnnounceSoon)
                } else {
                    None
                }
            },
            Level::WATCH => {
                if !self.suppress && self.visible {
                    self.visible = false;
                    Some(NotifyAction::AnnounceWatch { timeout_ms: duration_ms })
                } else {
                    None
                }
            },
            _ => {
                self.visible = true;
                self.soon = true;
                None
            },
        }
    }
}

/// Law: a contiguous run of `SOON` evaluations produces at most one
/// notification, and exactly one when notifications are enabled and the
/// `SOON` announcement is armed at the start of the run.
pub proof fn lemma_soon_run_emits_at_most_once(s: NotifyView, duration_ms: u64, n: nat)
    ensures
        notify_run_count(s, duration_ms, Level::SOON, n) <= 1,
        n >= 1 && !s.suppress && s.soon ==> notify_run_count(s, duration_ms, Level::SOON, n) == 1,
    decreases n,
{
    if n > 0 {
        let (s2, a) = notify_step(s, duration_ms, Level::SOON);
        lemma_soon_run_emits_at_most_once(s2, duration_ms, (n - 1) as nat);
        if !s.suppress && s.soon {
            lemma_soon_stays_disarmed(s2, duration_ms, (n - 1) as nat);
        }
    }
}

/// Law: once the `SOON` announcement is disarmed, further `SOON`
/// evaluations emit nothing.
pub proof fn lemma_soon_stays_disarmed(s: NotifyView, duration_ms: u64, n: nat)
    requires
        !s.soon,
    ensures
        notify_run_count(s, duration_ms, Level::SOON, n) == 0,
    decreases n,
{
    if n > 0 {
        let (s2, a) = notify_step(s, duration_ms, Level::SOON);
        lemma_soon_stays_disarmed(s2, duration_ms, (n - 1) as nat);
    }
}

/// Law: an evaluation at any level other than `SOON` and `WATCH` re-arms
/// both announcements.
pub proof fn lemma_other_level_rearms(s: NotifyView, duration_ms: u64, level: Level)
    requires
        level != Level::SOON,
        level != Level::WATCH,
    ensures
        notify_step(s, duration_ms, level).0.soon,
        notify_step(s, duration_ms, level).0.visible,
        notify_step(s, duration_ms, level).1 is None,
{
}

} // verus!
