//! What the frontend's thread and the emulator's thread tell each other.

use vstd::prelude::*;

use crate::pressed::Event;

verus! {

use crate::options::optional;

/// The guest has ended its own run.
#[derive(Clone, Copy, Debug, PartialEq, Eq, Structural)]
pub struct GuestExit;

/// How the emulator's thread came to its end.
pub enum WorkerEnd {
    Returned,
    GuestExited(GuestExit),
    Panicked,
}

/// A message to the emulator's thread.
#[derive(Clone, Copy, Debug, PartialEq, Eq, Structural)]
pub enum WorkerMsg {
    Event(Event),
}

/// The flags and requests that pass between the threads.
pub struct Shared {
    redraw_requested: bool,
    rumble: Option<(u64, u8)>,
    quit: bool,
    fatal: Option<String>,
}

/// What `Shared` holds.
pub struct SharedModel {
    pub redraw_requested: bool,
    pub rumble: Option<(u64, u8)>,
    pub quit: bool,
    pub fatal: Option<Seq<char>>,
}

impl View for Shared {
    type V = SharedModel;

    closed spec fn view(&self) -> SharedModel {
        SharedModel {
            redraw_requested: self.redraw_requested,
            rumble: self.rumble,
            quit: self.quit,
            fatal: optional(self.fatal),
        }
    }
}

/// How long a turn of the emulator's thread takes at least, in nanoseconds.
pub const IDLE_THROTTLE: u64 = 1_000_000;

/// The events of the messages.
pub open spec fn events_of(messages: Seq<WorkerMsg>) -> Seq<Event> {
    messages.map_values(
        |message: WorkerMsg|
            match message {
                WorkerMsg::Event(event) => event,
            },
    )
}

impl SharedModel {
    /// What is left after a turn of the emulator's thread, and the events of the turn.
    pub open spec fn turn(self, messages: Seq<WorkerMsg>) -> (SharedModel, Option<Seq<Event>>) {
        if self.quit {
            (self, None)
        } else {
            (
                SharedModel { redraw_requested: false, ..self },
                Some(
                    if self.redraw_requested {
                        events_of(messages).push(Event::Redraw)
                    } else {
                        events_of(messages)
                    },
                ),
            )
        }
    }

    /// What is left once the emulator's thread has ended.
    pub open spec fn after_end(self, end: WorkerEnd) -> SharedModel {
        match end {
            WorkerEnd::Returned => self,
            WorkerEnd::GuestExited(_) => SharedModel { quit: true, ..self },
            WorkerEnd::Panicked => SharedModel {
                quit: true,
                fatal: Some("emulator worker panicked"@),
                ..self
            },
        }
    }

    /// What is left once a run that has ended was reported, and the report.
    pub open spec fn reported(self) -> (SharedModel, Option<Seq<char>>) {
        if self.quit {
            (SharedModel { fatal: None, ..self }, self.fatal)
        } else {
            (self, None)
        }
    }
}

impl Shared {
    /// A first picture is asked for; nothing else is.
    pub fn new() -> (r: Self)
        ensures
            r@ == (SharedModel { redraw_requested: true, rumble: None, quit: false, fatal: None }),
    {
        Shared { redraw_requested: true, rumble: None, quit: false, fatal: None }
    }

    /// Asks for a picture.
    pub fn request_redraw(&mut self)
        ensures
            final(self)@ == (SharedModel { redraw_requested: true, ..old(self)@ }),
    {
        self.redraw_requested = true;
    }

    /// Asks the frontend to vibrate, in place of what was asked before.
    pub fn vibrate(&mut self, duration_ms: u64, intensity: u8)
        ensures
            final(self)@ == (SharedModel { rumble: Some((duration_ms, intensity)), ..old(self)@ }),
    {
        self.rumble = Some((duration_ms, intensity));
    }

    /// What the frontend is asked to vibrate.
    pub fn take_rumble(&mut self) -> (r: Option<(u64, u8)>)
        ensures
            r == old(self)@.rumble,
            final(self)@ == (SharedModel { rumble: None, ..old(self)@ }),
    {
        let request = self.rumble;
        self.rumble = None;
        request
    }

    /// Whether the emulator's thread is to end.
    pub fn quits(&self) -> (r: bool)
        ensures
            r == self@.quit,
    {
        self.quit
    }

    /// The emulator's thread is to end.
    pub fn quit(&mut self)
        ensures
            final(self)@ == (SharedModel { quit: true, ..old(self)@ }),
    {
        self.quit = true;
    }

    /// The emulator has failed.
    pub fn fail(&mut self, message: String)
        ensures
            final(self)@ == (SharedModel { quit: true, fatal: Some(message@), ..old(self)@ }),
    {
        self.fatal = Some(message);
        self.quit = true;
    }

    /// The events of one turn of the emulator's thread: those of the messages that
    /// came in, and a redraw behind them where one is asked for. None where the
    /// thread is to end.
    pub fn begin_turn(&mut self, messages: &[WorkerMsg]) -> (r: Option<Vec<Event>>)
        ensures
            final(self)@ == old(self)@.turn(messages@).0,
            match r {
                Some(events) => old(self)@.turn(messages@).1 == Some(events@),
                None => old(self)@.turn(messages@).1 is None,
            },
    {
        if self.quit {
            return None;
        }
        let mut events: Vec<Event> = Vec::new();
        for index in 0..messages.len()
            invariant
                self@ == old(self)@,
                events@.len() == index,
                forall|i: int| 0 <= i < index ==> events@[i] == events_of(messages@)[i],
        {
            match messages[index] {
                WorkerMsg::Event(event) => {
                    events.push(event);
                },
            }
        }
        assert(events@ =~= events_of(messages@));
        if self.redraw_requested {
            self.redraw_requested = false;
            events.push(Event::Redraw);
        }
        Some(events)
    }

    /// The emulator's thread has ended. A guest that ended its own run is no
    /// failure.
    pub fn worker_ended(&mut self, end: WorkerEnd)
        ensures
            final(self)@ == old(self)@.after_end(end),
    {
        match end {
            WorkerEnd::Returned => {},
            WorkerEnd::GuestExited(_) => {
                self.quit = true;
            },
            WorkerEnd::Panicked => {
                self.fatal = Some("emulator worker panicked".to_owned());
                self.quit = true;
            },
        }
    }

    /// The emulator's thread was waited for. `failed` is whether that failed.
    pub fn worker_joined(&mut self, failed: bool)
        ensures
            final(self)@ == if failed {
                SharedModel {
                    fatal: Some("emulator worker panicked during shutdown"@),
                    ..old(self)@
                }
            } else {
                old(self)@
            },
    {
        if failed {
            self.fatal = Some("emulator worker panicked during shutdown".to_owned());
        }
    }

    /// What is to be reported of a run that has ended, once.
    pub fn take_fatal(&mut self) -> (r: Option<String>)
        ensures
            (final(self)@, optional(r)) == old(self)@.reported(),
    {
        if !self.quit {
            return None;
        }
        let mut message: Option<String> = None;
        std::mem::swap(&mut message, &mut self.fatal);
        message
    }
}

/// How long the emulator's thread sleeps behind a turn that took `elapsed`.
pub open spec fn sleep_after(elapsed: u64) -> Option<u64> {
    if elapsed < IDLE_THROTTLE {
        Some((IDLE_THROTTLE - elapsed) as u64)
    } else {
        None
    }
}

/// How long the emulator's thread sleeps behind a turn, in nanoseconds.
pub fn idle_sleep(elapsed: u64) -> (r: Option<u64>)
    ensures
        r == sleep_after(elapsed),
{
    if elapsed < IDLE_THROTTLE {
        Some(IDLE_THROTTLE - elapsed)
    } else {
        None
    }
}

/// Messages hand on their events in order.
pub proof fn lemma_messages_keep_their_events(messages: Seq<WorkerMsg>, event: Event)
    ensures
        events_of(messages.push(WorkerMsg::Event(event))) == events_of(messages).push(event),
        events_of(Seq::empty()).len() == 0,
{
    assert(events_of(messages.push(WorkerMsg::Event(event))) =~= events_of(messages).push(event));
}

// ---------------------------------------------------------------------------
// What the threads can rely on

/// A picture that was asked for is drawn in the next turn, behind the events of the
/// messages, and once only.
pub proof fn lemma_asked_picture_is_drawn_once(shared: SharedModel, messages: Seq<WorkerMsg>)
    requires
        !shared.quit,
    ensures
        ({
            let asked = SharedModel { redraw_requested: true, ..shared };
            let (after, events) = asked.turn(messages);
            let (_, later) = after.turn(messages);
            &&& events == Some(events_of(messages).push(Event::Redraw))
            &&& later == Some(events_of(messages))
        }),
        shared.turn(messages).0.rumble == shared.rumble,
        shared.turn(messages).0.fatal == shared.fatal,
        !shared.turn(messages).0.quit,
{
}

/// A run that is to end takes no further turn, and nothing changes.
pub proof fn lemma_ended_run_takes_no_turn(shared: SharedModel, messages: Seq<WorkerMsg>)
    requires
        shared.quit,
    ensures
        shared.turn(messages) == (shared, None::<Seq<Event>>),
{
}

/// A guest that ends its own run ends it without a failure; a panic ends it with one; a
/// thread that came to its end changes nothing.
pub proof fn lemma_end_of_the_thread(shared: SharedModel, exit: GuestExit)
    ensures
        shared.after_end(WorkerEnd::Returned) == shared,
        shared.after_end(WorkerEnd::GuestExited(exit)).quit,
        shared.after_end(WorkerEnd::GuestExited(exit)).fatal == shared.fatal,
        shared.after_end(WorkerEnd::Panicked).quit,
        shared.after_end(WorkerEnd::Panicked).fatal is Some,
        shared.after_end(WorkerEnd::Panicked).rumble == shared.rumble,
{
}

/// A failure is reported once, and only once the run has ended.
pub proof fn lemma_failure_is_reported_once(shared: SharedModel, message: Seq<char>)
    ensures
        ({
            let failed = SharedModel { quit: true, fatal: Some(message), ..shared };
            let (after, report) = failed.reported();
            &&& report == Some(message)
            &&& after.reported().1 is None
            &&& after.quit
        }),
        !shared.quit ==> shared.reported() == (shared, None::<Seq<char>>),
{
}

/// A turn and the sleep behind it take the time of a turn, or longer where the turn did.
pub proof fn lemma_turns_take_their_time(elapsed: u64)
    ensures
        sleep_after(elapsed) matches Some(sleep) ==> elapsed + sleep == 1_000_000 && sleep > 0,
        sleep_after(elapsed) is None ==> elapsed >= 1_000_000,
{
}

} // verus!
