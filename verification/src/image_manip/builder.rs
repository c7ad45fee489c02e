//! The frame builder as a state machine: it decides which frame to emit,
//! which progress message to send and when the run ends, while the caller
//! performs each action and reports back what came of it.

use crate::image_manip::bitmap::BitMap;
use crate::image_manip::rule::{generation, lemma_generation_len};
use crate::image_manip::{
    build_frame, frame_content, lemma_window_len, lemma_window_palette, lemma_window_slide, prime,
    prime_error, slide, slide_error, window, FrameError,
};
use crate::prog::Message;
use gif::Frame;
use vstd::prelude::*;

verus! {

/// Where a run stands.
#[derive(Debug, Clone, Copy, PartialEq, Eq)]
pub enum Phase {
    /// Nothing has been emitted yet.
    Ready,
    /// The frame with this index is with the sink.
    Writing(u32),
    /// The frame with this index was written and is being reported.
    Reporting(u32),
    /// All frames were written and the end of the run is being signalled.
    Closing,
    /// The sink failed and the end of the run is being signalled.
    Aborting,
    /// The run ended with every frame written.
    Finished,
    /// The run ended after a failure of the sink.
    Failed,
}

/// What came of the action that the builder asked for last.
#[derive(Debug, Clone, Copy, PartialEq, Eq)]
pub enum Event {
    /// The action was carried out; before the first action, the sink is ready.
    Completed,
    /// The sink could not be opened or did not take the frame.
    SinkFailed,
}

/// What the caller is to do next.
#[derive(Debug, Clone, Copy, PartialEq, Eq)]
pub enum Action {
    /// Hand the frame with this index, now in the buffer, to the sink.
    Emit(u32),
    /// Send this message to the progress display, if there is one.
    Notify(Message),
    /// Stop: every frame was written.
    Finish,
    /// Stop: the run failed.
    Fail,
}

/// The number of frames of a run that was asked for `steps` frames: the
/// first frame is always built.
pub open spec fn frames_total(steps: u32) -> u32 {
    if steps == 0 {
        1
    } else {
        steps
    }
}

/// The next phase and the action to take, for a run of `total` frames.
pub open spec fn transition(phase: Phase, event: Event, total: u32) -> (Phase, Action) {
    match event {
        Event::Completed => match phase {
            Phase::Ready => (Phase::Writing(0), Action::Emit(0)),
            Phase::Writing(k) => (Phase::Reporting(k), Action::Notify(Message::Update(k))),
            Phase::Reporting(k) => if k + 1 < total {
                (Phase::Writing((k + 1) as u32), Action::Emit((k + 1) as u32))
            } else {
                (Phase::Closing, Action::Notify(Message::Kill))
            },
            Phase::Closing => (Phase::Finished, Action::Finish),
            Phase::Aborting => (Phase::Failed, Action::Fail),
            Phase::Finished => (Phase::Finished, Action::Finish),
            Phase::Failed => (Phase::Failed, Action::Fail),
        },
        Event::SinkFailed => match phase {
            Phase::Ready | Phase::Writing(_) | Phase::Reporting(_) => (
                Phase::Aborting,
                Action::Notify(Message::Kill),
            ),
            Phase::Closing | Phase::Aborting | Phase::Failed => (Phase::Failed, Action::Fail),
            Phase::Finished => (Phase::Finished, Action::Finish),
        },
    }
}

/// The error, if any, that a run of the given dimensions and length would
/// meet on a seed of `cells` cells: that of priming the first frame, or else
/// that of the first slide.
pub open spec fn plan_error(width: u16, height: u16, steps: u32, cells: nat) -> Option<
    FrameError,
> {
    if prime_error(width, height, cells) is Some {
        prime_error(width, height, cells)
    } else if steps >= 2 {
        slide_error((width * height) as nat, width, height, cells)
    } else {
        None
    }
}

/// The pixels of the frame with index `k`: the generations `k + 1` to
/// `k + height` after the seed, oldest first.
pub open spec fn frame_pixels(seed: Seq<bool>, rule: u8, width: u16, height: u16, k: u32) -> Seq<
    u8,
> {
    window(seed, rule, width as nat, (k + 1) as nat, height as nat)
}

/// What a [`FrameBuilder`] stands for.
pub struct BuilderView {
    pub width: u16,
    pub height: u16,
    pub steps: u32,
    pub rule: u8,
    /// The row that the run started from.
    pub seed: Seq<bool>,
    pub phase: Phase,
    /// The pixel buffer.
    pub image: Seq<u8>,
}

/// Builds the frames of a run one at a time.
pub struct FrameBuilder {
    width: u16,
    height: u16,
    steps: u32,
    rule: u8,
    line: BitMap,
    image: Vec<u8>,
    phase: Phase,
    seed: Ghost<Seq<bool>>,
}

impl View for FrameBuilder {
    type V = BuilderView;

    closed spec fn view(&self) -> BuilderView {
        BuilderView {
            width: self.width,
            height: self.height,
            steps: self.steps,
            rule: self.rule,
            seed: self.seed@,
            phase: self.phase,
            image: self.image@,
        }
    }
}

impl FrameBuilder {
    #[verifier::type_invariant]
    spec fn well_formed(self) -> bool {
        &&& plan_error(self.width, self.height, self.steps, self.seed@.len()) is None
        &&& match self.phase {
            Phase::Ready => self.line@ == self.seed@,
            Phase::Writing(k) | Phase::Reporting(k) => {
                &&& k < frames_total(self.steps)
                &&& self.image@ == frame_pixels(self.seed@, self.rule, self.width, self.height, k)
                &&& self.line@ == generation(self.seed@, self.rule, (k + self.height) as nat)
            },
            _ => true,
        }
    }

    /// A builder for `steps` frames of `width` by `height` pixels that show
    /// the generations after `line` under `rule`.
    pub fn new(width: u16, height: u16, steps: u32, line: BitMap, rule: u8) -> (r: Result<
        FrameBuilder,
        FrameError,
    >)
        ensures
            match r {
                Ok(b) => {
                    &&& plan_error(width, height, steps, line@.len()) is None
                    &&& b@ == (BuilderView {
                        width,
                        height,
                        steps,
                        rule,
                        seed: line@,
                        phase: Phase::Ready,
                        image: Seq::empty(),
                    })
                },
                Err(e) => plan_error(width, height, steps, line@.len()) == Some(e),
            },
    {
        let cells: usize = line.size();
        if height > 0 && width as usize > cells {
            return Err(FrameError::RowTooWide { width, cells });
        }
        if steps >= 2 {
            if width as usize > cells {
                return Err(FrameError::RowTooWide { width, cells });
            }
            if height == 0 && width > 0 {
                return Err(FrameError::NoRows);
            }
        }
        Ok(
            FrameBuilder {
                width,
                height,
                steps,
                rule,
                seed: Ghost(line@),
                line,
                image: Vec::new(),
                phase: Phase::Ready,
            },
        )
    }

    /// The pixel buffer. While a frame is being written or reported, it
    /// holds that frame: `width * height` palette indices, each 0 or 1.
    pub fn pixels(&self) -> (r: &Vec<u8>)
        ensures
            r@ == self@.image,
            match self@.phase {
                Phase::Writing(k) | Phase::Reporting(k) => {
                    &&& r@ == frame_pixels(self@.seed, self@.rule, self@.width, self@.height, k)
                    &&& r@.len() == self@.width * self@.height
                    &&& forall|i: int| 0 <= i < r@.len() ==> r@[i] <= 1
                },
                _ => true,
            },
    {
        proof {
            use_type_invariant(self);
            match self.phase {
                Phase::Writing(k) | Phase::Reporting(k) => {
                    lemma_window_len(
                        self.seed@,
                        self.rule,
                        self.width as nat,
                        (k + 1) as nat,
                        self.height as nat,
                    );
                    lemma_window_palette(
                        self.seed@,
                        self.rule,
                        self.width as nat,
                        (k + 1) as nat,
                        self.height as nat,
                    );
                },
                _ => {},
            }
        }
        &self.image
    }

    /// The frame that is being written or reported, for an encoder, with no
    /// transparent colour; `None` in every other phase.
    pub fn frame(&self) -> (r: Option<Frame<'static>>)
        ensures
            match self@.phase {
                Phase::Writing(k) | Phase::Reporting(k) => r is Some && frame_content(r.unwrap())
                    == (
                    self@.width,
                    self@.height,
                    frame_pixels(self@.seed, self@.rule, self@.width, self@.height, k),
                    None::<u8>,
                ),
                _ => r is None,
            },
    {
        match self.phase {
            Phase::Writing(_) | Phase::Reporting(_) => Some(
                build_frame(self.width, self.height, self.pixels().as_slice(), None),
            ),
            _ => None,
        }
    }

    /// Takes the outcome of the last action and gives the builder in its next
    /// phase together with what to do next.
    pub fn advance(self, event: Event) -> (r: (FrameBuilder, Action))
        ensures
            (r.0@.phase, r.1) == transition(self@.phase, event, frames_total(self@.steps)),
            r.0@.width == self@.width,
            r.0@.height == self@.height,
            r.0@.steps == self@.steps,
            r.0@.rule == self@.rule,
            r.0@.seed == self@.seed,
            r.0@.image == match r.0@.phase {
                Phase::Writing(k) => frame_pixels(
                    self@.seed,
                    self@.rule,
                    self@.width,
                    self@.height,
                    k,
                ),
                _ => self@.image,
            },
            r.0@.phase is Writing ==> r.0@.image.len() == self@.width * self@.height,
    {
        proof {
            use_type_invariant(&self);
        }
        let FrameBuilder { width, height, steps, rule, mut line, mut image, phase, seed } = self;
        let total: u32 = if steps == 0 { 1 } else { steps };
        let (next, action) = match event {
            Event::Completed => match phase {
                Phase::Ready => {
                    // build initial frame
                    image = prime(width, height, &mut line, rule);
                    (Phase::Writing(0), Action::Emit(0))
                },
                Phase::Writing(k) => (Phase::Reporting(k), Action::Notify(Message::Update(k))),
                Phase::Reporting(k) => {
                    if k + 1 < total {
                        proof {
                            lemma_generation_len(seed@, rule, (k + height) as nat);
                            lemma_window_len(
                                seed@,
                                rule,
                                width as nat,
                                (k + 1) as nat,
                                height as nat,
                            );
                            if height > 0 {
                                lemma_window_slide(
                                    seed@,
                                    rule,
                                    width as nat,
                                    (k + 1) as nat,
                                    height as nat,
                                );
                            }
                        }
                        slide(&mut image, width, height, &mut line, rule);
                        assert(image@ =~= frame_pixels(seed@, rule, width, height, (k + 1) as u32));
                        proof {
                            lemma_window_len(
                                seed@,
                                rule,
                                width as nat,
                                (k + 2) as nat,
                                height as nat,
                            );
                        }
                        (Phase::Writing(k + 1), Action::Emit(k + 1))
                    } else {
                        (Phase::Closing, Action::Notify(Message::Kill))
                    }
                },
                Phase::Closing | Phase::Finished => (Phase::Finished, Action::Finish),
                Phase::Aborting | Phase::Failed => (Phase::Failed, Action::Fail),
            },
            Event::SinkFailed => match phase {
                Phase::Ready | Phase::Writing(_) | Phase::Reporting(_) => (
                    Phase::Aborting,
                    Action::Notify(Message::Kill),
                ),
                Phase::Closing | Phase::Aborting | Phase::Failed => (Phase::Failed, Action::Fail),
                Phase::Finished => (Phase::Finished, Action::Finish),
            },
        };
        (FrameBuilder { width, height, steps, rule, line, image, phase: next, seed }, action)
    }
}

/// The actions that a run of `total` frames asks for, one for each of the
/// given events, starting in `phase`.
pub open spec fn run(phase: Phase, total: u32, events: Seq<Event>) -> Seq<Action>
    decreases events.len(),
{
    if events.len() == 0 {
        Seq::empty()
    } else {
        let (next, action) = transition(phase, events[0], total);
        seq![action] + run(next, total, events.drop_first())
    }
}

/// The `i`-th action of a run of `total` frames in which nothing fails:
/// each frame is emitted and then reported, in order; after the last frame
/// comes the closing message, and then the run is over.
pub open spec fn scheduled(total: u32, i: nat) -> Action {
    if i < 2 * total {
        if i % 2 == 0 {
            Action::Emit((i / 2) as u32)
        } else {
            Action::Notify(Message::Update((i / 2) as u32))
        }
    } else if i == 2 * total {
        Action::Notify(Message::Kill)
    } else {
        Action::Finish
    }
}

/// How many actions a run without failure has asked for when it is in
/// `phase`.
spec fn progress(phase: Phase, total: u32) -> nat {
    match phase {
        Phase::Ready => 0,
        Phase::Writing(k) => (2 * k + 1) as nat,
        Phase::Reporting(k) => (2 * k + 2) as nat,
        Phase::Closing => (2 * total + 1) as nat,
        _ => (2 * total + 2) as nat,
    }
}

/// Whether `phase` occurs in a run of `total` frames without failure.
spec fn on_schedule(phase: Phase, total: u32) -> bool {
    match phase {
        Phase::Writing(k) | Phase::Reporting(k) => k < total,
        Phase::Aborting | Phase::Failed => false,
        _ => true,
    }
}

/// Whether the closing message has been asked for when the run is in `phase`.
spec fn closed(phase: Phase) -> bool {
    phase is Closing || phase is Aborting || phase is Finished || phase is Failed
}

/// A run asks for one action per event.
pub proof fn lemma_run_len(phase: Phase, total: u32, events: Seq<Event>)
    ensures
        run(phase, total, events).len() == events.len(),
    decreases events.len(),
{
    if events.len() > 0 {
        lemma_run_len(transition(phase, events[0], total).0, total, events.drop_first());
    }
}

proof fn lemma_run_on_schedule(phase: Phase, total: u32, events: Seq<Event>, i: int)
    requires
        total >= 1,
        on_schedule(phase, total),
        forall|j: int| 0 <= j < events.len() ==> events[j] == Event::Completed,
        0 <= i < events.len(),
    ensures
        run(phase, total, events)[i] == scheduled(total, progress(phase, total) + i as nat),
    decreases events.len(),
{
    let (next, action) = transition(phase, events[0], total);
    let rest = events.drop_first();
    lemma_run_len(next, total, rest);
    if i > 0 {
        lemma_run_on_schedule(next, total, rest, i - 1);
    }
}

/// A run of `steps` frames in which every action completes emits exactly
/// the frames 0 to `steps - 1` in this order, reports each right after it
/// was emitted, then sends the closing message once and is over: its `i`-th
/// action is `scheduled(steps, i)`, however long it is driven on.
pub proof fn lemma_successful_run(steps: u32, events: Seq<Event>)
    requires
        steps >= 1,
        forall|j: int| 0 <= j < events.len() ==> events[j] == Event::Completed,
    ensures
        run(Phase::Ready, frames_total(steps), events).len() == events.len(),
        forall|i: int|
            0 <= i < events.len() ==> #[trigger] run(Phase::Ready, frames_total(steps), events)[i]
                == scheduled(steps, i as nat),
{
    lemma_run_len(Phase::Ready, steps, events);
    assert forall|i: int| 0 <= i < events.len() implies #[trigger] run(
        Phase::Ready,
        frames_total(steps),
        events,
    )[i] == scheduled(steps, i as nat) by {
        lemma_run_on_schedule(Phase::Ready, steps, events, i);
    }
}

proof fn lemma_run_closed(phase: Phase, total: u32, events: Seq<Event>, i: int)
    requires
        closed(phase),
        0 <= i < events.len(),
    ensures
        run(phase, total, events)[i] == Action::Finish || run(phase, total, events)[i]
            == Action::Fail,
    decreases events.len(),
{
    let (next, action) = transition(phase, events[0], total);
    let rest = events.drop_first();
    lemma_run_len(next, total, rest);
    if i > 0 {
        lemma_run_closed(next, total, rest, i - 1);
    }
}

/// Whatever the events, the closing message ends a run: every action after
/// it is `Finish` or `Fail`, so that no frame is emitted and no message is
/// sent after it, and it is sent at most once.
pub proof fn lemma_nothing_after_kill(
    phase: Phase,
    total: u32,
    events: Seq<Event>,
    i: int,
    j: int,
)
    requires
        0 <= i < j < events.len(),
        run(phase, total, events)[i] == Action::Notify(Message::Kill),
    ensures
        run(phase, total, events)[j] == Action::Finish || run(phase, total, events)[j]
            == Action::Fail,
    decreases events.len(),
{
    let (next, action) = transition(phase, events[0], total);
    let rest = events.drop_first();
    lemma_run_len(next, total, rest);
    if i == 0 {
        lemma_run_closed(next, total, rest, j - 1);
    } else {
        lemma_nothing_after_kill(next, total, rest, i - 1, j - 1);
    }
}

/// The index of the next frame that a run in `phase` can emit.
spec fn next_frame(phase: Phase) -> nat {
    match phase {
        Phase::Writing(k) | Phase::Reporting(k) => (k + 1) as nat,
        _ => 0,
    }
}

proof fn lemma_run_emits_later(phase: Phase, total: u32, events: Seq<Event>, i: int, a: u32)
    requires
        0 <= i < events.len(),
        run(phase, total, events)[i] == Action::Emit(a),
    ensures
        !closed(phase),
        next_frame(phase) <= a,
        a < total || a == 0,
    decreases events.len(),
{
    let (next, action) = transition(phase, events[0], total);
    let rest = events.drop_first();
    lemma_run_len(next, total, rest);
    if closed(phase) {
        lemma_run_closed(phase, total, events, i);
    } else if i > 0 {
        lemma_run_emits_later(next, total, rest, i - 1, a);
    }
}

/// Whatever the events and wherever the run stands, frames are emitted in
/// strictly increasing order, and none beyond the last frame of the run.
pub proof fn lemma_emissions_increase(
    phase: Phase,
    total: u32,
    events: Seq<Event>,
    i: int,
    j: int,
    a: u32,
    b: u32,
)
    requires
        0 <= i < j < events.len(),
        run(phase, total, events)[i] == Action::Emit(a),
        run(phase, total, events)[j] == Action::Emit(b),
    ensures
        a < b < total,
    decreases events.len(),
{
    let (next, action) = transition(phase, events[0], total);
    let rest = events.drop_first();
    lemma_run_len(next, total, rest);
    if i == 0 {
        lemma_run_emits_later(next, total, rest, j - 1, b);
    } else {
        lemma_emissions_increase(next, total, rest, i - 1, j - 1, a, b);
    }
}

/// When the sink fails before the closing message was asked for, the run
/// sends the closing message at once and then fails.
pub proof fn lemma_sink_failure(phase: Phase, total: u32, events: Seq<Event>)
    requires
        phase is Ready || phase is Writing || phase is Reporting,
        events.len() >= 2,
        events[0] == Event::SinkFailed,
    ensures
        run(phase, total, events)[0] == Action::Notify(Message::Kill),
        run(phase, total, events)[1] == Action::Fail,
{
    let rest = events.drop_first();
    let after = transition(Phase::Aborting, rest[0], total);
    lemma_run_len(Phase::Aborting, total, rest);
    lemma_run_len(after.0, total, rest.drop_first());
    assert(run(Phase::Aborting, total, rest)[0] == after.1);
}

} // verus!
