use crate::framing::{
    all_fit, encode_unit, lemma_stream_order, read_units, stream_of, unit_encoding, MAX_UNIT_LEN,
};
use vstd::prelude::*;

verus! {

/// Life of one peer session: relaying in both directions, or finished.
#[derive(PartialEq, Eq, Structural, Debug, Clone, Copy)]
pub enum PeerState {
    Active,
    Closed,
}

/// What the surrounding event loop observed for one peer session.
pub enum RelayEvent {
    /// The capture bridge produced this frame.
    Captured(Vec<u8>),
    /// The capture bridge will produce no more frames.
    CaptureEnded,
    /// A complete unit arrived from the tunnel connection.
    Received(Vec<u8>),
    /// Reading from the tunnel connection failed.
    ReceiveFailed,
    /// The tunnel connection reached its end.
    ReceiveEnded,
    /// Writing a unit to the tunnel connection failed.
    WriteFailed,
    /// Injecting a frame onto the local link failed.
    InjectFailed,
}

/// What the event loop is to do next for the session.
pub enum RelayAction {
    /// Write these bytes, one encoded unit, to the tunnel connection.
    Write(Vec<u8>),
    /// Inject this frame onto the local link, holding the link's send lock.
    Inject(Vec<u8>),
    /// Stop both directions and release the connection.
    Close,
    /// Nothing: the session is already closed.
    Idle,
}

/// An event as the contracts see it.
pub enum EventView {
    Captured(Seq<u8>),
    CaptureEnded,
    Received(Seq<u8>),
    ReceiveFailed,
    ReceiveEnded,
    WriteFailed,
    InjectFailed,
}

/// An action as the contracts see it.
pub enum ActionView {
    Write(Seq<u8>),
    Inject(Seq<u8>),
    Close,
    Idle,
}

impl View for RelayEvent {
    type V = EventView;

    open spec fn view(&self) -> EventView {
        match self {
            RelayEvent::Captured(f) => EventView::Captured(f@),
            RelayEvent::CaptureEnded => EventView::CaptureEnded,
            RelayEvent::Received(u) => EventView::Received(u@),
            RelayEvent::ReceiveFailed => EventView::ReceiveFailed,
            RelayEvent::ReceiveEnded => EventView::ReceiveEnded,
            RelayEvent::WriteFailed => EventView::WriteFailed,
            RelayEvent::InjectFailed => EventView::InjectFailed,
        }
    }
}

impl View for RelayAction {
    type V = ActionView;

    open spec fn view(&self) -> ActionView {
        match self {
            RelayAction::Write(b) => ActionView::Write(b@),
            RelayAction::Inject(f) => ActionView::Inject(f@),
            RelayAction::Close => ActionView::Close,
            RelayAction::Idle => ActionView::Idle,
        }
    }
}

/// One transition of a peer session. A closed session does nothing more. An
/// active one writes each captured frame as one unit (closing where the frame
/// is too long to be a unit), injects each received unit verbatim, and closes
/// on the end of either source and on any failure.
pub open spec fn step_spec(s: PeerState, e: EventView) -> (PeerState, ActionView) {
    if s == PeerState::Closed {
        (PeerState::Closed, ActionView::Idle)
    } else {
        match e {
            EventView::Captured(f) => if f.len() <= MAX_UNIT_LEN {
                (PeerState::Active, ActionView::Write(unit_encoding(f)))
            } else {
                (PeerState::Closed, ActionView::Close)
            },
            EventView::Received(u) => (PeerState::Active, ActionView::Inject(u)),
            _ => (PeerState::Closed, ActionView::Close),
        }
    }
}

/// The states and actions of a session that meets `events` in order.
pub open spec fn run_spec(s: PeerState, events: Seq<EventView>) -> (PeerState, Seq<ActionView>)
    decreases events.len(),
{
    if events.len() == 0 {
        (s, Seq::empty())
    } else {
        let (s1, acts) = run_spec(s, events.drop_last());
        let (s2, a) = step_spec(s1, events.last());
        (s2, acts.push(a))
    }
}

/// The relay state of one tunnel connection.
pub struct PeerSession {
    pub state: PeerState,
}

impl PeerSession {
    /// A session for a freshly established connection.
    pub fn new() -> (r: PeerSession)
        ensures
            r.state == PeerState::Active,
    {
        PeerSession { state: PeerState::Active }
    }

    /// Whether the session has finished.
    pub fn is_closed(&self) -> (r: bool)
        ensures
            r == (self.state == PeerState::Closed),
    {
        self.state == PeerState::Closed
    }

    /// Takes one event and says what to do about it.
    pub fn step(&mut self, event: RelayEvent) -> (r: RelayAction)
        ensures
            (final(self).state, r@) == step_spec(old(self).state, event@),
    {
        if self.state == PeerState::Closed {
            return RelayAction::Idle;
        }
        match event {
            RelayEvent::Captured(frame) => match encode_unit(frame.as_slice()) {
                Ok(unit) => RelayAction::Write(unit),
                Err(_) => {
                    self.state = PeerState::Closed;
                    RelayAction::Close
                },
            },
            RelayEvent::Received(unit) => RelayAction::Inject(unit),
            _ => {
                self.state = PeerState::Closed;
                RelayAction::Close
            },
        }
    }
}

/// Frames captured in order `f1, ..., fn` are written to the tunnel, each as
/// one unit, in the same order, and the session stays active.
pub proof fn lemma_capture_order(frames: Seq<Seq<u8>>)
    requires
        all_fit(frames),
    ensures
        run_spec(PeerState::Active, frames.map_values(|f: Seq<u8>| EventView::Captured(f)))
            == (PeerState::Active, frames.map_values(|f: Seq<u8>| ActionView::Write(unit_encoding(f)))),
    decreases frames.len(),
{
    let evs = frames.map_values(|f: Seq<u8>| EventView::Captured(f));
    let acts = frames.map_values(|f: Seq<u8>| ActionView::Write(unit_encoding(f)));
    if frames.len() == 0 {
        assert(evs =~= Seq::<EventView>::empty());
        assert(acts =~= Seq::<ActionView>::empty());
    } else {
        let front = frames.drop_last();
        assert(all_fit(front)) by {
            assert forall|i: int| 0 <= i < front.len() implies (#[trigger] front[i]).len() <= MAX_UNIT_LEN by {
                assert(front[i] == frames[i]);
            }
        }
        lemma_capture_order(front);
        assert(evs.drop_last() =~= front.map_values(|f: Seq<u8>| EventView::Captured(f)));
        assert(acts.drop_last() =~= front.map_values(|f: Seq<u8>| ActionView::Write(unit_encoding(f))));
        assert(frames[frames.len() - 1].len() <= MAX_UNIT_LEN);
        assert(acts =~= acts.drop_last().push(acts.last()));
    }
}

/// Units received in order `u1, ..., un` are handed to injection verbatim and
/// in the same order, and the session stays active.
pub proof fn lemma_receive_order(units: Seq<Seq<u8>>)
    ensures
        run_spec(PeerState::Active, units.map_values(|u: Seq<u8>| EventView::Received(u)))
            == (PeerState::Active, units.map_values(|u: Seq<u8>| ActionView::Inject(u))),
    decreases units.len(),
{
    let evs = units.map_values(|u: Seq<u8>| EventView::Received(u));
    let acts = units.map_values(|u: Seq<u8>| ActionView::Inject(u));
    if units.len() == 0 {
        assert(evs =~= Seq::<EventView>::empty());
        assert(acts =~= Seq::<ActionView>::empty());
    } else {
        let front = units.drop_last();
        lemma_receive_order(front);
        assert(evs.drop_last() =~= front.map_values(|u: Seq<u8>| EventView::Received(u)));
        assert(acts.drop_last() =~= front.map_values(|u: Seq<u8>| ActionView::Inject(u)));
        assert(acts =~= acts.drop_last().push(acts.last()));
    }
}

/// Frames `f1, ..., fn` captured in that order at one peer are written as
/// units whose stream, read at the other peer, gives `f1, ..., fn` again,
/// and the other peer injects them in that same order.
pub proof fn lemma_relay_order(frames: Seq<Seq<u8>>)
    requires
        all_fit(frames),
    ensures
        run_spec(PeerState::Active, frames.map_values(|f: Seq<u8>| EventView::Captured(f))).1
            == frames.map_values(|f: Seq<u8>| ActionView::Write(unit_encoding(f))),
        read_units(stream_of(frames), frames.len()) == frames,
        run_spec(
            PeerState::Active,
            read_units(stream_of(frames), frames.len()).map_values(
                |u: Seq<u8>| EventView::Received(u),
            ),
        ).1 == frames.map_values(|f: Seq<u8>| ActionView::Inject(f)),
{
    lemma_capture_order(frames);
    lemma_stream_order(frames);
    lemma_receive_order(frames);
}

/// The sessions of a server after session `i` took event `e`: the others
/// are untouched.
pub open spec fn table_step(states: Seq<PeerState>, i: int, e: EventView) -> Seq<PeerState> {
    states.update(i, step_spec(states[i], e).0)
}

/// With several sessions on one server, whatever happens to session `i`
/// (its connection closing, a failure) leaves every other active session
/// `j` active, and a frame captured afterwards is still written to `j`.
pub proof fn lemma_isolation(
    states: Seq<PeerState>,
    i: int,
    j: int,
    e: EventView,
    frame: Seq<u8>,
)
    requires
        0 <= i < states.len(),
        0 <= j < states.len(),
        i != j,
        states[j] == PeerState::Active,
        frame.len() <= MAX_UNIT_LEN,
    ensures
        table_step(states, i, e)[j] == PeerState::Active,
        step_spec(table_step(states, i, e)[j], EventView::Captured(frame)) == (
            PeerState::Active,
            ActionView::Write(unit_encoding(frame)),
        ),
{
}

} // verus!
