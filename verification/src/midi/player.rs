//! When MIDI events are due.
//!
//! Every event is due at an offset from the one instant at which playback
//! began. The offsets are sums of the lengths of what came before, so an
//! event that is sent late does not delay the events after it.

use vstd::prelude::*;
use crate::midi::error::{valid_channel, MidiError, MidiErrorView};
use crate::midi::message::{
    build_all_notes_off_message, build_note_off_message, build_note_on_message,
    mml_volume_to_velocity, velocity_of_volume, MidiMessage,
};
use crate::mml::ast::{view_commands, Command};
use crate::playback::{
    arrange, lemma_total_extent_grows, lemma_view_segments, segment_extent, segments_extent,
    total_extent, view_segments, walk, Segment, SegmentView,
};

pub use crate::playback::{
    PlaybackState, DEFAULT_BPM, DEFAULT_LENGTH, DEFAULT_OCTAVE, DEFAULT_VOLUME,
};

verus! {

/// The nanoseconds in a second.
pub const NANOS_PER_SECOND: u32 = 1_000_000_000;

/// The nanoseconds in a millisecond.
pub const NANOS_PER_MILLI: u64 = 1_000_000;

/// The nanoseconds that the first `n` of `segments` take up together, each
/// segment rounded to the nearest nanosecond by itself; `None` where they
/// are more than 64 bits count.
pub open spec fn nanos_of(segments: Seq<SegmentView>, n: nat) -> Option<u64> {
    total_extent(segments, n, NANOS_PER_SECOND)
}

/// The nanoseconds of fewer segments are no more than those of more.
pub proof fn lemma_nanos_grow(segments: Seq<SegmentView>, m: nat, n: nat)
    requires
        m <= n <= segments.len(),
        nanos_of(segments, n) is Some,
    ensures
        nanos_of(segments, m) is Some,
        nanos_of(segments, m)->0 <= nanos_of(segments, n)->0,
{
    lemma_total_extent_grows(segments, m, n, NANOS_PER_SECOND);
}

/// A MIDI event that is due: a note at a velocity, or a rest where `note`
/// is `None`. `start` and `end` are offsets in nanoseconds from the instant
/// at which playback began: the note is switched on at `start` and off at
/// `end`.
#[derive(Debug, Clone, Copy, PartialEq, Eq, Structural)]
pub struct Event {
    pub note: Option<u8>,
    pub velocity: u8,
    pub start: u64,
    pub end: u64,
}

/// Where the offset `at` of `total` falls in a span: at the same part of
/// the span, rounded down.
pub open spec fn scaled(span: int, total: int, at: int) -> int {
    if total <= 0 {
        0
    } else {
        span * at / total
    }
}

/// The events of one segment that takes up the time from `from` to `to`.
/// The segments of a tuplet inside a tuplet share that time in proportion
/// to their own lengths; where they have none, there is no event.
pub open spec fn place_one(segment: SegmentView, from: int, to: int) -> Seq<Event>
    decreases segment, 0nat,
{
    match segment {
        SegmentView::Tone { note, volume, .. } => seq![
            Event {
                note: Some(note),
                velocity: (velocity_of_volume(volume as int) % 256) as u8,
                start: from as u64,
                end: to as u64,
            },
        ],
        SegmentView::Silence { .. } => seq![
            Event { note: None, velocity: 0, start: from as u64, end: to as u64 },
        ],
        SegmentView::Stretched { segments, .. } => match nanos_of(segments, segments.len()) {
            Some(inner) => if inner > 0 {
                place(segments, segments.len(), from, to - from, inner as int)
            } else {
                Seq::empty()
            },
            None => Seq::empty(),
        },
    }
}

/// The events of the first `n` of `segments`, which take up `total`
/// nanoseconds together and are fitted into `span` nanoseconds from
/// `start` on. Every event lies where the sum of the lengths before it
/// falls in the span, whatever happened to the events before it.
pub open spec fn place(segments: Seq<SegmentView>, n: nat, start: int, span: int, total: int) -> Seq<
    Event,
>
    decreases segments, n,
{
    if n == 0 || n > segments.len() {
        Seq::empty()
    } else {
        match (nanos_of(segments, (n - 1) as nat), nanos_of(segments, n)) {
            (Some(before), Some(after)) => place(segments, (n - 1) as nat, start, span, total)
                + place_one(
                segments[n - 1],
                start + scaled(span, total, before as int),
                start + scaled(span, total, after as int),
            ),
            _ => Seq::empty(),
        }
    }
}

/// The events of a piece: its segments at the offsets at which they are
/// due. `None` where they take more nanoseconds than 64 bits count.
pub open spec fn scheduled(segments: Seq<SegmentView>) -> Option<Seq<Event>> {
    match nanos_of(segments, segments.len()) {
        Some(total) => Some(place(segments, segments.len(), 0, total as int, total as int)),
        None => None,
    }
}

/// An offset within the total falls within the span, and a later offset
/// falls no earlier.
pub proof fn lemma_scaled(span: int, total: int, at: int, later: int)
    requires
        0 <= span,
        0 <= at <= later <= total,
    ensures
        0 <= scaled(span, total, at) <= scaled(span, total, later) <= span,
        scaled(span, total, total) == span || total == 0,
        scaled(total, total, at) == at,
{
    if total > 0 {
        assert(0 <= span * at <= span * later <= span * total) by (nonlinear_arith)
            requires
                0 <= span,
                0 <= at <= later <= total,
        ;
        assert(0 <= span * at / total <= span * later / total <= span * total / total && span
            * total / total == span) by (nonlinear_arith)
            requires
                0 <= span * at <= span * later <= span * total,
                total > 0,
        ;
        assert(total * at / total == at) by (nonlinear_arith)
            requires
                total > 0,
        ;
    }
}

/// Where the offset `at` of `total` falls in `span`; see `scaled`.
fn scale(span: u64, total: u64, at: u64) -> (offset: u64)
    requires
        at <= total,
    ensures
        offset == scaled(span as int, total as int, at as int),
        offset <= span,
{
    if total == 0 {
        return 0;
    }
    proof {
        lemma_scaled(span as int, total as int, at as int, at as int);
        assert(span * at <= u64::MAX * u64::MAX) by (nonlinear_arith)
            requires
                0 <= span <= u64::MAX,
                0 <= at <= u64::MAX,
        ;
    }
    let product: u128 = span as u128 * at as u128;
    (product / total as u128) as u64
}

/// Appends to `out` the events of `segments`, which take up `total`
/// nanoseconds and are fitted into `span` nanoseconds from `start` on.
fn place_into(segments: &Vec<Segment>, start: u64, span: u64, total: u64, out: &mut Vec<Event>)
    requires
        nanos_of(view_segments(segments@), segments@.len()) == Some(total),
        start + span <= u64::MAX,
    ensures
        final(out)@ == old(out)@ + place(
            view_segments(segments@),
            segments@.len(),
            start as int,
            span as int,
            total as int,
        ),
    decreases segments@, segments@.len(),
{
    let ghost views = view_segments(segments@);
    proof {
        lemma_view_segments(segments@);
        assert(out@ + Seq::<Event>::empty() =~= out@);
    }
    let mut before: u64 = 0;
    let mut i: usize = 0;
    while i < segments.len()
        invariant
            i <= segments.len(),
            views == view_segments(segments@),
            views.len() == segments.len(),
            forall|j: int| 0 <= j < segments.len() ==> #[trigger] views[j] == segments[j]@,
            nanos_of(views, segments@.len()) == Some(total),
            nanos_of(views, i as nat) == Some(before),
            before <= total,
            start + span <= u64::MAX,
            out@ == old(out)@ + place(views, i as nat, start as int, span as int, total as int),
        decreases segments.len() - i,
    {
        proof {
            lemma_nanos_grow(views, i as nat, segments@.len());
            lemma_nanos_grow(views, (i + 1) as nat, segments@.len());
        }
        let this: u64 = match segment_extent(&segments[i], NANOS_PER_SECOND) {
            Some(this) => this,
            None => 0,
        };
        let after: u64 = before + this;
        let from: u64 = start + scale(span, total, before);
        let to: u64 = start + scale(span, total, after);
        let ghost placed = out@;
        proof {
            lemma_scaled(span as int, total as int, before as int, after as int);
        }
        match &segments[i] {
            Segment::Tone { note, volume, .. } => {
                out.push(
                    Event {
                        note: Some(*note),
                        velocity: mml_volume_to_velocity(*volume),
                        start: from,
                        end: to,
                    },
                );
            },
            Segment::Silence { .. } => {
                out.push(Event { note: None, velocity: 0, start: from, end: to });
            },
            Segment::Stretched { segments: inner, .. } => {
                proof {
                    lemma_view_segments(inner@);
                }
                match segments_extent(inner, NANOS_PER_SECOND) {
                    Some(inner_total) => {
                        if inner_total > 0 {
                            place_into(inner, from, to - from, inner_total, out);
                        }
                    },
                    None => {},
                }
            },
        }
        proof {
            let piece = place_one(views[i as int], from as int, to as int);
            assert(out@ =~= placed + piece);
            assert(old(out)@ + (place(views, i as nat, start as int, span as int, total as int)
                + piece) =~= placed + piece);
        }
        before = after;
        i += 1;
    }
}

/// Lays the segments of a piece out in time: every note and rest becomes an
/// event with the offsets, from the start of playback, at which it begins
/// and ends. The offsets are sums of the lengths of the segments before,
/// so that no delay in sending one event moves another. `None` where the
/// piece takes more nanoseconds than 64 bits count.
pub fn schedule(segments: &Vec<Segment>) -> (events: Option<Vec<Event>>)
    ensures
        match (events, scheduled(view_segments(segments@))) {
            (Some(events), Some(expected)) => events@ == expected,
            (None, None) => true,
            _ => false,
        },
{
    proof {
        lemma_view_segments(segments@);
    }
    match segments_extent(segments, NANOS_PER_SECOND) {
        Some(total) => {
            let mut events: Vec<Event> = Vec::new();
            place_into(segments, 0, total, total, &mut events);
            proof {
                let expected = scheduled(view_segments(segments@))->0;
                assert(Seq::<Event>::empty() + expected =~= expected);
            }
            Some(events)
        },
        None => None,
    }
}

/// Whether no segment holds the segments of a tuplet inside a tuplet.
pub open spec fn flat(segments: Seq<SegmentView>) -> bool {
    forall|i: int| 0 <= i < segments.len() ==> !(#[trigger] segments[i] is Stretched)
}

/// Scheduling does not drift: in a piece of notes and rests, every event
/// begins exactly when the lengths of the events before it have passed
/// since the start, and ends when its own length has passed as well. The
/// last event ends when the whole piece has.
pub proof fn lemma_schedule_does_not_drift(segments: Seq<SegmentView>, n: nat)
    requires
        flat(segments),
        n <= segments.len(),
        nanos_of(segments, segments.len()) is Some,
    ensures
        ({
            let total = nanos_of(segments, segments.len())->0 as int;
            let events = place(segments, n, 0, total, total);
            &&& events.len() == n
            &&& forall|k: int|
                0 <= k < n ==> (#[trigger] events[k]).start == nanos_of(segments, k as nat)->0
                    && events[k].end == nanos_of(segments, (k + 1) as nat)->0
        }),
    decreases n,
{
    let total = nanos_of(segments, segments.len())->0 as int;
    if n > 0 {
        lemma_schedule_does_not_drift(segments, (n - 1) as nat);
        lemma_nanos_grow(segments, (n - 1) as nat, segments.len());
        lemma_nanos_grow(segments, n, segments.len());
        let before = nanos_of(segments, (n - 1) as nat)->0 as int;
        let after = nanos_of(segments, n)->0 as int;
        lemma_scaled(total, total, before, after);
        lemma_scaled(total, total, after, after);
        let earlier = place(segments, (n - 1) as nat, 0, total, total);
        let piece = place_one(segments[n - 1], before, after);
        assert(piece.len() == 1);
        assert(place(segments, n, 0, total, total) == earlier + piece);
        assert forall|k: int| 0 <= k < n implies (#[trigger] (earlier + piece)[k]).start
            == nanos_of(segments, k as nat)->0 && (earlier + piece)[k].end == nanos_of(segments, (k + 1) as nat)->0 by {
            if k < n - 1 {
                assert((earlier + piece)[k] == earlier[k]);
            } else {
                assert((earlier + piece)[k] == piece[0]);
            }
        }
    }
}

/// How long a piece plays, in milliseconds: the lengths of its notes and
/// rests in nanoseconds, added up and rounded down. `None` where the piece
/// cannot be walked (a tempo of zero, a tuplet with a count of zero) or
/// takes more nanoseconds than 64 bits count.
pub open spec fn total_duration_ms(commands: Seq<crate::mml::ast::CommandView>) -> Option<u64> {
    match walk(commands) {
        Some((segments, _)) => match nanos_of(segments, segments.len()) {
            Some(total) => Some(total / NANOS_PER_MILLI),
            None => None,
        },
        None => None,
    }
}

/// How long a piece plays, in milliseconds. The piece is walked as it is
/// for playing, and nothing is sent.
pub fn calculate_total_duration_ms(commands: &[Command]) -> (millis: Option<u64>)
    ensures
        millis == total_duration_ms(view_commands(commands@)),
{
    match arrange(commands) {
        Some(segments) => {
            proof {
                lemma_view_segments(segments@);
            }
            match segments_extent(&segments, NANOS_PER_SECOND) {
                Some(total) => Some(total / NANOS_PER_MILLI),
                None => None,
            }
        },
        None => None,
    }
}

/// What the player asks for next.
#[derive(Debug, Clone, Copy, PartialEq, Eq)]
pub enum Action {
    /// Send these three bytes to the device.
    Send { bytes: [u8; 3] },
    /// Wait until this many nanoseconds have passed since playback began;
    /// do not wait where they have passed already.
    WaitUntil { nanos: u64 },
    /// Nothing is left to do.
    Finished,
}

/// Where the player stands with the event that is next.
#[derive(Debug, Clone, Copy, PartialEq, Eq, Structural)]
pub enum Phase {
    /// Before the event: the place where an interruption is noticed.
    Ready,
    /// The note is to be switched on.
    On,
    /// The note sounds until its end.
    Hold,
    /// The note is to be switched off.
    Off,
    /// All notes have been switched off; playback is over.
    Done,
}

/// The view of a `Player`.
pub struct PlayerView {
    pub events: Seq<Event>,
    pub channel: u8,
    pub next: nat,
    pub phase: Phase,
}

/// Plays events on a channel, one action at a time. Whoever drives it
/// carries each action out and asks for the next, telling whether playback
/// has been interrupted.
pub struct Player {
    events: Vec<Event>,
    channel: u8,
    next: usize,
    phase: Phase,
}

impl View for Player {
    type V = PlayerView;

    closed spec fn view(&self) -> PlayerView {
        PlayerView {
            events: self.events@,
            channel: self.channel,
            next: self.next as nat,
            phase: self.phase,
        }
    }
}

/// The bytes that switch all notes of a channel off.
pub open spec fn all_notes_off(channel: u8) -> Seq<u8> {
    (MidiMessage::AllNotesOff { channel }).bytes()
}

/// The player after one step, and the action that the step asks for.
///
/// Before an event, an interruption or the end of the events leads to the
/// message that switches all notes off, and with it to the end. Else a
/// note is waited for, switched on, held until its end and switched off; a
/// rest is waited out.
pub open spec fn stepped(player: PlayerView, interrupted: bool) -> (PlayerView, Option<Seq<u8>>, Option<u64>) {
    match player.phase {
        Phase::Ready => if interrupted || player.next >= player.events.len() {
            (PlayerView { phase: Phase::Done, ..player }, Some(all_notes_off(player.channel)), None)
        } else {
            let event = player.events[player.next as int];
            if event.note is Some {
                (PlayerView { phase: Phase::On, ..player }, None, Some(event.start))
            } else {
                (PlayerView { next: player.next + 1, ..player }, None, Some(event.end))
            }
        },
        Phase::On => {
            let event = player.events[player.next as int];
            (
                PlayerView { phase: Phase::Hold, ..player },
                Some(
                    (MidiMessage::NoteOn {
                        channel: player.channel,
                        note: event.note->0,
                        velocity: event.velocity,
                    }).bytes(),
                ),
                None,
            )
        },
        Phase::Hold => {
            let event = player.events[player.next as int];
            (PlayerView { phase: Phase::Off, ..player }, None, Some(event.end))
        },
        Phase::Off => {
            let event = player.events[player.next as int];
            (
                PlayerView { next: player.next + 1, phase: Phase::Ready, ..player },
                Some(
                    (MidiMessage::NoteOff {
                        channel: player.channel,
                        note: event.note->0,
                        velocity: 0,
                    }).bytes(),
                ),
                None,
            )
        },
        Phase::Done => (player, None, None),
    }
}

/// What an action holds: the bytes to send, or the offset to wait for.
pub open spec fn action_parts(action: Action) -> (Option<Seq<u8>>, Option<u64>) {
    match action {
        Action::Send { bytes } => (Some(bytes@), None),
        Action::WaitUntil { nanos } => (None, Some(nanos)),
        Action::Finished => (None, None),
    }
}

impl Player {
    /// While a note is being played, the event that is next is that note.
    pub closed spec fn well_formed(&self) -> bool {
        &&& valid_channel(self.channel)
        &&& self.next <= self.events.len()
        &&& (self.phase == Phase::On || self.phase == Phase::Hold || self.phase == Phase::Off)
            ==> self.next < self.events.len() && self.events[self.next as int].note is Some
    }

    /// A player at the first of `events`, for a channel from 1 to 16.
    pub fn new(events: Vec<Event>, channel: u8) -> (result: Result<Player, MidiError>)
        ensures
            valid_channel(channel) ==> (result matches Ok(player) && player.well_formed()
                && player@ == (PlayerView {
                events: events@,
                channel,
                next: 0,
                phase: Phase::Ready,
            })),
            !valid_channel(channel) ==> (result matches Err(error) && error@ == (
            MidiErrorView::InvalidChannel { channel })),
    {
        match MidiError::validate_channel(channel) {
            Ok(()) => Ok(Player { events, channel, next: 0, phase: Phase::Ready }),
            Err(error) => Err(error),
        }
    }

    /// Whether playback is over.
    pub fn is_done(&self) -> (done: bool)
        ensures
            done == (self@.phase == Phase::Done),
    {
        self.phase == Phase::Done
    }

    /// Takes one step and gives the action to carry out. `interrupted`
    /// tells whether playback has been interrupted; it is looked at before
    /// every event, not in the middle of a note.
    ///
    /// `Finished` comes only once all notes have been switched off: the
    /// step that ends playback, whether by interruption or at the end of
    /// the events, sends that message.
    pub fn step(&mut self, interrupted: bool) -> (action: Action)
        requires
            old(self).well_formed(),
        ensures
            final(self).well_formed(),
            final(self)@ == stepped(old(self)@, interrupted).0,
            action_parts(action) == (
                stepped(old(self)@, interrupted).1,
                stepped(old(self)@, interrupted).2,
            ),
            action is Finished <==> old(self)@.phase == Phase::Done,
            final(self)@.phase == Phase::Done && old(self)@.phase != Phase::Done ==> action_parts(
                action,
            ).0 == Some(all_notes_off(old(self)@.channel)),
    {
        match self.phase {
            Phase::Ready => {
                if interrupted || self.next >= self.events.len() {
                    self.phase = Phase::Done;
                    Action::Send { bytes: build_all_notes_off_message(self.channel) }
                } else {
                    let event = self.events[self.next];
                    if event.note.is_some() {
                        self.phase = Phase::On;
                        Action::WaitUntil { nanos: event.start }
                    } else {
                        self.next += 1;
                        Action::WaitUntil { nanos: event.end }
                    }
                }
            },
            Phase::On => {
                let event = self.events[self.next];
                let note: u8 = match event.note {
                    Some(note) => note,
                    None => 0,
                };
                self.phase = Phase::Hold;
                Action::Send { bytes: build_note_on_message(self.channel, note, event.velocity) }
            },
            Phase::Hold => {
                let event = self.events[self.next];
                self.phase = Phase::Off;
                Action::WaitUntil { nanos: event.end }
            },
            Phase::Off => {
                let event = self.events[self.next];
                let note: u8 = match event.note {
                    Some(note) => note,
                    None => 0,
                };
                self.next += 1;
                self.phase = Phase::Ready;
                Action::Send { bytes: build_note_off_message(self.channel, note) }
            },
            Phase::Done => Action::Finished,
        }
    }
}

} // verus!
