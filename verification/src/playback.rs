//! From commands to sound: the walk that both ways of playing share.
//!
//! The walk keeps the octave, tempo, default length and volume in force,
//! and turns every note and rest into a segment of exact length. The
//! synthesizer renders the segments into samples; the MIDI player sends
//! them as events.

use vstd::prelude::*;
use crate::mml::ast::{
    lemma_view_commands, midi_note_number, playable, playable_command, view_commands, Command,
    CommandView, TiedDuration, TiedDurationView, VolumeValue,
};
use crate::mml::duration::{total_seconds, Fraction, Ratio};
use crate::mml::expand::{expand_command, expand_first, last_stop, repeat};
use crate::mml::grammar::lemma_piece_playable;
use crate::mml::parser::spec_parse;
use crate::mml::tokenizer::spec_tokenize;

verus! {

/// The octave in which a piece begins.
pub const DEFAULT_OCTAVE: u8 = 4;

/// The tempo at which a piece begins, in beats a minute.
pub const DEFAULT_BPM: u16 = 120;

/// The default length with which a piece begins: quarter notes.
pub const DEFAULT_LENGTH: u8 = 4;

/// The volume at which a piece begins.
pub const DEFAULT_VOLUME: u8 = 10;

/// What is in force while a piece plays.
#[derive(Debug, Clone, Copy, PartialEq, Eq, Structural)]
pub struct PlaybackState {
    /// The octave, 1 to 8.
    pub octave: u8,
    /// The tempo in beats a minute, 30 to 300.
    pub bpm: u16,
    /// The length of a note without one of its own, 1 to 64.
    pub default_length: u8,
    /// The volume, 0 to 15.
    pub volume: u8,
}

/// The state in which every piece begins: octave 4, 120 beats a minute,
/// quarter notes, volume 10.
pub open spec fn initial_state() -> PlaybackState {
    PlaybackState {
        octave: DEFAULT_OCTAVE,
        bpm: DEFAULT_BPM,
        default_length: DEFAULT_LENGTH,
        volume: DEFAULT_VOLUME,
    }
}

/// The volume after a volume command: the absolute value, or the old volume
/// plus the step, either way kept within 0..=15.
pub open spec fn volume_after(volume: u8, value: VolumeValue) -> u8 {
    match value {
        VolumeValue::Absolute(v) => if v > 15 {
            15
        } else {
            v
        },
        VolumeValue::Relative(step) => if volume + step < 0 {
            0
        } else if volume + step > 15 {
            15
        } else {
            (volume + step) as u8
        },
    }
}

/// The state after a command. An octave step stays within 1..=8; notes,
/// rests, loops and tuplets leave the state as it is.
pub open spec fn state_after(state: PlaybackState, command: CommandView) -> PlaybackState {
    match command {
        CommandView::Octave(o) => PlaybackState { octave: o.value, ..state },
        CommandView::OctaveUp => if state.octave < 8 {
            PlaybackState { octave: (state.octave + 1) as u8, ..state }
        } else {
            state
        },
        CommandView::OctaveDown => if state.octave > 1 {
            PlaybackState { octave: (state.octave - 1) as u8, ..state }
        } else {
            state
        },
        CommandView::Tempo(t) => PlaybackState { bpm: t.value, ..state },
        CommandView::DefaultLength(l) => PlaybackState { default_length: l.value, ..state },
        CommandView::Volume(v) => PlaybackState {
            volume: volume_after(state.volume, v.value),
            ..state
        },
        _ => state,
    }
}

/// Whether a command sets the state to a value within its range: the
/// octave to 1..=8, the tempo to 30..=300, the default length to 1..=64.
/// The parser reads no other.
pub open spec fn sets_within_range(command: CommandView) -> bool {
    match command {
        CommandView::Octave(o) => 1 <= o.value <= 8,
        CommandView::Tempo(t) => 30 <= t.value <= 300,
        CommandView::DefaultLength(l) => 1 <= l.value <= 64,
        _ => true,
    }
}

/// A state within its ranges stays within them, whatever the volume
/// commands and octave steps that follow.
pub proof fn lemma_state_stays_in_range(state: PlaybackState, command: CommandView)
    requires
        state.in_range(),
        sets_within_range(command),
    ensures
        state_after(state, command).in_range(),
{
}

impl Default for PlaybackState {
    fn default() -> (state: Self)
        ensures
            state == initial_state(),
            state.in_range(),
    {
        PlaybackState {
            octave: DEFAULT_OCTAVE,
            bpm: DEFAULT_BPM,
            default_length: DEFAULT_LENGTH,
            volume: DEFAULT_VOLUME,
        }
    }
}

impl PlaybackState {
    /// Whether every value lies in its range.
    pub open spec fn in_range(self) -> bool {
        &&& 1 <= self.octave <= 8
        &&& 30 <= self.bpm <= 300
        &&& 1 <= self.default_length <= 64
        &&& self.volume <= 15
    }

    /// Takes a command into account.
    pub fn update_state(&mut self, command: &Command)
        ensures
            *final(self) == state_after(*old(self), command@),
    {
        match command {
            Command::Octave(o) => {
                self.octave = o.value;
            },
            Command::OctaveUp => {
                if self.octave < 8 {
                    self.octave += 1;
                }
            },
            Command::OctaveDown => {
                if self.octave > 1 {
                    self.octave -= 1;
                }
            },
            Command::Tempo(t) => {
                self.bpm = t.value;
            },
            Command::DefaultLength(l) => {
                self.default_length = l.value;
            },
            Command::Volume(v) => {
                self.volume = match v.value {
                    VolumeValue::Absolute(value) => if value > 15 {
                        15
                    } else {
                        value
                    },
                    VolumeValue::Relative(step) => {
                        let sum: i16 = self.volume as i16 + step as i16;
                        if sum < 0 {
                            0
                        } else if sum > 15 {
                            15
                        } else {
                            sum as u8
                        }
                    },
                };
            },
            _ => {},
        }
    }
}

/// The tuplet that a command stands in: its count and the length of one of
/// its slots in seconds.
pub struct TupletSlot {
    pub count: u8,
    pub seconds: Ratio,
}

/// A tuplet's count and the length of one of its slots, as the walk
/// carries them.
#[derive(Debug, PartialEq, Eq)]
pub struct Slot {
    pub count: u8,
    pub seconds: Fraction,
}

/// The tuplet that `slot` stands for, if any.
pub open spec fn slot_view(slot: Option<&Slot>) -> Option<TupletSlot> {
    match slot {
        Some(s) => Some(TupletSlot { count: s.count, seconds: s.seconds@ }),
        None => None,
    }
}

/// The view of a `Segment`.
pub enum SegmentView {
    Tone { note: u8, volume: u8, seconds: Ratio },
    Silence { seconds: Ratio },
    Stretched { segments: Seq<SegmentView>, seconds: Ratio },
}

/// A stretch of sound. `Tone` is a note of a MIDI note number at a volume
/// from 0 to 15; `Stretched` holds the segments of a tuplet inside a
/// tuplet, which are played at their own lengths and then fitted, all
/// together, into `seconds`.
#[derive(Debug, PartialEq)]
pub enum Segment {
    Tone { note: u8, volume: u8, seconds: Fraction },
    Silence { seconds: Fraction },
    Stretched { segments: Vec<Segment>, seconds: Fraction },
}

/// The views of a sequence of segments, in order.
pub open spec fn view_segments(segments: Seq<Segment>) -> Seq<SegmentView>
    decreases segments,
{
    if segments.len() == 0 {
        Seq::empty()
    } else {
        view_segments(segments.drop_last()).push(segments.last().view())
    }
}

impl View for Segment {
    type V = SegmentView;

    open spec fn view(&self) -> SegmentView
        decreases self,
    {
        match self {
            Segment::Tone { note, volume, seconds } => SegmentView::Tone {
                note: *note,
                volume: *volume,
                seconds: seconds@,
            },
            Segment::Silence { seconds } => SegmentView::Silence { seconds: seconds@ },
            Segment::Stretched { segments, seconds } => SegmentView::Stretched {
                segments: view_segments(segments@),
                seconds: seconds@,
            },
        }
    }
}

/// `view_segments` keeps the length and views each segment in place.
pub proof fn lemma_view_segments(segments: Seq<Segment>)
    ensures
        view_segments(segments).len() == segments.len(),
        forall|i: int|
            0 <= i < segments.len() ==> #[trigger] view_segments(segments)[i] == segments[i]@,
    decreases segments.len(),
{
    if segments.len() > 0 {
        lemma_view_segments(segments.drop_last());
        assert(view_segments(segments) == view_segments(segments.drop_last()).push(
            segments.last().view(),
        ));
    } else {
        assert(view_segments(segments) == Seq::<SegmentView>::empty());
    }
}

/// Viewing one more segment appends its view.
pub proof fn lemma_view_segments_push(segments: Seq<Segment>, segment: Segment)
    ensures
        view_segments(segments.push(segment)) == view_segments(segments).push(segment@),
{
    assert(segments.push(segment).drop_last() == segments);
}

/// Copies a sequence of segments, nested segments included.
pub fn clone_segments(segments: &Vec<Segment>) -> (copy: Vec<Segment>)
    ensures
        view_segments(copy@) == view_segments(segments@),
    decreases segments@,
{
    let mut copy: Vec<Segment> = Vec::new();
    let mut i: usize = 0;
    while i < segments.len()
        invariant
            i <= segments.len(),
            copy.len() == i,
            view_segments(copy@) == view_segments(segments@.subrange(0, i as int)),
        decreases segments.len() - i,
    {
        let segment = segments[i].clone();
        proof {
            assert(segments@.subrange(0, i + 1).drop_last() == segments@.subrange(0, i as int));
            lemma_view_segments_push(copy@, segment);
        }
        copy.push(segment);
        i += 1;
    }
    proof {
        assert(segments@.subrange(0, i as int) == segments@);
    }
    copy
}

impl Clone for Segment {
    fn clone(&self) -> (copy: Self)
        ensures
            copy@ == self@,
        decreases self,
    {
        match self {
            Segment::Tone { note, volume, seconds } => Segment::Tone {
                note: *note,
                volume: *volume,
                seconds: seconds.clone(),
            },
            Segment::Silence { seconds } => Segment::Silence { seconds: seconds.clone() },
            Segment::Stretched { segments, seconds } => Segment::Stretched {
                segments: clone_segments(segments),
                seconds: seconds.clone(),
            },
        }
    }
}

/// The length of one slot of a tuplet: the base length at the tempo,
/// divided by the count. A base length of zero lasts no time.
pub open spec fn slot_seconds(bpm: u16, base_length: u8, count: u8) -> Ratio {
    if base_length == 0 {
        Ratio { num: 0, den: count as int }
    } else {
        Ratio { num: 240, den: bpm * base_length * count }
    }
}

/// Whether a note value is written out: it has a length of its own, or
/// ties.
pub open spec fn written_out(duration: TiedDurationView) -> bool {
    duration.base.value is Some || duration.tied.len() > 0
}

/// How long a note or rest lasts: outside a tuplet, as long as its note
/// value says; in a tuplet, one slot, unless its note value is written
/// out, in which case as long as that says, divided by the tuplet's count.
/// There is no length at a tempo of zero, nor for a written-out value in a
/// tuplet with a count of zero.
pub open spec fn sounding_seconds(
    duration: TiedDurationView,
    state: PlaybackState,
    slot: Option<TupletSlot>,
) -> Option<Ratio> {
    if state.bpm == 0 {
        None
    } else {
        match slot {
            None => Some(total_seconds(duration, state.bpm, state.default_length)),
            Some(tuplet) => if written_out(duration) {
                if tuplet.count == 0 {
                    None
                } else {
                    Some(
                        total_seconds(duration, state.bpm, state.default_length).over(
                            tuplet.count as int,
                        ),
                    )
                }
            } else {
                Some(tuplet.seconds)
            },
        }
    }
}

/// What a walk comes to: the segments and the state at its end. `None`
/// stands for a walk that met a note or rest at a tempo of zero, or a
/// tuplet with a count of zero.
pub type Walk = Option<(Seq<SegmentView>, PlaybackState)>;

/// `first`, then `second` from the state that `first` ends in.
pub open spec fn walk_then(first: Walk, second: Walk) -> Walk {
    match (first, second) {
        (Some((a, _)), Some((b, state))) => Some((a + b, state)),
        _ => None,
    }
}

/// The walk over one command, begun in `state`, in a tuplet or not.
///
/// A note gives a tone, a rest a silence. A loop gives its body once for
/// every repetition, the last time up to the escape point. A tuplet gives
/// its body in slots; inside another tuplet, it gives one stretched
/// segment of one slot of that tuplet. Every other command changes the
/// state and gives no segment.
pub open spec fn walk_command(
    command: CommandView,
    state: PlaybackState,
    slot: Option<TupletSlot>,
) -> Walk
    decreases command, 0nat, 0nat,
{
    match command {
        CommandView::Note(note) => match sounding_seconds(note.duration, state, slot) {
            Some(seconds) => Some(
                (
                    seq![
                        SegmentView::Tone {
                            note: midi_note_number(
                                note.pitch,
                                note.accidental,
                                state.octave as int,
                            ) as u8,
                            volume: state.volume,
                            seconds,
                        },
                    ],
                    state,
                ),
            ),
            None => None,
        },
        CommandView::Rest(rest) => match sounding_seconds(rest.duration, state, slot) {
            Some(seconds) => Some((seq![SegmentView::Silence { seconds }], state)),
            None => None,
        },
        CommandView::Loop { commands, escape_index, repeat_count } => if repeat_count == 0 {
            Some((Seq::empty(), state))
        } else {
            match walk_rounds(commands, (repeat_count - 1) as nat, state, slot) {
                Some((segments, after)) => walk_then(
                    Some((segments, after)),
                    walk_first(commands, last_stop(commands.len(), escape_index), after, slot),
                ),
                None => None,
            }
        },
        CommandView::Tuplet { commands, count, base_duration } => {
            let base_length = match base_duration {
                Some(base) => base,
                None => state.default_length,
            };
            match slot_seconds(state.bpm, base_length, count).checked() {
                Some(seconds) => match walk_first(
                    commands,
                    commands.len(),
                    state,
                    Some(TupletSlot { count, seconds }),
                ) {
                    Some((segments, after)) => match slot {
                        None => Some((segments, after)),
                        Some(outer) => Some(
                            (seq![SegmentView::Stretched { segments, seconds: outer.seconds }], after),
                        ),
                    },
                    None => None,
                },
                None => None,
            }
        },
        other => Some((Seq::empty(), state_after(state, other))),
    }
}

/// The walk over the first `n` of `commands`.
pub open spec fn walk_first(
    commands: Seq<CommandView>,
    n: nat,
    state: PlaybackState,
    slot: Option<TupletSlot>,
) -> Walk
    decreases commands, n, 0nat,
{
    if n == 0 || n > commands.len() {
        Some((Seq::empty(), state))
    } else {
        match walk_first(commands, (n - 1) as nat, state, slot) {
            Some((segments, after)) => walk_then(
                Some((segments, after)),
                walk_command(commands[n - 1], after, slot),
            ),
            None => None,
        }
    }
}

/// The walk over all of `body`, `rounds` times in a row.
pub open spec fn walk_rounds(
    body: Seq<CommandView>,
    rounds: nat,
    state: PlaybackState,
    slot: Option<TupletSlot>,
) -> Walk
    decreases body, body.len() + 1, rounds,
{
    if rounds == 0 {
        Some((Seq::empty(), state))
    } else {
        match walk_rounds(body, (rounds - 1) as nat, state, slot) {
            Some((segments, after)) => walk_then(
                Some((segments, after)),
                walk_first(body, body.len(), after, slot),
            ),
            None => None,
        }
    }
}

/// The walk over a whole piece, from the initial state.
pub open spec fn walk(commands: Seq<CommandView>) -> Walk {
    walk_first(commands, commands.len(), initial_state(), None)
}

/// Whether a computed length is the expected one.
pub open spec fn same_length(got: Option<Fraction>, expected: Option<Ratio>) -> bool {
    match (got, expected) {
        (Some(g), Some(e)) => g@ == e,
        (None, None) => true,
        _ => false,
    }
}

/// The length of a note or rest; see `sounding_seconds`.
fn sounding(duration: &TiedDuration, state: &PlaybackState, held_slot: Option<&Slot>) -> (seconds:
    Option<Fraction>)
    ensures
        same_length(seconds, sounding_seconds(duration@, *state, slot_view(held_slot))),
{
    if state.bpm == 0 {
        return None;
    }
    match held_slot {
        None => duration.total_duration_in_seconds(state.bpm, state.default_length),
        Some(tuplet) => {
            if duration.base.value.is_some() || duration.has_ties() {
                if tuplet.count == 0 {
                    return None;
                }
                match duration.total_duration_in_seconds(state.bpm, state.default_length) {
                    Some(total) => Some(total.over(tuplet.count)),
                    None => None,
                }
            } else {
                Some(tuplet.seconds.clone())
            }
        },
    }
}

/// The length of one slot of a tuplet; see `slot_seconds`.
fn slot_length(bpm: u16, base_length: u8, count: u8) -> (seconds: Option<Fraction>)
    ensures
        same_length(seconds, slot_seconds(bpm, base_length, count).checked()),
{
    if base_length == 0 {
        if count == 0 {
            None
        } else {
            Some(Fraction::new(0, count as u32))
        }
    } else {
        assert(bpm * base_length * count <= 65535 * 255 * 255 && bpm * base_length * count >= 0
            && (bpm * base_length) * count == bpm * base_length * count && bpm * base_length
            <= 65535 * 255) by (nonlinear_arith)
            requires
                0 <= bpm <= 65535,
                0 <= base_length <= 255,
                0 <= count <= 255,
        ;
        let den: u32 = bpm as u32 * base_length as u32 * count as u32;
        if den == 0 {
            None
        } else {
            Some(Fraction::new(240, den))
        }
    }
}

/// Walks over the first `n` of `commands` and appends the segments to
/// `out`; tells whether the walk came to its end.
fn walk_into(
    commands: &[Command],
    n: usize,
    state: &mut PlaybackState,
    held_slot: Option<&Slot>,
    out: &mut Vec<Segment>,
) -> (held: bool)
    requires
        n <= commands.len(),
    ensures
        match walk_first(view_commands(commands@), n as nat, *old(state), slot_view(held_slot)) {
            Some((segments, after)) => held && view_segments(final(out)@) == view_segments(
                old(out)@,
            ) + segments && *final(state) == after,
            None => !held,
        },
    decreases commands@, n, 0nat,
{
    let ghost slot = slot_view(held_slot);
    let ghost body = view_commands(commands@);
    let ghost before = view_segments(out@);
    let ghost start = *state;
    proof {
        lemma_view_commands(commands@);
        assert(before + Seq::<SegmentView>::empty() =~= before);
    }
    let mut i: usize = 0;
    while i < n
        invariant
            i <= n <= commands.len(),
            start == *old(state),
            before == view_segments(old(out)@),
            body == view_commands(commands@),
            body.len() == commands.len(),
            forall|j: int| 0 <= j < commands.len() ==> #[trigger] body[j] == commands[j]@,
            slot == slot_view(held_slot),
            walk_first(body, i as nat, start, slot) matches Some((segments, after))
                && view_segments(out@) == before + segments && *state == after,
        decreases n - i,
    {
        let ghost so_far = walk_first(body, i as nat, start, slot);
        let ghost segments_so_far = (so_far->0).0;
        let ghost here = *state;
        let ghost step = walk_command(body[i as int], here, slot);
        assert(walk_first(body, (i + 1) as nat, start, slot) == walk_then(so_far, step));
        let held = walk_one(&commands[i], state, held_slot, out);
        if !held {
            proof {
                lemma_walk_first_fails(body, (i + 1) as nat, n as nat, start, slot);
            }
            return false;
        }
        proof {
            assert(before + (segments_so_far + (step->0).0) =~= (before + segments_so_far)
                + (step->0).0);
        }
        i += 1;
    }
    true
}

/// A walk that fails after some commands fails after more.
proof fn lemma_walk_first_fails(
    commands: Seq<CommandView>,
    m: nat,
    n: nat,
    state: PlaybackState,
    slot: Option<TupletSlot>,
)
    requires
        m <= n <= commands.len(),
        walk_first(commands, m, state, slot) is None,
    ensures
        walk_first(commands, n, state, slot) is None,
    decreases n,
{
    if m < n {
        lemma_walk_first_fails(commands, m, (n - 1) as nat, state, slot);
    }
}

/// A walk over rounds that fails after some rounds fails after more.
proof fn lemma_walk_rounds_fails(
    body: Seq<CommandView>,
    m: nat,
    n: nat,
    state: PlaybackState,
    slot: Option<TupletSlot>,
)
    requires
        m <= n,
        walk_rounds(body, m, state, slot) is None,
    ensures
        walk_rounds(body, n, state, slot) is None,
    decreases n,
{
    if m < n {
        lemma_walk_rounds_fails(body, m, (n - 1) as nat, state, slot);
    }
}

/// Walks over one command and appends the segments to `out`; tells whether
/// the walk came to its end.
fn walk_one(
    command: &Command,
    state: &mut PlaybackState,
    held_slot: Option<&Slot>,
    out: &mut Vec<Segment>,
) -> (held: bool)
    ensures
        match walk_command(command@, *old(state), slot_view(held_slot)) {
            Some((segments, after)) => held && view_segments(final(out)@) == view_segments(
                old(out)@,
            ) + segments && *final(state) == after,
            None => !held,
        },
    decreases *command, 0nat, 0nat,
{
    let ghost slot = slot_view(held_slot);
    let ghost before = view_segments(out@);
    proof {
        assert(before + Seq::<SegmentView>::empty() =~= before);
    }
    match command {
        Command::Note(note) => {
            match sounding(&note.duration, state, held_slot) {
                Some(seconds) => {
                    let tone = Segment::Tone {
                        note: note.to_midi_note(state.octave),
                        volume: state.volume,
                        seconds,
                    };
                    proof {
                        lemma_view_segments_push(out@, tone);
                        assert(before.push(tone@) =~= before + seq![tone@]);
                    }
                    out.push(tone);
                    true
                },
                None => false,
            }
        },
        Command::Rest(rest) => {
            match sounding(&rest.duration, state, held_slot) {
                Some(seconds) => {
                    let silence = Segment::Silence { seconds };
                    proof {
                        lemma_view_segments_push(out@, silence);
                        assert(before.push(silence@) =~= before + seq![silence@]);
                    }
                    out.push(silence);
                    true
                },
                None => false,
            }
        },
        Command::Loop { commands, escape_index, repeat_count } => {
            if *repeat_count == 0 {
                return true;
            }
            let ghost body = view_commands(commands@);
            let ghost start = *state;
            proof {
                lemma_view_commands(commands@);
            }
            let stop: usize = match escape_index {
                Some(k) => if *k <= commands.len() {
                    *k
                } else {
                    commands.len()
                },
                None => commands.len(),
            };
            let mut round: usize = 0;
            while round < *repeat_count - 1
                invariant
                    round <= *repeat_count - 1,
                    start == *old(state),
                    before == view_segments(old(out)@),
                    command@ == (CommandView::Loop {
                        commands: body,
                        escape_index: *escape_index,
                        repeat_count: *repeat_count,
                    }),
                    body == view_commands(commands@),
                    body.len() == commands.len(),
                    decreases_to!(*command => commands@),
                    slot == slot_view(held_slot),
                    walk_rounds(body, round as nat, start, slot) matches Some((segments, after))
                        && view_segments(out@) == before + segments && *state == after,
                decreases *repeat_count - 1 - round,
            {
                let ghost so_far = walk_rounds(body, round as nat, start, slot);
                let ghost here = *state;
                let ghost step = walk_first(body, body.len(), here, slot);
                assert(walk_rounds(body, (round + 1) as nat, start, slot) == walk_then(
                    so_far,
                    step,
                ));
                let held = walk_into(commands.as_slice(), commands.len(), state, held_slot, out);
                if !held {
                    proof {
                        lemma_walk_rounds_fails(
                            body,
                            (round + 1) as nat,
                            (*repeat_count - 1) as nat,
                            start,
                            slot,
                        );
                    }
                    return false;
                }
                proof {
                    assert(before + ((so_far->0).0 + (step->0).0) =~= (before + (so_far->0).0)
                        + (step->0).0);
                }
                round += 1;
            }
            let ghost rounds = walk_rounds(body, (*repeat_count - 1) as nat, start, slot);
            let ghost last = walk_first(body, stop as nat, *state, slot);
            let held = walk_into(commands.as_slice(), stop, state, held_slot, out);
            proof {
                if held {
                    assert(before + ((rounds->0).0 + (last->0).0) =~= (before + (rounds->0).0)
                        + (last->0).0);
                }
            }
            held
        },
        Command::Tuplet { commands, count, base_duration } => {
            let base_length: u8 = match base_duration {
                Some(base) => *base,
                None => state.default_length,
            };
            let seconds = match slot_length(state.bpm, base_length, *count) {
                Some(seconds) => seconds,
                None => {
                    return false;
                },
            };
            let inner_slot = Slot { count: *count, seconds };
            let inner = Some(&inner_slot);
            proof {
                lemma_view_commands(commands@);
            }
            match held_slot {
                None => walk_into(commands.as_slice(), commands.len(), state, inner, out),
                Some(outer) => {
                    let mut segments: Vec<Segment> = Vec::new();
                    proof {
                        assert(view_segments(segments@) =~= Seq::<SegmentView>::empty());
                    }
                    let held = walk_into(
                        commands.as_slice(),
                        commands.len(),
                        state,
                        inner,
                        &mut segments,
                    );
                    if !held {
                        return false;
                    }
                    proof {
                        let walked = walk_first(
                            view_commands(commands@),
                            commands@.len(),
                            *old(state),
                            slot_view(inner),
                        );
                        assert(Seq::<SegmentView>::empty() + (walked->0).0 =~= (walked->0).0);
                    }
                    let stretched = Segment::Stretched {
                        segments,
                        seconds: outer.seconds.clone(),
                    };
                    proof {
                        lemma_view_segments_push(out@, stretched);
                        assert(before.push(stretched@) =~= before + seq![stretched@]);
                    }
                    out.push(stretched);
                    true
                },
            }
        },
        other => {
            state.update_state(other);
            true
        },
    }
}

/// Turns a compiled piece into the segments that it sounds as, in order,
/// from the initial state. `None` where a note or rest is met at a tempo
/// of zero, or a tuplet has a count of zero; a piece that the parser read
/// has neither.
pub fn arrange(commands: &[Command]) -> (segments: Option<Vec<Segment>>)
    ensures
        match walk(view_commands(commands@)) {
            Some((expected, _)) => segments matches Some(s) && view_segments(s@) == expected,
            None => segments is None,
        },
{
    let mut state = PlaybackState::default();
    let mut out: Vec<Segment> = Vec::new();
    proof {
        lemma_view_commands(commands@);
        assert(view_segments(out@) =~= Seq::<SegmentView>::empty());
    }
    if walk_into(commands, commands.len(), &mut state, None, &mut out) {
        proof {
            let walked = walk(view_commands(commands@));
            assert(Seq::<SegmentView>::empty() + (walked->0).0 =~= (walked->0).0);
        }
        Some(out)
    } else {
        None
    }
}

/// A piece that can be played is walked to its end: from a tempo that is
/// not zero, and in no tuplet or one with a count that is not zero, the
/// walk over commands that can be played gives segments, and ends at a
/// tempo that is not zero.
pub proof fn lemma_playable_is_walked(
    commands: Seq<CommandView>,
    n: nat,
    state: PlaybackState,
    slot: Option<TupletSlot>,
)
    requires
        playable(commands),
        state.bpm > 0,
        slot matches Some(tuplet) ==> tuplet.count > 0,
    ensures
        walk_first(commands, n, state, slot) matches Some((_, after)) && after.bpm > 0,
    decreases commands, n, 0nat,
{
    if n > 0 && n <= commands.len() {
        lemma_playable_is_walked(commands, (n - 1) as nat, state, slot);
        let after = walk_first(commands, (n - 1) as nat, state, slot).unwrap().1;
        assert(playable_command(commands[n - 1]));
        lemma_playable_command_is_walked(commands[n - 1], after, slot);
    }
}

/// A command that can be played is walked: see `lemma_playable_is_walked`.
pub proof fn lemma_playable_command_is_walked(
    command: CommandView,
    state: PlaybackState,
    slot: Option<TupletSlot>,
)
    requires
        playable_command(command),
        state.bpm > 0,
        slot matches Some(tuplet) ==> tuplet.count > 0,
    ensures
        walk_command(command, state, slot) matches Some((_, after)) && after.bpm > 0,
    decreases command, 0nat, 0nat,
{
    match command {
        CommandView::Loop { commands, escape_index, repeat_count } => {
            if repeat_count > 0 {
                lemma_playable_rounds_are_walked(
                    commands,
                    (repeat_count - 1) as nat,
                    state,
                    slot,
                );
                let after = walk_rounds(commands, (repeat_count - 1) as nat, state, slot).unwrap().1;
                lemma_playable_is_walked(
                    commands,
                    last_stop(commands.len(), escape_index),
                    after,
                    slot,
                );
            }
        },
        CommandView::Tuplet { commands, count, base_duration } => {
            let base_length = match base_duration {
                Some(base) => base,
                None => state.default_length,
            };
            if base_length > 0 {
                assert(state.bpm * base_length * count > 0) by (nonlinear_arith)
                    requires
                        state.bpm > 0,
                        base_length > 0,
                        count > 0,
                ;
            }
            let seconds = slot_seconds(state.bpm, base_length, count);
            lemma_playable_is_walked(
                commands,
                commands.len(),
                state,
                Some(TupletSlot { count, seconds }),
            );
        },
        _ => {},
    }
}

/// Rounds over a body that can be played are walked: see
/// `lemma_playable_is_walked`.
pub proof fn lemma_playable_rounds_are_walked(
    body: Seq<CommandView>,
    rounds: nat,
    state: PlaybackState,
    slot: Option<TupletSlot>,
)
    requires
        playable(body),
        state.bpm > 0,
        slot matches Some(tuplet) ==> tuplet.count > 0,
    ensures
        walk_rounds(body, rounds, state, slot) matches Some((_, after)) && after.bpm > 0,
    decreases body, body.len() + 1, rounds,
{
    if rounds > 0 {
        lemma_playable_rounds_are_walked(body, (rounds - 1) as nat, state, slot);
        let after = walk_rounds(body, (rounds - 1) as nat, state, slot).unwrap().1;
        lemma_playable_is_walked(body, body.len(), after, slot);
    }
}

/// Every piece that the parser reads can be played: its walk from the
/// initial state gives segments.
pub proof fn lemma_parsed_piece_is_walked(text: Seq<char>)
    ensures
        spec_parse(text) matches Ok(piece) ==> walk(piece) is Some,
{
    if let Ok(tokens) = spec_tokenize(text) {
        lemma_piece_playable(tokens, 0, 0, 0, Seq::empty());
        if let Ok(piece) = spec_parse(text) {
            lemma_playable_is_walked(piece, piece.len(), initial_state(), None);
        }
    }
}

/// The walk over all of `commands`.
pub open spec fn walk_all(commands: Seq<CommandView>, state: PlaybackState, slot: Option<TupletSlot>) -> Walk {
    walk_first(commands, commands.len(), state, slot)
}

/// A walk, and then the walk over `rest` from the state that it ends in.
pub open spec fn walk_on(first: Walk, rest: Seq<CommandView>, slot: Option<TupletSlot>) -> Walk {
    match first {
        Some((segments, after)) => walk_then(first, walk_all(rest, after, slot)),
        None => None,
    }
}

/// The walk over the first commands of a sequence depends on those
/// commands only.
pub proof fn lemma_walk_prefix(
    a: Seq<CommandView>,
    b: Seq<CommandView>,
    n: nat,
    state: PlaybackState,
    slot: Option<TupletSlot>,
)
    requires
        n <= a.len(),
        n <= b.len(),
        forall|i: int| 0 <= i < n ==> a[i] == b[i],
    ensures
        walk_first(a, n, state, slot) == walk_first(b, n, state, slot),
    decreases n,
{
    if n > 0 {
        lemma_walk_prefix(a, b, (n - 1) as nat, state, slot);
    }
}

/// The walk over two sequences in a row is the walk over the first and
/// then, from where that ends, the walk over the second.
pub proof fn lemma_walk_concat(
    a: Seq<CommandView>,
    b: Seq<CommandView>,
    state: PlaybackState,
    slot: Option<TupletSlot>,
)
    ensures
        walk_all(a + b, state, slot) == walk_on(walk_all(a, state, slot), b, slot),
    decreases b.len(),
{
    let first = walk_all(a, state, slot);
    if b.len() == 0 {
        assert(a + b =~= a);
        if let Some((segments, after)) = first {
            assert(segments + Seq::<SegmentView>::empty() =~= segments);
        }
    } else {
        let front = b.drop_last();
        lemma_walk_concat(a, front, state, slot);
        lemma_walk_prefix(a + b, a + front, (a.len() + front.len()) as nat, state, slot);
        assert((a + b)[a.len() + b.len() - 1] == b.last());
        if let Some((segments, after)) = first {
            lemma_walk_prefix(b, front, front.len(), after, slot);
            match walk_all(front, after, slot) {
                Some((more, later)) => {
                    if let Some((last, end)) = walk_command(b.last(), later, slot) {
                        assert((segments + more) + last =~= segments + (more + last));
                    }
                },
                None => {},
            }
        }
    }
}

/// Playing a loop is playing what it expands to: the walk over a command
/// is the walk over its expansion.
pub proof fn lemma_walk_of_expansion(
    command: CommandView,
    state: PlaybackState,
    slot: Option<TupletSlot>,
)
    ensures
        walk_all(expand_command(command), state, slot) == walk_command(command, state, slot),
    decreases command, 0nat, 0nat,
{
    match command {
        CommandView::Loop { commands, escape_index, repeat_count } => {
            if repeat_count > 0 {
                let whole = expand_first(commands, commands.len());
                let stop = last_stop(commands.len(), escape_index);
                lemma_walk_of_repeated(commands, (repeat_count - 1) as nat, state, slot);
                lemma_walk_concat(
                    repeat(whole, (repeat_count - 1) as nat),
                    expand_first(commands, stop),
                    state,
                    slot,
                );
                if let Some((segments, after)) = walk_rounds(
                    commands,
                    (repeat_count - 1) as nat,
                    state,
                    slot,
                ) {
                    lemma_walk_of_expanded_first(commands, stop, after, slot);
                }
            }
        },
        other => {
            let single = seq![other];
            assert(walk_first(single, 0, state, slot) == Some((Seq::<SegmentView>::empty(), state)));
            if let Some((segments, after)) = walk_command(other, state, slot) {
                assert(Seq::<SegmentView>::empty() + segments =~= segments);
            }
        },
    }
}

/// The walk over the expansions of the first `n` commands is the walk over
/// those commands.
pub proof fn lemma_walk_of_expanded_first(
    body: Seq<CommandView>,
    n: nat,
    state: PlaybackState,
    slot: Option<TupletSlot>,
)
    ensures
        walk_all(expand_first(body, n), state, slot) == walk_first(body, n, state, slot),
    decreases body, n, 0nat,
{
    if n > 0 && n <= body.len() {
        lemma_walk_of_expanded_first(body, (n - 1) as nat, state, slot);
        lemma_walk_concat(
            expand_first(body, (n - 1) as nat),
            expand_command(body[n - 1]),
            state,
            slot,
        );
        if let Some((segments, after)) = walk_first(body, (n - 1) as nat, state, slot) {
            lemma_walk_of_expansion(body[n - 1], after, slot);
        }
    }
}

/// The walk over an expanded body, repeated, is the walk over the body in
/// rounds.
pub proof fn lemma_walk_of_repeated(
    body: Seq<CommandView>,
    rounds: nat,
    state: PlaybackState,
    slot: Option<TupletSlot>,
)
    ensures
        walk_all(repeat(expand_first(body, body.len()), rounds), state, slot) == walk_rounds(
            body,
            rounds,
            state,
            slot,
        ),
    decreases body, body.len() + 1, rounds,
{
    let whole = expand_first(body, body.len());
    if rounds > 0 {
        lemma_walk_of_repeated(body, (rounds - 1) as nat, state, slot);
        lemma_walk_concat(repeat(whole, (rounds - 1) as nat), whole, state, slot);
        if let Some((segments, after)) = walk_rounds(body, (rounds - 1) as nat, state, slot) {
            lemma_walk_of_expanded_first(body, body.len(), after, slot);
        }
    }
}

/// The length that a segment takes up, counted in units of which `factor`
/// make a second and rounded to the nearest. The segments of a tuplet
/// inside a tuplet take up the slot they are fitted into; where they last
/// no time themselves, they take up none.
pub open spec fn extent(segment: SegmentView, factor: u32) -> Option<u64>
    decreases segment, 0nat,
{
    match segment {
        SegmentView::Tone { seconds, .. } => seconds.checked_rounded_times(factor as int),
        SegmentView::Silence { seconds } => seconds.checked_rounded_times(factor as int),
        SegmentView::Stretched { segments, seconds } => match total_extent(
            segments,
            segments.len(),
            factor,
        ) {
            Some(inner) => if inner == 0 {
                Some(0)
            } else {
                seconds.checked_rounded_times(factor as int)
            },
            None => None,
        },
    }
}

/// The length that the first `n` of `segments` take up together, in the
/// same units; `None` where it is more than 64 bits count.
pub open spec fn total_extent(segments: Seq<SegmentView>, n: nat, factor: u32) -> Option<u64>
    decreases segments, n,
{
    if n == 0 || n > segments.len() {
        Some(0)
    } else {
        match (total_extent(segments, (n - 1) as nat, factor), extent(segments[n - 1], factor)) {
            (Some(before), Some(this)) => if before + this <= u64::MAX {
                Some((before + this) as u64)
            } else {
                None
            },
            _ => None,
        }
    }
}

/// The length of a segment; see `extent`.
pub fn segment_extent(segment: &Segment, factor: u32) -> (length: Option<u64>)
    ensures
        length == extent(segment@, factor),
    decreases *segment, 0nat,
{
    match segment {
        Segment::Tone { seconds, .. } => seconds.rounded_times(factor),
        Segment::Silence { seconds } => seconds.rounded_times(factor),
        Segment::Stretched { segments, seconds } => {
            proof {
                lemma_view_segments(segments@);
            }
            match segments_extent(segments, factor) {
                Some(inner) => if inner == 0 {
                    Some(0)
                } else {
                    seconds.rounded_times(factor)
                },
                None => None,
            }
        },
    }
}

/// The length that `segments` take up together, counted in units of which
/// `factor` make a second; see `total_extent`.
pub fn segments_extent(segments: &Vec<Segment>, factor: u32) -> (length: Option<u64>)
    ensures
        length == total_extent(view_segments(segments@), segments@.len(), factor),
    decreases segments@, segments@.len(),
{
    let ghost views = view_segments(segments@);
    proof {
        lemma_view_segments(segments@);
    }
    let mut total: u64 = 0;
    let mut i: usize = 0;
    while i < segments.len()
        invariant
            i <= segments.len(),
            views == view_segments(segments@),
            views.len() == segments.len(),
            forall|j: int| 0 <= j < segments.len() ==> #[trigger] views[j] == segments[j]@,
            total_extent(views, i as nat, factor) == Some(total),
        decreases segments.len() - i,
    {
        let this = match segment_extent(&segments[i], factor) {
            Some(this) => this,
            None => {
                proof {
                    lemma_total_extent_fails(views, (i + 1) as nat, segments@.len(), factor);
                }
                return None;
            },
        };
        total = match total.checked_add(this) {
            Some(sum) => sum,
            None => {
                proof {
                    lemma_total_extent_fails(views, (i + 1) as nat, segments@.len(), factor);
                }
                return None;
            },
        };
        i += 1;
    }
    Some(total)
}

/// A total that is too large after some segments is too large after more.
proof fn lemma_total_extent_fails(segments: Seq<SegmentView>, m: nat, n: nat, factor: u32)
    requires
        m <= n <= segments.len(),
        total_extent(segments, m, factor) is None,
    ensures
        total_extent(segments, n, factor) is None,
    decreases n,
{
    if m < n {
        lemma_total_extent_fails(segments, m, (n - 1) as nat, factor);
    }
}

/// A total that fits after some segments fits after fewer, and is no
/// smaller than after fewer.
pub proof fn lemma_total_extent_grows(segments: Seq<SegmentView>, m: nat, n: nat, factor: u32)
    requires
        m <= n <= segments.len(),
        total_extent(segments, n, factor) is Some,
    ensures
        total_extent(segments, m, factor) is Some,
        total_extent(segments, m, factor)->0 <= total_extent(segments, n, factor)->0,
        m < n ==> extent(segments[m as int], factor) is Some && total_extent(
            segments,
            m,
            factor,
        )->0 + extent(segments[m as int], factor)->0 <= total_extent(segments, n, factor)->0,
    decreases n,
{
    if m < n {
        lemma_total_extent_grows(segments, m, (n - 1) as nat, factor);
    }
}

} // verus!
