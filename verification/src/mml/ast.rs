//! The commands that a piece of notation compiles to.
//!
//! Every type that owns a `Vec` has a view in which the `Vec` is a `Seq`;
//! contracts speak of those views.

use vstd::prelude::*;

verus! {

/// One of the seven pitch letters.
#[derive(Debug, Clone, Copy, PartialEq, Eq, Structural)]
pub enum Pitch {
    C,
    D,
    E,
    F,
    G,
    A,
    B,
}

impl Pitch {
    /// The number of semitones that the pitch lies above C.
    pub open spec fn spec_semitone(self) -> int {
        match self {
            Pitch::C => 0,
            Pitch::D => 2,
            Pitch::E => 4,
            Pitch::F => 5,
            Pitch::G => 7,
            Pitch::A => 9,
            Pitch::B => 11,
        }
    }

    /// The pitch that a letter names, in either case.
    pub open spec fn spec_from_char(c: char) -> Option<Pitch> {
        if c == 'C' || c == 'c' {
            Some(Pitch::C)
        } else if c == 'D' || c == 'd' {
            Some(Pitch::D)
        } else if c == 'E' || c == 'e' {
            Some(Pitch::E)
        } else if c == 'F' || c == 'f' {
            Some(Pitch::F)
        } else if c == 'G' || c == 'g' {
            Some(Pitch::G)
        } else if c == 'A' || c == 'a' {
            Some(Pitch::A)
        } else if c == 'B' || c == 'b' {
            Some(Pitch::B)
        } else {
            None
        }
    }

    /// The number of semitones that the pitch lies above C.
    #[verifier::when_used_as_spec(spec_semitone_u8)]
    pub fn semitone(self) -> (s: u8)
        ensures
            s as int == self.spec_semitone(),
            s == self.spec_semitone_u8(),
    {
        match self {
            Pitch::C => 0,
            Pitch::D => 2,
            Pitch::E => 4,
            Pitch::F => 5,
            Pitch::G => 7,
            Pitch::A => 9,
            Pitch::B => 11,
        }
    }

    /// `spec_semitone` as a byte.
    pub open spec fn spec_semitone_u8(self) -> u8 {
        self.spec_semitone() as u8
    }

    /// Reads a pitch letter, upper or lower case.
    pub fn from_char(c: char) -> (pitch: Option<Pitch>)
        ensures
            pitch == Pitch::spec_from_char(c),
    {
        match c {
            'C' | 'c' => Some(Pitch::C),
            'D' | 'd' => Some(Pitch::D),
            'E' | 'e' => Some(Pitch::E),
            'F' | 'f' => Some(Pitch::F),
            'G' | 'g' => Some(Pitch::G),
            'A' | 'a' => Some(Pitch::A),
            'B' | 'b' => Some(Pitch::B),
            _ => None,
        }
    }
}

/// Raises or lowers a pitch by a semitone.
#[derive(Debug, Clone, Copy, PartialEq, Eq, Structural)]
pub enum Accidental {
    Natural,
    Sharp,
    Flat,
}

impl Accidental {
    /// The number of semitones that the accidental adds.
    pub open spec fn spec_offset(self) -> int {
        match self {
            Accidental::Natural => 0,
            Accidental::Sharp => 1,
            Accidental::Flat => -1,
        }
    }

    /// The number of semitones that the accidental adds.
    pub fn offset(self) -> (o: i8)
        ensures
            o as int == self.spec_offset(),
    {
        match self {
            Accidental::Natural => 0,
            Accidental::Sharp => 1,
            Accidental::Flat => -1,
        }
    }
}

/// A single note value: `value` is 1 for a whole note, 2 for a half note and
/// so on; `None` stands for the default length in force. `dots` counts the
/// augmentation dots.
#[derive(Debug, Clone, Copy, PartialEq, Eq, Structural)]
pub struct Duration {
    pub value: Option<u8>,
    pub dots: u8,
}

impl Duration {
    pub fn new(value: Option<u8>, dots: u8) -> (d: Self)
        ensures
            d == (Duration { value, dots }),
    {
        Self { value, dots }
    }

    /// A written value lies in 1..=64.
    pub open spec fn well_formed(self) -> bool {
        self.value matches Some(v) ==> 1 <= v <= 64
    }
}

/// The view of a `TiedDuration`.
pub struct TiedDurationView {
    pub base: Duration,
    pub tied: Seq<Duration>,
}

/// One or more note values chained by ties; the whole lasts as long as the
/// base and every tied value together.
#[derive(Debug, PartialEq)]
pub struct TiedDuration {
    pub base: Duration,
    pub tied: Vec<Duration>,
}

impl View for TiedDuration {
    type V = TiedDurationView;

    open spec fn view(&self) -> TiedDurationView {
        TiedDurationView { base: self.base, tied: self.tied@ }
    }
}

impl Clone for TiedDuration {
    fn clone(&self) -> (copy: Self)
        ensures
            copy@ == self@,
    {
        let mut tied: Vec<Duration> = Vec::new();
        let mut i: usize = 0;
        while i < self.tied.len()
            invariant
                i <= self.tied.len(),
                tied@ == self.tied@.subrange(0, i as int),
            decreases self.tied.len() - i,
        {
            tied.push(self.tied[i]);
            i += 1;
        }
        proof {
            assert(tied@ == self.tied@);
        }
        TiedDuration { base: self.base, tied }
    }
}

impl TiedDuration {
    /// A duration without ties.
    pub fn new(base: Duration) -> (t: Self)
        ensures
            t@ == (TiedDurationView { base, tied: Seq::empty() }),
    {
        Self { base, tied: Vec::new() }
    }

    /// Chains one more note value to the end.
    pub fn add_tie(&mut self, duration: Duration)
        ensures
            final(self)@ == (TiedDurationView {
                base: old(self)@.base,
                tied: old(self)@.tied.push(duration),
            }),
    {
        self.tied.push(duration);
    }

    /// Whether any value is tied to the base.
    pub fn has_ties(&self) -> (b: bool)
        ensures
            b == (self@.tied.len() > 0),
    {
        self.tied.len() > 0
    }
}

/// The view of a `Note`.
pub struct NoteView {
    pub pitch: Pitch,
    pub accidental: Accidental,
    pub duration: TiedDurationView,
}

#[derive(Debug, PartialEq)]
pub struct Note {
    pub pitch: Pitch,
    pub accidental: Accidental,
    pub duration: TiedDuration,
}

impl View for Note {
    type V = NoteView;

    open spec fn view(&self) -> NoteView {
        NoteView { pitch: self.pitch, accidental: self.accidental, duration: self.duration@ }
    }
}

impl Clone for Note {
    fn clone(&self) -> (copy: Self)
        ensures
            copy@ == self@,
    {
        Note { pitch: self.pitch, accidental: self.accidental, duration: self.duration.clone() }
    }
}

/// The MIDI note number of a pitch in an octave: twelve per octave, with C
/// of octave 4 at 60, kept within 0..=127.
pub open spec fn midi_note_number(pitch: Pitch, accidental: Accidental, octave: int) -> int {
    let raw = (octave + 1) * 12 + pitch.spec_semitone() + accidental.spec_offset();
    if raw < 0 {
        0
    } else if raw > 127 {
        127
    } else {
        raw
    }
}

impl Note {
    /// The MIDI note number of this note in the given octave.
    pub fn to_midi_note(&self, octave: u8) -> (n: u8)
        ensures
            n as int == midi_note_number(self.pitch, self.accidental, octave as int),
            n <= 127,
    {
        let raw: i16 = (octave as i16 + 1) * 12 + self.pitch.semitone() as i16
            + self.accidental.offset() as i16;
        if raw < 0 {
            0
        } else if raw > 127 {
            127
        } else {
            raw as u8
        }
    }
}

/// The view of a `Rest`.
pub struct RestView {
    pub duration: TiedDurationView,
}

#[derive(Debug, PartialEq)]
pub struct Rest {
    pub duration: TiedDuration,
}

impl View for Rest {
    type V = RestView;

    open spec fn view(&self) -> RestView {
        RestView { duration: self.duration@ }
    }
}

impl Clone for Rest {
    fn clone(&self) -> (copy: Self)
        ensures
            copy@ == self@,
    {
        Rest { duration: self.duration.clone() }
    }
}

#[derive(Debug, Clone, Copy, PartialEq, Eq, Structural)]
pub struct Octave {
    pub value: u8,
}

#[derive(Debug, Clone, Copy, PartialEq, Eq, Structural)]
pub struct Tempo {
    pub value: u16,
}

#[derive(Debug, Clone, Copy, PartialEq, Eq, Structural)]
pub struct DefaultLength {
    pub value: u8,
}

/// A volume on the 0..=15 scale, or a step of at most 15 up or down from the
/// volume in force.
#[derive(Debug, Clone, Copy, PartialEq, Eq, Structural)]
pub enum VolumeValue {
    Absolute(u8),
    Relative(i8),
}

#[derive(Debug, Clone, Copy, PartialEq, Eq, Structural)]
pub struct Volume {
    pub value: VolumeValue,
}

/// The view of a `Command`.
pub enum CommandView {
    Note(NoteView),
    Rest(RestView),
    Octave(Octave),
    OctaveUp,
    OctaveDown,
    Tempo(Tempo),
    DefaultLength(DefaultLength),
    Volume(Volume),
    Loop { commands: Seq<CommandView>, escape_index: Option<usize>, repeat_count: usize },
    Tuplet { commands: Seq<CommandView>, count: u8, base_duration: Option<u8> },
}

/// One command of a piece.
///
/// `Loop` repeats `commands` `repeat_count` times; where `escape_index` is
/// set, the last repetition stops before the command at that index. The
/// parser replaces every loop that is not inside a tuplet by its expansion.
///
/// `Tuplet` plays `commands` in slots of one `count`-th of `base_duration`
/// (of the default length where that is `None`).
#[derive(Debug, PartialEq)]
pub enum Command {
    Note(Note),
    Rest(Rest),
    Octave(Octave),
    OctaveUp,
    OctaveDown,
    Tempo(Tempo),
    DefaultLength(DefaultLength),
    Volume(Volume),
    Loop { commands: Vec<Command>, escape_index: Option<usize>, repeat_count: usize },
    Tuplet { commands: Vec<Command>, count: u8, base_duration: Option<u8> },
}

/// The views of a sequence of commands, in order.
pub open spec fn view_commands(commands: Seq<Command>) -> Seq<CommandView>
    decreases commands,
{
    if commands.len() == 0 {
        Seq::empty()
    } else {
        view_commands(commands.drop_last()).push(commands.last().view())
    }
}

impl View for Command {
    type V = CommandView;

    open spec fn view(&self) -> CommandView
        decreases self,
    {
        match self {
            Command::Note(n) => CommandView::Note(n@),
            Command::Rest(r) => CommandView::Rest(r@),
            Command::Octave(o) => CommandView::Octave(*o),
            Command::OctaveUp => CommandView::OctaveUp,
            Command::OctaveDown => CommandView::OctaveDown,
            Command::Tempo(t) => CommandView::Tempo(*t),
            Command::DefaultLength(l) => CommandView::DefaultLength(*l),
            Command::Volume(v) => CommandView::Volume(*v),
            Command::Loop { commands, escape_index, repeat_count } => CommandView::Loop {
                commands: view_commands(commands@),
                escape_index: *escape_index,
                repeat_count: *repeat_count,
            },
            Command::Tuplet { commands, count, base_duration } => CommandView::Tuplet {
                commands: view_commands(commands@),
                count: *count,
                base_duration: *base_duration,
            },
        }
    }
}

/// Whether a command can be played: a tempo is not zero, a tuplet has a
/// count that is not zero, and the commands inside a loop or a tuplet can
/// be played.
pub open spec fn playable_command(command: CommandView) -> bool
    decreases command,
{
    match command {
        CommandView::Tempo(t) => t.value > 0,
        CommandView::Loop { commands, .. } => forall|i: int|
            0 <= i < commands.len() ==> playable_command(#[trigger] commands[i]),
        CommandView::Tuplet { commands, count, .. } => count > 0 && forall|i: int|
            0 <= i < commands.len() ==> playable_command(#[trigger] commands[i]),
        _ => true,
    }
}

/// Whether every command of a sequence can be played.
pub open spec fn playable(commands: Seq<CommandView>) -> bool {
    forall|i: int| 0 <= i < commands.len() ==> playable_command(#[trigger] commands[i])
}

/// Two sequences that can be played can be played one after the other.
pub proof fn lemma_playable_concat(first: Seq<CommandView>, second: Seq<CommandView>)
    requires
        playable(first),
        playable(second),
    ensures
        playable(first + second),
{
    assert forall|i: int| 0 <= i < (first + second).len() implies playable_command(
        #[trigger] (first + second)[i],
    ) by {
        if i < first.len() {
            assert((first + second)[i] == first[i]);
        } else {
            assert((first + second)[i] == second[i - first.len()]);
        }
    }
}

/// `view_commands` keeps the length and views each command in place.
pub proof fn lemma_view_commands(commands: Seq<Command>)
    ensures
        view_commands(commands).len() == commands.len(),
        forall|i: int| 0 <= i < commands.len() ==> #[trigger] view_commands(commands)[i] == commands[i]@,
    decreases commands.len(),
{
    if commands.len() > 0 {
        lemma_view_commands(commands.drop_last());
        assert(view_commands(commands) == view_commands(commands.drop_last()).push(
            commands.last().view(),
        ));
    } else {
        assert(view_commands(commands) == Seq::<CommandView>::empty());
    }
}

/// Viewing one more command appends its view.
pub proof fn lemma_view_commands_push(commands: Seq<Command>, command: Command)
    ensures
        view_commands(commands.push(command)) == view_commands(commands).push(command@),
{
    assert(commands.push(command).drop_last() == commands);
}

/// Copies a sequence of commands, nested commands included.
pub fn clone_commands(commands: &Vec<Command>) -> (copy: Vec<Command>)
    ensures
        view_commands(copy@) == view_commands(commands@),
    decreases commands@,
{
    let mut copy: Vec<Command> = Vec::new();
    let mut i: usize = 0;
    while i < commands.len()
        invariant
            i <= commands.len(),
            copy.len() == i,
            view_commands(copy@) == view_commands(commands@.subrange(0, i as int)),
        decreases commands.len() - i,
    {
        let c = commands[i].clone();
        proof {
            assert(commands@.subrange(0, i + 1).drop_last() == commands@.subrange(0, i as int));
            lemma_view_commands_push(copy@, c);
        }
        copy.push(c);
        i += 1;
    }
    proof {
        assert(commands@.subrange(0, i as int) == commands@);
    }
    copy
}

impl Clone for Command {
    fn clone(&self) -> (copy: Self)
        ensures
            copy@ == self@,
        decreases self,
    {
        match self {
            Command::Note(n) => Command::Note(n.clone()),
            Command::Rest(r) => Command::Rest(r.clone()),
            Command::Octave(o) => Command::Octave(*o),
            Command::OctaveUp => Command::OctaveUp,
            Command::OctaveDown => Command::OctaveDown,
            Command::Tempo(t) => Command::Tempo(*t),
            Command::DefaultLength(l) => Command::DefaultLength(*l),
            Command::Volume(v) => Command::Volume(*v),
            Command::Loop { commands, escape_index, repeat_count } => Command::Loop {
                commands: clone_commands(commands),
                escape_index: *escape_index,
                repeat_count: *repeat_count,
            },
            Command::Tuplet { commands, count, base_duration } => Command::Tuplet {
                commands: clone_commands(commands),
                count: *count,
                base_duration: *base_duration,
            },
        }
    }
}

/// A compiled piece: its commands in playing order.
#[derive(Debug, PartialEq)]
pub struct Mml {
    pub commands: Vec<Command>,
}

impl View for Mml {
    type V = Seq<CommandView>;

    open spec fn view(&self) -> Seq<CommandView> {
        view_commands(self.commands@)
    }
}

impl Clone for Mml {
    fn clone(&self) -> (copy: Self)
        ensures
            copy@ == self@,
    {
        Mml { commands: clone_commands(&self.commands) }
    }
}

/// The tempo that the first tempo command among `commands` sets, or 120.
pub open spec fn first_tempo(commands: Seq<CommandView>) -> u16
    decreases commands.len(),
{
    if commands.len() == 0 {
        120
    } else {
        match commands[0] {
            CommandView::Tempo(t) => t.value,
            _ => first_tempo(commands.drop_first()),
        }
    }
}

impl Mml {
    /// The tempo that the piece sets first; 120 where it sets none.
    pub fn get_tempo(&self) -> (bpm: u16)
        ensures
            bpm == first_tempo(self@),
    {
        let mut i: usize = 0;
        proof {
            lemma_view_commands(self.commands@);
            assert(self@.subrange(0, self@.len() as int) == self@);
        }
        while i < self.commands.len()
            invariant
                i <= self.commands.len(),
                view_commands(self.commands@).len() == self.commands.len(),
                forall|j: int|
                    0 <= j < self.commands.len() ==> #[trigger] view_commands(self.commands@)[j]
                        == self.commands[j]@,
                first_tempo(self@) == first_tempo(self@.subrange(i as int, self@.len() as int)),
            decreases self.commands.len() - i,
        {
            let ghost rest = self@.subrange(i as int, self@.len() as int);
            proof {
                assert(rest[0] == self.commands[i as int]@);
                assert(rest.drop_first() == self@.subrange(i + 1, self@.len() as int));
            }
            match &self.commands[i] {
                Command::Tempo(t) => {
                    return t.value;
                },
                _ => {},
            }
            i += 1;
        }
        120
    }
}

} // verus!
