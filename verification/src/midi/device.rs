//! MIDI output devices: how a device is named, and how a name or number
//! given by the user finds one among the devices present.

use vstd::prelude::*;
use crate::midi::error::{MidiError, MidiErrorView};
use crate::text::{chars_of, contains, decimal_up_to, parse_decimal, text_contains};

verus! {

/// A MIDI output device: its number, counted from 0, and its name.
#[derive(Debug)]
pub struct MidiDeviceInfo {
    pub id: usize,
    pub name: String,
}

impl Clone for MidiDeviceInfo {
    fn clone(&self) -> (copy: Self)
        ensures
            copy.id == self.id,
            copy.name@ == self.name@,
    {
        MidiDeviceInfo { id: self.id, name: self.name.clone() }
    }
}

impl MidiDeviceInfo {
    pub fn new(id: usize, name: String) -> (info: Self)
        ensures
            info.id == id,
            info.name@ == name@,
    {
        Self { id, name }
    }
}

/// The devices of the given names, numbered in order from 0.
pub fn list_midi_devices_info(devices: &Vec<String>) -> (infos: Vec<MidiDeviceInfo>)
    ensures
        infos.len() == devices.len(),
        forall|i: int|
            0 <= i < devices.len() ==> (#[trigger] infos[i]).id == i && infos[i].name@
                == devices[i]@,
{
    let mut infos: Vec<MidiDeviceInfo> = Vec::new();
    let mut id: usize = 0;
    while id < devices.len()
        invariant
            id <= devices.len(),
            infos.len() == id,
            forall|i: int|
                0 <= i < id ==> (#[trigger] infos[i]).id == i && infos[i].name@ == devices[i]@,
        decreases devices.len() - id,
    {
        infos.push(MidiDeviceInfo::new(id, devices[id].clone()));
        id += 1;
    }
    infos
}

/// The number of the first device whose name holds `name`, if there is
/// one.
pub open spec fn first_named(devices: Seq<Seq<char>>, name: Seq<char>, from: int) -> Option<int>
    decreases devices.len() - from,
{
    if from < 0 || from >= devices.len() {
        None
    } else if contains(devices[from], name) {
        Some(from)
    } else {
        first_named(devices, name, from + 1)
    }
}

/// The device that `name_or_id` stands for among `devices`, given by their
/// names: where it is a decimal number, the device of that number, which
/// has to exist; else the first device whose name holds it.
pub open spec fn resolved(name_or_id: Seq<char>, devices: Seq<Seq<char>>) -> Result<
    usize,
    MidiErrorView,
> {
    match decimal_up_to(name_or_id, usize::MAX as u64) {
        Some(id) => if id >= devices.len() {
            Err(MidiErrorView::InvalidDeviceId { id: id as usize })
        } else {
            Ok(id as usize)
        },
        None => match first_named(devices, name_or_id, 0) {
            Some(id) => Ok(id as usize),
            None => Err(MidiErrorView::NoDeviceFound),
        },
    }
}

/// The names of `devices` as sequences of characters.
pub open spec fn names(devices: Seq<String>) -> Seq<Seq<char>> {
    Seq::new(devices.len(), |i: int| devices[i]@)
}

/// Finds the device that the user means by `name_or_id` among the devices
/// present, whose names are given in the order of their numbers. A decimal
/// number is taken as a device number; anything else as a part of a
/// device's name, and the first device that has it is meant.
pub fn resolve_device_id(name_or_id: &str, devices: &Vec<String>) -> (result: Result<
    usize,
    MidiError,
>)
    ensures
        match (result, resolved(name_or_id@, names(devices@))) {
            (Ok(id), Ok(expected)) => id == expected,
            (Err(error), Err(expected)) => error@ == expected,
            _ => false,
        },
{
    let wanted = chars_of(name_or_id);
    match parse_decimal(&wanted, usize::MAX as u64) {
        Some(number) => {
            let id: usize = number as usize;
            if id >= devices.len() {
                return Err(MidiError::InvalidDeviceId { id });
            }
            return Ok(id);
        },
        None => {},
    }
    let mut i: usize = 0;
    while i < devices.len()
        invariant
            i <= devices.len(),
            wanted@ == name_or_id@,
            decimal_up_to(name_or_id@, usize::MAX as u64) is None,
            first_named(names(devices@), wanted@, 0) == first_named(
                names(devices@),
                wanted@,
                i as int,
            ),
        decreases devices.len() - i,
    {
        let name = chars_of(devices[i].as_str());
        proof {
            assert(names(devices@)[i as int] == devices@[i as int]@);
        }
        if text_contains(&name, &wanted) {
            return Ok(i);
        }
        i += 1;
    }
    Err(MidiError::NoDeviceFound)
}

} // verus!
