//! Decisions around the system's audio devices: which enumerated devices
//! belong to the virtual cable, the saved default output device, and the
//! communications-capture mode that routes the cable to call applications.
//! Enumerating devices and switching defaults is the caller's part; these
//! functions take what it found and say what to do.

use crate::text::{contains_seq, contains_str, lower_of, to_lower};
use vstd::prelude::*;

verus! {

/// What identifies the cable's playback side among output device names.
pub open spec fn cable_input_marker() -> Seq<char> {
    seq!['c', 'a', 'b', 'l', 'e', ' ', 'i', 'n', 'p', 'u', 't']
}

/// What identifies the cable's capture side among input device names.
pub open spec fn cable_output_marker() -> Seq<char> {
    seq!['c', 'a', 'b', 'l', 'e', ' ', 'o', 'u', 't', 'p', 'u', 't']
}

/// Whether a device name, in lowercase, holds `marker`.
pub open spec fn names_marker(name: Seq<char>, marker: Seq<char>) -> bool {
    contains_seq(lower_of(name), marker)
}

/// The characters of each name.
pub open spec fn views_of(names: Seq<String>) -> Seq<Seq<char>> {
    names.map_values(|s: String| s@)
}

/// The names of (name, identifier) pairs.
pub open spec fn pair_names(devices: Seq<(String, String)>) -> Seq<Seq<char>> {
    devices.map_values(|d: (String, String)| d.0@)
}

/// Whether `i` is the first of `names` that holds `marker` in lowercase.
pub open spec fn is_first_match(names: Seq<Seq<char>>, marker: Seq<char>, i: int) -> bool {
    &&& 0 <= i < names.len()
    &&& names_marker(names[i], marker)
    &&& forall|j: int| 0 <= j < i ==> !names_marker(#[trigger] names[j], marker)
}

/// Whether none of `names` holds `marker` in lowercase.
pub open spec fn no_match(names: Seq<Seq<char>>, marker: Seq<char>) -> bool {
    forall|j: int| 0 <= j < names.len() ==> !names_marker(#[trigger] names[j], marker)
}

/// The position of the first of `names` that holds `marker` in lowercase.
pub open spec fn first_index(names: Seq<Seq<char>>, marker: Seq<char>) -> Option<int> {
    if no_match(names, marker) {
        None
    } else {
        Some(choose|i: int| is_first_match(names, marker, i))
    }
}

proof fn lemma_first_match_unique(names: Seq<Seq<char>>, marker: Seq<char>, i: int)
    requires
        is_first_match(names, marker, i),
    ensures
        first_index(names, marker) == Some(i),
{
    assert(!no_match(names, marker));
    let c = choose|c: int| is_first_match(names, marker, c);
    assert(is_first_match(names, marker, c));
    if c < i {
        assert(!names_marker(names[c], marker));
    }
    if i < c {
        assert(!names_marker(names[i], marker));
    }
}

fn first_match(names: &Vec<String>, marker: &str) -> (r: Option<usize>)
    ensures
        r matches Some(i) ==> first_index(views_of(names@), marker@) == Some(i as int) && i < names@.len(),
        r is None ==> first_index(views_of(names@), marker@) is None,
{
    let ghost v = views_of(names@);
    let mut i: usize = 0;
    while i < names.len()
        invariant
            i <= names@.len(),
            v == views_of(names@),
            forall|j: int| 0 <= j < i ==> !names_marker(#[trigger] v[j], marker@),
        decreases names@.len() - i,
    {
        let lower = to_lower(names[i].as_str());
        if contains_str(lower.as_str(), marker) {
            proof {
                lemma_first_match_unique(v, marker@, i as int);
            }
            return Some(i);
        }
        i = i + 1;
    }
    None
}

fn first_pair_match(devices: &Vec<(String, String)>, marker: &str) -> (r: Option<usize>)
    ensures
        r matches Some(i) ==> first_index(pair_names(devices@), marker@) == Some(i as int) && i < devices@.len(),
        r is None ==> first_index(pair_names(devices@), marker@) is None,
{
    let ghost v = pair_names(devices@);
    let mut i: usize = 0;
    while i < devices.len()
        invariant
            i <= devices@.len(),
            v == pair_names(devices@),
            forall|j: int| 0 <= j < i ==> !names_marker(#[trigger] v[j], marker@),
        decreases devices@.len() - i,
    {
        let lower = to_lower(devices[i].0.as_str());
        if contains_str(lower.as_str(), marker) {
            proof {
                lemma_first_match_unique(v, marker@, i as int);
            }
            return Some(i);
        }
        i = i + 1;
    }
    None
}

fn cable_input() -> (r: &'static str)
    ensures
        r@ == cable_input_marker(),
{
    proof {
        reveal_strlit("cable input");
    }
    "cable input"
}

fn cable_output() -> (r: &'static str)
    ensures
        r@ == cable_output_marker(),
{
    proof {
        reveal_strlit("cable output");
    }
    "cable output"
}

/// The virtual cable's devices, by name.
#[derive(Clone, Debug, PartialEq, Eq)]
pub struct VbCableInfo {
    /// The output device that applications play into.
    pub output_device: String,
    /// The input device that applications capture from, if present.
    pub input_device: Option<String>,
}

/// Whether the virtual cable is installed.
#[derive(Clone, Debug, PartialEq, Eq)]
pub enum VbCableStatus {
    Installed { info: VbCableInfo },
    NotInstalled,
}

/// The names of the cable's devices among the output and input device
/// names: the first output device named "cable input" and the first input
/// device named "cable output", in any case; none without such an output
/// device.
pub open spec fn cable_devices(
    output_names: Seq<String>,
    input_names: Seq<String>,
) -> Option<(Seq<char>, Option<Seq<char>>)> {
    match first_index(views_of(output_names), cable_input_marker()) {
        None => None,
        Some(o) => Some((
            output_names[o]@,
            match first_index(views_of(input_names), cable_output_marker()) {
                Some(i) => Some(input_names[i]@),
                None => None,
            },
        )),
    }
}

impl VbCableInfo {
    /// The device names this info holds.
    pub open spec fn names(self) -> (Seq<char>, Option<Seq<char>>) {
        (self.output_device@, match self.input_device { Some(d) => Some(d@), None => None })
    }
}

/// Whether some output device name holds "cable input", in any case.
pub fn is_vb_cable_installed(output_names: &Vec<String>) -> (r: bool)
    ensures
        r == first_index(views_of(output_names@), cable_input_marker()) is Some,
{
    let found = first_match(output_names, cable_input());
    found.is_some()
}

/// The cable's devices among the output and input device names (see
/// `cable_devices`).
pub fn detect_vb_cable(output_names: &Vec<String>, input_names: &Vec<String>) -> (r: Option<VbCableInfo>)
    ensures
        r is None <==> cable_devices(output_names@, input_names@) is None,
        r matches Some(info) ==> cable_devices(output_names@, input_names@) == Some(info.names()),
{
    match first_match(output_names, cable_input()) {
        None => None,
        Some(o) => {
            let input_device = match first_match(input_names, cable_output()) {
                Some(i) => Some(input_names[i].clone()),
                None => None,
            };
            Some(VbCableInfo { output_device: output_names[o].clone(), input_device })
        },
    }
}

/// The cable's status among the output and input device names.
pub fn check_vb_cable_status(output_names: &Vec<String>, input_names: &Vec<String>) -> (r: VbCableStatus)
    ensures
        r is NotInstalled <==> cable_devices(output_names@, input_names@) is None,
        r matches VbCableStatus::Installed { info } ==> cable_devices(output_names@, input_names@) == Some(info.names()),
{
    match detect_vb_cable(output_names, input_names) {
        Some(info) => VbCableStatus::Installed { info },
        None => VbCableStatus::NotInstalled,
    }
}

/// The name of the cable's output device, if the cable is installed.
pub fn get_vb_cable_device_name(output_names: &Vec<String>, input_names: &Vec<String>) -> (r: Option<String>)
    ensures
        r is None <==> cable_devices(output_names@, input_names@) is None,
        r matches Some(n) ==> n@ == cable_devices(output_names@, input_names@).unwrap().0,
{
    match detect_vb_cable(output_names, input_names) {
        Some(info) => Some(info.output_device),
        None => None,
    }
}

/// The message of `restore_default` when nothing was saved.
pub open spec fn nothing_saved_message() -> Seq<char> {
    seq![
        'N', 'o', ' ', 'd', 'e', 'v', 'i', 'c', 'e', ' ', 's', 'a', 'v', 'e', 'd', ' ',
        't', 'o', ' ', 'r', 'e', 's', 't', 'o', 'r', 'e',
    ]
}

/// The default output device as it was before the cable was installed, so
/// that it can be made the default again afterwards.
#[derive(Clone, Debug, PartialEq, Eq)]
pub struct DefaultDeviceManager {
    pub saved_device_id: Option<String>,
}

impl DefaultDeviceManager {
    /// A manager holding the default device that was just looked up, or the
    /// lookup's error.
    pub fn save_current_default(current_default: Result<String, String>) -> (r: Result<Self, String>)
        ensures
            current_default matches Ok(id) ==> r matches Ok(m) && m.saved_device_id == Some(id),
            current_default matches Err(e) ==> r == Err::<Self, String>(e),
    {
        match current_default {
            Ok(id) => Ok(DefaultDeviceManager { saved_device_id: Some(id) }),
            Err(e) => Err(e),
        }
    }

    /// The saved device identifier.
    pub fn get_saved_device_id(&self) -> (r: Option<String>)
        ensures
            r is None <==> self.saved_device_id is None,
            r matches Some(id) ==> self.saved_device_id matches Some(s) && id@ == s@,
    {
        match &self.saved_device_id {
            Some(id) => Some(id.clone()),
            None => None,
        }
    }

    /// The device to make the default again: the saved one, or an error
    /// saying that none was saved.
    pub fn restore_default(&self) -> (r: Result<String, String>)
        ensures
            r is Ok <==> self.saved_device_id is Some,
            r matches Ok(id) ==> self.saved_device_id matches Some(s) && id@ == s@,
            r matches Err(e) ==> e@ == nothing_saved_message(),
    {
        match &self.saved_device_id {
            Some(id) => Ok(id.clone()),
            None => {
                proof {
                    reveal_strlit("No device saved to restore");
                }
                Err(String::from_str("No device saved to restore"))
            },
        }
    }
}

/// What is kept on disk while the communications mode is on, so that the
/// original device can be restored after a crash.
#[derive(Clone, Debug, PartialEq, Eq)]
pub struct PersistedState {
    /// The communications capture device before the mode was switched on.
    pub original_device_id: String,
    /// Whether the mode was on.
    pub is_active: bool,
}

/// What switching the communications mode on takes, once the cable's capture
/// device and the current communications device are known.
#[derive(Clone, Debug, PartialEq, Eq)]
pub enum Activation {
    /// The mode is on already: nothing to do.
    AlreadyActive,
    /// The cable is the communications device already: nothing to do.
    AlreadyCable,
    /// Persist `saved`, then make `target` the communications device, then
    /// record the original device with `CommMode::record_switch`.
    Switch { saved: PersistedState, target: String },
}

/// The communications-capture mode: while it is on, the cable's capture side
/// is the system's communications device, and the device it replaced is
/// remembered here.
#[derive(Clone, Debug, PartialEq, Eq)]
pub struct CommMode {
    pub original_device_id: Option<String>,
}

impl CommMode {
    /// The mode is off.
    pub fn new() -> (r: CommMode)
        ensures
            r.original_device_id is None,
    {
        CommMode { original_device_id: None }
    }

    /// Whether the mode is on.
    pub fn is_active(&self) -> (r: bool)
        ensures
            r == self.original_device_id is Some,
    {
        self.original_device_id.is_some()
    }

    /// Switching the mode on, given the cable's capture device and the
    /// current communications device: nothing if the mode is on already or
    /// the cable already is the communications device (the mode stays as it
    /// is), else the switch to carry out. The mode itself changes only once
    /// the switch has succeeded, through `record_switch`.
    pub fn activate(&self, cable_id: &String, current_id: &String) -> (r: Activation)
        ensures
            self.original_device_id is Some ==> r == Activation::AlreadyActive,
            self.original_device_id is None && cable_id@ == current_id@ ==> r == Activation::AlreadyCable,
            self.original_device_id is None && cable_id@ != current_id@ ==> (r matches Activation::Switch { saved, target } && {
                &&& saved.original_device_id@ == current_id@
                &&& saved.is_active
                &&& target@ == cable_id@
            }),
    {
        if self.original_device_id.is_some() {
            Activation::AlreadyActive
        } else if *cable_id == *current_id {
            Activation::AlreadyCable
        } else {
            Activation::Switch {
                saved: PersistedState { original_device_id: current_id.clone(), is_active: true },
                target: cable_id.clone(),
            }
        }
    }

    /// The switch that `activate` asked for succeeded: the mode is on,
    /// remembering the device it replaced. A mode that is on already keeps
    /// the device it remembers.
    pub fn record_switch(&mut self, original_device_id: String)
        ensures
            old(self).original_device_id is Some ==> *final(self) == *old(self),
            old(self).original_device_id is None ==> final(self).original_device_id == Some(original_device_id),
    {
        if self.original_device_id.is_none() {
            self.original_device_id = Some(original_device_id);
        }
    }

    /// Switches the mode off and hands back the device to make the
    /// communications device again, if the mode was on.
    pub fn deactivate(&mut self) -> (r: Option<String>)
        ensures
            r == old(self).original_device_id,
            final(self).original_device_id is None,
    {
        let r = self.original_device_id.take();
        r
    }
}

/// After a crash: the device to restore, if the state left on disk says the
/// mode was on.
pub fn recover_from_crash(saved: Option<PersistedState>) -> (r: Option<String>)
    ensures
        r is Some <==> (saved matches Some(s) && s.is_active),
        r matches Some(id) ==> saved matches Some(s) && id == s.original_device_id,
{
    match saved {
        Some(s) => if s.is_active {
            Some(s.original_device_id)
        } else {
            None
        },
        None => None,
    }
}

/// The message when no capture device is the cable's.
pub open spec fn capture_not_found_message() -> Seq<char> {
    "VB-Cable Output device not found"@
}

/// The identifier of the cable's capture device among the active capture
/// devices, given as (name, identifier) pairs: that of the first device
/// named "cable output", in any case.
pub fn find_vbcable_output_device_id(devices: &Vec<(String, String)>) -> (r: Result<String, String>)
    ensures
        r is Ok <==> first_index(pair_names(devices@), cable_output_marker()) is Some,
        r matches Ok(id) ==> id@ == devices@[first_index(pair_names(devices@), cable_output_marker()).unwrap()].1@,
        r matches Err(e) ==> e@ == capture_not_found_message(),
{
    match first_pair_match(devices, cable_output()) {
        Some(i) => Ok(devices[i].1.clone()),
        None => Err(String::from_str("VB-Cable Output device not found")),
    }
}

} // verus!
