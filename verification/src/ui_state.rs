//! The decisions of the window: which port is selected, when to connect on
//! its own, and when to read the settings again.
use vstd::prelude::*;

use crate::serial::{opt_text, port_views, PortModel, PortSummary, SerialSnapshot, SnapshotModel};
use crate::text::{chars_of, same_chars, string_of, trim, trim_chars, append_str};

verus! {

/// The name of the first port marked as the transmitter's adapter.
pub open spec fn first_preferred(ports: Seq<PortModel>) -> Option<Seq<char>>
    decreases ports.len(),
{
    if ports.len() == 0 {
        None
    } else if ports[0].is_preferred_device {
        Some(ports[0].port_name)
    } else {
        first_preferred(ports.drop_first())
    }
}

pub open spec fn has_port(ports: Seq<PortModel>, name: Seq<char>) -> bool {
    exists|i: int| 0 <= i < ports.len() && ports[i].port_name == name
}

/// The port selected after a scan: the first preferred port; else the
/// current selection if it is still listed; else the first port; else none.
pub open spec fn default_selection(ports: Seq<PortModel>, selected: Seq<char>) -> Seq<char> {
    match first_preferred(ports) {
        Some(name) => name,
        None => if has_port(ports, selected) {
            selected
        } else if ports.len() > 0 {
            ports[0].port_name
        } else {
            seq![]
        },
    }
}

fn first_preferred_exec(ports: &Vec<PortSummary>) -> (r: Option<String>)
    ensures
        opt_text(r) == first_preferred(port_views(ports@)),
{
    let mut i: usize = 0;
    assert(port_views(ports@).skip(0) =~= port_views(ports@));
    while i < ports.len()
        invariant
            i <= ports@.len(),
            first_preferred(port_views(ports@)) == first_preferred(
                port_views(ports@).skip(i as int),
            ),
        decreases ports@.len() - i,
    {
        let ghost rest = port_views(ports@).skip(i as int);
        assert(rest[0] == ports@[i as int]@);
        if ports[i].is_preferred_device {
            return Some(ports[i].port_name.clone());
        }
        assert(rest.drop_first() =~= port_views(ports@).skip(i + 1));
        i = i + 1;
    }
    None
}

fn has_port_exec(ports: &Vec<PortSummary>, name: &str) -> (r: bool)
    ensures
        r == has_port(port_views(ports@), name@),
{
    let target = chars_of(name);
    let mut i: usize = 0;
    while i < ports.len()
        invariant
            i <= ports@.len(),
            target@ == name@,
            forall|j: int| 0 <= j < i ==> ports@[j]@.port_name != name@,
        decreases ports@.len() - i,
    {
        if same_chars(&chars_of(ports[i].port_name.as_str()), &target) {
            assert(port_views(ports@)[i as int] == ports@[i as int]@);
            return true;
        }
        i = i + 1;
    }
    proof {
        assert forall|j: int| 0 <= j < port_views(ports@).len() implies port_views(ports@)[j].port_name
            != name@ by {
            assert(port_views(ports@)[j] == ports@[j]@);
        }
    }
    false
}

/// The port to select after a scan.
pub fn default_port_selection(ports: &Vec<PortSummary>, selected: &str) -> (r: String)
    ensures
        r@ == default_selection(port_views(ports@), selected@),
{
    if let Some(name) = first_preferred_exec(ports) {
        return name;
    }
    if has_port_exec(ports, selected) {
        return selected.to_owned();
    }
    if ports.len() > 0 {
        assert(port_views(ports@)[0] == ports@[0]@);
        ports[0].port_name.clone()
    } else {
        String::new()
    }
}

/// The text of the port chooser: the selection, or a note that no port was found.
pub open spec fn port_chooser_text(ports: Seq<PortModel>, selected: Seq<char>) -> Seq<char> {
    if has_port(ports, selected) {
        selected
    } else if ports.len() == 0 {
        "No ports detected"@
    } else {
        selected
    }
}

pub fn selected_port_text(snapshot: &SerialSnapshot, selected_port: &str) -> (r: String)
    ensures
        r@ == port_chooser_text(snapshot@.ports, selected_port@),
{
    if has_port_exec(&snapshot.ports, selected_port) {
        selected_port.to_owned()
    } else if snapshot.ports.len() == 0 {
        "No ports detected".to_owned()
    } else {
        selected_port.to_owned()
    }
}

pub open spec fn any_preferred(ports: Seq<PortModel>) -> bool {
    exists|i: int| 0 <= i < ports.len() && ports[i].is_preferred_device
}

/// Whether to connect on start-up: a preferred port or a single port is
/// listed, nothing is connected, and a port is selected.
pub open spec fn auto_connect_wanted(s: SnapshotModel, selected: Seq<char>) -> bool {
    (any_preferred(s.ports) || s.ports.len() == 1) && s.connected_port is None && selected.len()
        > 0
}

pub fn should_auto_connect(snapshot: &SerialSnapshot, selected_port: &str) -> (r: bool)
    ensures
        r == auto_connect_wanted(snapshot@, selected_port@),
{
    let ports = &snapshot.ports;
    let mut any: bool = false;
    let mut i: usize = 0;
    while i < ports.len()
        invariant
            i <= ports@.len(),
            any == (exists|j: int| 0 <= j < i && ports@[j].is_preferred_device),
        decreases ports@.len() - i,
    {
        if ports[i].is_preferred_device {
            any = true;
        }
        i = i + 1;
    }
    proof {
        if any {
            let j = choose|j: int| 0 <= j < i && ports@[j].is_preferred_device;
            assert(port_views(ports@)[j] == ports@[j]@);
        }
        if any_preferred(port_views(ports@)) {
            let j = choose|j: int|
                0 <= j < port_views(ports@).len() && port_views(ports@)[j].is_preferred_device;
            assert(port_views(ports@)[j] == ports@[j]@);
        }
    }
    (any || ports.len() == 1) && snapshot.connected_port.is_none() && !selected_port.is_empty()
}

/// Whether to read the settings: a port has just been connected and no
/// operation is running.
pub open spec fn readback_wanted(previous: Option<Seq<char>>, s: SnapshotModel) -> bool {
    previous != s.connected_port && s.connected_port is Some && !s.busy
}

pub fn should_read_after_connect(previous: &Option<String>, snapshot: &SerialSnapshot) -> (r: bool)
    ensures
        r == readback_wanted(opt_text(*previous), snapshot@),
{
    let changed = match (previous, &snapshot.connected_port) {
        (Some(a), Some(b)) => !same_chars(&chars_of(a.as_str()), &chars_of(b.as_str())),
        (None, None) => false,
        _ => true,
    };
    changed && snapshot.connected_port.is_some() && !snapshot.busy
}

/// The port to connect to: the trimmed selection, if there is one.
pub fn connect_target(selected_port: &str) -> (r: Option<String>)
    ensures
        match r {
            Some(name) => trim(selected_port@).len() > 0 && name@ == trim(selected_port@),
            None => trim(selected_port@).len() == 0,
        },
{
    let t = trim_chars(&chars_of(selected_port));
    if t.len() > 0 {
        Some(string_of(&t))
    } else {
        None
    }
}

/// The line of the port chooser for a port: its name, and its summary after
/// two spaces if it has one.
pub open spec fn port_label_text(p: PortModel) -> Seq<char> {
    if p.summary.len() == 0 {
        p.port_name
    } else {
        p.port_name + "  "@ + p.summary
    }
}

pub fn port_label(port: &PortSummary) -> (r: String)
    ensures
        r@ == port_label_text(port@),
{
    if port.summary.as_str().is_empty() {
        port.port_name.clone()
    } else {
        let mut m = chars_of(port.port_name.as_str());
        append_str(&mut m, "  ");
        append_str(&mut m, port.summary.as_str());
        string_of(&m)
    }
}


/// What the window remembers between two looks at the controller's state.
pub struct ViewState {
    pub selected_port: String,
    pub last_port_scan_generation: u64,
    pub last_readback_generation: u64,
    pub startup_auto_connect_attempted: bool,
}

pub struct ViewModel {
    pub selected_port: Seq<char>,
    pub last_port_scan_generation: u64,
    pub last_readback_generation: u64,
    pub startup_auto_connect_attempted: bool,
}

impl View for ViewState {
    type V = ViewModel;

    open spec fn view(&self) -> ViewModel {
        ViewModel {
            selected_port: self.selected_port@,
            last_port_scan_generation: self.last_port_scan_generation,
            last_readback_generation: self.last_readback_generation,
            startup_auto_connect_attempted: self.startup_auto_connect_attempted,
        }
    }
}

/// What the window does after looking at a new state of the controller.
pub struct SyncActions {
    /// Copy the form that was read into the editor.
    pub take_readback: bool,
    /// Ask the controller to connect to this port.
    pub connect_to: Option<String>,
    /// Ask the controller to read the settings.
    pub read_config: bool,
}

/// The view after a new state of the controller: a new port scan selects a
/// port (and, the first time, may connect to it); a new read hands its form
/// over; a port that has just been connected is read.
pub open spec fn synced_view(v: ViewModel, s: SnapshotModel) -> ViewModel {
    if s.port_scan_generation != v.last_port_scan_generation {
        ViewModel {
            selected_port: default_selection(s.ports, v.selected_port),
            last_port_scan_generation: s.port_scan_generation,
            last_readback_generation: s.readback_generation,
            startup_auto_connect_attempted: true,
        }
    } else {
        ViewModel { last_readback_generation: s.readback_generation, ..v }
    }
}

/// Whether looking at `s` makes the window connect on its own.
pub open spec fn sync_connects(v: ViewModel, s: SnapshotModel) -> bool {
    &&& s.port_scan_generation != v.last_port_scan_generation
    &&& !v.startup_auto_connect_attempted
    &&& auto_connect_wanted(s, default_selection(s.ports, v.selected_port))
    &&& trim(default_selection(s.ports, v.selected_port)).len() > 0
}

pub fn sync_view(view: &mut ViewState, previous_connected: &Option<String>, snapshot: &SerialSnapshot) -> (a: SyncActions)
    ensures
        final(view)@ == synced_view(old(view)@, snapshot@),
        a.take_readback == (snapshot.readback_generation != old(view).last_readback_generation),
        match a.connect_to {
            Some(name) => sync_connects(old(view)@, snapshot@) && name@ == trim(
                default_selection(snapshot@.ports, old(view)@.selected_port),
            ),
            None => !sync_connects(old(view)@, snapshot@),
        },
        a.read_config == readback_wanted(opt_text(*previous_connected), snapshot@),
{
    let mut connect_to: Option<String> = None;
    if snapshot.port_scan_generation != view.last_port_scan_generation {
        view.last_port_scan_generation = snapshot.port_scan_generation;
        let selection = default_port_selection(&snapshot.ports, view.selected_port.as_str());
        view.selected_port = selection;
        if !view.startup_auto_connect_attempted {
            view.startup_auto_connect_attempted = true;
            if should_auto_connect(snapshot, view.selected_port.as_str()) {
                connect_to = connect_target(view.selected_port.as_str());
            }
        }
    }
    let take_readback = snapshot.readback_generation != view.last_readback_generation;
    if take_readback {
        view.last_readback_generation = snapshot.readback_generation;
    }
    let read_config = should_read_after_connect(previous_connected, snapshot);
    SyncActions { take_readback, connect_to, read_config }
}

/// Which controls of the window can be used.
pub struct Controls {
    /// The port chooser and `Refresh ports`.
    pub choose_port: bool,
    pub connect: bool,
    pub disconnect: bool,
    /// `Read`, `Save`, `Set to factory defaults` and `Confirm reset`.
    pub device_actions: bool,
}

pub fn control_states(snapshot: &SerialSnapshot, selected_port: &str) -> (c: Controls)
    ensures
        c.choose_port == (!snapshot.busy && snapshot@.connected_port is None),
        c.connect == (!snapshot.busy && snapshot@.connected_port is None && selected_port@.len() > 0),
        c.disconnect == (!snapshot.busy && snapshot@.connected_port is Some),
        c.device_actions == (!snapshot.busy && snapshot@.connected_port is Some),
{
    let is_connected = snapshot.connected_port.is_some();
    let idle = !snapshot.busy;
    Controls {
        choose_port: idle && !is_connected,
        connect: idle && !is_connected && !selected_port.is_empty(),
        disconnect: idle && is_connected,
        device_actions: idle && is_connected,
    }
}

/// The text shown for an audio gain.
pub fn gain_text(gain: u8) -> (r: &'static str)
    ensures
        r@ == (if gain == 0 {
            "0 - Low"@
        } else if gain == 1 {
            "1 - Normal"@
        } else if gain == 2 {
            "2 - High"@
        } else {
            "Invalid"@
        }),
{
    match gain {
        0 => "0 - Low",
        1 => "1 - Normal",
        2 => "2 - High",
        _ => "Invalid",
    }
}
} // verus!
