//! The decisions of a hub session: its settings, the arguments it restarts
//! itself with, what a message from another console window asks of it, and
//! what its main loop does with the requests the servers leave for it.
use vstd::prelude::*;
use vstd::std_specs::cmp::PartialEqSpec;

use crate::cli_command::{command_named, CLICommand};
use crate::text::{
    chars_of, decimal_text, lemma_decimal_round_trip, lowercase_of, parse_decimal, parse_unsigned, parse_usize, string_from,
    string_of, trim, trim_ws, usize_text, utf8_lossy, utf8_lossy_of, views,
};
use crate::thread_sharing::{SharedBLECommand, SharedBLERead, SharedBLEWrite, SharedGetRequest};

verus! {

// ---------------------------------------------------------------------------
// Settings
// ---------------------------------------------------------------------------

/// The settings of a hub session: the name it advertises over Bluetooth,
/// the local port its console windows talk on, and how many seconds a
/// restarted hub waits before it starts.
#[derive(Debug, Clone)]
pub struct SessionSettings {
    pub ble_name: String,
    pub listen_port: u16,
    pub restart_wait: usize,
}

impl SessionSettings {
    /// The settings a session starts with: "VanColleague" on port 4000,
    /// waiting 10 seconds when restarted.
    pub fn default() -> (r: SessionSettings)
        ensures
            r.ble_name@ == "VanColleague"@,
            r.listen_port == 4000,
            r.restart_wait == 10,
    {
        SessionSettings { ble_name: string_from("VanColleague"), listen_port: 4000, restart_wait: 10 }
    }

    /// Settings with the given name, port and restart wait.
    pub fn new(ble_name: String, listen_port: u16, restart_wait: usize) -> (r: SessionSettings)
        ensures
            r.ble_name == ble_name,
            r.listen_port == listen_port,
            r.restart_wait == restart_wait,
    {
        SessionSettings { ble_name, listen_port, restart_wait }
    }

    /// The arguments a `restart` command restarts the hub with: `run`, the
    /// node count given, if any, after `-c`, and the restart wait after
    /// `-w`. A node count that is not a `u32` is refused.
    pub fn get_restart_args(&self, node_count: Option<&str>) -> (r: Option<Vec<String>>)
        ensures
            match node_count {
                None => r matches Some(v) && views(v@) == seq!["run"@, "-w"@, decimal_text(
                    self.restart_wait as nat,
                )],
                Some(nc) => if parse_unsigned(nc@, u32::MAX as nat) is None {
                    r is None
                } else {
                    r matches Some(v) && views(v@) == seq![
                        "run"@,
                        "-c"@,
                        nc@,
                        "-w"@,
                        decimal_text(self.restart_wait as nat),
                    ]
                },
            },
    {
        let mut args: Vec<String> = Vec::new();
        args.push(string_from("run"));
        match node_count {
            Some(nc) => {
                let cs = chars_of(nc);
                if parse_decimal(&cs, u32::MAX as u128).is_none() {
                    return None;
                }
                args.push(string_from("-c"));
                args.push(string_from(nc));
            },
            None => {},
        }
        args.push(string_from("-w"));
        args.push(usize_text(self.restart_wait));
        proof {
            assert(views(args@) =~= (match node_count {
                None => seq!["run"@, "-w"@, decimal_text(self.restart_wait as nat)],
                Some(nc) => seq![
                    "run"@,
                    "-c"@,
                    nc@,
                    "-w"@,
                    decimal_text(self.restart_wait as nat),
                ],
            }));
        }
        Some(args)
    }
}

/// The arguments of a restart asked for over Bluetooth.
pub open spec fn restart_args_text(node_count: usize) -> Seq<Seq<char>> {
    if node_count > 0 {
        seq!["start"@, "-c"@, decimal_text(node_count as nat), "-w"@, "10"@]
    } else {
        seq!["start"@, "-w"@, "10"@]
    }
}

/// The arguments the hub restarts itself with when a restart is asked for
/// over Bluetooth: `start`, the node count after `-c` unless it is 0, and a
/// wait of 10 seconds.
pub fn restart_args(node_count: usize) -> (r: Vec<String>)
    ensures
        views(r@) == restart_args_text(node_count),
{
    let mut args: Vec<String> = Vec::new();
    args.push(string_from("start"));
    if node_count > 0 {
        args.push(string_from("-c"));
        args.push(usize_text(node_count));
    }
    args.push(string_from("-w"));
    args.push(string_from("10"));
    proof {
        assert(views(args@) =~= (if node_count > 0 {
            seq!["start"@, "-c"@, decimal_text(node_count as nat), "-w"@, "10"@]
        } else {
            seq!["start"@, "-w"@, "10"@]
        }));
    }
    args
}

/// The restart a Bluetooth reboot request asks for, if one is pending.
pub fn pending_restart(command: &SharedBLECommand) -> (r: Option<Vec<String>>)
    ensures
        match *command {
            SharedBLECommand::Restart { node_count } => r matches Some(v) && views(v@)
                == restart_args_text(node_count),
            SharedBLECommand::NoUpdate => r is None,
        },
{
    match command {
        SharedBLECommand::Restart { node_count } => Some(restart_args(*node_count)),
        SharedBLECommand::NoUpdate => None,
    }
}

/// The number of nodes to look for, given as `-c`: none when not given, and
/// refused when it is not a `usize`.
pub fn get_node_count(text: Option<&str>) -> (r: Result<Option<usize>, ()>)
    ensures
        match text {
            None => r == Ok::<Option<usize>, ()>(None),
            Some(t) => match parse_unsigned(t@, usize::MAX as nat) {
                Some(n) => r == Ok::<Option<usize>, ()>(Some(n as usize)),
                None => r is Err,
            },
        },
{
    match text {
        Some(count) => match parse_usize(count) {
            Some(nc) => Ok(Some(nc)),
            None => Err(()),
        },
        None => Ok(None),
    }
}

/// The seconds to wait before starting, given as `-w`: none when not
/// given, and refused when it is not a `u64`.
pub fn wait_seconds(text: Option<&str>) -> (r: Result<Option<u64>, ()>)
    ensures
        match text {
            None => r == Ok::<Option<u64>, ()>(None),
            Some(t) => match parse_unsigned(t@, u64::MAX as nat) {
                Some(n) => r == Ok::<Option<u64>, ()>(Some(n as u64)),
                None => r is Err,
            },
        },
{
    match text {
        Some(wt) => {
            let cs = chars_of(wt);
            match parse_decimal(&cs, u64::MAX as u128) {
                Some(v) => Ok(Some(v as u64)),
                None => Err(()),
            }
        },
        None => Ok(None),
    }
}

// ---------------------------------------------------------------------------
// Messages between console windows
// ---------------------------------------------------------------------------

/// What a message from another console window asks of the running hub.
#[derive(Debug, Copy, Clone, PartialEq, Eq, Structural)]
pub enum ConsoleRequest {
    /// Stop the main loop (a shutdown or reboot was asked for).
    Stop,
    /// List the running devices.
    ShowStatus,
    /// Nothing to do (a run command reached a hub that already runs).
    Ignore,
    /// The message names no command.
    BadCommand,
}

/// What a message's text asks for: the command it names once trimmed,
/// whatever its case.
pub open spec fn console_request_in(text: Seq<char>) -> ConsoleRequest {
    match command_named(lowercase_of(trim_ws(text))) {
        Some(CLICommand::Shutdown) => ConsoleRequest::Stop,
        Some(CLICommand::Reboot) => ConsoleRequest::Stop,
        Some(CLICommand::Status) => ConsoleRequest::ShowStatus,
        Some(CLICommand::Run) => ConsoleRequest::Ignore,
        None => ConsoleRequest::BadCommand,
    }
}

/// What a message asks for: its bytes read as UTF-8 with invalid sequences
/// replaced, then read as `console_request_in` says.
pub open spec fn console_request_of(bytes: Seq<u8>) -> ConsoleRequest {
    console_request_in(utf8_lossy_of(bytes))
}

/// Reads a message received from another console window.
pub fn console_request(message: &[u8]) -> (r: ConsoleRequest)
    ensures
        r == console_request_of(message@),
{
    let received = utf8_lossy(message);
    console_request_text(received.as_str())
}

/// Reads the text of a message received from another console window.
pub fn console_request_text(received: &str) -> (r: ConsoleRequest)
    ensures
        r == console_request_in(received@),
{
    let cs = chars_of(received);
    let trimmed = trim(&cs);
    let text = string_of(&trimmed);
    match CLICommand::from_str(text.as_str()) {
        Ok(command) => match command {
            CLICommand::Run => ConsoleRequest::Ignore,
            CLICommand::Shutdown => ConsoleRequest::Stop,
            CLICommand::Status => ConsoleRequest::ShowStatus,
            CLICommand::Reboot => ConsoleRequest::Stop,
        },
        Err(_) => ConsoleRequest::BadCommand,
    }
}

// ---------------------------------------------------------------------------
// The main loop's requests
// ---------------------------------------------------------------------------

/// A device the hub found, with the address of its node and the key of its
/// device group, if it belongs to one.
#[derive(Debug, Clone)]
pub struct DeviceEntry {
    pub uuid: u128,
    pub ip: String,
    pub group: Option<u64>,
}

/// The index of the first of `devices[k..]` with the given UUID.
pub open spec fn device_index_from(devices: Seq<DeviceEntry>, uuid: u128, k: int) -> Option<int>
    decreases devices.len() - k,
{
    if k < 0 || k >= devices.len() {
        None
    } else if devices[k].uuid == uuid {
        Some(k)
    } else {
        device_index_from(devices, uuid, k + 1)
    }
}

/// Where in `devices` the device with the given UUID is.
pub fn find_device(devices: &Vec<DeviceEntry>, uuid: u128) -> (r: Option<usize>)
    ensures
        match device_index_from(devices@, uuid, 0) {
            Some(k) => r == Some(k as usize),
            None => r is None,
        },
{
    let mut k: usize = 0;
    while k < devices.len()
        invariant
            k <= devices@.len(),
            device_index_from(devices@, uuid, 0) == device_index_from(devices@, uuid, k as int),
        decreases devices@.len() - k,
    {
        if devices[k].uuid == uuid {
            return Some(k);
        }
        k = k + 1;
    }
    None
}

/// Whether a command repeats the last one handled, the action being
/// compared as its type's `==` compares.
pub open spec fn repeats<A: PartialEq>(last: (u128, A), uuid: u128, action: A) -> bool {
    last.0 == uuid && last.1.eq_spec(&action)
}

/// Handles the HTTP server's request: a command that does not repeat the
/// last one handled becomes the last one; if its device is known, the
/// request is cleared and the device's index is returned so that the
/// command is sent to it. A repeated command and an unknown device leave the
/// request in place.
pub fn handle_get_request<A: Copy + PartialEq>(
    request: &mut SharedGetRequest<A>,
    last: &mut (u128, A),
    devices: &Vec<DeviceEntry>,
) -> (r: Option<usize>)
    ensures
        match *old(request) {
            SharedGetRequest::NoUpdate => r is None && *final(request) == *old(request)
                && *final(last) == *old(last),
            SharedGetRequest::Command { device_uuid, action } => {
                let repeated = r is None && *final(request) == *old(request) && *final(last)
                    == *old(last);
                let handled = *final(last) == (device_uuid, action) && match device_index_from(
                    devices@,
                    device_uuid,
                    0,
                ) {
                    Some(k) => r == Some(k as usize) && *final(request)
                        == SharedGetRequest::<A>::NoUpdate,
                    None => r is None && *final(request) == *old(request),
                };
                &&& repeated || handled
                &&& old(last).0 != device_uuid ==> handled
                &&& A::obeys_eq_spec() ==> if repeats(*old(last), device_uuid, action) {
                    repeated
                } else {
                    handled
                }
            },
        },
{
    match *request {
        SharedGetRequest::Command { device_uuid, action } => {
            let same = last.0 == device_uuid && last.1 == action;
            if !same {
                *last = (device_uuid, action);
                match find_device(devices, device_uuid) {
                    Some(k) => {
                        *request = SharedGetRequest::NoUpdate;
                        Some(k)
                    },
                    None => None,
                }
            } else {
                None
            }
        },
        SharedGetRequest::NoUpdate => None,
    }
}

/// The indices, below `n`, of the devices in the group with key `key`.
pub open spec fn group_members(devices: Seq<DeviceEntry>, key: u64, n: int) -> Seq<usize>
    decreases n,
{
    if n <= 0 {
        seq![]
    } else if devices[n - 1].group == Some(key) {
        group_members(devices, key, n - 1).push((n - 1) as usize)
    } else {
        group_members(devices, key, n - 1)
    }
}

/// The index of the first of `groups[j..]` with the given UUID.
pub open spec fn group_index_from(groups: Seq<(u128, u64)>, uuid: u128, j: int) -> Option<int>
    decreases groups.len() - j,
{
    if j < 0 || j >= groups.len() {
        None
    } else if groups[j].0 == uuid {
        Some(j)
    } else {
        group_index_from(groups, uuid, j + 1)
    }
}

/// The devices a Bluetooth command for `uuid` goes to: when `uuid` is a
/// device group's, every device in that group, in order; otherwise the
/// device with that UUID, if the hub knows it.
pub open spec fn write_targets(groups: Seq<(u128, u64)>, devices: Seq<DeviceEntry>, uuid: u128) -> Seq<
    usize,
> {
    match group_index_from(groups, uuid, 0) {
        Some(j) => group_members(devices, groups[j].1, devices.len() as int),
        None => match device_index_from(devices, uuid, 0) {
            Some(k) => seq![k as usize],
            None => seq![],
        },
    }
}

/// The indices of the devices that a Bluetooth command for `uuid` is sent
/// to, given the device groups as pairs of group UUID and group key.
pub fn plan_write(groups: &Vec<(u128, u64)>, devices: &Vec<DeviceEntry>, uuid: u128) -> (r: Vec<
    usize,
>)
    ensures
        r@ == write_targets(groups@, devices@, uuid),
{
    let mut j: usize = 0;
    while j < groups.len()
        invariant
            j <= groups@.len(),
            group_index_from(groups@, uuid, 0) == group_index_from(groups@, uuid, j as int),
        decreases groups@.len() - j,
    {
        if groups[j].0 == uuid {
            let key = groups[j].1;
            let mut out: Vec<usize> = Vec::new();
            let mut k: usize = 0;
            while k < devices.len()
                invariant
                    k <= devices@.len(),
                    out@ == group_members(devices@, key, k as int),
                decreases devices@.len() - k,
            {
                if devices[k].group == Some(key) {
                    out.push(k);
                }
                k = k + 1;
            }
            return out;
        }
        j = j + 1;
    }
    let mut out: Vec<usize> = Vec::new();
    match find_device(devices, uuid) {
        Some(k) => {
            out.push(k);
        },
        None => {},
    }
    proof {
        assert(out@ =~= write_targets(groups@, devices@, uuid));
    }
    out
}



/// What the main loop does about the Bluetooth read request.
#[derive(Debug, Copy, Clone, PartialEq, Eq, Structural)]
pub enum InquiryStep {
    /// No target is being asked for.
    Nothing,
    /// A target is asked for of a device the hub does not know; the request
    /// is kept and reported.
    UnknownDevice,
    /// Ask the node of the device at this index for the device's status.
    AskNode(usize),
}

/// Decides what to do about the Bluetooth read request.
pub fn plan_inquiry(state: &SharedBLERead, devices: &Vec<DeviceEntry>) -> (r: InquiryStep)
    ensures
        match *state {
            SharedBLERead::Inquiry { device_uuid } => match device_index_from(
                devices@,
                device_uuid,
                0,
            ) {
                Some(k) => r == InquiryStep::AskNode(k as usize),
                None => r == InquiryStep::UnknownDevice,
            },
            _ => r == InquiryStep::Nothing,
        },
{
    match state {
        SharedBLERead::Inquiry { device_uuid } => match find_device(devices, *device_uuid) {
            Some(k) => InquiryStep::AskNode(k),
            None => InquiryStep::UnknownDevice,
        },
        _ => InquiryStep::Nothing,
    }
}

/// Records what the node said about the device asked for: its target
/// answers the inquiry; when the node gave no status the inquiry is kept.
pub fn answer_inquiry(state: &mut SharedBLERead, status: Option<usize>)
    ensures
        match (*old(state), status) {
            (SharedBLERead::Inquiry { .. }, Some(t)) => *final(state) == SharedBLERead::Response {
                target: t,
            },
            _ => *final(state) == *old(state),
        },
{
    match (*state, status) {
        (SharedBLERead::Inquiry { .. }, Some(t)) => {
            *state = SharedBLERead::Response { target: t };
        },
        _ => {},
    }
}

/// Takes a Bluetooth command for a device or a device group: gives its
/// action and the indices of the devices it goes to, as `write_targets`
/// says, and clears the request. Anything else is left as it is.
pub fn route_write<A: Copy>(
    state: &mut SharedBLEWrite<A>,
    groups: &Vec<(u128, u64)>,
    devices: &Vec<DeviceEntry>,
) -> (r: Option<(A, Vec<usize>)>)
    ensures
        match *old(state) {
            SharedBLEWrite::Command { device_uuid, action } => r matches Some((a, ks)) && a
                == action && ks@ == write_targets(groups@, devices@, device_uuid) && *final(state)
                == SharedBLEWrite::<A>::NoUpdate,
            _ => r is None && *final(state) == *old(state),
        },
{
    match *state {
        SharedBLEWrite::Command { device_uuid, action } => {
            let targets = plan_write(groups, devices, device_uuid);
            *state = SharedBLEWrite::NoUpdate;
            Some((action, targets))
        },
        _ => None,
    }
}

// ---------------------------------------------------------------------------
// Laws
// ---------------------------------------------------------------------------

proof fn lemma_group_members_bounds(devices: Seq<DeviceEntry>, key: u64, n: int)
    requires
        n <= devices.len(),
        devices.len() <= usize::MAX,
    ensures
        forall|i: int|
            0 <= i < group_members(devices, key, n).len() ==> #[trigger] group_members(
                devices,
                key,
                n,
            )[i] < n && devices[group_members(devices, key, n)[i] as int].group == Some(key),
    decreases n,
{
    if n > 0 {
        lemma_group_members_bounds(devices, key, n - 1);
        let prev = group_members(devices, key, n - 1);
        let cur = group_members(devices, key, n);
        assert forall|i: int| 0 <= i < cur.len() implies #[trigger] cur[i] < n && devices[cur[i] as int].group
            == Some(key) by {
            if devices[n - 1].group == Some(key) {
                if i < prev.len() {
                    assert(cur[i] == prev[i]);
                } else {
                    assert(cur[i] == (n - 1) as usize);
                }
            } else {
                assert(cur[i] == prev[i]);
            }
        }
    }
}

proof fn lemma_device_index_bounds(devices: Seq<DeviceEntry>, uuid: u128, k: int)
    ensures
        device_index_from(devices, uuid, k) matches Some(i) ==> 0 <= i < devices.len()
            && devices[i].uuid == uuid,
    decreases devices.len() - k,
{
    if 0 <= k < devices.len() && devices[k].uuid != uuid {
        lemma_device_index_bounds(devices, uuid, k + 1);
    }
}

/// A Bluetooth command is only ever sent to devices the hub knows: every
/// index planned is that of a device, which is either the device named or a
/// member of the group named.
pub proof fn lemma_write_targets_known(groups: Seq<(u128, u64)>, devices: Seq<DeviceEntry>, uuid: u128)
    requires
        devices.len() <= usize::MAX,
    ensures
        forall|i: int|
            0 <= i < write_targets(groups, devices, uuid).len() ==> #[trigger] write_targets(
                groups,
                devices,
                uuid,
            )[i] < devices.len(),
{
    lemma_group_members_bounds(devices, 0, 0);
    match group_index_from(groups, uuid, 0) {
        Some(j) => {
            lemma_group_members_bounds(devices, groups[j].1, devices.len() as int);
        },
        None => {
            lemma_device_index_bounds(devices, uuid, 0);
        },
    }
}

/// A hub restarted over Bluetooth looks for as many nodes as it was asked
/// to: the count after `-c` in its arguments reads back as that count.
pub proof fn lemma_restart_count_read_back(node_count: usize)
    requires
        node_count > 0,
    ensures
        restart_args_text(node_count)[1] == "-c"@,
        parse_unsigned(restart_args_text(node_count)[2], usize::MAX as nat) == Some(
            node_count as nat,
        ),
{
    lemma_decimal_round_trip(node_count as nat, usize::MAX as nat);
}


proof fn lemma_device_index_from_least(devices: Seq<DeviceEntry>, uuid: u128, k: int)
    requires
        0 <= k,
    ensures
        (exists|i: int| k <= i < devices.len() && devices[i].uuid == uuid) <==> device_index_from(
            devices,
            uuid,
            k,
        ) is Some,
        device_index_from(devices, uuid, k) matches Some(j) ==> k <= j < devices.len()
            && devices[j].uuid == uuid && forall|i: int| k <= i < j ==> devices[i].uuid != uuid,
    decreases devices.len() - k,
{
    if k < devices.len() && devices[k].uuid != uuid {
        lemma_device_index_from_least(devices, uuid, k + 1);
        if exists|i: int| k <= i < devices.len() && devices[i].uuid == uuid {
            let i = choose|i: int| k <= i < devices.len() && devices[i].uuid == uuid;
            assert(k + 1 <= i);
        }
    }
}

/// Looking a device up by UUID finds it whenever the hub knows it, and then
/// finds the first device with that UUID: the lookup gives an index exactly
/// when some device has the UUID, and no earlier device has it.
pub proof fn lemma_device_lookup_complete(devices: Seq<DeviceEntry>, uuid: u128)
    ensures
        (exists|i: int| 0 <= i < devices.len() && devices[i].uuid == uuid) <==> device_index_from(
            devices,
            uuid,
            0,
        ) is Some,
        device_index_from(devices, uuid, 0) matches Some(j) ==> 0 <= j < devices.len()
            && devices[j].uuid == uuid && forall|i: int| 0 <= i < j ==> devices[i].uuid != uuid,
{
    lemma_device_index_from_least(devices, uuid, 0);
}


proof fn lemma_group_index_from_least(groups: Seq<(u128, u64)>, uuid: u128, j: int)
    requires
        0 <= j,
    ensures
        (exists|i: int| j <= i < groups.len() && groups[i].0 == uuid) <==> group_index_from(
            groups,
            uuid,
            j,
        ) is Some,
        group_index_from(groups, uuid, j) matches Some(g) ==> j <= g < groups.len() && groups[g].0
            == uuid && forall|i: int| j <= i < g ==> groups[i].0 != uuid,
    decreases groups.len() - j,
{
    if j < groups.len() && groups[j].0 != uuid {
        lemma_group_index_from_least(groups, uuid, j + 1);
        if exists|i: int| j <= i < groups.len() && groups[i].0 == uuid {
            let i = choose|i: int| j <= i < groups.len() && groups[i].0 == uuid;
            assert(j + 1 <= i);
        }
    }
}

proof fn lemma_group_members_exact(devices: Seq<DeviceEntry>, key: u64, n: int)
    requires
        0 <= n <= devices.len(),
        devices.len() <= usize::MAX,
    ensures
        forall|k: int|
            0 <= k < n ==> (group_members(devices, key, n).contains(k as usize) <==> devices[k].group
                == Some(key)),
        forall|i: int|
            0 <= i < group_members(devices, key, n).len() ==> #[trigger] group_members(
                devices,
                key,
                n,
            )[i] < n,
        forall|i: int, j: int|
            0 <= i < j < group_members(devices, key, n).len() ==> #[trigger] group_members(
                devices,
                key,
                n,
            )[i] < #[trigger] group_members(devices, key, n)[j],
    decreases n,
{
    lemma_group_members_bounds(devices, key, n);
    if n > 0 {
        lemma_group_members_exact(devices, key, n - 1);
        let prev = group_members(devices, key, n - 1);
        let cur = group_members(devices, key, n);
        assert forall|k: int| 0 <= k < n implies (cur.contains(k as usize) <==> devices[k].group
            == Some(key)) by {
            if devices[n - 1].group == Some(key) {
                assert(cur == prev.push((n - 1) as usize));
                if k < n - 1 {
                    if cur.contains(k as usize) {
                        let i = choose|i: int| 0 <= i < cur.len() && cur[i] == k as usize;
                        if i < prev.len() {
                            assert(prev[i] == k as usize);
                        }
                    }
                    if prev.contains(k as usize) {
                        let i = choose|i: int| 0 <= i < prev.len() && prev[i] == k as usize;
                        assert(cur[i] == k as usize);
                    }
                } else {
                    assert(cur[prev.len() as int] == k as usize);
                }
            } else {
                assert(cur == prev);
                if k == n - 1 {
                    if prev.contains(k as usize) {
                        let i = choose|i: int| 0 <= i < prev.len() && prev[i] == k as usize;
                        assert(prev[i] < n - 1);
                    }
                }
            }
        }
        assert forall|i: int, j: int| 0 <= i < j < cur.len() implies #[trigger] cur[i]
            < #[trigger] cur[j] by {
            if devices[n - 1].group == Some(key) {
                if j == prev.len() {
                    assert(cur[i] == prev[i]);
                    assert(prev[i] < n - 1);
                } else {
                    assert(cur[i] == prev[i] && cur[j] == prev[j]);
                }
            }
        }
    }
}

/// A Bluetooth command for a UUID goes, when the UUID is a device group's
/// (the first group listed with it), to exactly the devices of that group,
/// in the order the hub knows them; otherwise to the first device with that
/// UUID, if any, and else to no device.
pub proof fn lemma_write_targets_exact(groups: Seq<(u128, u64)>, devices: Seq<DeviceEntry>, uuid: u128)
    requires
        devices.len() <= usize::MAX,
    ensures
        (exists|g: int| 0 <= g < groups.len() && groups[g].0 == uuid) ==> exists|g: int|
            {
                &&& 0 <= g < groups.len()
                &&& groups[g].0 == uuid
                &&& forall|i: int| 0 <= i < g ==> groups[i].0 != uuid
                &&& forall|k: int|
                    0 <= k < devices.len() ==> (write_targets(groups, devices, uuid).contains(
                        k as usize,
                    ) <==> devices[k].group == Some(groups[g].1))
                &&& forall|i: int|
                    0 <= i < write_targets(groups, devices, uuid).len() ==> #[trigger] write_targets(
                        groups,
                        devices,
                        uuid,
                    )[i] < devices.len()
                &&& forall|i: int, j: int|
                    0 <= i < j < write_targets(groups, devices, uuid).len() ==> #[trigger] write_targets(
                        groups,
                        devices,
                        uuid,
                    )[i] < #[trigger] write_targets(groups, devices, uuid)[j]
            },
        !(exists|g: int| 0 <= g < groups.len() && groups[g].0 == uuid) ==> {
            &&& !(exists|k: int| 0 <= k < devices.len() && devices[k].uuid == uuid) ==> write_targets(
                groups,
                devices,
                uuid,
            ) == Seq::<usize>::empty()
            &&& forall|k: int|
                0 <= k < devices.len() && devices[k].uuid == uuid && (forall|i: int|
                    0 <= i < k ==> devices[i].uuid != uuid) ==> write_targets(groups, devices, uuid)
                    == seq![k as usize]
        },
{
    lemma_group_index_from_least(groups, uuid, 0);
    lemma_device_index_from_least(devices, uuid, 0);
    match group_index_from(groups, uuid, 0) {
        Some(g) => {
            lemma_group_members_exact(devices, groups[g].1, devices.len() as int);
        },
        None => {
            assert forall|k: int|
                0 <= k < devices.len() && devices[k].uuid == uuid && (forall|i: int|
                    0 <= i < k ==> devices[i].uuid != uuid) implies write_targets(
                groups,
                devices,
                uuid,
            ) == seq![k as usize] by {
                let j = device_index_from(devices, uuid, 0)->Some_0;
                if j < k {
                    assert(devices[j].uuid == uuid);
                }
                if k < j {
                    assert(devices[k].uuid != uuid);
                }
            }
        },
    }
}

} // verus!
