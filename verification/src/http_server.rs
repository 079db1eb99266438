//! What the hub's HTTP server makes of a request's query: the device, action
//! word and target of `/parsed_command?uuid=..&action=..&target=..` and of
//! `/command?command=kitchen%20light%20up%203`, or the reply that rejects it.
use vstd::prelude::*;

use crate::ble_server::{append_string, first_uuid_from, has_name, names_of};
use crate::text::{
    chars_of, decimal_text, lemma_decimal_round_trip, lemma_decimal_text_nonempty, lowercase_of,
    parse_decimal, parse_unsigned, parse_usize, push_char, replace, replace_all, split_whitespace,
    string_of, to_lowercase, views, words,
};

verus! {

/// Why a request was rejected; each has the reply the server sends.
#[derive(Debug, Copy, Clone, PartialEq, Eq, Structural)]
pub enum RequestError {
    MissingUuid,
    BadUuid,
    TargetOutOfRange,
    TargetNotNumber,
    MissingAction,
    MissingCommand,
    MissingDevice,
    UnknownDevice,
    NoAction,
    InvalidAction,
}

/// The reply sent for a rejected request.
pub open spec fn error_message(e: RequestError) -> Seq<char> {
    match e {
        RequestError::MissingUuid => "Oops, we didn't get the Uuid"@,
        RequestError::BadUuid => "Bad Uuid given"@,
        RequestError::TargetOutOfRange => "Oops, Target should be 0 <= t < 8"@,
        RequestError::TargetNotNumber => "Oops, Target should be a number, 0 though 7"@,
        RequestError::MissingAction => "Oops, we didn't get the Action"@,
        RequestError::MissingCommand => "Oops, we didn't get the command"@,
        RequestError::MissingDevice => "Oops, we didn't get a device!"@,
        RequestError::UnknownDevice => "Couldn't get the uuid of the named device."@,
        RequestError::NoAction => "Oops, we didn't get an action!"@,
        RequestError::InvalidAction => "Action wasn't a valid action."@,
    }
}

impl RequestError {
    /// The reply sent for this rejection.
    pub fn message(&self) -> (r: &'static str)
        ensures
            r@ == error_message(*self),
    {
        match self {
            RequestError::MissingUuid => "Oops, we didn't get the Uuid",
            RequestError::BadUuid => "Bad Uuid given",
            RequestError::TargetOutOfRange => "Oops, Target should be 0 <= t < 8",
            RequestError::TargetNotNumber => "Oops, Target should be a number, 0 though 7",
            RequestError::MissingAction => "Oops, we didn't get the Action",
            RequestError::MissingCommand => "Oops, we didn't get the command",
            RequestError::MissingDevice => "Oops, we didn't get a device!",
            RequestError::UnknownDevice => "Couldn't get the uuid of the named device.",
            RequestError::NoAction => "Oops, we didn't get an action!",
            RequestError::InvalidAction => "Action wasn't a valid action.",
        }
    }
}

/// An accepted request: the device, the action word and the target.
#[derive(Debug)]
pub struct ActionRequest {
    pub device_uuid: u128,
    pub action: String,
    pub target: Option<usize>,
}

// ---------------------------------------------------------------------------
// /parsed_command
// ---------------------------------------------------------------------------

/// The number that the `uuid` parameter `u` is read as: `0x` followed by `u`
/// without its hyphens, read as a decimal `u128`.
pub open spec fn uuid_query_value(u: Seq<char>) -> Option<nat> {
    parse_unsigned(seq!['0', 'x'] + replace_all(u, seq!['-'], Seq::<char>::empty()), u128::MAX as nat)
}

/// The target parameter of `/parsed_command`: empty or absent gives no
/// target, a number below 8 gives that target, anything else is rejected.
pub open spec fn parsed_target_of(target: Option<Seq<char>>) -> Result<Option<usize>, RequestError> {
    match target {
        None => Ok(None),
        Some(t) => if t.len() == 0 {
            Ok(None)
        } else {
            match parse_unsigned(t, usize::MAX as nat) {
                Some(n) => if n < 8 {
                    Ok(Some(n as usize))
                } else {
                    Err(RequestError::TargetOutOfRange)
                },
                None => Err(RequestError::TargetOutOfRange),
            }
        },
    }
}

/// The request `/parsed_command` reads from its parameters, checked in the
/// order uuid, target, action.
pub open spec fn parsed_command_of(
    uuid: Option<Seq<char>>,
    target: Option<Seq<char>>,
    action: Option<Seq<char>>,
) -> Result<(u128, Seq<char>, Option<usize>), RequestError> {
    match uuid {
        None => Err(RequestError::MissingUuid),
        Some(u) => match uuid_query_value(u) {
            None => Err(RequestError::BadUuid),
            Some(v) => match parsed_target_of(target) {
                Err(e) => Err(e),
                Ok(t) => match action {
                    None => Err(RequestError::MissingAction),
                    Some(a) => Ok((v as u128, lowercase_of(a), t)),
                },
            },
        },
    }
}

/// The view of an optional text.
pub open spec fn opt_view(s: Option<&str>) -> Option<Seq<char>> {
    match s {
        Some(t) => Some(t@),
        None => None,
    }
}

/// Reads the `uuid` parameter: `0x` and the parameter without hyphens, as a
/// decimal `u128`.
pub fn parse_uuid_query(u: &str) -> (r: Option<u128>)
    ensures
        match uuid_query_value(u@) {
            Some(v) => r == Some(v as u128),
            None => r is None,
        },
{
    let cs = chars_of(u);
    let mut dash: Vec<char> = Vec::new();
    dash.push('-');
    let empty: Vec<char> = Vec::new();
    let stripped = replace(&cs, &dash, &empty);
    let mut text: Vec<char> = Vec::new();
    text.push('0');
    text.push('x');
    let mut i: usize = 0;
    while i < stripped.len()
        invariant
            i <= stripped@.len(),
            text@ == seq!['0', 'x'] + stripped@.subrange(0, i as int),
        decreases stripped@.len() - i,
    {
        text.push(stripped[i]);
        i = i + 1;
    }
    assert(stripped@.subrange(0, stripped@.len() as int) == stripped@);
    assert(dash@ == seq!['-']);
    assert(empty@ == Seq::<char>::empty());
    parse_decimal(&text, u128::MAX)
}

/// Reads the target parameter of `/parsed_command`.
pub fn parsed_target(target: Option<&str>) -> (r: Result<Option<usize>, RequestError>)
    ensures
        r == parsed_target_of(opt_view(target)),
{
    match target {
        None => Ok(None),
        Some(t) => {
            if t.is_empty() {
                Ok(None)
            } else {
                match parse_usize(t) {
                    Some(n) => {
                        if n < 8 {
                            Ok(Some(n))
                        } else {
                            Err(RequestError::TargetOutOfRange)
                        }
                    },
                    None => Err(RequestError::TargetOutOfRange),
                }
            }
        },
    }
}

/// Reads the parameters of `/parsed_command`: the device's UUID, the target
/// and the action word, lower-cased.
pub fn parsed_command_request(uuid: Option<&str>, target: Option<&str>, action: Option<&str>) -> (r:
    Result<ActionRequest, RequestError>)
    ensures
        match parsed_command_of(opt_view(uuid), opt_view(target), opt_view(action)) {
            Ok((u, a, t)) => r matches Ok(q) && q.device_uuid == u && q.action@ == a && q.target
                == t,
            Err(e) => r matches Err(e2) && e2 == e,
        },
{
    let device_uuid = match uuid {
        Some(u) => match parse_uuid_query(u) {
            Some(numb) => numb,
            None => {
                return Err(RequestError::BadUuid);
            },
        },
        None => {
            return Err(RequestError::MissingUuid);
        },
    };
    let target = match parsed_target(target) {
        Ok(t) => t,
        Err(e) => {
            return Err(e);
        },
    };
    let action = match action {
        Some(a) => to_lowercase(a),
        None => {
            return Err(RequestError::MissingAction);
        },
    };
    Ok(ActionRequest { device_uuid, action, target })
}

/// However the `uuid` parameter of `/parsed_command` is written, it is never
/// read as a number: the `0x` put before it is not decimal, so every request
/// that gives a UUID is answered "Bad Uuid given".
pub proof fn lemma_uuid_query_never_reads(u: Seq<char>)
    ensures
        uuid_query_value(u) is None,
{
    let s = seq!['0', 'x'] + replace_all(u, seq!['-'], Seq::<char>::empty());
    assert(s[0] == '0');
    assert(s[1] == 'x');
    assert(!is_digit_at(s, 1));
}

spec fn is_digit_at(s: Seq<char>, i: int) -> bool {
    crate::text::is_digit(s[i])
}

// ---------------------------------------------------------------------------
// /command
// ---------------------------------------------------------------------------

/// The `command` parameter with `%20` turned into spaces.
pub open spec fn command_spaced(c: Seq<char>) -> Seq<char> {
    replace_all(c, "%20"@, seq![' '])
}

/// Reads the device name from the words `ws`, from position `k` on, having
/// read `device` so far: a word is added as long as what was read is one of
/// the names. Gives the name and the position after it, or nothing when the
/// words run out first.
pub open spec fn read_device(names: Seq<Seq<char>>, ws: Seq<Seq<char>>, device: Seq<char>, k: int) -> Option<
    (Seq<char>, int),
>
    decreases ws.len() - k,
{
    if !names.contains(device) {
        Some((device, k))
    } else if k < 0 || k >= ws.len() {
        None
    } else {
        read_device(
            names,
            ws,
            if device.len() == 0 {
                ws[k]
            } else {
                device + seq![' '] + ws[k]
            },
            k + 1,
        )
    }
}

/// The target word of `/command`: a number below 8, or a rejection.
pub open spec fn command_target_of(t: Seq<char>) -> Result<Option<usize>, RequestError> {
    if t.len() == 0 {
        Ok(None)
    } else {
        match parse_unsigned(t, usize::MAX as nat) {
            Some(n) => if n < 8 {
                Ok(Some(n as usize))
            } else {
                Err(RequestError::TargetOutOfRange)
            },
            None => Err(RequestError::TargetNotNumber),
        }
    }
}

/// The request that the lower-cased command text `lower` makes, given the
/// named devices: the device name, then the action word, then the target.
pub open spec fn command_in(lower: Seq<char>, devices: Seq<(String, u128)>) -> Result<
    (u128, Seq<char>, Option<usize>),
    RequestError,
> {
    let ws = words(lower);
    match read_device(names_of(devices), ws, Seq::<char>::empty(), 0) {
        None => Err(RequestError::MissingDevice),
        Some((device, k)) => {
            let u = match first_uuid_from(devices, device, 0) {
                Some(u) => u,
                None => 0,
            };
            if u == 0 {
                Err(RequestError::UnknownDevice)
            } else if k >= ws.len() {
                Err(RequestError::NoAction)
            } else if k + 1 >= ws.len() {
                Ok((u, ws[k], None))
            } else {
                match command_target_of(ws[k + 1]) {
                    Err(e) => Err(e),
                    Ok(t) => Ok((u, ws[k], t)),
                }
            }
        },
    }
}

/// The request `/command` reads from its `command` parameter: the
/// parameter with `%20` turned into spaces and lower-cased, read as
/// `command_in` says.
pub open spec fn command_of(command: Option<Seq<char>>, devices: Seq<(String, u128)>) -> Result<
    (u128, Seq<char>, Option<usize>),
    RequestError,
> {
    match command {
        None => Err(RequestError::MissingCommand),
        Some(c) => command_in(lowercase_of(command_spaced(c)), devices),
    }
}

/// Reads the `command` parameter of `/command` against the named devices.
pub fn command_request(command: Option<&str>, devices: &Vec<(String, u128)>) -> (r: Result<
    ActionRequest,
    RequestError,
>)
    ensures
        match command_of(opt_view(command), devices@) {
            Ok((u, a, t)) => r matches Ok(q) && q.device_uuid == u && q.action@ == a && q.target
                == t,
            Err(e) => r matches Err(e2) && e2 == e,
        },
{
    let text = match command {
        Some(i) => i,
        None => {
            return Err(RequestError::MissingCommand);
        },
    };
    let cs = chars_of(text);
    let pat = chars_of("%20");
    proof {
        reveal_strlit("%20");
    }
    let mut space: Vec<char> = Vec::new();
    space.push(' ');
    let spaced = replace(&cs, &pat, &space);
    assert(space@ == seq![' ']);
    let spaced_text = string_of(&spaced);
    let lower = to_lowercase(spaced_text.as_str());
    command_text_request(lower.as_str(), devices)
}

/// Reads a lower-cased command text against the named devices: the device
/// name, then the action word, then the target.
pub fn command_text_request(lower: &str, devices: &Vec<(String, u128)>) -> (r: Result<
    ActionRequest,
    RequestError,
>)
    ensures
        match command_in(lower@, devices@) {
            Ok((u, a, t)) => r matches Ok(q) && q.device_uuid == u && q.action@ == a && q.target
                == t,
            Err(e) => r matches Err(e2) && e2 == e,
        },
{
    let ws_vec = split_whitespace(lower);
    let ghost ws = views(ws_vec@);
    let ghost names = names_of(devices@);
    let mut device = String::new();
    let mut k: usize = 0;
    let mut named = has_name(devices, &device);
    while named
        invariant
            k <= ws_vec@.len(),
            ws == views(ws_vec@),
            ws.len() == ws_vec@.len(),
            names == names_of(devices@),
            named == names.contains(device@),
            ws == words(lower@),
            read_device(names, ws, device@, k as int) == read_device(
                names,
                ws,
                Seq::<char>::empty(),
                0,
            ),
        decreases ws_vec@.len() - k,
    {
        if k >= ws_vec.len() {
            assert(read_device(names, ws, device@, k as int) is None);
            return Err(RequestError::MissingDevice);
        }
        let word = &ws_vec[k];
        assert(ws[k as int] == word@);
        let ghost prev = device@;
        if device.as_str().is_empty() {
            device = word.clone();
        } else {
            push_char(&mut device, ' ');
            append_string(&mut device, word);
        }
        assert(device@ == (if prev.len() == 0 {
            ws[k as int]
        } else {
            prev + seq![' '] + ws[k as int]
        }));
        k = k + 1;
        named = has_name(devices, &device);
    }
    let mut uuid: u128 = 0;
    let mut j: usize = 0;
    let mut looking = true;
    while looking && j < devices.len()
        invariant
            j <= devices@.len(),
            looking ==> uuid == 0,
            looking ==> first_uuid_from(devices@, device@, 0) == first_uuid_from(
                devices@,
                device@,
                j as int,
            ),
            !looking ==> first_uuid_from(devices@, device@, 0) == Some(uuid),
        decreases devices@.len() - j, (if looking { 1int } else { 0int }),
    {
        if device == devices[j].0 {
            uuid = devices[j].1;
            looking = false;
        } else {
            j = j + 1;
        }
    }
    if uuid == 0 {
        return Err(RequestError::UnknownDevice);
    }
    if k >= ws_vec.len() {
        return Err(RequestError::NoAction);
    }
    let action = ws_vec[k].clone();
    if k + 1 >= ws_vec.len() {
        return Ok(ActionRequest { device_uuid: uuid, action, target: None });
    }
    let t = &ws_vec[k + 1];
    assert(ws[k + 1] == t@);
    if t.as_str().is_empty() {
        return Ok(ActionRequest { device_uuid: uuid, action, target: None });
    }
    match parse_usize(t.as_str()) {
        Some(n) => {
            if n < 8 {
                Ok(ActionRequest { device_uuid: uuid, action, target: Some(n) })
            } else {
                Err(RequestError::TargetOutOfRange)
            }
        },
        None => Err(RequestError::TargetNotNumber),
    }
}

// ---------------------------------------------------------------------------
// Laws
// ---------------------------------------------------------------------------

proof fn lemma_first_uuid_absent(list: Seq<(String, u128)>, n: Seq<char>, j: int)
    requires
        !names_of(list).contains(n),
    ensures
        first_uuid_from(list, n, j) is None,
    decreases list.len() - j,
{
    if 0 <= j < list.len() {
        assert(names_of(list)[j] == list[j].0@);
        lemma_first_uuid_absent(list, n, j + 1);
    }
}

proof fn lemma_read_device_unnamed(names: Seq<Seq<char>>, ws: Seq<Seq<char>>, device: Seq<char>, k: int)
    ensures
        read_device(names, ws, device, k) matches Some((d, _)) ==> !names.contains(d),
    decreases ws.len() - k,
{
    if names.contains(device) && 0 <= k < ws.len() {
        lemma_read_device_unnamed(
            names,
            ws,
            if device.len() == 0 {
                ws[k]
            } else {
                device + seq![' '] + ws[k]
            },
            k + 1,
        );
    }
}

/// `/command` never accepts a request. The device name is read for as long
/// as what was read so far is a device's name, so the name it stops at is
/// no device's name: its UUID is not found, and the request is answered
/// "Couldn't get the uuid of the named device." unless the words ran out or
/// no command was given.
pub proof fn lemma_command_never_accepted(command: Option<Seq<char>>, devices: Seq<(String, u128)>)
    ensures
        command_of(command, devices) is Err,
        command_of(command, devices) matches Err(e) ==> (e == RequestError::MissingCommand || e
            == RequestError::MissingDevice || e == RequestError::UnknownDevice),
{
    if let Some(c) = command {
        lemma_command_text_never_accepted(lowercase_of(command_spaced(c)), devices);
    }
}

/// The same holds of any command text, however it was lower-cased.
pub proof fn lemma_command_text_never_accepted(lower: Seq<char>, devices: Seq<(String, u128)>)
    ensures
        command_in(lower, devices) == Err::<(u128, Seq<char>, Option<usize>), RequestError>(
            RequestError::MissingDevice,
        ) || command_in(lower, devices) == Err::<(u128, Seq<char>, Option<usize>), RequestError>(
            RequestError::UnknownDevice,
        ),
{
    let ws = words(lower);
    lemma_read_device_unnamed(names_of(devices), ws, Seq::<char>::empty(), 0);
    if let Some((d, _)) = read_device(names_of(devices), ws, Seq::<char>::empty(), 0) {
        lemma_first_uuid_absent(devices, d, 0);
    }
}

/// Every target that either endpoint reads from a request is below 8.
pub proof fn lemma_targets_below_eight(parameter: Option<Seq<char>>, word: Seq<char>)
    ensures
        parsed_target_of(parameter) matches Ok(Some(t)) ==> t < 8,
        command_target_of(word) matches Ok(Some(t)) ==> t < 8,
{
}


/// A target given in decimal is read as its number when it is below 8 and
/// refused otherwise, by either endpoint; an empty target is no target.
pub proof fn lemma_target_values(n: usize)
    ensures
        n < 8 ==> parsed_target_of(Some(decimal_text(n as nat))) == Ok::<
            Option<usize>,
            RequestError,
        >(Some(n)),
        n >= 8 ==> parsed_target_of(Some(decimal_text(n as nat))) == Err::<
            Option<usize>,
            RequestError,
        >(RequestError::TargetOutOfRange),
        n < 8 ==> command_target_of(decimal_text(n as nat)) == Ok::<Option<usize>, RequestError>(
            Some(n),
        ),
        n >= 8 ==> command_target_of(decimal_text(n as nat)) == Err::<
            Option<usize>,
            RequestError,
        >(RequestError::TargetOutOfRange),
        parsed_target_of(Some(Seq::<char>::empty())) == Ok::<Option<usize>, RequestError>(None),
        parsed_target_of(None) == Ok::<Option<usize>, RequestError>(None),
        command_target_of(Seq::<char>::empty()) == Ok::<Option<usize>, RequestError>(None),
{
    lemma_decimal_round_trip(n as nat, usize::MAX as nat);
    lemma_decimal_text_nonempty(n as nat);
}

/// A target word that is not a decimal number is refused by `/command` as
/// not a number and by `/parsed_command` as out of range.
pub proof fn lemma_target_not_number(t: Seq<char>)
    requires
        t.len() > 0,
        parse_unsigned(t, usize::MAX as nat) is None,
    ensures
        command_target_of(t) == Err::<Option<usize>, RequestError>(RequestError::TargetNotNumber),
        parsed_target_of(Some(t)) == Err::<Option<usize>, RequestError>(
            RequestError::TargetOutOfRange,
        ),
{
}

/// With no device of empty name, every `/command` is answered "Couldn't get
/// the uuid of the named device.": the first name read is the empty one.
pub proof fn lemma_command_needs_empty_name(lower: Seq<char>, devices: Seq<(String, u128)>)
    requires
        forall|i: int| 0 <= i < devices.len() ==> devices[i].0@.len() > 0,
    ensures
        command_in(lower, devices) == Err::<(u128, Seq<char>, Option<usize>), RequestError>(
            RequestError::UnknownDevice,
        ),
{
    assert(!names_of(devices).contains(Seq::<char>::empty())) by {
        if names_of(devices).contains(Seq::<char>::empty()) {
            let k = choose|k: int|
                0 <= k < names_of(devices).len() && names_of(devices)[k] == Seq::<char>::empty();
            assert(devices[k].0@.len() == 0);
        }
    }
    lemma_first_uuid_absent(devices, Seq::<char>::empty(), 0);
}

} // verus!
