//! What the hub's Bluetooth services make of the bytes written to them: the
//! target digit of a device command, the node count of a reboot request,
//! and spoken commands such as "kitchen light up 3".
use vstd::prelude::*;
use vstd::utf8::*;

use crate::text::{
    chars_of, lowercase_of, parse_unsigned, parse_usize, push_char, split_whitespace, str_eq,
    string_from, string_of, to_lowercase, trim_end, trim_end_char, trim_end_nul, trim_end_ws,
    utf8_decode, views, words, lemma_words_nonempty,
};
use crate::thread_sharing::SharedBLERead;

verus! {

// ---------------------------------------------------------------------------
// Finding a device name at the front of a command
// ---------------------------------------------------------------------------

/// The words `ws[lo]` up to `ws[hi]`, joined by single spaces.
pub open spec fn joined(ws: Seq<Seq<char>>, lo: int, hi: int) -> Seq<char>
    decreases hi - lo,
{
    if hi <= lo {
        ws[lo]
    } else {
        joined(ws, lo, hi - 1) + seq![' '] + ws[hi]
    }
}

/// The names of a list of named UUIDs.
pub open spec fn names_of(list: Seq<(String, u128)>) -> Seq<Seq<char>> {
    list.map_values(|e: (String, u128)| e.0@)
}

/// The first `i` from `i` on, with a word after it, for which the words from
/// `p` to `i` form one of `names`.
pub open spec fn first_named_span(names: Seq<Seq<char>>, ws: Seq<Seq<char>>, p: int, i: int) -> Option<
    int,
>
    decreases ws.len() - i,
{
    if i < p || i + 1 >= ws.len() {
        None
    } else if names.contains(joined(ws, p, i)) {
        Some(i)
    } else {
        first_named_span(names, ws, p, i + 1)
    }
}

/// The UUID of the first entry of `list`, from index `j` on, named `n`.
pub open spec fn first_uuid_from(list: Seq<(String, u128)>, n: Seq<char>, j: int) -> Option<u128>
    decreases list.len() - j,
{
    if j < 0 || j >= list.len() {
        None
    } else if list[j].0@ == n {
        Some(list[j].1)
    } else {
        first_uuid_from(list, n, j + 1)
    }
}

/// The device named at position `p` of the words `ws`, and the position just
/// after the words that were read: the shortest run of words from `p` that
/// is a name of `list` and is followed by another word. When there is none,
/// every word is read.
pub open spec fn device_name_at(list: Seq<(String, u128)>, ws: Seq<Seq<char>>, p: int) -> (Option<
    (Seq<char>, u128),
>, int) {
    match first_named_span(names_of(list), ws, p, p) {
        None => (None, ws.len() as int),
        Some(i) => {
            let n = joined(ws, p, i);
            if n.len() == 0 {
                (None, i + 1)
            } else {
                match first_uuid_from(list, n, 0) {
                    Some(u) => (Some((n, u)), i + 1),
                    None => (None, i + 1),
                }
            }
        },
    }
}

/// Appends the characters of `t` to `s`.
pub(crate) fn append_string(s: &mut String, t: &String)
    ensures
        final(s)@ == old(s)@ + t@,
{
    let cs = chars_of(t.as_str());
    let ghost start = s@;
    let mut i: usize = 0;
    while i < cs.len()
        invariant
            i <= cs@.len(),
            cs@ == t@,
            s@ == start + cs@.subrange(0, i as int),
        decreases cs@.len() - i,
    {
        push_char(s, cs[i]);
        i = i + 1;
    }
    assert(cs@.subrange(0, cs@.len() as int) == cs@);
}

/// Whether one of the entries of `list` is named `name`.
pub(crate) fn has_name(list: &Vec<(String, u128)>, name: &String) -> (r: bool)
    ensures
        r == names_of(list@).contains(name@),
{
    let mut j: usize = 0;
    while j < list.len()
        invariant
            j <= list@.len(),
            forall|k: int| 0 <= k < j ==> list@[k].0@ != name@,
        decreases list@.len() - j,
    {
        if list[j].0 == *name {
            assert(names_of(list@)[j as int] == name@);
            return true;
        }
        j = j + 1;
    }
    assert forall|k: int| 0 <= k < names_of(list@).len() implies names_of(list@)[k] != name@ by {
        assert(names_of(list@)[k] == list@[k].0@);
    }
    false
}

/// Reads a device name from the command words, starting at `*position`, and
/// moves `*position` past the words read.
///
/// Names are tried from the shortest up: first the word at `*position`, then
/// it joined with the next word, and so on, as long as a further word
/// follows. The first name that `name_list` holds is the device named, with
/// the UUID of the first entry of that name.
pub fn get_device_name(
    name_list: Vec<(String, u128)>,
    command_words: &Vec<String>,
    position: &mut usize,
) -> (r: Option<(String, u128)>)
    requires
        *old(position) < command_words@.len(),
    ensures
        ({
            let (found, next) = device_name_at(
                name_list@,
                views(command_words@),
                *old(position) as int,
            );
            &&& *final(position) == next
            &&& match found {
                None => r is None,
                Some((n, u)) => r matches Some(x) && x.0@ == n && x.1 == u,
            }
        }),
{
    device_name_in(&name_list, command_words, position)
}

/// Reads a device name from `command_words`, as `get_device_name` does.
fn device_name_in(
    name_list: &Vec<(String, u128)>,
    command_words: &Vec<String>,
    position: &mut usize,
) -> (r: Option<(String, u128)>)
    requires
        *old(position) < command_words@.len(),
    ensures
        ({
            let (found, next) = device_name_at(
                name_list@,
                views(command_words@),
                *old(position) as int,
            );
            &&& *final(position) == next
            &&& match found {
                None => r is None,
                Some((n, u)) => r matches Some(x) && x.0@ == n && x.1 == u,
            }
        }),
{
    let ghost ws = views(command_words@);
    let ghost names = names_of(name_list@);
    let p = *position;
    let n = command_words.len();
    let mut device_name = command_words[p].clone();
    let mut pos = p + 1;
    let mut found_name = String::new();
    let mut searching = true;
    assert(ws[p as int] == command_words@[p as int]@);
    while searching && pos < n
        invariant
            n == command_words@.len(),
            ws == views(command_words@),
            names == names_of(name_list@),
            p < pos <= n,
            p == *old(position),
            searching ==> device_name@ == joined(ws, p as int, pos - 1),
            searching ==> first_named_span(names, ws, p as int, p as int) == first_named_span(
                names,
                ws,
                p as int,
                pos - 1,
            ),
            searching ==> found_name@.len() == 0,
            !searching ==> first_named_span(names, ws, p as int, p as int) == Some(pos - 1)
                && found_name@ == joined(ws, p as int, pos - 1),
        decreases n - pos, (if searching { 1int } else { 0int }),
    {
        if has_name(name_list, &device_name) {
            found_name = device_name.clone();
            searching = false;
        } else {
            push_char(&mut device_name, ' ');
            append_string(&mut device_name, &command_words[pos]);
            assert(ws[pos as int] == command_words@[pos as int]@);
            pos = pos + 1;
        }
    }
    *position = pos;
    if found_name.as_str().is_empty() {
        proof {
            if searching {
                assert(first_named_span(names, ws, p as int, pos - 1) is None);
            }
        }
        return None;
    }
    assert(!searching);
    let mut j: usize = 0;
    while j < name_list.len()
        invariant
            j <= name_list@.len(),
            !searching,
            *position == pos,
            p == *old(position),
            p < pos <= n,
            ws == views(command_words@),
            names == names_of(name_list@),
            first_named_span(names, ws, p as int, p as int) == Some(pos - 1),
            found_name@ == joined(ws, p as int, pos - 1),
            found_name@.len() > 0,
            first_uuid_from(name_list@, found_name@, 0) == first_uuid_from(
                name_list@,
                found_name@,
                j as int,
            ),
        decreases name_list@.len() - j,
    {
        if name_list[j].0 == found_name {
            assert(first_uuid_from(name_list@, found_name@, j as int) == Some(name_list@[j as int].1));
            return Some((found_name, name_list[j].1));
        }
        j = j + 1;
    }
    None
}

// ---------------------------------------------------------------------------
// Spoken targets
// ---------------------------------------------------------------------------

/// The target level that a spoken word stands for, as speech recognition
/// writes the numbers zero to seven.
pub open spec fn spoken_number(w: Seq<char>) -> Option<usize> {
    if w == "zero"@ || w == "0"@ {
        Some(0)
    } else if w == "one"@ || w == "1"@ || w == "1:00"@ {
        Some(1)
    } else if w == "two"@ || w == "too"@ || w == "to"@ || w == "2"@ || w == "2:00"@ {
        Some(2)
    } else if w == "three"@ || w == "3"@ || w == "3:00"@ {
        Some(3)
    } else if w == "four"@ || w == "for"@ || w == "4"@ || w == "4:00"@ {
        Some(4)
    } else if w == "five"@ || w == "5"@ || w == "5:00"@ {
        Some(5)
    } else if w == "six"@ || w == "6"@ || w == "6:00"@ {
        Some(6)
    } else if w == "seven"@ || w == "7"@ || w == "7:00"@ {
        Some(7)
    } else {
        None
    }
}

/// The target level a spoken word stands for, if it is one of the known
/// spellings.
pub fn spoken_target(w: &str) -> (r: Option<usize>)
    ensures
        r == spoken_number(w@),
{
    if str_eq(w, "zero") || str_eq(w, "0") {
        Some(0)
    } else if str_eq(w, "one") || str_eq(w, "1") || str_eq(w, "1:00") {
        Some(1)
    } else if str_eq(w, "two") || str_eq(w, "too") || str_eq(w, "to") || str_eq(w, "2") || str_eq(
        w,
        "2:00",
    ) {
        Some(2)
    } else if str_eq(w, "three") || str_eq(w, "3") || str_eq(w, "3:00") {
        Some(3)
    } else if str_eq(w, "four") || str_eq(w, "for") || str_eq(w, "4") || str_eq(w, "4:00") {
        Some(4)
    } else if str_eq(w, "five") || str_eq(w, "5") || str_eq(w, "5:00") {
        Some(5)
    } else if str_eq(w, "six") || str_eq(w, "6") || str_eq(w, "6:00") {
        Some(6)
    } else if str_eq(w, "seven") || str_eq(w, "7") || str_eq(w, "7:00") {
        Some(7)
    } else {
        None
    }
}


// ---------------------------------------------------------------------------
// Spoken commands
// ---------------------------------------------------------------------------

/// Why a spoken command was not understood.
#[derive(Debug, Copy, Clone, PartialEq, Eq, Structural)]
pub enum VoiceError {
    /// The bytes written are not UTF-8.
    InvalidUtf8,
    /// The command holds no word.
    NoWords,
    /// No device or device group is named at the start of the command.
    NoDevice,
    /// The device named has the UUID 0.
    NoDeviceId,
    /// No word follows the device name.
    NoAction,
    /// The word after the action is not a known spoken number.
    BadTarget,
}

/// A spoken command: the device it is for, the action word and the target.
#[derive(Debug)]
pub struct VoiceCommand {
    pub device_uuid: u128,
    pub action: String,
    pub target: Option<usize>,
}

/// The words of a lower-cased spoken command: without trailing whitespace
/// and then trailing NUL characters, split at whitespace.
pub open spec fn voice_words(lower: Seq<char>) -> Seq<Seq<char>> {
    words(trim_end_char(trim_end_ws(lower), '\0'))
}

/// The device, action word and target of the lower-cased spoken command
/// `lower`, with device groups looked up before single devices. The action
/// word "at" stands for "set".
pub open spec fn voice_command_in(
    lower: Seq<char>,
    devices: Seq<(String, u128)>,
    groups: Seq<(String, u128)>,
) -> Result<(u128, Seq<char>, Option<usize>), VoiceError> {
    let ws = voice_words(lower);
    if ws.len() == 0 {
        Err(VoiceError::NoWords)
    } else {
        let (g, gp) = device_name_at(groups, ws, 0);
        let (found, pos) = if g is Some {
            (g, gp)
        } else {
            device_name_at(devices, ws, 0)
        };
        match found {
            None => Err(VoiceError::NoDevice),
            Some((_, u)) => if u == 0 {
                Err(VoiceError::NoDeviceId)
            } else if pos >= ws.len() {
                Err(VoiceError::NoAction)
            } else {
                let action = if ws[pos] == "at"@ {
                    "set"@
                } else {
                    ws[pos]
                };
                if pos + 1 >= ws.len() || ws[pos + 1].len() == 0 {
                    Ok((u, action, None))
                } else {
                    match spoken_number(ws[pos + 1]) {
                        Some(t) => Ok((u, action, Some(t))),
                        None => Err(VoiceError::BadTarget),
                    }
                }
            },
        }
    }
}

/// What the spoken command `bytes` asks for: its UTF-8 text, lower-cased,
/// read as `voice_command_in` says.
pub open spec fn voice_command_of(
    bytes: Seq<u8>,
    devices: Seq<(String, u128)>,
    groups: Seq<(String, u128)>,
) -> Result<(u128, Seq<char>, Option<usize>), VoiceError> {
    if !valid_utf8(bytes) {
        Err(VoiceError::InvalidUtf8)
    } else {
        voice_command_in(lowercase_of(decode_utf8(bytes)), devices, groups)
    }
}

/// What a read of a spoken command comes to: the command, or why it was
/// not understood.
pub open spec fn voice_outcome_matches(
    spec_result: Result<(u128, Seq<char>, Option<usize>), VoiceError>,
    r: Result<VoiceCommand, VoiceError>,
) -> bool {
    match spec_result {
        Ok((u, a, t)) => r matches Ok(c) && c.device_uuid == u && c.action@ == a && c.target == t,
        Err(e) => r matches Err(e2) && e2 == e,
    }
}

/// Whether a read of a spoken command found it understood, or why not.
pub open spec fn voice_check_matches(
    spec_result: Result<(u128, Seq<char>, Option<usize>), VoiceError>,
    r: Result<(), VoiceError>,
) -> bool {
    match spec_result {
        Ok(_) => r is Ok,
        Err(e) => r == Err::<(), VoiceError>(e),
    }
}

/// Reads a lower-cased spoken command, or says why it is not understood.
fn voice_text_result(lower: &str, devices: &Vec<(String, u128)>, groups: &Vec<(String, u128)>) -> (r:
    Result<VoiceCommand, VoiceError>)
    ensures
        voice_outcome_matches(voice_command_in(lower@, devices@, groups@), r),
{
    let lower_chars = chars_of(lower);
    let trimmed = trim_end(&lower_chars);
    let no_nul = trim_end_nul(&trimmed);
    let cleaned = string_of(&no_nul);
    let command = split_whitespace(cleaned.as_str());
    let ghost ws = views(command@);
    assert(ws == voice_words(lower@));
    if command.len() == 0 {
        return Err(VoiceError::NoWords);
    }
    let mut position: usize = 0;
    let mut device_uuid = device_name_in(groups, &command, &mut position);
    if device_uuid.is_none() {
        position = 0;
        device_uuid = device_name_in(devices, &command, &mut position);
    }
    let uuid = match device_uuid {
        None => {
            return Err(VoiceError::NoDevice);
        },
        Some((_device, uuid)) => uuid,
    };
    if uuid == 0 {
        return Err(VoiceError::NoDeviceId);
    }
    if position >= command.len() {
        return Err(VoiceError::NoAction);
    }
    assert(ws[position as int] == command@[position as int]@);
    let action = if str_eq(command[position].as_str(), "at") {
        string_from("set")
    } else {
        command[position].clone()
    };
    if position + 1 >= command.len() {
        return Ok(VoiceCommand { device_uuid: uuid, action, target: None });
    }
    let t = &command[position + 1];
    assert(ws[position + 1] == t@);
    if t.as_str().is_empty() {
        return Ok(VoiceCommand { device_uuid: uuid, action, target: None });
    }
    match spoken_target(t.as_str()) {
        Some(n) => Ok(VoiceCommand { device_uuid: uuid, action, target: Some(n) }),
        None => Err(VoiceError::BadTarget),
    }
}

/// Reads the bytes of a spoken command, or says why it is not understood.
fn voice_bytes_result(payload: &[u8], devices: &Vec<(String, u128)>, groups: &Vec<(String, u128)>) -> (r:
    Result<VoiceCommand, VoiceError>)
    ensures
        voice_outcome_matches(voice_command_of(payload@, devices@, groups@), r),
{
    let text = match utf8_decode(payload) {
        Some(t) => t,
        None => {
            return Err(VoiceError::InvalidUtf8);
        },
    };
    let lower = to_lowercase(text.as_str());
    voice_text_result(lower.as_str(), devices, groups)
}

/// Whether the voice service understands the bytes written to it, and if
/// not, why: it does not when they are not UTF-8, hold no word, name no
/// device or device group followed by another word, name one whose UUID is
/// 0, or give a target that is not a spoken number.
pub fn check_voice_command(payload: &[u8], devices: &Vec<(String, u128)>, groups: &Vec<(String, u128)>) -> (r:
    Result<(), VoiceError>)
    ensures
        voice_check_matches(voice_command_of(payload@, devices@, groups@), r),
{
    match voice_bytes_result(payload, devices, groups) {
        Ok(_) => Ok(()),
        Err(e) => Err(e),
    }
}

/// Reads a spoken command written to the voice service: which device or
/// device group it names, the action word and the spoken target. Only bytes
/// that the voice service understands are read.
pub fn parse_voice_command(payload: &[u8], devices: &Vec<(String, u128)>, groups: &Vec<(String, u128)>) -> (r:
    VoiceCommand)
    requires
        voice_command_of(payload@, devices@, groups@) is Ok,
    ensures
        voice_outcome_matches(voice_command_of(payload@, devices@, groups@), Ok(r)),
{
    match voice_bytes_result(payload, devices, groups) {
        Ok(c) => c,
        Err(_) => {
            proof {
                assert(false);
            }
            VoiceCommand { device_uuid: 0, action: String::new(), target: None }
        },
    }
}

/// Reads a spoken command if the voice service understands it, and gives
/// nothing otherwise.
pub fn read_voice_command(payload: &[u8], devices: &Vec<(String, u128)>, groups: &Vec<(String, u128)>) -> (r:
    Option<VoiceCommand>)
    ensures
        voice_command_of(payload@, devices@, groups@) is Ok <==> r is Some,
        r matches Some(c) ==> voice_outcome_matches(voice_command_of(payload@, devices@, groups@), Ok(c)),
{
    match check_voice_command(payload, devices, groups) {
        Ok(()) => Some(parse_voice_command(payload, devices, groups)),
        Err(_) => None,
    }
}

/// Whether a lower-cased spoken command is understood, and if not, why.
pub fn check_voice_text(lower: &str, devices: &Vec<(String, u128)>, groups: &Vec<(String, u128)>) -> (r:
    Result<(), VoiceError>)
    ensures
        voice_check_matches(voice_command_in(lower@, devices@, groups@), r),
{
    match voice_text_result(lower, devices, groups) {
        Ok(_) => Ok(()),
        Err(e) => Err(e),
    }
}

/// Reads a lower-cased spoken command that is understood: which device or
/// device group it names, the action word and the spoken target.
pub fn parse_voice_text(lower: &str, devices: &Vec<(String, u128)>, groups: &Vec<(String, u128)>) -> (r:
    VoiceCommand)
    requires
        voice_command_in(lower@, devices@, groups@) is Ok,
    ensures
        voice_outcome_matches(voice_command_in(lower@, devices@, groups@), Ok(r)),
{
    match voice_text_result(lower, devices, groups) {
        Ok(c) => c,
        Err(_) => {
            proof {
                assert(false);
            }
            VoiceCommand { device_uuid: 0, action: String::new(), target: None }
        },
    }
}

// ---------------------------------------------------------------------------
// Device and reboot writes
// ---------------------------------------------------------------------------

/// The number written by the first character of `s`, read as `usize` is
/// read: a digit gives its value, anything else, or no character, nothing.
pub open spec fn first_char_number(s: Seq<char>) -> Option<usize> {
    let first = if s.len() > 0 {
        seq![s[0]]
    } else {
        Seq::<char>::empty()
    };
    match parse_unsigned(first, usize::MAX as nat) {
        Some(v) => Some(v as usize),
        None => None,
    }
}

/// Reads the number written by the first character of `text`.
pub fn first_char_target(text: &str) -> (r: Option<usize>)
    ensures
        r == first_char_number(text@),
{
    let cs = chars_of(text);
    let first = if cs.len() > 0 {
        let mut v: Vec<char> = Vec::new();
        v.push(cs[0]);
        v
    } else {
        Vec::new()
    };
    assert(first@ =~= (if text@.len() > 0 {
        seq![text@[0]]
    } else {
        Seq::<char>::empty()
    }));
    let s = string_of(&first);
    parse_usize(s.as_str())
}

/// Whether bytes written to the reboot service are a node count: UTF-8
/// text that starts with a digit.
pub open spec fn reboot_payload_ok(payload: Seq<u8>) -> bool {
    valid_utf8(payload) && first_char_number(decode_utf8(payload)) is Some
}

/// Whether bytes written to the reboot service are a node count.
pub fn check_reboot_payload(payload: &[u8]) -> (r: bool)
    ensures
        r == reboot_payload_ok(payload@),
{
    match utf8_decode(payload) {
        Some(text) => first_char_target(text.as_str()).is_some(),
        None => false,
    }
}

/// The node count written to the hub's reboot service: the digit that the
/// UTF-8 bytes start with.
pub fn reboot_node_count(payload: &[u8]) -> (r: usize)
    requires
        reboot_payload_ok(payload@),
    ensures
        Some(r) == first_char_number(decode_utf8(payload@)),
{
    match utf8_decode(payload) {
        Some(text) => match first_char_target(text.as_str()) {
            Some(n) => n,
            None => {
                proof {
                    assert(false);
                }
                0
            },
        },
        None => {
            proof {
                assert(false);
            }
            0
        },
    }
}

/// Whether bytes are UTF-8 text.
pub fn check_utf8(payload: &[u8]) -> (r: bool)
    ensures
        r == valid_utf8(payload@),
{
    utf8_decode(payload).is_some()
}

/// The target written to a device's service as UTF-8 text: the digit that
/// the text starts with, if any.
pub fn write_target(payload: &[u8]) -> (r: Option<usize>)
    requires
        valid_utf8(payload@),
    ensures
        r == first_char_number(decode_utf8(payload@)),
{
    match utf8_decode(payload) {
        Some(text) => first_char_target(text.as_str()),
        None => None,
    }
}

/// Takes the answer to a target inquiry, if one has arrived, and clears it.
pub fn take_inquiry_response(state: &mut SharedBLERead) -> (r: Option<usize>)
    ensures
        match *old(state) {
            SharedBLERead::Response { target } => r == Some(target) && *final(state)
                == SharedBLERead::NoUpdate,
            _ => r is None && *final(state) == *old(state),
        },
{
    match *state {
        SharedBLERead::Response { target } => {
            *state = SharedBLERead::NoUpdate;
            Some(target)
        },
        _ => None,
    }
}


// ---------------------------------------------------------------------------
// Laws
// ---------------------------------------------------------------------------

proof fn lemma_first_named_span_bounds(names: Seq<Seq<char>>, ws: Seq<Seq<char>>, p: int, i: int)
    ensures
        first_named_span(names, ws, p, i) matches Some(j) ==> p <= j && i <= j && j + 1 < ws.len(),
    decreases ws.len() - i,
{
    if !(i < p || i + 1 >= ws.len()) && !names.contains(joined(ws, p, i)) {
        lemma_first_named_span_bounds(names, ws, p, i + 1);
    }
}

/// A device name is only read when another word follows it, and reading
/// always moves past at least one word: after a device is found, the
/// position is that of a word still to be read.
pub proof fn lemma_named_device_followed(list: Seq<(String, u128)>, ws: Seq<Seq<char>>, p: int)
    requires
        0 <= p < ws.len(),
    ensures
        p < device_name_at(list, ws, p).1 <= ws.len(),
        device_name_at(list, ws, p).0 is Some ==> device_name_at(list, ws, p).1 < ws.len(),
{
    lemma_first_named_span_bounds(names_of(list), ws, p, p);
}

/// A spoken command that names a device always has an action word after
/// the name, so it is never refused for want of one.
pub proof fn lemma_voice_action_present(
    bytes: Seq<u8>,
    devices: Seq<(String, u128)>,
    groups: Seq<(String, u128)>,
)
    ensures
        voice_command_of(bytes, devices, groups) != Err::<(u128, Seq<char>, Option<usize>), VoiceError>(
            VoiceError::NoAction,
        ),
{
    if valid_utf8(bytes) {
        let ws = voice_words(lowercase_of(decode_utf8(bytes)));
        if ws.len() > 0 {
            lemma_named_device_followed(groups, ws, 0);
            lemma_named_device_followed(devices, ws, 0);
        }
    }
}

/// Every target read from a spoken number is below 8.
pub proof fn lemma_spoken_targets_below_eight(w: Seq<char>)
    ensures
        spoken_number(w) matches Some(t) ==> t < 8,
{
}


/// Each spelling the voice service knows reads as its number: "zero" and
/// "0" as 0; "one", "1" and "1:00" as 1; "two", "too", "to", "2" and "2:00"
/// as 2; "three", "3" and "3:00" as 3; "four", "for", "4" and "4:00" as 4;
/// "five", "5" and "5:00" as 5; "six", "6" and "6:00" as 6; "seven", "7"
/// and "7:00" as 7.
pub proof fn lemma_spoken_spellings()
    ensures
        spoken_number(seq!['z', 'e', 'r', 'o']) == Some(0usize),
        spoken_number(seq!['0']) == Some(0usize),
        spoken_number(seq!['o', 'n', 'e']) == Some(1usize),
        spoken_number(seq!['1']) == Some(1usize),
        spoken_number(seq!['1', ':', '0', '0']) == Some(1usize),
        spoken_number(seq!['t', 'w', 'o']) == Some(2usize),
        spoken_number(seq!['t', 'o', 'o']) == Some(2usize),
        spoken_number(seq!['t', 'o']) == Some(2usize),
        spoken_number(seq!['2']) == Some(2usize),
        spoken_number(seq!['2', ':', '0', '0']) == Some(2usize),
        spoken_number(seq!['t', 'h', 'r', 'e', 'e']) == Some(3usize),
        spoken_number(seq!['3']) == Some(3usize),
        spoken_number(seq!['3', ':', '0', '0']) == Some(3usize),
        spoken_number(seq!['f', 'o', 'u', 'r']) == Some(4usize),
        spoken_number(seq!['f', 'o', 'r']) == Some(4usize),
        spoken_number(seq!['4']) == Some(4usize),
        spoken_number(seq!['4', ':', '0', '0']) == Some(4usize),
        spoken_number(seq!['f', 'i', 'v', 'e']) == Some(5usize),
        spoken_number(seq!['5']) == Some(5usize),
        spoken_number(seq!['5', ':', '0', '0']) == Some(5usize),
        spoken_number(seq!['s', 'i', 'x']) == Some(6usize),
        spoken_number(seq!['6']) == Some(6usize),
        spoken_number(seq!['6', ':', '0', '0']) == Some(6usize),
        spoken_number(seq!['s', 'e', 'v', 'e', 'n']) == Some(7usize),
        spoken_number(seq!['7']) == Some(7usize),
        spoken_number(seq!['7', ':', '0', '0']) == Some(7usize),
{
    reveal_strlit("zero");
    reveal_strlit("0");
    reveal_strlit("one");
    reveal_strlit("1");
    reveal_strlit("1:00");
    reveal_strlit("two");
    reveal_strlit("too");
    reveal_strlit("to");
    reveal_strlit("2");
    reveal_strlit("2:00");
    reveal_strlit("three");
    reveal_strlit("3");
    reveal_strlit("3:00");
    reveal_strlit("four");
    reveal_strlit("for");
    reveal_strlit("4");
    reveal_strlit("4:00");
    reveal_strlit("five");
    reveal_strlit("5");
    reveal_strlit("5:00");
    reveal_strlit("six");
    reveal_strlit("6");
    reveal_strlit("6:00");
    reveal_strlit("seven");
    reveal_strlit("7");
    reveal_strlit("7:00");
    assert("zero"@ =~= seq!['z', 'e', 'r', 'o']);
    assert("0"@ =~= seq!['0']);
    assert("one"@ =~= seq!['o', 'n', 'e']);
    assert("1"@ =~= seq!['1']);
    assert("1:00"@ =~= seq!['1', ':', '0', '0']);
    assert("two"@ =~= seq!['t', 'w', 'o']);
    assert("too"@ =~= seq!['t', 'o', 'o']);
    assert("to"@ =~= seq!['t', 'o']);
    assert("2"@ =~= seq!['2']);
    assert("2:00"@ =~= seq!['2', ':', '0', '0']);
    assert("three"@ =~= seq!['t', 'h', 'r', 'e', 'e']);
    assert("3"@ =~= seq!['3']);
    assert("3:00"@ =~= seq!['3', ':', '0', '0']);
    assert("four"@ =~= seq!['f', 'o', 'u', 'r']);
    assert("for"@ =~= seq!['f', 'o', 'r']);
    assert("4"@ =~= seq!['4']);
    assert("4:00"@ =~= seq!['4', ':', '0', '0']);
    assert("five"@ =~= seq!['f', 'i', 'v', 'e']);
    assert("5"@ =~= seq!['5']);
    assert("5:00"@ =~= seq!['5', ':', '0', '0']);
    assert("six"@ =~= seq!['s', 'i', 'x']);
    assert("6"@ =~= seq!['6']);
    assert("6:00"@ =~= seq!['6', ':', '0', '0']);
    assert("seven"@ =~= seq!['s', 'e', 'v', 'e', 'n']);
    assert("7"@ =~= seq!['7']);
    assert("7:00"@ =~= seq!['7', ':', '0', '0']);
    assert(seq!['1'][0] != seq!['0'][0]);
    assert(seq!['2'][0] != seq!['0'][0]);
    assert(seq!['2'][0] != seq!['1'][0]);
    assert(seq!['3'][0] != seq!['0'][0]);
    assert(seq!['3'][0] != seq!['1'][0]);
    assert(seq!['3'][0] != seq!['2'][0]);
    assert(seq!['4'][0] != seq!['0'][0]);
    assert(seq!['4'][0] != seq!['1'][0]);
    assert(seq!['4'][0] != seq!['2'][0]);
    assert(seq!['4'][0] != seq!['3'][0]);
    assert(seq!['5'][0] != seq!['0'][0]);
    assert(seq!['5'][0] != seq!['1'][0]);
    assert(seq!['5'][0] != seq!['2'][0]);
    assert(seq!['5'][0] != seq!['3'][0]);
    assert(seq!['5'][0] != seq!['4'][0]);
    assert(seq!['6'][0] != seq!['0'][0]);
    assert(seq!['6'][0] != seq!['1'][0]);
    assert(seq!['6'][0] != seq!['2'][0]);
    assert(seq!['6'][0] != seq!['3'][0]);
    assert(seq!['6'][0] != seq!['4'][0]);
    assert(seq!['6'][0] != seq!['5'][0]);
    assert(seq!['7'][0] != seq!['0'][0]);
    assert(seq!['7'][0] != seq!['1'][0]);
    assert(seq!['7'][0] != seq!['2'][0]);
    assert(seq!['7'][0] != seq!['3'][0]);
    assert(seq!['7'][0] != seq!['4'][0]);
    assert(seq!['7'][0] != seq!['5'][0]);
    assert(seq!['7'][0] != seq!['6'][0]);
}


/// A text read for a node count or a target gives the value of the digit it
/// starts with, whatever follows, 0 included; a text that does not start
/// with a digit, or is empty, gives nothing.
pub proof fn lemma_first_char_number(d: char, t: Seq<char>)
    ensures
        '0' <= d <= '9' ==> first_char_number(seq![d] + t) == Some((d as int - '0' as int) as usize),
        !('0' <= d <= '9') ==> first_char_number(seq![d] + t) is None,
        first_char_number(Seq::<char>::empty()) is None,
{
    let s = seq![d] + t;
    assert(s[0] == d);
    assert(s.len() > 0);
    let one = seq![d];
    assert(one.drop_last() =~= Seq::<char>::empty());
    assert(crate::text::digits_value(Seq::<char>::empty()) == 0);
    assert(one.last() == d);
    if '0' <= d <= '9' {
        assert(crate::text::all_digits(one));
        assert(crate::text::digits_value(one) == crate::text::digit_value(d));
    } else {
        assert(!crate::text::is_digit(one[0]));
        if d == '+' {
            assert(one.drop_first() =~= Seq::<char>::empty());
        }
    }
}


proof fn lemma_first_named_span_least(names: Seq<Seq<char>>, ws: Seq<Seq<char>>, p: int, i: int)
    requires
        p <= i,
    ensures
        (exists|j: int| i <= j && j + 1 < ws.len() && names.contains(joined(ws, p, j)))
            <==> first_named_span(names, ws, p, i) is Some,
        first_named_span(names, ws, p, i) matches Some(j) ==> i <= j && j + 1 < ws.len()
            && names.contains(joined(ws, p, j)) && forall|m: int|
            i <= m < j ==> !names.contains(#[trigger] joined(ws, p, m)),
    decreases ws.len() - i,
{
    if i + 1 < ws.len() && !names.contains(joined(ws, p, i)) {
        lemma_first_named_span_least(names, ws, p, i + 1);
        if exists|j: int| i <= j && j + 1 < ws.len() && names.contains(joined(ws, p, j)) {
            let j = choose|j: int| i <= j && j + 1 < ws.len() && names.contains(joined(ws, p, j));
            assert(j != i);
        }
    } else if i + 1 >= ws.len() {
        assert(!exists|j: int| i <= j && j + 1 < ws.len() && names.contains(joined(ws, p, j)));
    }
}

proof fn lemma_first_uuid_least(list: Seq<(String, u128)>, n: Seq<char>, j: int)
    requires
        0 <= j,
    ensures
        (exists|i: int| j <= i < list.len() && list[i].0@ == n) <==> first_uuid_from(list, n, j) is Some,
        first_uuid_from(list, n, j) is Some ==> exists|i: int|
            j <= i < list.len() && list[i].0@ == n && first_uuid_from(list, n, j) == Some(list[i].1)
                && forall|m: int| j <= m < i ==> list[m].0@ != n,
    decreases list.len() - j,
{
    if j < list.len() && list[j].0@ != n {
        lemma_first_uuid_least(list, n, j + 1);
        if exists|i: int| j <= i < list.len() && list[i].0@ == n {
            let i = choose|i: int| j <= i < list.len() && list[i].0@ == n;
            assert(i != j);
        }
    } else if j < list.len() {
        assert(forall|m: int| j <= m < j ==> list[m].0@ != n);
    }
}

/// Names of any length are found: when the words from `p` on begin with a
/// name of the list followed by another word, the shortest such name is
/// read, reading stops just after it, and (unless the name is empty) the
/// device is the first entry of the list with that name. When no such name
/// is there, nothing is found and every word is read.
pub proof fn lemma_device_name_complete(list: Seq<(String, u128)>, ws: Seq<Seq<char>>, p: int)
    requires
        0 <= p < ws.len(),
    ensures
        (exists|j: int|
            p <= j && j + 1 < ws.len() && names_of(list).contains(joined(ws, p, j)))
            <==> first_named_span(names_of(list), ws, p, p) is Some,
        first_named_span(names_of(list), ws, p, p) is None ==> device_name_at(list, ws, p) == (
        None::<(Seq<char>, u128)>, ws.len() as int),
        first_named_span(names_of(list), ws, p, p) matches Some(j) ==> {
            &&& j + 1 < ws.len()
            &&& names_of(list).contains(joined(ws, p, j))
            &&& forall|m: int| p <= m < j ==> !names_of(list).contains(#[trigger] joined(ws, p, m))
            &&& device_name_at(list, ws, p).1 == j + 1
            &&& joined(ws, p, j).len() > 0 ==> exists|i: int|
                0 <= i < list.len() && list[i].0@ == joined(ws, p, j) && (forall|m: int|
                    0 <= m < i ==> list[m].0@ != joined(ws, p, j)) && device_name_at(list, ws, p).0
                    == Some((joined(ws, p, j), list[i].1))
        },
{
    lemma_first_named_span_least(names_of(list), ws, p, p);
    if let Some(j) = first_named_span(names_of(list), ws, p, p) {
        let n = joined(ws, p, j);
        let k = choose|k: int| 0 <= k < names_of(list).len() && names_of(list)[k] == n;
        assert(list[k].0@ == n);
        lemma_first_uuid_least(list, n, 0);
    }
}

/// A spoken command is read as its words say. Device groups are looked up
/// before single devices: when the shortest run of words at the front that
/// names an entry of `list` (the groups, or the devices when no group is
/// named there) ends at word `j` and another word follows, the command is
/// for the first entry `i` of `list` with that name. A UUID of 0 is refused;
/// otherwise the word after the name is the action, with "at" read as
/// "set", and the word after that, if there is one, is the spoken target,
/// refused when it is not a known spoken number.
pub proof fn lemma_voice_command_reads(
    lower: Seq<char>,
    devices: Seq<(String, u128)>,
    groups: Seq<(String, u128)>,
    list: Seq<(String, u128)>,
    j: int,
    i: int,
)
    requires
        list == groups || (list == devices && !exists|g: int|
            0 <= g && g + 1 < voice_words(lower).len() && names_of(groups).contains(
                #[trigger] joined(voice_words(lower), 0, g),
            )),
        0 <= j && j + 1 < voice_words(lower).len(),
        names_of(list).contains(joined(voice_words(lower), 0, j)),
        forall|m: int| 0 <= m < j ==> !names_of(list).contains(#[trigger] joined(voice_words(lower), 0, m)),
        0 <= i < list.len(),
        list[i].0@ == joined(voice_words(lower), 0, j),
        forall|m: int| 0 <= m < i ==> list[m].0@ != joined(voice_words(lower), 0, j),
    ensures
        ({
            let ws = voice_words(lower);
            let u = list[i].1;
            let action = if ws[j + 1] == "at"@ {
                "set"@
            } else {
                ws[j + 1]
            };
            let r = voice_command_in(lower, devices, groups);
            &&& u == 0 ==> r == Err::<(u128, Seq<char>, Option<usize>), VoiceError>(
                VoiceError::NoDeviceId,
            )
            &&& u != 0 && j + 2 >= ws.len() ==> r == Ok::<
                (u128, Seq<char>, Option<usize>),
                VoiceError,
            >((u, action, None))
            &&& u != 0 && j + 2 < ws.len() ==> r == match spoken_number(ws[j + 2]) {
                Some(t) => Ok::<(u128, Seq<char>, Option<usize>), VoiceError>((u, action, Some(t))),
                None => Err(VoiceError::BadTarget),
            }
        }),
{
    let ws = voice_words(lower);
    lemma_words_nonempty(trim_end_char(trim_end_ws(lower), '\0'));
    let n = joined(ws, 0, j);
    assert(n.len() > 0) by {
        if j == 0 {
            assert(ws[0].len() > 0);
        } else {
            assert(n == joined(ws, 0, j - 1) + seq![' '] + ws[j]);
        }
    }
    lemma_device_name_complete(list, ws, 0);
    lemma_first_named_span_least(names_of(list), ws, 0, 0);
    let found = first_named_span(names_of(list), ws, 0, 0);
    assert(found == Some(j)) by {
        assert(found is Some);
        let k = found->0;
        if k < j {
            assert(!names_of(list).contains(joined(ws, 0, k)));
        }
        if k > j {
            assert(!names_of(list).contains(joined(ws, 0, j)));
        }
    }
    let i2 = choose|i2: int|
        0 <= i2 < list.len() && list[i2].0@ == n && (forall|m: int| 0 <= m < i2 ==> list[m].0@ != n)
            && device_name_at(list, ws, 0).0 == Some((n, list[i2].1));
    assert(i2 == i) by {
        if i2 < i {
            assert(list[i2].0@ != n);
        }
        if i < i2 {
            assert(list[i].0@ != n);
        }
    }
    if list == devices {
        lemma_device_name_complete(groups, ws, 0);
    }
    if j + 2 < ws.len() {
        assert(ws[j + 2].len() > 0);
    }
}

} // verus!
