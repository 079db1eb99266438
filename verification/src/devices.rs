//! Finding and addressing the devices on the nodes: the node addresses in a
//! network scan, the URLs the hub asks the nodes at, how the devices that the
//! nodes report are gathered, and when the hub retries.
use std::collections::HashMap;
use vstd::prelude::*;
use vstd::std_specs::hash::{group_hash_axioms, obeys_key_model};

use crate::ble_server::append_string;
use crate::text::{
    decimal_text, lemma_decimal_round_trip, parse_unsigned, string_from, usize_text, uuid_string,
    uuid_text, views,
};

verus! {

// ---------------------------------------------------------------------------
// Node addresses in a network scan
// ---------------------------------------------------------------------------

/// The matches, in order, that the `regex` crate finds for `pattern` in
/// `haystack`, or nothing when `pattern` is not a regular expression it
/// accepts.
pub uninterp spec fn regex_matches(pattern: Seq<char>, haystack: Seq<char>) -> Option<Seq<Seq<char>>>;

/// Compiles `pattern` with `regex::Regex::new` and collects the text of every
/// match that `Regex::find_iter` yields in `haystack`. Its result is named
/// `regex_matches`; nothing more of it is stated here.
#[verifier::external_body]
fn regex_find_all(pattern: &str, haystack: &str) -> (r: Option<Vec<String>>)
    ensures
        match regex_matches(pattern@, haystack@) {
            Some(ms) => r matches Some(v) && views(v@) == ms,
            None => r is None,
        },
{
    match regex::Regex::new(pattern) {
        Ok(re) => Some(re.find_iter(haystack).map(|m| m.as_str().to_string()).collect()),
        Err(_) => None,
    }
}

/// The regular expression of an IPv4 address: four groups of one to three
/// digits separated by dots, standing alone as a word.
pub open spec fn ip_pattern() -> Seq<char> {
    "\\b(?:[0-9]{1,3}\\.){3}[0-9]{1,3}\\b"@
}

/// The IPv4 addresses in the output of a network scan, in the order in
/// which they occur. Nothing comes back only if the pattern is refused.
pub fn extract_ips(nmap_output: &str) -> (r: Option<Vec<String>>)
    ensures
        match regex_matches(ip_pattern(), nmap_output@) {
            Some(ms) => r matches Some(v) && views(v@) == ms,
            None => r is None,
        },
{
    regex_find_all("\\b(?:[0-9]{1,3}\\.){3}[0-9]{1,3}\\b", nmap_output)
}

// ---------------------------------------------------------------------------
// URLs
// ---------------------------------------------------------------------------

/// The URL at which a node reports its devices.
pub open spec fn devices_url_text(ip: Seq<char>) -> Seq<char> {
    "http://"@ + ip + "/devices"@
}

/// The URL at which a node reports the status of one device.
pub open spec fn status_url_text(ip: Seq<char>, uuid: u128) -> Seq<char> {
    "http://"@ + ip + "/status?uuid="@ + uuid_text(uuid)
}

/// The URL at which a node is told to carry out an action on a device; an
/// action without a value leaves the target empty.
pub open spec fn command_url_text(ip: Seq<char>, uuid: u128, action: Seq<char>, value: Option<usize>) -> Seq<
    char,
> {
    "http://"@ + ip + "/command?uuid="@ + uuid_text(uuid) + "&action="@ + action + "&target="@ + (
    match value {
        Some(t) => decimal_text(t as nat),
        None => Seq::<char>::empty(),
    })
}

/// Appends `t` to `s`.
fn append_str(s: &mut String, t: &str)
    ensures
        final(s)@ == old(s)@ + t@,
{
    let owned = string_from(t);
    append_string(s, &owned);
}

/// The URL at which the node at `ip` reports its devices.
pub fn devices_url(ip: &str) -> (r: String)
    ensures
        r@ == devices_url_text(ip@),
{
    let mut url = string_from("http://");
    append_str(&mut url, ip);
    append_str(&mut url, "/devices");
    url
}

/// The URL at which the node at `ip` reports the status of a device.
pub fn status_url(ip: &str, uuid: u128) -> (r: String)
    ensures
        r@ == status_url_text(ip@, uuid),
{
    let mut url = string_from("http://");
    append_str(&mut url, ip);
    append_str(&mut url, "/status?uuid=");
    let u = uuid_string(uuid);
    append_string(&mut url, &u);
    url
}

/// The URL at which the node at `ip` is told to carry out `action`, with the
/// action's value, if any, as the target.
pub fn command_url(ip: &str, uuid: u128, action: &str, value: Option<usize>) -> (r: String)
    ensures
        r@ == command_url_text(ip@, uuid, action@, value),
{
    let mut url = string_from("http://");
    append_str(&mut url, ip);
    append_str(&mut url, "/command?uuid=");
    let u = uuid_string(uuid);
    append_string(&mut url, &u);
    append_str(&mut url, "&action=");
    append_str(&mut url, action);
    append_str(&mut url, "&target=");
    match value {
        Some(t) => {
            let tt = usize_text(t);
            append_string(&mut url, &tt);
        },
        None => {},
    }
    url
}

// ---------------------------------------------------------------------------
// Gathering the devices the nodes report
// ---------------------------------------------------------------------------

/// The devices reported by the nodes `reports[0..n]`, gathered in order: a
/// node that did not answer adds nothing, and a later report of a device
/// replaces an earlier one.
pub open spec fn gathered<V>(reports: Seq<Option<Seq<(u128, V)>>>, n: int) -> Map<u128, V>
    decreases n,
{
    if n <= 0 {
        Map::empty()
    } else {
        let before = gathered(reports, n - 1);
        match reports[n - 1] {
            None => before,
            Some(devs) => inserted(before, devs, devs.len() as int),
        }
    }
}

/// `m` with the pairs `devs[0..n]` inserted in order.
pub open spec fn inserted<V>(m: Map<u128, V>, devs: Seq<(u128, V)>, n: int) -> Map<u128, V>
    decreases n,
{
    if n <= 0 {
        m
    } else {
        inserted(m, devs, n - 1).insert(devs[n - 1].0, devs[n - 1].1)
    }
}

/// Gathers the devices reported by each node into one map from UUID to
/// device.
pub fn merge_node_devices<V>(reports: Vec<Option<Vec<(u128, V)>>>) -> (r: HashMap<u128, V>)
    ensures
        r@ == gathered(
            reports@.map_values(|o: Option<Vec<(u128, V)>>| match o {
                Some(v) => Some(v@),
                None => None,
            }),
            reports@.len() as int,
        ),
{
    broadcast use group_hash_axioms;

    let ghost rs = reports@.map_values(
        |o: Option<Vec<(u128, V)>>|
            match o {
                Some(v) => Some(v@),
                None => None,
            },
    );
    let mut devices: HashMap<u128, V> = HashMap::new();
    let mut reports = reports;
    let ghost all = reports@;
    let n = reports.len();
    let mut i: usize = 0;
    while i < n
        invariant
            i <= n,
            n == all.len(),
            rs.len() == n,
            reports@ == all.subrange(i as int, n as int),
            forall|k: int|
                0 <= k < n ==> #[trigger] rs[k] == match all[k] {
                    Some(v) => Some(v@),
                    None => None,
                },
            devices@ == gathered(rs, i as int),
            obeys_key_model::<u128>(),
        decreases n - i,
    {
        let report = reports.remove(0);
        assert(report == all[i as int]);
        match report {
            Some(devs) => {
                let ghost d = devs@;
                let ghost before = devices@;
                let mut devs = devs;
                let m = devs.len();
                let mut j: usize = 0;
                while j < m
                    invariant
                        j <= m,
                        m == d.len(),
                        devs@ == d.subrange(j as int, m as int),
                        devices@ == inserted(before, d, j as int),
                        obeys_key_model::<u128>(),
                    decreases m - j,
                {
                    let (uuid, located) = devs.remove(0);
                    assert((uuid, located) == d[j as int]);
                    devices.insert(uuid, located);
                    j = j + 1;
                }
                assert(rs[i as int] == Some(d));
            },
            None => {
                assert(rs[i as int] is None);
            },
        }
        i = i + 1;
    }
    devices
}

// ---------------------------------------------------------------------------
// Retrying
// ---------------------------------------------------------------------------

/// Whether the hub asks the nodes for their devices (again), having found
/// `found` devices in `tries` rounds: with a node count given, until that
/// many devices are found or ten rounds have passed; without, once.
pub fn should_fetch_devices(node_count: Option<usize>, found: usize, tries: usize) -> (r: bool)
    ensures
        r == match node_count {
            Some(nc) => found < nc && tries < 10,
            None => tries == 0,
        },
{
    match node_count {
        Some(nc) => found < nc && tries < 10,
        None => tries == 0,
    }
}

/// How many times the hub sends a command to a node before it gives up.
pub open spec fn update_tries() -> usize {
    4
}

/// What came of sending a command to a node once.
#[derive(Debug, Copy, Clone, PartialEq, Eq, Structural)]
pub enum AttemptOutcome {
    /// The node answered with this HTTP status code.
    Answered(u16),
    /// No answer came.
    Failed,
}

/// What the hub does after an attempt to send a command.
#[derive(Debug, Copy, Clone, PartialEq, Eq, Structural)]
pub enum UpdateStep {
    /// Send the command again.
    Retry,
    /// Stop, with this status code as the result.
    Finished(u16),
    /// Stop; the last failure to get an answer is the result.
    Failed,
}

/// The attempts made so far to send one command.
#[derive(Debug, Copy, Clone, PartialEq, Eq, Structural)]
pub struct UpdateAttempts {
    pub tries: usize,
    pub code: u16,
    pub had_error: bool,
}

/// The attempts after one more, and what the hub does next: a success code
/// (200 to 299) ends at once; after the last attempt the last status code
/// is the result if any answer came, else the failure.
pub open spec fn next_update(before: UpdateAttempts, outcome: AttemptOutcome) -> (UpdateAttempts, UpdateStep) {
    let after = UpdateAttempts {
        tries: (before.tries + 1) as usize,
        code: match outcome {
            AttemptOutcome::Answered(c) => c,
            AttemptOutcome::Failed => before.code,
        },
        had_error: before.had_error || outcome == AttemptOutcome::Failed,
    };
    let step = if outcome matches AttemptOutcome::Answered(c) && 200 <= c < 300 {
        UpdateStep::Finished(after.code)
    } else if after.tries < update_tries() {
        UpdateStep::Retry
    } else if after.code != 0 {
        UpdateStep::Finished(after.code)
    } else if after.had_error {
        UpdateStep::Failed
    } else {
        UpdateStep::Finished(0)
    };
    (after, step)
}

impl UpdateAttempts {
    /// No attempt made yet.
    pub fn new() -> (r: UpdateAttempts)
        ensures
            r.tries == 0,
            r.code == 0,
            !r.had_error,
    {
        UpdateAttempts { tries: 0, code: 0, had_error: false }
    }

    /// Records what came of one more attempt and decides what happens next,
    /// as `next_update` says.
    pub fn record(&mut self, outcome: AttemptOutcome) -> (r: UpdateStep)
        requires
            old(self).tries < update_tries(),
        ensures
            (*final(self), r) == next_update(*old(self), outcome),
    {
        self.tries = self.tries + 1;
        match outcome {
            AttemptOutcome::Answered(c) => {
                self.code = c;
                if 200 <= c && c < 300 {
                    return UpdateStep::Finished(c);
                }
            },
            AttemptOutcome::Failed => {
                self.had_error = true;
            },
        }
        if self.tries < 4 {
            UpdateStep::Retry
        } else if self.code != 0 {
            UpdateStep::Finished(self.code)
        } else if self.had_error {
            UpdateStep::Failed
        } else {
            UpdateStep::Finished(0)
        }
    }
}


// ---------------------------------------------------------------------------
// Laws
// ---------------------------------------------------------------------------

/// A command is sent at most `update_tries()` times: the hub is told to
/// retry only while fewer attempts have been made, and a success code
/// always ends the attempts with that code.
pub proof fn lemma_update_attempts_bounded(before: UpdateAttempts, outcome: AttemptOutcome)
    requires
        before.tries < update_tries(),
    ensures
        next_update(before, outcome).1 == UpdateStep::Retry ==> next_update(before, outcome).0.tries
            < update_tries(),
        next_update(before, outcome).0.tries == update_tries() ==> next_update(before, outcome).1
            != UpdateStep::Retry,
        match outcome {
            AttemptOutcome::Answered(c) => 200 <= c < 300 ==> next_update(before, outcome).1
                == UpdateStep::Finished(c),
            AttemptOutcome::Failed => true,
        },
{
}

/// When every attempt goes unanswered the result is the failure, and when
/// the last attempt is answered, whatever the code, that code is the result.
pub proof fn lemma_update_last_attempt(before: UpdateAttempts, outcome: AttemptOutcome)
    requires
        before.tries == update_tries() - 1,
    ensures
        match outcome {
            AttemptOutcome::Answered(c) => c != 0 ==> next_update(before, outcome).1
                == UpdateStep::Finished(c),
            AttemptOutcome::Failed => true,
        },
        before.code == 0 && outcome == AttemptOutcome::Failed ==> next_update(before, outcome).1
            == UpdateStep::Failed,
{
}


/// Inserting the pairs `devs[0..n]` into `m`: the keys are those of `m` and
/// those of the pairs, a key of the pairs maps to the last pair with it, and
/// every other key keeps its value.
proof fn lemma_inserted_pairs<V>(m: Map<u128, V>, devs: Seq<(u128, V)>, n: int)
    requires
        0 <= n <= devs.len(),
    ensures
        forall|k: u128|
            #[trigger] inserted(m, devs, n).dom().contains(k) <==> (m.dom().contains(k) || exists|
                j: int,
            | 0 <= j < n && devs[j].0 == k),
        forall|j: int|
            0 <= j < n && (forall|j2: int| j < j2 < n ==> devs[j2].0 != devs[j].0) ==> #[trigger] inserted(
                m,
                devs,
                n,
            )[devs[j].0] == devs[j].1,
        forall|k: u128|
            (forall|j: int| 0 <= j < n ==> devs[j].0 != k) ==> #[trigger] inserted(m, devs, n)[k]
                == m[k],
    decreases n,
{
    if n > 0 {
        lemma_inserted_pairs(m, devs, n - 1);
        let before = inserted(m, devs, n - 1);
        let now = inserted(m, devs, n);
        assert(now == before.insert(devs[n - 1].0, devs[n - 1].1));
        assert forall|k: u128| #[trigger] now.dom().contains(k) <==> (m.dom().contains(k) || exists|
            j: int,
        | 0 <= j < n && devs[j].0 == k) by {
            if exists|j: int| 0 <= j < n && devs[j].0 == k {
                let j = choose|j: int| 0 <= j < n && devs[j].0 == k;
                if j < n - 1 {
                    assert(before.dom().contains(k));
                }
            }
            if before.dom().contains(k) && !m.dom().contains(k) {
                let j = choose|j: int| 0 <= j < n - 1 && devs[j].0 == k;
                assert(0 <= j < n && devs[j].0 == k);
            }
        }
        assert forall|j: int|
            0 <= j < n && (forall|j2: int| j < j2 < n ==> devs[j2].0 != devs[j].0) implies #[trigger] now[devs[j].0]
            == devs[j].1 by {
            if j < n - 1 {
                assert(devs[n - 1].0 != devs[j].0);
                assert(before[devs[j].0] == devs[j].1);
            }
        }
        assert forall|k: u128| (forall|j: int| 0 <= j < n ==> devs[j].0 != k) implies #[trigger] now[k]
            == m[k] by {
            assert(devs[n - 1].0 != k);
            assert(before[k] == m[k]);
        }
    }
}

/// Gathering the reports of the nodes `reports[0..n]` keeps every device
/// that some node reported and no other, and each device is gathered as its
/// last report says: a device reported by node `i` as the `j`-th of its
/// answer, and not reported again, later in that answer or by a later node,
/// is gathered as that report. A node that did not answer adds nothing.
pub proof fn lemma_gathered_reports<V>(reports: Seq<Option<Seq<(u128, V)>>>, n: int)
    requires
        0 <= n <= reports.len(),
    ensures
        forall|k: u128|
            #[trigger] gathered(reports, n).dom().contains(k) <==> exists|i: int, j: int|
                0 <= i < n && reports[i] is Some && 0 <= j < reports[i]->0.len() && reports[i]->0[j].0
                    == k,
        forall|i: int, j: int|
            0 <= i < n && reports[i] is Some && 0 <= j < reports[i]->0.len() && (forall|j2: int|
                j < j2 < reports[i]->0.len() ==> reports[i]->0[j2].0 != reports[i]->0[j].0) && (
            forall|i2: int, j2: int|
                i < i2 < n && reports[i2] is Some && 0 <= j2 < reports[i2]->0.len()
                    ==> reports[i2]->0[j2].0 != reports[i]->0[j].0) ==> #[trigger] gathered(
                reports,
                n,
            )[reports[i]->0[j].0] == reports[i]->0[j].1,
    decreases n,
{
    if n > 0 {
        lemma_gathered_reports(reports, n - 1);
        let before = gathered(reports, n - 1);
        let now = gathered(reports, n);
        match reports[n - 1] {
            None => {
                assert(now == before);
                assert forall|k: u128| #[trigger] now.dom().contains(k) <==> exists|i: int, j: int|
                    0 <= i < n && reports[i] is Some && 0 <= j < reports[i]->0.len()
                        && reports[i]->0[j].0 == k by {
                    if exists|i: int, j: int|
                        0 <= i < n && reports[i] is Some && 0 <= j < reports[i]->0.len()
                            && reports[i]->0[j].0 == k {
                        let (i, j) = choose|i: int, j: int|
                            0 <= i < n && reports[i] is Some && 0 <= j < reports[i]->0.len()
                                && reports[i]->0[j].0 == k;
                        assert(i < n - 1);
                    }
                    if before.dom().contains(k) {
                        let (i, j) = choose|i: int, j: int|
                            0 <= i < n - 1 && reports[i] is Some && 0 <= j < reports[i]->0.len()
                                && reports[i]->0[j].0 == k;
                        assert(0 <= i < n);
                    }
                }
            },
            Some(devs) => {
                let len = devs.len() as int;
                assert(now == inserted(before, devs, len));
                lemma_inserted_pairs(before, devs, len);
                assert forall|k: u128| #[trigger] now.dom().contains(k) <==> exists|i: int, j: int|
                    0 <= i < n && reports[i] is Some && 0 <= j < reports[i]->0.len()
                        && reports[i]->0[j].0 == k by {
                    if exists|i: int, j: int|
                        0 <= i < n && reports[i] is Some && 0 <= j < reports[i]->0.len()
                            && reports[i]->0[j].0 == k {
                        let (i, j) = choose|i: int, j: int|
                            0 <= i < n && reports[i] is Some && 0 <= j < reports[i]->0.len()
                                && reports[i]->0[j].0 == k;
                        if i < n - 1 {
                            assert(before.dom().contains(k));
                        } else {
                            assert(0 <= j < len && devs[j].0 == k);
                        }
                    }
                    if now.dom().contains(k) {
                        if before.dom().contains(k) {
                            let (i, j) = choose|i: int, j: int|
                                0 <= i < n - 1 && reports[i] is Some && 0 <= j < reports[i]->0.len()
                                    && reports[i]->0[j].0 == k;
                            assert(0 <= i < n);
                        } else {
                            let j = choose|j: int| 0 <= j < len && devs[j].0 == k;
                            assert(reports[n - 1]->0[j].0 == k);
                        }
                    }
                }
                assert forall|i: int, j: int|
                    0 <= i < n && reports[i] is Some && 0 <= j < reports[i]->0.len() && (forall|j2: int|
                        j < j2 < reports[i]->0.len() ==> reports[i]->0[j2].0 != reports[i]->0[j].0) && (
                    forall|i2: int, j2: int|
                        i < i2 < n && reports[i2] is Some && 0 <= j2 < reports[i2]->0.len()
                            ==> reports[i2]->0[j2].0 != reports[i]->0[j].0) implies #[trigger] now[reports[i]->0[j].0]
                    == reports[i]->0[j].1 by {
                    let k = reports[i]->0[j].0;
                    if i == n - 1 {
                        assert(devs[j].0 == k);
                        assert(forall|j2: int| j < j2 < len ==> devs[j2].0 != devs[j].0);
                    } else {
                        assert forall|j2: int| 0 <= j2 < len implies devs[j2].0 != k by {
                            assert(reports[n - 1]->0[j2].0 != k);
                        }
                        assert(before[k] == reports[i]->0[j].1);
                    }
                }
            },
        }
    }
}

/// A command URL names the node, the device and the action, then gives the
/// target: the text after `&target=` reads back as the action's value, 0
/// included, and is empty when the action has none.
pub proof fn lemma_command_url_target(ip: Seq<char>, uuid: u128, action: Seq<char>, value: Option<usize>)
    ensures
        ({
            let url = command_url_text(ip, uuid, action, value);
            let prefix = "http://"@ + ip + "/command?uuid="@ + uuid_text(uuid) + "&action="@ + action
                + "&target="@;
            let target = url.subrange(prefix.len() as int, url.len() as int);
            &&& prefix.len() <= url.len()
            &&& url.subrange(0, prefix.len() as int) == prefix
            &&& match value {
                Some(t) => target.len() > 0 && parse_unsigned(target, usize::MAX as nat) == Some(
                    t as nat,
                ),
                None => target.len() == 0,
            }
        }),
{
    let url = command_url_text(ip, uuid, action, value);
    let prefix = "http://"@ + ip + "/command?uuid="@ + uuid_text(uuid) + "&action="@ + action
        + "&target="@;
    let tail = match value {
        Some(t) => decimal_text(t as nat),
        None => Seq::<char>::empty(),
    };
    assert(url == prefix + tail);
    assert(url.subrange(0, prefix.len() as int) =~= prefix);
    assert(url.subrange(prefix.len() as int, url.len() as int) =~= tail);
    if let Some(t) = value {
        lemma_decimal_round_trip(t as nat, usize::MAX as nat);
        assert(parse_unsigned(tail, usize::MAX as nat) == Some(t as nat));
        assert(tail.len() > 0) by {
            if tail.len() == 0 {
                assert(decimal_text(t as nat).len() > 0) by {
                    reveal_with_fuel(decimal_text, 1);
                }
            }
        }
    }
}

} // verus!
