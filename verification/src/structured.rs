//! The JSON document that `system_profiler SPAirPortDataType -json` prints:
//! groups of interfaces, each interface with the networks it sees.

use crate::json::{decode, json_document, Json, JsonValue};
use crate::record::{outcome, views, NetworkRecord, NetworkView, ParseError};
use crate::text::{before, remove_prefix, take_before, trim, trimmed, without_prefix};
use vstd::prelude::*;

verus! {

/// Member of the document: the list of interface groups.
pub const DOCUMENT_KEY: &'static str = "SPAirPortDataType";

/// Member of a group: the list of its interfaces.
pub const INTERFACES_KEY: &'static str = "spairport_airport_interfaces";

/// Member of an interface: the list of the networks it sees. It may be absent.
pub const NETWORKS_KEY: &'static str = "spairport_airport_other_local_wireless_networks";

/// Member of a network: its name.
pub const NAME_KEY: &'static str = "_name";

/// Member of a network: its channel.
pub const CHANNEL_KEY: &'static str = "spairport_network_channel";

/// Member of a network: its security mode.
pub const SECURITY_KEY: &'static str = "spairport_security_mode";

/// Member of a network: signal and noise, as `"<signal> / <noise>"`.
pub const SIGNAL_KEY: &'static str = "spairport_signal_noise";

/// What the document writes before every security mode.
pub const SECURITY_PREFIX: &'static str = "spairport_security_mode_";

/// A security mode without the prefix of the document format.
pub open spec fn strip_security(mode: Seq<char>) -> Seq<char> {
    without_prefix(mode, SECURITY_PREFIX@)
}

/// The signal level in a signal and noise text: what stands before the first
/// `/`, trimmed.
pub open spec fn signal_level(signal_noise: Seq<char>) -> Seq<char> {
    trimmed(before(signal_noise, '/'))
}

/// The member `key` of `value`, where it is a text.
pub open spec fn text_member(value: JsonValue, key: Seq<char>) -> Option<Seq<char>> {
    match value.member(key) {
        Some(JsonValue::Text(text)) => Some(text),
        _ => None,
    }
}

/// The member `key` of `value`, where it is a list.
pub open spec fn list_member(value: JsonValue, key: Seq<char>) -> Option<Seq<JsonValue>> {
    match value.member(key) {
        Some(JsonValue::List(items)) => Some(items),
        _ => None,
    }
}

/// The record of one network entry: `None` unless the entry is an object
/// whose name, channel, security mode and signal are texts.
pub open spec fn network_record(entry: JsonValue) -> Option<NetworkView> {
    match (
        text_member(entry, NAME_KEY@),
        text_member(entry, CHANNEL_KEY@),
        text_member(entry, SECURITY_KEY@),
        text_member(entry, SIGNAL_KEY@),
    ) {
        (Some(name), Some(channel), Some(mode), Some(signal_noise)) => Some(
            NetworkView {
                mac: None,
                ssid: name,
                channel,
                signal_level: signal_level(signal_noise),
                security: strip_security(mode),
            },
        ),
        _ => None,
    }
}

/// The network entries of one interface. An interface without the member, or
/// with `null` for it, has none. `None` unless the interface is an object
/// whose member, where present, is `null` or a list.
pub open spec fn interface_entries(interface: JsonValue) -> Option<Seq<JsonValue>> {
    match interface {
        JsonValue::Object(_) => match interface.member(NETWORKS_KEY@) {
            None => Some(Seq::empty()),
            Some(JsonValue::Null) => Some(Seq::empty()),
            Some(JsonValue::List(entries)) => Some(entries),
            Some(_) => None,
        },
        _ => None,
    }
}

/// The network entries of `interfaces`, one interface after the other.
pub open spec fn interfaces_entries(interfaces: Seq<JsonValue>) -> Option<Seq<JsonValue>>
    decreases interfaces.len(),
{
    if interfaces.len() == 0 {
        Some(Seq::empty())
    } else {
        match (
            interfaces_entries(interfaces.drop_last()),
            interface_entries(interfaces.last()),
        ) {
            (Some(earlier), Some(last)) => Some(earlier + last),
            _ => None,
        }
    }
}

/// The network entries of one group: those of its interfaces.
pub open spec fn group_entries(group: JsonValue) -> Option<Seq<JsonValue>> {
    match list_member(group, INTERFACES_KEY@) {
        Some(interfaces) => interfaces_entries(interfaces),
        None => None,
    }
}

/// The network entries of `groups`, one group after the other.
pub open spec fn groups_entries(groups: Seq<JsonValue>) -> Option<Seq<JsonValue>>
    decreases groups.len(),
{
    if groups.len() == 0 {
        Some(Seq::empty())
    } else {
        match (groups_entries(groups.drop_last()), group_entries(groups.last())) {
            (Some(earlier), Some(last)) => Some(earlier + last),
            _ => None,
        }
    }
}

/// All network entries of a document, in document order: group by group,
/// interface by interface. `None` where the document lacks the structure.
pub open spec fn document_entries(doc: JsonValue) -> Option<Seq<JsonValue>> {
    match list_member(doc, DOCUMENT_KEY@) {
        Some(groups) => groups_entries(groups),
        None => None,
    }
}

/// What a document says: one record for each network entry, in document
/// order. A document that lacks the structure, or holds a malformed entry,
/// gives an error and no record.
pub open spec fn structured_records(doc: JsonValue) -> Result<Seq<NetworkView>, ParseError> {
    match document_entries(doc) {
        Some(entries) => if forall|i: int|
            0 <= i < entries.len() ==> network_record(#[trigger] entries[i]) is Some {
            Ok(Seq::new(entries.len(), |i: int| network_record(entries[i])->0))
        } else {
            Err(ParseError::MalformedDocument)
        },
        None => Err(ParseError::MalformedDocument),
    }
}

/// What a text says: the records of the JSON document that it holds.
pub open spec fn systemprofiler_records(text: Seq<char>) -> Result<Seq<NetworkView>, ParseError> {
    match json_document(text) {
        Some(doc) => structured_records(doc),
        None => Err(ParseError::MalformedDocument),
    }
}

/// The views of a list of borrowed values, in order.
pub open spec fn borrowed_views(values: Seq<&Json>) -> Seq<JsonValue> {
    Seq::new(values.len(), |i: int| values[i]@)
}

/// The entries of two lists of interfaces put end to end are the entries of
/// the first list followed by those of the second; a malformed interface in
/// either list makes the whole malformed.
pub proof fn lemma_interfaces_entries_concat(first: Seq<JsonValue>, second: Seq<JsonValue>)
    ensures
        interfaces_entries(first + second) == match (
            interfaces_entries(first),
            interfaces_entries(second),
        ) {
            (Some(a), Some(b)) => Some(a + b),
            _ => None,
        },
    decreases second.len(),
{
    if second.len() > 0 {
        assert((first + second).drop_last() =~= first + second.drop_last());
        lemma_interfaces_entries_concat(first, second.drop_last());
    }
}

/// The entries of two lists of groups put end to end are the entries of the
/// first list followed by those of the second; a malformed group in either
/// list makes the whole malformed.
pub proof fn lemma_groups_entries_concat(first: Seq<JsonValue>, second: Seq<JsonValue>)
    ensures
        groups_entries(first + second) == match (groups_entries(first), groups_entries(second)) {
            (Some(a), Some(b)) => Some(a + b),
            _ => None,
        },
    decreases second.len(),
{
    if second.len() > 0 {
        assert((first + second).drop_last() =~= first + second.drop_last());
        lemma_groups_entries_concat(first, second.drop_last());
    }
}

/// There is one record for each network entry of the document, in the order
/// of the entries, and no record has a hardware address.
pub proof fn lemma_one_record_per_entry(doc: JsonValue)
    requires
        structured_records(doc) is Ok,
    ensures
        document_entries(doc) is Some,
        structured_records(doc)->Ok_0.len() == document_entries(doc)->0.len(),
        forall|i: int|
            0 <= i < document_entries(doc)->0.len() ==> network_record(
                document_entries(doc)->0[i],
            ) == Some(#[trigger] structured_records(doc)->Ok_0[i]),
        forall|i: int|
            0 <= i < structured_records(doc)->Ok_0.len() ==> (
            #[trigger] structured_records(doc)->Ok_0[i]).mac is None,
{
}

/// Stripping leaves alone a mode that does not begin with the prefix. So to
/// strip twice is to strip once, unless what the first stripping leaves
/// begins with the prefix again.
pub proof fn lemma_strip_security_idempotent(mode: Seq<char>)
    ensures
        !SECURITY_PREFIX@.is_prefix_of(mode) ==> strip_security(mode) == mode,
        !SECURITY_PREFIX@.is_prefix_of(strip_security(mode)) ==> strip_security(
            strip_security(mode),
        ) == strip_security(mode),
{
}

/// A security mode without the prefix of the document format.
pub fn strip_security_prefix(mode: &str) -> (r: String)
    ensures
        r@ == strip_security(mode@),
{
    remove_prefix(mode, SECURITY_PREFIX)
}

/// The signal level in a signal and noise text.
pub fn signal_level_of(signal_noise: &str) -> (r: String)
    ensures
        r@ == signal_level(signal_noise@),
{
    trim(take_before(signal_noise, '/'))
}

/// The member `key` of `value`, where it is a text.
fn text_of<'a>(value: &'a Json, key: &str) -> (r: Option<&'a String>)
    ensures
        match r {
            Some(text) => text_member(value@, key@) == Some(text@),
            None => text_member(value@, key@) is None,
        },
{
    match value.member(key) {
        Some(found) => found.as_text(),
        None => None,
    }
}

/// The member `key` of `value`, where it is a list.
fn list_of<'a>(value: &'a Json, key: &str) -> (r: Option<&'a Vec<Json>>)
    ensures
        match r {
            Some(items) => list_member(value@, key@) == Some(Json::views(items@)),
            None => list_member(value@, key@) is None,
        },
{
    match value.member(key) {
        Some(found) => found.as_list(),
        None => None,
    }
}

/// Reads one network entry.
pub fn read_network(entry: &Json) -> (r: Option<NetworkRecord>)
    ensures
        match r {
            Some(record) => network_record(entry@) == Some(record@),
            None => network_record(entry@) is None,
        },
{
    let name = match text_of(entry, NAME_KEY) {
        Some(text) => text,
        None => return None,
    };
    let channel = match text_of(entry, CHANNEL_KEY) {
        Some(text) => text,
        None => return None,
    };
    let mode = match text_of(entry, SECURITY_KEY) {
        Some(text) => text,
        None => return None,
    };
    let signal_noise = match text_of(entry, SIGNAL_KEY) {
        Some(text) => text,
        None => return None,
    };
    Some(
        NetworkRecord {
            mac: None,
            ssid: name.clone(),
            channel: channel.clone(),
            signal_level: signal_level_of(signal_noise.as_str()),
            security: strip_security_prefix(mode.as_str()),
        },
    )
}

/// Appends the network entries of one interface to `out`. Returns `false`,
/// with `out` in no particular state, where the interface is malformed.
fn gather_interface<'a>(interface: &'a Json, out: &mut Vec<&'a Json>) -> (ok: bool)
    ensures
        match interface_entries(interface@) {
            Some(entries) => ok && borrowed_views(final(out)@) == borrowed_views(old(out)@)
                + entries,
            None => !ok,
        },
{
    if !interface.is_object() {
        return false;
    }
    match interface.member(NETWORKS_KEY) {
        None => true,
        Some(Json::Null) => true,
        Some(found) => match found.as_list() {
            Some(entries) => {
                let ghost start = out@;
                let mut i: usize = 0;
                while i < entries.len()
                    invariant
                        i <= entries@.len(),
                        out@.len() == start.len() + i,
                        borrowed_views(out@) == borrowed_views(start) + Json::views(
                            entries@,
                        ).take(i as int),
                    decreases entries@.len() - i,
                {
                    let ghost earlier = borrowed_views(out@);
                    out.push(&entries[i]);
                    assert(borrowed_views(out@) =~= earlier.push(entries@[i as int]@));
                    i += 1;
                }
                true
            },
            None => false,
        },
    }
}

/// Appends the network entries of one group to `out`. Returns `false`, with
/// `out` in no particular state, where the group is malformed.
fn gather_group<'a>(group: &'a Json, out: &mut Vec<&'a Json>) -> (ok: bool)
    ensures
        match group_entries(group@) {
            Some(entries) => ok && borrowed_views(final(out)@) == borrowed_views(old(out)@)
                + entries,
            None => !ok,
        },
{
    let interfaces = match list_of(group, INTERFACES_KEY) {
        Some(items) => items,
        None => return false,
    };
    let ghost start = out@;
    let ghost all = Json::views(interfaces@);
    let mut i: usize = 0;
    while i < interfaces.len()
        invariant
            i <= interfaces@.len(),
            all == Json::views(interfaces@),
            list_member(group@, INTERFACES_KEY@) == Some(all),
            interfaces_entries(all.take(i as int)) is Some,
            borrowed_views(out@) == borrowed_views(start) + interfaces_entries(
                all.take(i as int),
            )->0,
        decreases interfaces@.len() - i,
    {
        assert(all.take(i + 1).drop_last() =~= all.take(i as int));
        if !gather_interface(&interfaces[i], out) {
            proof {
                assert(all =~= all.take(i + 1) + all.skip(i + 1));
                lemma_interfaces_entries_concat(all.take(i + 1), all.skip(i + 1));
            }
            return false;
        }
        i += 1;
    }
    assert(all.take(i as int) =~= all);
    true
}

/// All network entries of a document, in document order.
pub fn network_entries(doc: &Json) -> (r: Option<Vec<&Json>>)
    ensures
        match r {
            Some(entries) => document_entries(doc@) == Some(borrowed_views(entries@)),
            None => document_entries(doc@) is None,
        },
{
    let groups = match list_of(doc, DOCUMENT_KEY) {
        Some(items) => items,
        None => return None,
    };
    let mut out: Vec<&Json> = Vec::new();
    let ghost all = Json::views(groups@);
    let mut i: usize = 0;
    while i < groups.len()
        invariant
            i <= groups@.len(),
            all == Json::views(groups@),
            list_member(doc@, DOCUMENT_KEY@) == Some(all),
            groups_entries(all.take(i as int)) == Some(borrowed_views(out@)),
        decreases groups@.len() - i,
    {
        assert(all.take(i + 1).drop_last() =~= all.take(i as int));
        if !gather_group(&groups[i], &mut out) {
            proof {
                assert(all =~= all.take(i + 1) + all.skip(i + 1));
                lemma_groups_entries_concat(all.take(i + 1), all.skip(i + 1));
            }
            return None;
        }
        i += 1;
    }
    assert(all.take(i as int) =~= all);
    Some(out)
}

/// Reads the records of a document: one for each network entry, in document
/// order.
pub fn records_from_json(doc: &Json) -> (r: Result<Vec<NetworkRecord>, ParseError>)
    ensures
        outcome(r) == structured_records(doc@),
{
    let entries = match network_entries(doc) {
        Some(entries) => entries,
        None => return Err(ParseError::MalformedDocument),
    };
    let ghost all = borrowed_views(entries@);
    let mut out: Vec<NetworkRecord> = Vec::new();
    let mut i: usize = 0;
    while i < entries.len()
        invariant
            i <= entries@.len(),
            all == borrowed_views(entries@),
            document_entries(doc@) == Some(all),
            out@.len() == i,
            forall|k: int| 0 <= k < i ==> network_record(all[k]) == Some(#[trigger] out@[k]@),
        decreases entries@.len() - i,
    {
        match read_network(entries[i]) {
            Some(record) => {
                out.push(record);
            },
            None => {
                assert(network_record(all[i as int]) is None);
                return Err(ParseError::MalformedDocument);
            },
        }
        i += 1;
    }
    assert forall|k: int| 0 <= k < all.len() implies network_record(#[trigger] all[k]) is Some by {
        assert(network_record(all[k]) == Some(out@[k]@));
    }
    assert(views(out@) =~= Seq::new(all.len(), |i: int| network_record(all[i])->0));
    Ok(out)
}

/// Reads the document that `system_profiler SPAirPortDataType -json` prints:
/// one record for each network that any interface sees.
pub fn parse_systemprofiler(text: &str) -> (r: Result<Vec<NetworkRecord>, ParseError>)
    ensures
        outcome(r) == systemprofiler_records(text@),
{
    match decode(text) {
        Ok(doc) => records_from_json(&doc),
        Err(error) => Err(error),
    }
}

} // verus!
