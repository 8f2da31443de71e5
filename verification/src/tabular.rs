//! Tables with aligned columns: the header line names the columns, and the
//! positions of its labels say where every later line is cut.

use crate::record::{outcome, views, NetworkRecord, NetworkView, ParseError};
use crate::text::{chars_of, find, first_occurrence, lines, split_lines, trim, trimmed};
use vstd::prelude::*;

verus! {

/// The labels that a header line must hold, in the order of their columns.
/// `Ht` only ends the channel column: no field is read from its own column.
#[derive(Debug, Clone, Copy, PartialEq, Eq)]
pub enum Marker {
    Bssid,
    Rssi,
    Channel,
    Ht,
    Security,
}

impl Marker {
    /// The label as it stands in the header line.
    pub open spec fn label(self) -> Seq<char> {
        match self {
            Marker::Bssid => "BSSID"@,
            Marker::Rssi => "RSSI"@,
            Marker::Channel => "CHANNEL"@,
            Marker::Ht => "HT"@,
            Marker::Security => "SECURITY"@,
        }
    }

    /// The label as it stands in the header line.
    pub fn as_str(&self) -> (r: &'static str)
        ensures
            r@ == self.label(),
    {
        match self {
            Marker::Bssid => "BSSID",
            Marker::Rssi => "RSSI",
            Marker::Channel => "CHANNEL",
            Marker::Ht => "HT",
            Marker::Security => "SECURITY",
        }
    }
}

/// Where the columns of a table start, as mathematical integers.
pub struct Columns {
    pub mac: int,
    pub signal: int,
    pub channel: int,
    pub bound: int,
    pub security: int,
}

/// Where the columns of a table start: the position of each label in the
/// header line.
#[derive(Debug, Clone, Copy, PartialEq, Eq)]
pub struct ColumnLayout {
    /// Start of the address column, and end of the network name.
    pub mac: usize,
    /// Start of the signal column.
    pub signal: usize,
    /// Start of the channel column.
    pub channel: usize,
    /// End of the channel column.
    pub bound: usize,
    /// Start of the security column.
    pub security: usize,
}

impl View for ColumnLayout {
    type V = Columns;

    open spec fn view(&self) -> Columns {
        Columns {
            mac: self.mac as int,
            signal: self.signal as int,
            channel: self.channel as int,
            bound: self.bound as int,
            security: self.security as int,
        }
    }
}

/// The first marker, in the order of the columns, whose label `header` lacks.
pub open spec fn missing_marker(header: Seq<char>) -> Option<Marker> {
    if first_occurrence(header, Marker::Bssid.label()) is None {
        Some(Marker::Bssid)
    } else if first_occurrence(header, Marker::Rssi.label()) is None {
        Some(Marker::Rssi)
    } else if first_occurrence(header, Marker::Channel.label()) is None {
        Some(Marker::Channel)
    } else if first_occurrence(header, Marker::Ht.label()) is None {
        Some(Marker::Ht)
    } else if first_occurrence(header, Marker::Security.label()) is None {
        Some(Marker::Security)
    } else {
        None
    }
}

/// The columns that `header` lays out: each starts where its label first
/// stands. A missing label is an error that names the marker.
pub open spec fn layout_of(header: Seq<char>) -> Result<Columns, ParseError> {
    match missing_marker(header) {
        Some(marker) => Err(ParseError::HeaderNotFound { marker }),
        None => Ok(
            Columns {
                mac: first_occurrence(header, Marker::Bssid.label())->0,
                signal: first_occurrence(header, Marker::Rssi.label())->0,
                channel: first_occurrence(header, Marker::Channel.label())->0,
                bound: first_occurrence(header, Marker::Ht.label())->0,
                security: first_occurrence(header, Marker::Security.label())->0,
            },
        ),
    }
}

/// `line` holds every slice that `columns` cuts: the columns up to the end
/// of the channel stand in their order, and none starts beyond the line.
pub open spec fn row_fits(line: Seq<char>, columns: Columns) -> bool {
    &&& 0 <= columns.mac <= columns.signal <= columns.channel <= columns.bound <= line.len()
    &&& 0 <= columns.security <= line.len()
}

/// The record that `columns` cuts from `line`.
pub open spec fn row_record(line: Seq<char>, columns: Columns) -> NetworkView {
    NetworkView {
        mac: Some(trimmed(line.subrange(columns.mac, columns.signal))),
        ssid: trimmed(line.subrange(0, columns.mac)),
        channel: trimmed(line.subrange(columns.channel, columns.bound)),
        signal_level: trimmed(line.subrange(columns.signal, columns.channel)),
        security: trimmed(line.subrange(columns.security, line.len() as int)),
    }
}

/// One record for each of `rows`, in order, or an error where one of them is
/// too short.
pub open spec fn rows_records(rows: Seq<Seq<char>>, columns: Columns) -> Result<
    Seq<NetworkView>,
    ParseError,
> {
    if forall|i: int| 0 <= i < rows.len() ==> row_fits(#[trigger] rows[i], columns) {
        Ok(Seq::new(rows.len(), |i: int| row_record(rows[i], columns)))
    } else {
        Err(ParseError::RowTooShort)
    }
}

/// What a table says: nothing where it has no line; else the first line is
/// the header, and every later line is a row.
pub open spec fn tabular_records(text: Seq<char>) -> Result<Seq<NetworkView>, ParseError> {
    let all = lines(text);
    if all.len() == 0 {
        Ok(Seq::empty())
    } else {
        match layout_of(all[0]) {
            Err(error) => Err(error),
            Ok(columns) => rows_records(all.skip(1), columns),
        }
    }
}

/// A table without a line holds no record, and is no error.
pub proof fn lemma_no_line_no_record(text: Seq<char>)
    requires
        lines(text).len() == 0,
    ensures
        tabular_records(text) == Ok::<Seq<NetworkView>, ParseError>(Seq::empty()),
{
}

/// A header line that lacks the label of any marker makes the whole table
/// an error, which names the first marker that is missing.
pub proof fn lemma_missing_label(text: Seq<char>, marker: Marker)
    requires
        lines(text).len() > 0,
        first_occurrence(lines(text)[0], marker.label()) is None,
    ensures
        missing_marker(lines(text)[0]) is Some,
        tabular_records(text) == Err::<Seq<NetworkView>, ParseError>(
            ParseError::HeaderNotFound { marker: missing_marker(lines(text)[0])->0 },
        ),
{
}

/// A table whose header line holds every label, and whose later lines all
/// reach the columns, gives one record for each later line, in the order of
/// the lines.
pub proof fn lemma_one_record_per_row(text: Seq<char>)
    requires
        lines(text).len() > 0,
        layout_of(lines(text)[0]) is Ok,
        forall|i: int|
            1 <= i < lines(text).len() ==> row_fits(
                #[trigger] lines(text)[i],
                layout_of(lines(text)[0])->Ok_0,
            ),
    ensures
        tabular_records(text) is Ok,
        tabular_records(text)->Ok_0.len() == lines(text).len() - 1,
        forall|i: int|
            0 <= i < lines(text).len() - 1 ==> #[trigger] tabular_records(text)->Ok_0[i]
                == row_record(lines(text)[i + 1], layout_of(lines(text)[0])->Ok_0),
{
    let rows = lines(text).skip(1);
    let columns = layout_of(lines(text)[0])->Ok_0;
    assert forall|i: int| 0 <= i < rows.len() implies row_fits(#[trigger] rows[i], columns) by {
    }
}

/// Every record of a table has a hardware address.
pub proof fn lemma_rows_have_addresses(text: Seq<char>)
    requires
        tabular_records(text) is Ok,
    ensures
        forall|i: int|
            0 <= i < tabular_records(text)->Ok_0.len() ==> (
            #[trigger] tabular_records(text)->Ok_0[i]).mac is Some,
{
}

/// The position of the label of `marker` in `header`.
fn marker_offset(header: &[char], marker: Marker) -> (r: Result<usize, ParseError>)
    ensures
        match r {
            Ok(at) => first_occurrence(header@, marker.label()) == Some(at as int),
            Err(error) => first_occurrence(header@, marker.label()) is None && error
                == (ParseError::HeaderNotFound { marker }),
        },
{
    let label = chars_of(marker.as_str());
    match find(header, label.as_slice()) {
        Some(at) => Ok(at),
        None => Err(ParseError::HeaderNotFound { marker }),
    }
}

/// Finds the columns of a table in its header line.
pub fn locate_columns(header: &str) -> (r: Result<ColumnLayout, ParseError>)
    ensures
        match r {
            Ok(layout) => layout_of(header@) == Ok::<Columns, ParseError>(layout@),
            Err(error) => layout_of(header@) == Err::<Columns, ParseError>(error),
        },
{
    let chars = chars_of(header);
    let mac: usize = match marker_offset(chars.as_slice(), Marker::Bssid) {
        Ok(at) => at,
        Err(error) => return Err(error),
    };
    let signal: usize = match marker_offset(chars.as_slice(), Marker::Rssi) {
        Ok(at) => at,
        Err(error) => return Err(error),
    };
    let channel: usize = match marker_offset(chars.as_slice(), Marker::Channel) {
        Ok(at) => at,
        Err(error) => return Err(error),
    };
    let bound: usize = match marker_offset(chars.as_slice(), Marker::Ht) {
        Ok(at) => at,
        Err(error) => return Err(error),
    };
    let security: usize = match marker_offset(chars.as_slice(), Marker::Security) {
        Ok(at) => at,
        Err(error) => return Err(error),
    };
    Ok(ColumnLayout { mac, signal, channel, bound, security })
}

/// Cuts one line of a table into a record.
pub fn slice_row(line: &str, layout: &ColumnLayout) -> (r: Result<NetworkRecord, ParseError>)
    ensures
        match r {
            Ok(record) => row_fits(line@, layout@) && record@ == row_record(line@, layout@),
            Err(error) => !row_fits(line@, layout@) && error == ParseError::RowTooShort,
        },
{
    let len: usize = line.unicode_len();
    let fits = layout.mac <= layout.signal && layout.signal <= layout.channel && layout.channel
        <= layout.bound && layout.bound <= len && layout.security <= len;
    if !fits {
        return Err(ParseError::RowTooShort);
    }
    let ssid = trim(line.substring_char(0, layout.mac));
    let mac = trim(line.substring_char(layout.mac, layout.signal));
    let signal_level = trim(line.substring_char(layout.signal, layout.channel));
    let channel = trim(line.substring_char(layout.channel, layout.bound));
    let security = trim(line.substring_char(layout.security, len));
    Ok(NetworkRecord { mac: Some(mac), ssid, channel, signal_level, security })
}

/// Reads the table that `airport -s` prints: one record for each line after
/// the header.
pub fn parse_airport(network_list: &str) -> (r: Result<Vec<NetworkRecord>, ParseError>)
    ensures
        outcome(r) == tabular_records(network_list@),
{
    let all = split_lines(network_list);
    if all.len() == 0 {
        let none: Vec<NetworkRecord> = Vec::new();
        assert(views(none@) =~= Seq::empty());
        return Ok(none);
    }
    let layout = match locate_columns(all[0].as_str()) {
        Ok(layout) => layout,
        Err(error) => return Err(error),
    };
    let ghost rows = lines(network_list@).skip(1);
    let mut out: Vec<NetworkRecord> = Vec::new();
    let mut i: usize = 1;
    while i < all.len()
        invariant
            1 <= i <= all@.len(),
            all@.len() == lines(network_list@).len(),
            forall|k: int|
                0 <= k < all@.len() ==> #[trigger] all@[k]@ == lines(network_list@)[k],
            rows == lines(network_list@).skip(1),
            layout_of(lines(network_list@)[0]) == Ok::<Columns, ParseError>(layout@),
            out@.len() == i - 1,
            forall|k: int| 0 <= k < out@.len() ==> row_fits(#[trigger] rows[k], layout@),
            forall|k: int|
                0 <= k < out@.len() ==> #[trigger] out@[k]@ == row_record(rows[k], layout@),
        decreases all@.len() - i,
    {
        match slice_row(all[i].as_str(), &layout) {
            Ok(record) => {
                out.push(record);
            },
            Err(error) => {
                assert(!row_fits(rows[i - 1], layout@));
                return Err(error);
            },
        }
        i += 1;
    }
    assert(views(out@) =~= Seq::new(rows.len(), |i: int| row_record(rows[i], layout@)));
    Ok(out)
}

} // verus!
