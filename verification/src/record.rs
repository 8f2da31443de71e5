//! The record that every parser produces, and the ways a parse can fail.

use crate::tabular::Marker;
use vstd::prelude::*;

verus! {

/// A visible network as a mathematical value.
pub struct NetworkView {
    pub mac: Option<Seq<char>>,
    pub ssid: Seq<char>,
    pub channel: Seq<char>,
    pub signal_level: Seq<char>,
    pub security: Seq<char>,
}

/// A visible network. Channel and signal level keep the text of the source.
#[derive(Debug, Clone, PartialEq, Eq, Default)]
pub struct NetworkRecord {
    /// Hardware address of the access point, where the source gives one.
    pub mac: Option<String>,
    /// Network name.
    pub ssid: String,
    /// Channel, as the source writes it.
    pub channel: String,
    /// Signal strength, as the source writes it.
    pub signal_level: String,
    /// Security mode, without the prefix of the source format.
    pub security: String,
}

impl View for NetworkRecord {
    type V = NetworkView;

    open spec fn view(&self) -> NetworkView {
        NetworkView {
            mac: match self.mac {
                Some(mac) => Some(mac@),
                None => None,
            },
            ssid: self.ssid@,
            channel: self.channel@,
            signal_level: self.signal_level@,
            security: self.security@,
        }
    }
}

/// Why a text could not be read.
#[derive(Debug, Clone, Copy, PartialEq, Eq)]
pub enum ParseError {
    /// The header line of a table lacks the label of a column.
    HeaderNotFound { marker: Marker },
    /// A line of a table ends before one of its columns.
    RowTooShort,
    /// A document is no JSON text, or lacks the expected structure.
    MalformedDocument,
}

/// The views of a list of records, in order.
pub open spec fn views(records: Seq<NetworkRecord>) -> Seq<NetworkView> {
    Seq::new(records.len(), |i: int| records[i]@)
}

/// A parser's result as a mathematical value.
pub open spec fn outcome(result: Result<Vec<NetworkRecord>, ParseError>) -> Result<
    Seq<NetworkView>,
    ParseError,
> {
    match result {
        Ok(records) => Ok(views(records@)),
        Err(error) => Err(error),
    }
}

} // verus!
