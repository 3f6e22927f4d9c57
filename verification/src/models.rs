//! The check-in data model: one drive record and one complete snapshot.
//!
//! Every field is always present and well typed even when the underlying
//! fact was unavailable: missing data degrades to a documented sentinel
//! string or an explicit `None`, never to a failed collection.

use vstd::prelude::*;

verus! {

/// Mathematical model of a [`Drive`].
pub struct DriveModel {
    pub model: Seq<char>,
    pub serial_number: Option<Seq<char>>,
    pub device_id: Seq<char>,
}

/// Mathematical model of a [`CheckIn`].
pub struct CheckInModel {
    pub hostname: Seq<char>,
    pub ip_address: Seq<char>,
    pub logged_in_user: Option<Seq<char>>,
    pub laptop_serial: Seq<char>,
    pub drives: Seq<DriveModel>,
    pub timestamp_utc: Seq<char>,
}

/// One physical storage device observed on the host.
#[derive(Clone, Debug)]
pub struct Drive {
    /// Device model string; `"UNKNOWN"` when the provider returned none.
    pub model: String,
    /// Absent means the device did not report a serial; not an error.
    pub serial_number: Option<String>,
    /// Provider-assigned device path; `"UNKNOWN"` when none was returned.
    pub device_id: String,
}

/// One complete inventory snapshot, the unit of transmission.
#[derive(Clone, Debug)]
pub struct CheckIn {
    /// Host name, or `"UNKNOWN"` when unavailable.
    pub hostname: String,
    /// Primary non-loopback, non-link-local IPv4 address in dotted-quad
    /// form, or `"0.0.0.0"` when none was found.
    pub ip_address: String,
    /// Absent is a meaningful state: no interactive session.
    pub logged_in_user: Option<String>,
    /// Chassis/BIOS serial, or `"UNKNOWN"` when unavailable.
    pub laptop_serial: String,
    /// Ordered sequence of observed drives; may be empty.
    pub drives: Vec<Drive>,
    /// Collection time, fixed sortable date-time text with offset.
    pub timestamp_utc: String,
}

impl View for Drive {
    type V = DriveModel;

    open spec fn view(&self) -> DriveModel {
        DriveModel {
            model: self.model@,
            serial_number: match self.serial_number {
                Some(s) => Some(s@),
                None => None,
            },
            device_id: self.device_id@,
        }
    }
}

impl View for CheckIn {
    type V = CheckInModel;

    open spec fn view(&self) -> CheckInModel {
        CheckInModel {
            hostname: self.hostname@,
            ip_address: self.ip_address@,
            logged_in_user: match self.logged_in_user {
                Some(s) => Some(s@),
                None => None,
            },
            laptop_serial: self.laptop_serial@,
            drives: Seq::new(self.drives@.len(), |i: int| self.drives@[i]@),
            timestamp_utc: self.timestamp_utc@,
        }
    }
}

} // verus!
