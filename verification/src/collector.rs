//! The facts provider: best-effort machine facts normalized into a
//! check-in record.
//!
//! Every field is queried independently; a missing or failed field
//! degrades to its documented sentinel or optional and never aborts the
//! rest of the snapshot. Address selection is a first-match policy over
//! the interface list, intentionally simple, not a best-address
//! heuristic.

use vstd::prelude::*;

use crate::models::{CheckIn, CheckInModel, Drive, DriveModel};
use crate::text::{dec_rep, from_chars, push_dec_u64, to_chars, trim_chars, trimmed};

verus! {

/// One network interface, reduced to what address selection reads:
/// whether it is a loopback interface, and its IPv4 address, if it has
/// one, as four octets in order.
#[derive(Clone, Copy, Debug)]
pub struct NetIf {
    pub loopback: bool,
    pub v4: Option<(u8, u8, u8, u8)>,
}

/// Raw provider output for one drive; each field may be missing.
pub struct RawDrive {
    pub model: Option<String>,
    pub serial_number: Option<String>,
    pub device_id: Option<String>,
}

/// Raw provider output for the host facts that hardware queries yield;
/// each field may be missing, independently of the others.
pub struct RawFacts {
    pub hostname: Option<String>,
    pub logged_in_user: Option<String>,
    pub laptop_serial: Option<String>,
    pub drives: Vec<RawDrive>,
}

/// The view of an optional string.
pub open spec fn opt_text(o: Option<String>) -> Option<Seq<char>> {
    match o {
        Some(s) => Some(s@),
        None => None,
    }
}

/// An address in the link-local autoconfiguration range
/// `169.254.0.0/16`.
pub open spec fn is_link_local(a: (u8, u8, u8, u8)) -> bool {
    a.0 == 169 && a.1 == 254
}

/// Whether address selection passes over an interface: loopback
/// interfaces, interfaces without an IPv4 address, and link-local
/// addresses are all skipped.
pub open spec fn if_skipped(i: NetIf) -> bool {
    i.loopback || match i.v4 {
        None => true,
        Some(a) => is_link_local(a),
    }
}

/// The first usable IPv4 address, in enumeration order.
pub open spec fn selected_v4(ifs: Seq<NetIf>) -> Option<(u8, u8, u8, u8)>
    decreases ifs.len(),
{
    if ifs.len() == 0 {
        None
    } else if !if_skipped(ifs[0]) {
        ifs[0].v4
    } else {
        selected_v4(ifs.drop_first())
    }
}

/// Whatever selection returns is never a link-local address.
pub proof fn lemma_selected_not_link_local(ifs: Seq<NetIf>)
    ensures
        match selected_v4(ifs) {
            Some(a) => !is_link_local(a),
            None => true,
        },
    decreases ifs.len(),
{
    if ifs.len() > 0 && if_skipped(ifs[0]) {
        lemma_selected_not_link_local(ifs.drop_first());
    }
}

/// Picks the primary IPv4 address: the first non-loopback,
/// non-link-local IPv4 address, in enumeration order.
pub fn select_primary_ipv4(ifs: &Vec<NetIf>) -> (r: Option<(u8, u8, u8, u8)>)
    ensures
        r == selected_v4(ifs@),
{
    let mut k: usize = 0;
    proof {
        assert(ifs@.skip(0) =~= ifs@);
    }
    while k < ifs.len()
        invariant
            k <= ifs.len(),
            selected_v4(ifs@) == selected_v4(ifs@.skip(k as int)),
        decreases ifs.len() - k,
    {
        let i = ifs[k];
        proof {
            assert(ifs@.skip(k as int)[0] == ifs@[k as int]);
            assert(ifs@.skip(k as int).drop_first() =~= ifs@.skip(k + 1));
        }
        if !i.loopback {
            match i.v4 {
                Some(a) => {
                    if !(a.0 == 169 && a.1 == 254) {
                        return Some(a);
                    }
                },
                None => {},
            }
        }
        k = k + 1;
    }
    proof {
        assert(ifs@.skip(ifs@.len() as int) =~= Seq::<NetIf>::empty());
    }
    None
}

/// The dotted-quad rendering of an IPv4 address.
pub open spec fn dotted_quad(a: (u8, u8, u8, u8)) -> Seq<char> {
    dec_rep(a.0 as int) + seq!['.'] + dec_rep(a.1 as int) + seq!['.'] + dec_rep(a.2 as int)
        + seq!['.'] + dec_rep(a.3 as int)
}

/// Renders an IPv4 address in dotted-quad form.
pub fn format_ipv4(a: (u8, u8, u8, u8)) -> (r: String)
    ensures
        r@ == dotted_quad(a),
{
    let mut out: Vec<char> = Vec::new();
    push_dec_u64(&mut out, a.0 as u64);
    out.push('.');
    push_dec_u64(&mut out, a.1 as u64);
    out.push('.');
    push_dec_u64(&mut out, a.2 as u64);
    out.push('.');
    push_dec_u64(&mut out, a.3 as u64);
    proof {
        assert(out@ =~= dotted_quad(a));
    }
    from_chars(&out)
}

/// How one raw drive is normalized: a missing model or device
/// identifier degrades to the sentinel `"UNKNOWN"`; a missing serial
/// stays absent, and a present one is trimmed of whitespace.
pub open spec fn normalized_drive(
    model: Option<Seq<char>>,
    serial: Option<Seq<char>>,
    device: Option<Seq<char>>,
) -> DriveModel {
    DriveModel {
        model: match model {
            Some(m) => m,
            None => "UNKNOWN"@,
        },
        serial_number: match serial {
            Some(s) => Some(trimmed(s)),
            None => None,
        },
        device_id: match device {
            Some(d) => d,
            None => "UNKNOWN"@,
        },
    }
}

/// Normalizes one raw drive record.
pub fn normalize_drive(d: RawDrive) -> (r: Drive)
    ensures
        r@ == normalized_drive(opt_text(d.model), opt_text(d.serial_number), opt_text(d.device_id)),
{
    Drive {
        model: match d.model {
            Some(m) => m,
            None => "UNKNOWN".to_owned(),
        },
        serial_number: match d.serial_number {
            Some(s) => {
                let cs = to_chars(s.as_str());
                let t = trim_chars(&cs);
                Some(from_chars(&t))
            },
            None => None,
        },
        device_id: match d.device_id {
            Some(id) => id,
            None => "UNKNOWN".to_owned(),
        },
    }
}

/// The normalized check-in assembled from raw facts, a selected
/// address and a timestamp: missing facts degrade to the documented
/// sentinels and optionals, never to a failure.
pub open spec fn assembled_check_in(
    hostname: Option<Seq<char>>,
    addr: Option<(u8, u8, u8, u8)>,
    user: Option<Seq<char>>,
    serial: Option<Seq<char>>,
    drives: Seq<DriveModel>,
    timestamp: Seq<char>,
) -> CheckInModel {
    CheckInModel {
        hostname: match hostname {
            Some(h) => h,
            None => "UNKNOWN"@,
        },
        ip_address: match addr {
            Some(a) => dotted_quad(a),
            None => "0.0.0.0"@,
        },
        logged_in_user: user,
        laptop_serial: match serial {
            Some(s) => s,
            None => "UNKNOWN"@,
        },
        drives,
        timestamp_utc: timestamp,
    }
}

/// Assembles a complete check-in record from raw facts. Every field of
/// the result is present even when the underlying fact is missing: a
/// single unavailable fact never prevents the snapshot.
pub fn build_check_in(
    facts: RawFacts,
    addr: Option<(u8, u8, u8, u8)>,
    timestamp_utc: String,
) -> (r: CheckIn)
    ensures
        r@ == assembled_check_in(
            opt_text(facts.hostname),
            addr,
            opt_text(facts.logged_in_user),
            opt_text(facts.laptop_serial),
            Seq::new(facts.drives@.len(), |k: int| normalized_drive(
                opt_text(facts.drives@[k].model),
                opt_text(facts.drives@[k].serial_number),
                opt_text(facts.drives@[k].device_id),
            )),
            timestamp_utc@,
        ),
{
    let ghost goal: Seq<DriveModel> = Seq::new(facts.drives@.len(), |k: int| normalized_drive(
        opt_text(facts.drives@[k].model),
        opt_text(facts.drives@[k].serial_number),
        opt_text(facts.drives@[k].device_id),
    ));
    let RawFacts { hostname, logged_in_user, laptop_serial, drives } = facts;
    let mut out_drives: Vec<Drive> = Vec::new();
    let mut raw = drives;
    let n = raw.len();
    let ghost raw0 = raw@;
    let mut k: usize = 0;
    while k < n
        invariant
            k <= n,
            raw@ == raw0.skip(k as int),
            n == raw0.len(),
            out_drives@.len() == k,
            forall|j: int| 0 <= j < k ==> out_drives@[j]@ == goal[j],
            goal == Seq::new(raw0.len(), |j: int| normalized_drive(
                opt_text(raw0[j].model),
                opt_text(raw0[j].serial_number),
                opt_text(raw0[j].device_id),
            )),
        decreases n - k,
    {
        let d = raw.remove(0);
        proof {
            assert(raw0.skip(k as int)[0] == raw0[k as int]);
            assert(raw0.skip(k as int).drop_first() =~= raw0.skip(k + 1));
        }
        let nd = normalize_drive(d);
        out_drives.push(nd);
        k = k + 1;
    }
    let ip_address = match addr {
        Some(a) => format_ipv4(a),
        None => "0.0.0.0".to_owned(),
    };
    let r = CheckIn {
        hostname: match hostname {
            Some(h) => h,
            None => "UNKNOWN".to_owned(),
        },
        ip_address,
        logged_in_user,
        laptop_serial: match laptop_serial {
            Some(s) => s,
            None => "UNKNOWN".to_owned(),
        },
        drives: out_drives,
        timestamp_utc,
    };
    proof {
        assert(Seq::new(r.drives@.len(), |j: int| r.drives@[j]@) =~= goal);
    }
    r
}

/// Relies on get_if_addrs::get_if_addrs: enumerates the host's network
/// interfaces; each is reduced to its loopback flag and its IPv4
/// octets. The list depends on the machine, so nothing is promised of
/// it; a failed enumeration yields no interfaces.
#[verifier::external_body]
fn query_interfaces() -> (r: Vec<NetIf>) {
    let ifs = get_if_addrs::get_if_addrs().unwrap_or_default();
    ifs.into_iter().map(|i: get_if_addrs::Interface| NetIf {
        loopback: i.is_loopback(),
        v4: match i.addr {
            get_if_addrs::IfAddr::V4(a) => {
                let o = a.ip.octets();
                Some((o[0], o[1], o[2], o[3]))
            },
            get_if_addrs::IfAddr::V6(_) => None,
        },
    }).collect()
}

/// Relies on chrono::Utc::now and DateTime::to_rfc3339: the current
/// UTC instant rendered as an RFC 3339 date-time with offset. The
/// result depends on the clock, so nothing is promised of it.
#[verifier::external_body]
fn now_rfc3339() -> (r: String) {
    chrono::Utc::now().to_rfc3339()
}

/// The primary IPv4 address of this host in dotted-quad form: the
/// first non-loopback, non-link-local IPv4 address the interface
/// enumeration yields, if any.
pub fn primary_ipv4() -> (r: Option<String>)
    ensures
        match r {
            Some(s) => exists|a: (u8, u8, u8, u8)| !is_link_local(a) && s@ == dotted_quad(a),
            None => true,
        },
{
    let ifs = query_interfaces();
    proof {
        lemma_selected_not_link_local(ifs@);
    }
    match select_primary_ipv4(&ifs) {
        Some(a) => Some(format_ipv4(a)),
        None => None,
    }
}

/// Collects one snapshot: stamps the given raw facts with this host's
/// primary address and the current clock reading. The hardware facts
/// are handed in by the caller; the interface list and the clock are
/// queried here, so only their shape, not their value, is promised.
pub fn collect(facts: RawFacts) -> (r: CheckIn)
    ensures
        r@.hostname == (match opt_text(facts.hostname) {
            Some(h) => h,
            None => "UNKNOWN"@,
        }),
        r@.logged_in_user == opt_text(facts.logged_in_user),
        r@.laptop_serial == (match opt_text(facts.laptop_serial) {
            Some(s) => s,
            None => "UNKNOWN"@,
        }),
        r@.drives == Seq::new(facts.drives@.len(), |k: int| normalized_drive(
            opt_text(facts.drives@[k].model),
            opt_text(facts.drives@[k].serial_number),
            opt_text(facts.drives@[k].device_id),
        )),
        r@.ip_address == "0.0.0.0"@ || exists|a: (u8, u8, u8, u8)| !is_link_local(a)
            && r@.ip_address == dotted_quad(a),
{
    let ifs = query_interfaces();
    proof {
        lemma_selected_not_link_local(ifs@);
    }
    let addr = select_primary_ipv4(&ifs);
    let stamp = now_rfc3339();
    build_check_in(facts, addr, stamp)
}

} // verus!
