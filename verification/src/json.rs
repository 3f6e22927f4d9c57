//! The JSON wire codec for check-in records.
//!
//! One check-in is posted as a single JSON object with the exact field
//! names `hostname`, `ip_address`, `logged_in_user` (null when absent),
//! `laptop_serial`, `drives` (array of objects with `model`,
//! `serial_number`, `device_id`) and `timestamp_utc`. The encoder
//! produces a canonical form of that object; the decoder reads it back,
//! and decoding an encoded record returns the record unchanged.

use vstd::prelude::*;

use crate::models::{CheckIn, CheckInModel, Drive, DriveModel};
use crate::text::from_chars;
use crate::text::to_chars;

verus! {

/// The lower-case hex digit character for a value in `0 ..= 15`.
pub open spec fn hex_char(d: int) -> char {
    if d < 10 {
        ((48 + d) as u32) as char
    } else {
        ((87 + d) as u32) as char
    }
}

/// How one character is written inside a JSON string: quote and
/// backslash get a backslash escape, control characters a `\u00XX`
/// escape, and every other character stands for itself.
pub open spec fn esc_char(c: char) -> Seq<char> {
    if c == '"' {
        seq!['\\', '"']
    } else if c == '\\' {
        seq!['\\', '\\']
    } else if (c as u32) < 32 {
        seq!['\\', 'u', '0', '0', hex_char((c as u32) as int / 16), hex_char(
            (c as u32) as int % 16,
        )]
    } else {
        seq![c]
    }
}

/// The escaped body of a JSON string.
pub open spec fn esc(s: Seq<char>) -> Seq<char>
    decreases s.len(),
{
    if s.len() == 0 {
        Seq::empty()
    } else {
        esc_char(s[0]) + esc(s.drop_first())
    }
}

/// A complete JSON string: quote, escaped body, quote.
pub open spec fn quoted(s: Seq<char>) -> Seq<char> {
    seq!['"'] + esc(s) + seq!['"']
}

/// An optional string field value: `null` when absent.
pub open spec fn json_opt_string(v: Option<Seq<char>>) -> Seq<char> {
    match v {
        None => "null"@,
        Some(s) => quoted(s),
    }
}

/// One drive as a JSON object.
pub open spec fn json_drive(d: DriveModel) -> Seq<char> {
    "{\"model\":"@ + quoted(d.model) + ",\"serial_number\":"@ + json_opt_string(d.serial_number)
        + ",\"device_id\":"@ + quoted(d.device_id) + "}"@
}

/// The drives after the first one, each preceded by a comma.
pub open spec fn json_drives_rest(ds: Seq<DriveModel>) -> Seq<char>
    decreases ds.len(),
{
    if ds.len() == 0 {
        Seq::empty()
    } else {
        ","@ + json_drive(ds[0]) + json_drives_rest(ds.drop_first())
    }
}

/// The drive list as a JSON array.
pub open spec fn json_drives(ds: Seq<DriveModel>) -> Seq<char> {
    if ds.len() == 0 {
        "[]"@
    } else {
        "["@ + json_drive(ds[0]) + json_drives_rest(ds.drop_first()) + "]"@
    }
}

/// A whole check-in as the JSON object of the wire protocol.
pub open spec fn json_check_in(c: CheckInModel) -> Seq<char> {
    "{\"hostname\":"@ + quoted(c.hostname) + ",\"ip_address\":"@ + quoted(c.ip_address)
        + ",\"logged_in_user\":"@ + json_opt_string(c.logged_in_user) + ",\"laptop_serial\":"@
        + quoted(c.laptop_serial) + ",\"drives\":"@ + json_drives(c.drives)
        + ",\"timestamp_utc\":"@ + quoted(c.timestamp_utc) + "}"@
}

/// `esc` distributes over concatenation.
pub proof fn lemma_esc_concat(a: Seq<char>, b: Seq<char>)
    ensures
        esc(a + b) == esc(a) + esc(b),
    decreases a.len(),
{
    if a.len() == 0 {
        assert(a + b =~= b);
        assert(esc(a) + esc(b) =~= esc(b));
    } else {
        lemma_esc_concat(a.drop_first(), b);
        assert((a + b).drop_first() =~= a.drop_first() + b);
        assert(esc(a + b) =~= esc(a) + esc(b));
    }
}

/// Appends the literal characters of `s` (no escaping) to `out`.
fn push_str(out: &mut Vec<char>, s: &str)
    ensures
        final(out)@ == old(out)@ + s@,
{
    let cs = to_chars(s);
    let mut i: usize = 0;
    while i < cs.len()
        invariant
            i <= cs.len(),
            cs@ == s@,
            out@ == old(out)@ + s@.take(i as int),
        decreases cs.len() - i,
    {
        out.push(cs[i]);
        i = i + 1;
        proof {
            assert(out@ =~= old(out)@ + s@.take(i as int));
        }
    }
    proof {
        assert(out@ =~= old(out)@ + s@);
    }
}

/// Appends the escape of one character to `out`.
fn push_esc_char(out: &mut Vec<char>, c: char)
    ensures
        final(out)@ == old(out)@ + esc_char(c),
{
    if c == '"' {
        out.push('\\');
        out.push('"');
    } else if c == '\\' {
        out.push('\\');
        out.push('\\');
    } else {
        let u = c as u32;
        if u < 32 {
            out.push('\\');
            out.push('u');
            out.push('0');
            out.push('0');
            let hi: u8 = (u / 16) as u8;
            let lo: u8 = (u % 16) as u8;
            let hc: char = if hi < 10 {
                (48 + hi) as char
            } else {
                (87 + hi) as char
            };
            let lc: char = if lo < 10 {
                (48 + lo) as char
            } else {
                (87 + lo) as char
            };
            proof {
                assert(hc == hex_char((c as u32) as int / 16));
                assert(lc == hex_char((c as u32) as int % 16));
            }
            out.push(hc);
            out.push(lc);
        } else {
            out.push(c);
        }
    }
    proof {
        assert(out@ =~= old(out)@ + esc_char(c));
    }
}

/// Appends a complete JSON string for `s` to `out`.
fn push_quoted(out: &mut Vec<char>, s: &String)
    ensures
        final(out)@ == old(out)@ + quoted(s@),
{
    out.push('"');
    let cs = to_chars(s.as_str());
    let mut i: usize = 0;
    while i < cs.len()
        invariant
            i <= cs.len(),
            cs@ == s@,
            out@ == old(out)@ + seq!['"'] + esc(s@.take(i as int)),
        decreases cs.len() - i,
    {
        let c = cs[i];
        push_esc_char(out, c);
        i = i + 1;
        proof {
            lemma_esc_concat(s@.take(i - 1), seq![c]);
            assert(s@.take(i as int) =~= s@.take(i - 1) + seq![c]);
            assert(seq![c].drop_first() =~= Seq::<char>::empty());
            assert(esc(seq![c]) == esc_char(c) + esc(Seq::<char>::empty()));
            assert(esc(seq![c]) =~= esc_char(c));
            assert(out@ =~= old(out)@ + seq!['"'] + esc(s@.take(i as int)));
        }
    }
    out.push('"');
    proof {
        assert(s@.take(s@.len() as int) =~= s@);
        assert(out@ =~= old(out)@ + quoted(s@));
    }
}

/// Appends an optional string field value to `out`.
fn push_opt_string(out: &mut Vec<char>, v: &Option<String>)
    ensures
        final(out)@ == old(out)@ + json_opt_string(
            match v {
                Some(s) => Some(s@),
                None => None,
            },
        ),
{
    match v {
        None => {
            push_str(out, "null");
        },
        Some(s) => {
            push_quoted(out, s);
        },
    }
}

/// Appends one drive object to `out`.
fn push_drive(out: &mut Vec<char>, d: &Drive)
    ensures
        final(out)@ == old(out)@ + json_drive(d@),
{
    push_str(out, "{\"model\":");
    push_quoted(out, &d.model);
    push_str(out, ",\"serial_number\":");
    push_opt_string(out, &d.serial_number);
    push_str(out, ",\"device_id\":");
    push_quoted(out, &d.device_id);
    push_str(out, "}");
    proof {
        assert(out@ =~= old(out)@ + json_drive(d@));
    }
}

/// `json_drives_rest` distributes over appending one more drive.
proof fn lemma_drives_rest_push(ds: Seq<DriveModel>, d: DriveModel)
    ensures
        json_drives_rest(ds.push(d)) == json_drives_rest(ds) + ","@ + json_drive(d),
    decreases ds.len(),
{
    if ds.len() == 0 {
        assert(ds.push(d)[0] == d);
        assert(ds.push(d).drop_first() =~= Seq::<DriveModel>::empty());
        assert(json_drives_rest(ds.push(d)) == ","@ + json_drive(d) + json_drives_rest(
            Seq::<DriveModel>::empty(),
        ));
        assert(json_drives_rest(ds.push(d)) =~= json_drives_rest(ds) + ","@ + json_drive(d));
    } else {
        lemma_drives_rest_push(ds.drop_first(), d);
        assert(ds.push(d).drop_first() =~= ds.drop_first().push(d));
        assert(ds.push(d)[0] == ds[0]);
        assert(json_drives_rest(ds.push(d)) == ","@ + json_drive(ds[0]) + json_drives_rest(
            ds.drop_first().push(d),
        ));
        assert(json_drives_rest(ds.push(d)) =~= json_drives_rest(ds) + ","@ + json_drive(d));
    }
}

/// Appends the drive array to `out`.
fn push_drives(out: &mut Vec<char>, ds: &Vec<Drive>)
    ensures
        final(out)@ == old(out)@ + json_drives(Seq::new(ds@.len(), |i: int| ds@[i]@)),
{
    let ghost dsm: Seq<DriveModel> = Seq::new(ds@.len(), |i: int| ds@[i]@);
    out.push('[');
    let mut i: usize = 0;
    while i < ds.len()
        invariant
            i <= ds.len(),
            dsm == Seq::new(ds@.len(), |j: int| ds@[j]@),
            i == 0 ==> out@ == old(out)@ + seq!['['],
            i > 0 ==> out@ == old(out)@ + seq!['['] + json_drive(dsm[0]) + json_drives_rest(
                dsm.take(i as int).drop_first(),
            ),
        decreases ds.len() - i,
    {
        if i > 0 {
            out.push(',');
        }
        push_drive(out, &ds[i]);
        i = i + 1;
        proof {
            if i == 1 {
                assert(dsm.take(1int).drop_first() =~= Seq::<DriveModel>::empty());
                assert(out@ =~= old(out)@ + seq!['['] + json_drive(dsm[0]) + json_drives_rest(
                    dsm.take(1int).drop_first(),
                ));
            } else {
                let prev = dsm.take(i - 1).drop_first();
                lemma_drives_rest_push(prev, dsm[i - 1]);
                reveal_strlit(",");
                assert(","@ =~= seq![',']);
                assert(dsm.take(i as int).drop_first() =~= prev.push(dsm[i - 1]));
                assert(out@ =~= old(out)@ + seq!['['] + json_drive(dsm[0]) + json_drives_rest(
                    dsm.take(i as int).drop_first(),
                ));
            }
        }
    }
    out.push(']');
    proof {
        reveal_strlit("[");
        reveal_strlit("]");
        reveal_strlit("[]");
        assert("["@ =~= seq!['[']);
        assert("]"@ =~= seq![']']);
        assert("[]"@ =~= seq!['[', ']']);
        if dsm.len() == 0 {
            assert(out@ =~= old(out)@ + json_drives(dsm));
        } else {
            assert(dsm.take(dsm.len() as int) =~= dsm);
            assert(out@ =~= old(out)@ + json_drives(dsm));
        }
    }
}

/// Succeeds when `s` starts with `lit`, returning the remainder.
pub open spec fn p_lit(s: Seq<char>, lit: Seq<char>) -> Option<Seq<char>> {
    if lit.len() <= s.len() && s.take(lit.len() as int) == lit {
        Some(s.skip(lit.len() as int))
    } else {
        None
    }
}

/// A lower-case hexadecimal digit character.
pub open spec fn is_hex(c: char) -> bool {
    (48 <= c as u32 && c as u32 <= 57) || (97 <= c as u32 && c as u32 <= 102)
}

/// The value of a lower-case hexadecimal digit character.
pub open spec fn hex_val(c: char) -> int {
    if 48 <= c as u32 && c as u32 <= 57 {
        c as u32 - 48
    } else {
        c as u32 - 87
    }
}

/// Reads a JSON string body up to and over its closing quote, undoing
/// the escapes that [`esc_char`] writes.
pub open spec fn p_str_body(s: Seq<char>) -> Option<(Seq<char>, Seq<char>)>
    decreases s.len(),
{
    if s.len() == 0 {
        None
    } else if s[0] == '"' {
        Some((Seq::empty(), s.drop_first()))
    } else if s[0] == '\\' {
        if s.len() >= 2 && (s[1] == '"' || s[1] == '\\') {
            match p_str_body(s.skip(2)) {
                Some((t, r)) => Some((seq![s[1]] + t, r)),
                None => None,
            }
        } else if s.len() >= 6 && s[1] == 'u' && s[2] == '0' && s[3] == '0' && is_hex(s[4])
            && is_hex(s[5]) {
            match p_str_body(s.skip(6)) {
                Some((t, r)) => Some(
                    (seq![((16 * hex_val(s[4]) + hex_val(s[5])) as u32) as char] + t, r),
                ),
                None => None,
            }
        } else {
            None
        }
    } else {
        match p_str_body(s.drop_first()) {
            Some((t, r)) => Some((seq![s[0]] + t, r)),
            None => None,
        }
    }
}

/// Reads a complete JSON string, opening quote included.
pub open spec fn p_quoted(s: Seq<char>) -> Option<(Seq<char>, Seq<char>)> {
    if s.len() >= 1 && s[0] == '"' {
        p_str_body(s.drop_first())
    } else {
        None
    }
}

/// Reads an optional string field value: `null` or a JSON string.
pub open spec fn p_opt_string(s: Seq<char>) -> Option<(Option<Seq<char>>, Seq<char>)> {
    match p_lit(s, "null"@) {
        Some(r) => Some((None, r)),
        None => match p_quoted(s) {
            Some((t, r)) => Some((Some(t), r)),
            None => None,
        },
    }
}

/// Reads one drive object.
pub open spec fn p_drive(s: Seq<char>) -> Option<(DriveModel, Seq<char>)> {
    match p_lit(s, "{\"model\":"@) {
        None => None,
        Some(r1) => match p_quoted(r1) {
            None => None,
            Some((model, r2)) => match p_lit(r2, ",\"serial_number\":"@) {
                None => None,
                Some(r3) => match p_opt_string(r3) {
                    None => None,
                    Some((serial_number, r4)) => match p_lit(r4, ",\"device_id\":"@) {
                        None => None,
                        Some(r5) => match p_quoted(r5) {
                            None => None,
                            Some((device_id, r6)) => match p_lit(r6, "}"@) {
                                None => None,
                                Some(r7) => Some(
                                    (DriveModel { model, serial_number, device_id }, r7),
                                ),
                            },
                        },
                    },
                },
            },
        },
    }
}

/// Reads the drives after the first one, up to and over the closing
/// bracket.
pub open spec fn p_drives_rest(s: Seq<char>) -> Option<(Seq<DriveModel>, Seq<char>)>
    decreases s.len(),
{
    if s.len() == 0 {
        None
    } else if s[0] == ']' {
        Some((Seq::empty(), s.drop_first()))
    } else if s[0] == ',' {
        match p_drive(s.drop_first()) {
            Some((d, r)) => if r.len() < s.len() {
                match p_drives_rest(r) {
                    Some((ds, r2)) => Some((seq![d] + ds, r2)),
                    None => None,
                }
            } else {
                None
            },
            None => None,
        }
    } else {
        None
    }
}

/// Reads a complete drive array.
pub open spec fn p_drives(s: Seq<char>) -> Option<(Seq<DriveModel>, Seq<char>)> {
    if s.len() >= 1 && s[0] == '[' {
        let r = s.drop_first();
        if r.len() >= 1 && r[0] == ']' {
            Some((Seq::empty(), r.drop_first()))
        } else {
            match p_drive(r) {
                Some((d, r2)) => match p_drives_rest(r2) {
                    Some((ds, r3)) => Some((seq![d] + ds, r3)),
                    None => None,
                },
                None => None,
            }
        }
    } else {
        None
    }
}

/// Reads the trailing fields of a check-in object — laptop serial,
/// drives and timestamp — and the closing brace; nothing may follow.
pub open spec fn p_check_in_tail(s: Seq<char>) -> Option<(Seq<char>, Seq<DriveModel>, Seq<char>)> {
    match p_lit(s, ",\"laptop_serial\":"@) {
        None => None,
        Some(r7) => match p_quoted(r7) {
            None => None,
            Some((laptop_serial, r8)) => match p_lit(r8, ",\"drives\":"@) {
                None => None,
                Some(r9) => match p_drives(r9) {
                    None => None,
                    Some((drives, r10)) => match p_lit(r10, ",\"timestamp_utc\":"@) {
                        None => None,
                        Some(r11) => match p_quoted(r11) {
                            None => None,
                            Some((timestamp_utc, r12)) => match p_lit(r12, "}"@) {
                                None => None,
                                Some(r13) => if r13.len() == 0 {
                                    Some((laptop_serial, drives, timestamp_utc))
                                } else {
                                    None
                                },
                            },
                        },
                    },
                },
            },
        },
    }
}

/// Reads a whole check-in object; the input must hold nothing else.
pub open spec fn p_check_in(s: Seq<char>) -> Option<CheckInModel> {
    match p_lit(s, "{\"hostname\":"@) {
        None => None,
        Some(r1) => match p_quoted(r1) {
            None => None,
            Some((hostname, r2)) => match p_lit(r2, ",\"ip_address\":"@) {
                None => None,
                Some(r3) => match p_quoted(r3) {
                    None => None,
                    Some((ip_address, r4)) => match p_lit(r4, ",\"logged_in_user\":"@) {
                        None => None,
                        Some(r5) => match p_opt_string(r5) {
                            None => None,
                            Some((logged_in_user, r6)) => match p_check_in_tail(r6) {
                                None => None,
                                Some((laptop_serial, drives, timestamp_utc)) => Some(
                                    CheckInModel {
                                        hostname,
                                        ip_address,
                                        logged_in_user,
                                        laptop_serial,
                                        drives,
                                        timestamp_utc,
                                    },
                                ),
                            },
                        },
                    },
                },
            },
        },
    }
}

/// Reading a literal off the front of a sequence that starts with it
/// leaves exactly the rest.
proof fn lemma_p_lit(lit: Seq<char>, rest: Seq<char>)
    ensures
        p_lit(lit + rest, lit) == Some(rest),
{
    assert((lit + rest).take(lit.len() as int) =~= lit);
    assert((lit + rest).skip(lit.len() as int) =~= rest);
}

/// The string-body reader undoes the escape writer.
#[verifier::spinoff_prover]
#[verifier::rlimit(100)]
proof fn lemma_str_body_round(t: Seq<char>, rest: Seq<char>)
    ensures
        p_str_body(esc(t) + seq!['"'] + rest) == Some((t, rest)),
    decreases t.len(),
{
    let s = esc(t) + seq!['"'] + rest;
    if t.len() == 0 {
        assert(esc(t) =~= Seq::<char>::empty());
        assert(s =~= seq!['"'] + rest);
        assert(s[0] == '"');
        assert(s.drop_first() =~= rest);
        assert(t =~= Seq::<char>::empty());
    } else {
        let c = t[0];
        let t1 = t.drop_first();
        lemma_str_body_round(t1, rest);
        let s1 = esc(t1) + seq!['"'] + rest;
        assert(esc(t) == esc_char(c) + esc(t1));
        assert(s =~= esc_char(c) + s1);
        if c == '"' || c == '\\' {
            assert(s.len() >= 2 && s[0] == '\\' && s[1] == c);
            assert(s.skip(2) =~= s1);
            assert(seq![s[1]] + t1 =~= t);
        } else if (c as u32) < 32 {
            let u = (c as u32) as int;
            vstd::arithmetic::div_mod::lemma_fundamental_div_mod(u, 16);
            assert(0 <= u / 16 < 10);
            assert(0 <= u % 16 < 16);
            assert(s.len() >= 6);
            assert(s[0] == '\\' && s[1] == 'u' && s[2] == '0' && s[3] == '0');
            assert(s[4] == hex_char(u / 16) && s[5] == hex_char(u % 16));
            assert(is_hex(s[4]));
            assert(is_hex(s[5]));
            assert(hex_val(s[4]) == u / 16);
            assert(hex_val(s[5]) == u % 16);
            assert(16 * (u / 16) + (u % 16) == u);
            let c2 = ((16 * hex_val(s[4]) + hex_val(s[5])) as u32) as char;
            assert(c2 as u32 == c as u32);
            vstd::utf8::char_u32_cast(c, c as u32);
            vstd::utf8::char_u32_cast(c2, c2 as u32);
            assert(c2 == c);
            assert(s.skip(6) =~= s1);
            assert(seq![c2] + t1 =~= t);
        } else {
            assert(s[0] == c && c != '"' && c != '\\');
            assert(s.drop_first() =~= s1);
            assert(seq![s[0]] + t1 =~= t);
        }
    }
}

/// The string reader undoes the string writer.
proof fn lemma_quoted_round(t: Seq<char>, rest: Seq<char>)
    ensures
        p_quoted(quoted(t) + rest) == Some((t, rest)),
{
    let s = quoted(t) + rest;
    assert(s[0] == '"');
    assert(s.drop_first() =~= esc(t) + seq!['"'] + rest);
    lemma_str_body_round(t, rest);
}

/// The optional-string reader undoes the optional-string writer.
proof fn lemma_opt_string_round(v: Option<Seq<char>>, rest: Seq<char>)
    ensures
        p_opt_string(json_opt_string(v) + rest) == Some((v, rest)),
{
    reveal_strlit("null");
    match v {
        None => {
            lemma_p_lit("null"@, rest);
        },
        Some(t) => {
            let s = quoted(t) + rest;
            assert(s[0] == '"');
            assert(p_lit(s, "null"@) is None) by {
                if p_lit(s, "null"@) is Some {
                    assert(s.take(4) == "null"@);
                    assert(s.take(4)[0] == 'n');
                }
            }
            lemma_quoted_round(t, rest);
        },
    }
}

/// The drive reader undoes the drive writer.
#[verifier::spinoff_prover]
#[verifier::rlimit(100)]
proof fn lemma_drive_round(d: DriveModel, rest: Seq<char>)
    ensures
        p_drive(json_drive(d) + rest) == Some((d, rest)),
{
    let s = json_drive(d) + rest;
    let r2 = ",\"serial_number\":"@ + json_opt_string(d.serial_number) + ",\"device_id\":"@
        + quoted(d.device_id) + "}"@ + rest;
    let r4 = ",\"device_id\":"@ + quoted(d.device_id) + "}"@ + rest;
    let r6 = "}"@ + rest;
    assert(s =~= "{\"model\":"@ + (quoted(d.model) + r2));
    lemma_p_lit("{\"model\":"@, quoted(d.model) + r2);
    lemma_quoted_round(d.model, r2);
    assert(r2 =~= ",\"serial_number\":"@ + (json_opt_string(d.serial_number) + r4));
    lemma_p_lit(",\"serial_number\":"@, json_opt_string(d.serial_number) + r4);
    lemma_opt_string_round(d.serial_number, r4);
    assert(r4 =~= ",\"device_id\":"@ + (quoted(d.device_id) + r6));
    lemma_p_lit(",\"device_id\":"@, quoted(d.device_id) + r6);
    lemma_quoted_round(d.device_id, r6);
    assert(r6 =~= "}"@ + rest);
    lemma_p_lit("}"@, rest);
}

/// The drive-list tail reader undoes the drive-list tail writer.
#[verifier::spinoff_prover]
#[verifier::rlimit(100)]
proof fn lemma_drives_rest_round(ds: Seq<DriveModel>, rest: Seq<char>)
    ensures
        p_drives_rest(json_drives_rest(ds) + seq![']'] + rest) == Some((ds, rest)),
    decreases ds.len(),
{
    reveal_strlit(",");
    let s = json_drives_rest(ds) + seq![']'] + rest;
    if ds.len() == 0 {
        assert(json_drives_rest(ds) =~= Seq::<char>::empty());
        assert(s =~= seq![']'] + rest);
        assert(s[0] == ']');
        assert(s.drop_first() =~= rest);
        assert(ds =~= Seq::<DriveModel>::empty());
    } else {
        let d = ds[0];
        let ds1 = ds.drop_first();
        let tail = json_drives_rest(ds1) + seq![']'] + rest;
        assert(s =~= ","@ + json_drive(d) + tail);
        assert(s[0] == ',');
        assert(s[0] != ']');
        assert(s.drop_first() =~= json_drive(d) + tail);
        lemma_drive_round(d, tail);
        assert(s.len() == 1 + json_drive(d).len() + tail.len());
        assert(tail.len() < s.len());
        lemma_drives_rest_round(ds1, rest);
        assert(seq![d] + ds1 =~= ds);
    }
}

/// A drive object starts with an opening brace.
proof fn lemma_json_drive_first(d: DriveModel)
    ensures
        json_drive(d).len() > 0,
        json_drive(d)[0] == '{',
{
    reveal_strlit("{\"model\":");
}

/// The drive-array reader undoes the drive-array writer, when the
/// array is not empty.
#[verifier::spinoff_prover]
#[verifier::rlimit(100)]
proof fn lemma_drives_round_some(ds: Seq<DriveModel>, rest: Seq<char>)
    requires
        ds.len() > 0,
    ensures
        p_drives(json_drives(ds) + rest) == Some((ds, rest)),
{
    let s = json_drives(ds) + rest;
    let d = ds[0];
    let ds1 = ds.drop_first();
    let tail = json_drives_rest(ds1) + seq![']'] + rest;
    assert(s =~= seq!['['] + (json_drive(d) + tail)) by {
        reveal_strlit("[");
        reveal_strlit("]");
        assert("["@ =~= seq!['[']);
        assert("]"@ =~= seq![']']);
    }
    assert(s[0] == '[');
    let r = s.drop_first();
    assert(r =~= json_drive(d) + tail);
    lemma_json_drive_first(d);
    assert(r[0] == '{');
    assert(r[0] != ']');
    lemma_drive_round(d, tail);
    lemma_drives_rest_round(ds1, rest);
    assert(seq![d] + ds1 =~= ds);
}

/// The drive-array reader undoes the drive-array writer.
proof fn lemma_drives_round(ds: Seq<DriveModel>, rest: Seq<char>)
    ensures
        p_drives(json_drives(ds) + rest) == Some((ds, rest)),
{
    if ds.len() == 0 {
        reveal_strlit("[]");
        let s = json_drives(ds) + rest;
        assert(s =~= seq!['[', ']'] + rest);
        assert(s[0] == '[');
        let r = s.drop_first();
        assert(r =~= seq![']'] + rest);
        assert(r[0] == ']');
        assert(r.drop_first() =~= rest);
        assert(ds =~= Seq::<DriveModel>::empty());
    } else {
        lemma_drives_round_some(ds, rest);
    }
}

/// The tail reader undoes the tail of the check-in writer.
#[verifier::spinoff_prover]
#[verifier::rlimit(100)]
proof fn lemma_check_in_tail_round(
    laptop_serial: Seq<char>,
    drives: Seq<DriveModel>,
    timestamp_utc: Seq<char>,
)
    ensures
        p_check_in_tail(
            ",\"laptop_serial\":"@ + quoted(laptop_serial) + ",\"drives\":"@ + json_drives(drives)
                + ",\"timestamp_utc\":"@ + quoted(timestamp_utc) + "}"@,
        ) == Some((laptop_serial, drives, timestamp_utc)),
{
    let s = ",\"laptop_serial\":"@ + quoted(laptop_serial) + ",\"drives\":"@ + json_drives(drives)
        + ",\"timestamp_utc\":"@ + quoted(timestamp_utc) + "}"@;
    let r8 = ",\"drives\":"@ + json_drives(drives) + ",\"timestamp_utc\":"@ + quoted(timestamp_utc)
        + "}"@;
    let r10 = ",\"timestamp_utc\":"@ + quoted(timestamp_utc) + "}"@;
    let r12 = "}"@;
    assert(s =~= ",\"laptop_serial\":"@ + (quoted(laptop_serial) + r8));
    lemma_p_lit(",\"laptop_serial\":"@, quoted(laptop_serial) + r8);
    lemma_quoted_round(laptop_serial, r8);
    assert(r8 =~= ",\"drives\":"@ + (json_drives(drives) + r10));
    lemma_p_lit(",\"drives\":"@, json_drives(drives) + r10);
    lemma_drives_round(drives, r10);
    assert(r10 =~= ",\"timestamp_utc\":"@ + (quoted(timestamp_utc) + r12));
    lemma_p_lit(",\"timestamp_utc\":"@, quoted(timestamp_utc) + r12);
    lemma_quoted_round(timestamp_utc, r12);
    assert(r12 =~= "}"@ + Seq::<char>::empty());
    lemma_p_lit("}"@, Seq::<char>::empty());
}

#[verifier::spinoff_prover]
#[verifier::rlimit(100)]
pub proof fn lemma_check_in_round_trip(m: CheckInModel)
    ensures
        p_check_in(json_check_in(m)) == Some(m),
{
    let s = json_check_in(m);
    let r6 = ",\"laptop_serial\":"@ + quoted(m.laptop_serial) + ",\"drives\":"@ + json_drives(
        m.drives,
    ) + ",\"timestamp_utc\":"@ + quoted(m.timestamp_utc) + "}"@;
    let r2 = ",\"ip_address\":"@ + quoted(m.ip_address) + ",\"logged_in_user\":"@
        + json_opt_string(m.logged_in_user) + r6;
    let r4 = ",\"logged_in_user\":"@ + json_opt_string(m.logged_in_user) + r6;
    assert(s =~= "{\"hostname\":"@ + (quoted(m.hostname) + r2));
    lemma_p_lit("{\"hostname\":"@, quoted(m.hostname) + r2);
    lemma_quoted_round(m.hostname, r2);
    assert(r2 =~= ",\"ip_address\":"@ + (quoted(m.ip_address) + r4));
    lemma_p_lit(",\"ip_address\":"@, quoted(m.ip_address) + r4);
    lemma_quoted_round(m.ip_address, r4);
    assert(r4 =~= ",\"logged_in_user\":"@ + (json_opt_string(m.logged_in_user) + r6));
    lemma_p_lit(",\"logged_in_user\":"@, json_opt_string(m.logged_in_user) + r6);
    lemma_opt_string_round(m.logged_in_user, r6);
    lemma_check_in_tail_round(m.laptop_serial, m.drives, m.timestamp_utc);
}

/// Serializes a check-in to its canonical JSON wire form.
pub fn encode_check_in(c: &CheckIn) -> (r: String)
    ensures
        r@ == json_check_in(c@),
{
    let mut out: Vec<char> = Vec::new();
    push_str(&mut out, "{\"hostname\":");
    push_quoted(&mut out, &c.hostname);
    push_str(&mut out, ",\"ip_address\":");
    push_quoted(&mut out, &c.ip_address);
    push_str(&mut out, ",\"logged_in_user\":");
    push_opt_string(&mut out, &c.logged_in_user);
    push_str(&mut out, ",\"laptop_serial\":");
    push_quoted(&mut out, &c.laptop_serial);
    push_str(&mut out, ",\"drives\":");
    push_drives(&mut out, &c.drives);
    push_str(&mut out, ",\"timestamp_utc\":");
    push_quoted(&mut out, &c.timestamp_utc);
    push_str(&mut out, "}");
    proof {
        assert(out@ =~= json_check_in(c@));
    }
    from_chars(&out)
}

/// Whether a character is a lower-case hex digit, and its value.
fn hex_info(c: char) -> (r: (bool, u8))
    ensures
        r.0 == is_hex(c),
        r.0 ==> r.1 as int == hex_val(c) && r.1 < 16,
{
    let u = c as u32;
    if 48 <= u && u <= 57 {
        (true, (u - 48) as u8)
    } else if 97 <= u && u <= 102 {
        (true, (u - 87) as u8)
    } else {
        (false, 0)
    }
}

/// Matches the characters of `lit` at position `i` of `v`.
fn e_lit(v: &Vec<char>, i: usize, lit: &str) -> (r: Option<usize>)
    requires
        i <= v.len(),
    ensures
        match r {
            Some(j) => {
                &&& i <= j <= v.len()
                &&& j - i == lit@.len()
                &&& p_lit(v@.skip(i as int), lit@) == Some(v@.skip(j as int))
            },
            None => p_lit(v@.skip(i as int), lit@) is None,
        },
{
    let lc = to_chars(lit);
    if v.len() - i < lc.len() {
        return None;
    }
    let mut k: usize = 0;
    while k < lc.len()
        invariant
            i <= v.len(),
            k <= lc.len(),
            lc@ == lit@,
            lc.len() <= v.len() - i,
            forall|t: int| 0 <= t < k ==> v@[i + t] == lit@[t],
        decreases lc.len() - k,
    {
        if v[i + k] != lc[k] {
            proof {
                let s = v@.skip(i as int);
                assert(s.take(lit@.len() as int)[k as int] == v@[i + k]);
                assert(s.take(lit@.len() as int) != lit@);
            }
            return None;
        }
        k = k + 1;
    }
    proof {
        let s = v@.skip(i as int);
        assert(s.take(lit@.len() as int) =~= lit@);
        assert(s.skip(lit@.len() as int) =~= v@.skip(i + lit@.len()));
    }
    Some(i + lc.len())
}

/// Reads a JSON string body starting at `i`, undoing the escapes.
#[verifier::rlimit(50)]
fn e_str_body(v: &Vec<char>, i: usize) -> (r: Option<(Vec<char>, usize)>)
    requires
        i <= v.len(),
    ensures
        match r {
            Some((t, j)) => {
                &&& i < j <= v.len()
                &&& p_str_body(v@.skip(i as int)) == Some((t@, v@.skip(j as int)))
            },
            None => p_str_body(v@.skip(i as int)) is None,
        },
{
    let mut t: Vec<char> = Vec::new();
    let mut j: usize = i;
    loop
        invariant
            i <= j <= v.len(),
            (match p_str_body(v@.skip(j as int)) {
                Some(p) => p_str_body(v@.skip(i as int)) == Some((t@ + p.0, p.1)),
                None => p_str_body(v@.skip(i as int)) is None,
            }),
        decreases v.len() - j,
    {
        if j >= v.len() {
            return None;
        }
        let c = v[j];
        proof {
            assert(v@.skip(j as int)[0] == v@[j as int]);
        }
        if c == '"' {
            proof {
                assert(v@.skip(j as int).drop_first() =~= v@.skip(j + 1));
                assert(t@ + Seq::<char>::empty() =~= t@);
            }
            return Some((t, j + 1));
        } else if c == '\\' {
            if v.len() - j >= 2 && (v[j + 1] == '"' || v[j + 1] == '\\') {
                let e = v[j + 1];
                let ghost told = t@;
                let ghost sj = v@.skip(j as int);
                proof {
                    assert(sj[1] == v@[j + 1]);
                    assert(sj.skip(2) =~= v@.skip(j + 2));
                }
                t.push(e);
                j = j + 2;
                proof {
                    match p_str_body(v@.skip(j as int)) {
                        Some(p) => {
                            assert(told + (seq![e] + p.0) =~= t@ + p.0);
                        },
                        None => {},
                    }
                }
            } else if v.len() - j >= 6 {
                let e1 = v[j + 1];
                let ghost sj = v@.skip(j as int);
                proof {
                    assert(sj[1] == v@[j + 1]);
                    assert(sj[2] == v@[j + 2]);
                    assert(sj[3] == v@[j + 3]);
                    assert(sj[4] == v@[j + 4]);
                    assert(sj[5] == v@[j + 5]);
                }
                if e1 == 'u' && v[j + 2] == '0' && v[j + 3] == '0' {
                    let (ok4, h1) = hex_info(v[j + 4]);
                    let (ok5, h2) = hex_info(v[j + 5]);
                    if ok4 && ok5 {
                        let code: u8 = 16 * h1 + h2;
                        let c2: char = code as char;
                        let ghost told = t@;
                        proof {
                            let spec_c = ((16 * hex_val(sj[4]) + hex_val(sj[5])) as u32) as char;
                            assert(c2 as u32 == spec_c as u32);
                            vstd::utf8::char_u32_cast(c2, c2 as u32);
                            vstd::utf8::char_u32_cast(spec_c, spec_c as u32);
                            assert(c2 == spec_c);
                            assert(sj.skip(6) =~= v@.skip(j + 6));
                        }
                        t.push(c2);
                        j = j + 6;
                        proof {
                            match p_str_body(v@.skip(j as int)) {
                                Some(p) => {
                                    assert(told + (seq![((16 * hex_val(sj[4]) + hex_val(sj[5]))
                                        as u32) as char] + p.0) =~= t@ + p.0);
                                },
                                None => {},
                            }
                        }
                    } else {
                        return None;
                    }
                } else {
                    return None;
                }
            } else {
                proof {
                    if v@.skip(j as int).len() >= 2 {
                        assert(v@.skip(j as int)[1] == v@[j + 1]);
                    }
                }
                return None;
            }
        } else {
            let ghost told = t@;
            proof {
                assert(v@.skip(j as int).drop_first() =~= v@.skip(j + 1));
            }
            t.push(c);
            j = j + 1;
            proof {
                match p_str_body(v@.skip(j as int)) {
                    Some(p) => {
                        assert(told + (seq![c] + p.0) =~= t@ + p.0);
                    },
                    None => {},
                }
            }
        }
    }
}

/// Reads a complete JSON string, opening quote included.
fn e_quoted(v: &Vec<char>, i: usize) -> (r: Option<(Vec<char>, usize)>)
    requires
        i <= v.len(),
    ensures
        match r {
            Some((t, j)) => {
                &&& i < j <= v.len()
                &&& p_quoted(v@.skip(i as int)) == Some((t@, v@.skip(j as int)))
            },
            None => p_quoted(v@.skip(i as int)) is None,
        },
{
    if i < v.len() {
        let c = v[i];
        proof {
            assert(v@.skip(i as int)[0] == v@[i as int]);
        }
        if c == '"' {
            proof {
                assert(v@.skip(i as int).drop_first() =~= v@.skip(i + 1));
            }
            e_str_body(v, i + 1)
        } else {
            None
        }
    } else {
        None
    }
}

/// Reads an optional string field value: `null` or a JSON string.
fn e_opt_string(v: &Vec<char>, i: usize) -> (r: Option<(Option<Vec<char>>, usize)>)
    requires
        i <= v.len(),
    ensures
        match r {
            Some((t, j)) => {
                &&& i < j <= v.len()
                &&& p_opt_string(v@.skip(i as int)) == Some(
                    (
                        match t {
                            Some(tv) => Some(tv@),
                            None => None,
                        },
                        v@.skip(j as int),
                    ),
                )
            },
            None => p_opt_string(v@.skip(i as int)) is None,
        },
{
    match e_lit(v, i, "null") {
        Some(j) => {
            proof {
                reveal_strlit("null");
            }
            Some((None, j))
        },
        None => match e_quoted(v, i) {
            Some((t, j)) => Some((Some(t), j)),
            None => None,
        },
    }
}

/// Reads one drive object.
fn e_drive(v: &Vec<char>, i: usize) -> (r: Option<(Drive, usize)>)
    requires
        i <= v.len(),
    ensures
        match r {
            Some((d, j)) => {
                &&& i < j <= v.len()
                &&& p_drive(v@.skip(i as int)) == Some((d@, v@.skip(j as int)))
            },
            None => p_drive(v@.skip(i as int)) is None,
        },
{
    let j1 = match e_lit(v, i, "{\"model\":") {
        Some(j) => j,
        None => {
            return None;
        },
    };
    let (model, j2) = match e_quoted(v, j1) {
        Some(p) => p,
        None => {
            return None;
        },
    };
    let j3 = match e_lit(v, j2, ",\"serial_number\":") {
        Some(j) => j,
        None => {
            return None;
        },
    };
    let (serial, j4) = match e_opt_string(v, j3) {
        Some(p) => p,
        None => {
            return None;
        },
    };
    let j5 = match e_lit(v, j4, ",\"device_id\":") {
        Some(j) => j,
        None => {
            return None;
        },
    };
    let (device, j6) = match e_quoted(v, j5) {
        Some(p) => p,
        None => {
            return None;
        },
    };
    let j7 = match e_lit(v, j6, "}") {
        Some(j) => j,
        None => {
            return None;
        },
    };
    let d = Drive {
        model: from_chars(&model),
        serial_number: match serial {
            Some(sv) => Some(from_chars(&sv)),
            None => None,
        },
        device_id: from_chars(&device),
    };
    Some((d, j7))
}

/// Reads a complete drive array.
#[verifier::rlimit(50)]
fn e_drives(v: &Vec<char>, i: usize) -> (r: Option<(Vec<Drive>, usize)>)
    requires
        i <= v.len(),
    ensures
        match r {
            Some((ds, j)) => {
                &&& i < j <= v.len()
                &&& p_drives(v@.skip(i as int)) == Some(
                    (Seq::new(ds@.len(), |k: int| ds@[k]@), v@.skip(j as int)),
                )
            },
            None => p_drives(v@.skip(i as int)) is None,
        },
{
    if i >= v.len() || v[i] != '[' {
        proof {
            if i < v.len() {
                assert(v@.skip(i as int)[0] == v@[i as int]);
            }
        }
        return None;
    }
    proof {
        assert(v@.skip(i as int)[0] == v@[i as int]);
        assert(v@.skip(i as int).drop_first() =~= v@.skip(i + 1));
    }
    if i + 1 < v.len() && v[i + 1] == ']' {
        let ds: Vec<Drive> = Vec::new();
        proof {
            assert(v@.skip(i + 1)[0] == v@[i + 1]);
            assert(v@.skip(i + 1).drop_first() =~= v@.skip(i + 2));
            assert(Seq::new(ds@.len(), |k: int| ds@[k]@) =~= Seq::<DriveModel>::empty());
        }
        return Some((ds, i + 2));
    }
    proof {
        if i + 1 < v.len() {
            assert(v@.skip(i + 1)[0] == v@[i + 1]);
        }
    }
    let (d0, j0) = match e_drive(v, i + 1) {
        Some(p) => p,
        None => {
            return None;
        },
    };
    let mut ds: Vec<Drive> = Vec::new();
    ds.push(d0);
    let mut j: usize = j0;
    proof {
        assert(Seq::new(ds@.len(), |k: int| ds@[k]@) =~= seq![d0@]);
    }
    loop
        invariant
            i < j <= v.len(),
            ds.len() >= 1,
            (match p_drives_rest(v@.skip(j as int)) {
                Some(p) => p_drives(v@.skip(i as int)) == Some(
                    (Seq::new(ds@.len(), |k: int| ds@[k]@) + p.0, p.1),
                ),
                None => p_drives(v@.skip(i as int)) is None,
            }),
        decreases v.len() - j,
    {
        if j >= v.len() {
            return None;
        }
        let c = v[j];
        proof {
            assert(v@.skip(j as int)[0] == v@[j as int]);
        }
        if c == ']' {
            proof {
                assert(v@.skip(j as int).drop_first() =~= v@.skip(j + 1));
                assert(Seq::new(ds@.len(), |k: int| ds@[k]@) + Seq::<DriveModel>::empty()
                    =~= Seq::new(ds@.len(), |k: int| ds@[k]@));
            }
            return Some((ds, j + 1));
        } else if c == ',' {
            proof {
                assert(v@.skip(j as int).drop_first() =~= v@.skip(j + 1));
            }
            let ghost jold = j;
            let ghost dsold = ds@;
            let (d, j2) = match e_drive(v, j + 1) {
                Some(p) => p,
                None => {
                    return None;
                },
            };
            ds.push(d);
            j = j2;
            proof {
                assert(v@.skip(j as int).len() < v@.skip(jold as int).len());
                match p_drives_rest(v@.skip(j as int)) {
                    Some(p) => {
                        assert(Seq::new(dsold.len(), |k: int| dsold[k]@) + (seq![d@] + p.0)
                            =~= Seq::new(ds@.len(), |k: int| ds@[k]@) + p.0);
                    },
                    None => {},
                }
            }
        } else {
            return None;
        }
    }
}

/// Reads a check-in record back from its canonical JSON wire form.
#[verifier::rlimit(50)]
pub fn decode_check_in(s: &str) -> (r: Option<CheckIn>)
    ensures
        match r {
            Some(c) => p_check_in(s@) == Some(c@),
            None => p_check_in(s@) is None,
        },
{
    let v = to_chars(s);
    proof {
        assert(v@.skip(0) =~= s@);
    }
    let j1 = match e_lit(&v, 0, "{\"hostname\":") {
        Some(j) => j,
        None => {
            return None;
        },
    };
    let (hostname, j2) = match e_quoted(&v, j1) {
        Some(p) => p,
        None => {
            return None;
        },
    };
    let j3 = match e_lit(&v, j2, ",\"ip_address\":") {
        Some(j) => j,
        None => {
            return None;
        },
    };
    let (ip_address, j4) = match e_quoted(&v, j3) {
        Some(p) => p,
        None => {
            return None;
        },
    };
    let j5 = match e_lit(&v, j4, ",\"logged_in_user\":") {
        Some(j) => j,
        None => {
            return None;
        },
    };
    let (user, j6) = match e_opt_string(&v, j5) {
        Some(p) => p,
        None => {
            return None;
        },
    };
    let j7 = match e_lit(&v, j6, ",\"laptop_serial\":") {
        Some(j) => j,
        None => {
            return None;
        },
    };
    let (laptop_serial, j8) = match e_quoted(&v, j7) {
        Some(p) => p,
        None => {
            return None;
        },
    };
    let j9 = match e_lit(&v, j8, ",\"drives\":") {
        Some(j) => j,
        None => {
            return None;
        },
    };
    let (drives, j10) = match e_drives(&v, j9) {
        Some(p) => p,
        None => {
            return None;
        },
    };
    let j11 = match e_lit(&v, j10, ",\"timestamp_utc\":") {
        Some(j) => j,
        None => {
            return None;
        },
    };
    let (timestamp_utc, j12) = match e_quoted(&v, j11) {
        Some(p) => p,
        None => {
            return None;
        },
    };
    let j13 = match e_lit(&v, j12, "}") {
        Some(j) => j,
        None => {
            return None;
        },
    };
    if j13 != v.len() {
        proof {
            assert(v@.skip(j13 as int).len() > 0);
        }
        return None;
    }
    let c = CheckIn {
        hostname: from_chars(&hostname),
        ip_address: from_chars(&ip_address),
        logged_in_user: match user {
            Some(u) => Some(from_chars(&u)),
            None => None,
        },
        laptop_serial: from_chars(&laptop_serial),
        drives,
        timestamp_utc: from_chars(&timestamp_utc),
    };
    proof {
        assert(v@.skip(j13 as int).len() == 0);
    }
    Some(c)
}

} // verus!
