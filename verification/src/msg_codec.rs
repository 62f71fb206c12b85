//! Framing of control messages for the TCP channel: each outbound
//! message is one JSON object in a fixed canonical field order,
//! terminated by a single newline byte; inbound bytes are buffered and
//! split at newlines, one frame per line.
use vstd::prelude::*;
use vstd::string::StringSliceAdditionalSpecFns;
use vstd::slice::slice_to_vec;
use crate::message::{
    Coalition, Message, Modulation, MsgClient, MsgType, Radio, RadioInfo, RadioSwitchControls,
    SettingsEntry,
};
use crate::position::Position;
use crate::extractor::matches_exact;
use crate::util::push_bytes;

verus! {

/// The bytes of a literal chunk of the canonical JSON text.
pub open spec fn lit(s: &str) -> Seq<u8> {
    s.spec_bytes()
}

/// A string whose bytes can stand between JSON quotes verbatim: no
/// quote, no backslash, no control byte. The encoder does not escape;
/// these are the strings it can frame.
pub open spec fn json_plain(s: Seq<u8>) -> bool {
    forall|i: int| 0 <= i < s.len() ==> 32 <= #[trigger] s[i] && s[i] != 34 && s[i] != 92
}

/// A JSON string token: the bytes between two quotes.
pub open spec fn json_string(s: Seq<u8>) -> Seq<u8> {
    seq![34u8] + s + seq![34u8]
}

/// The bytes of `{"MsgType":` — how every control line opens.
pub open spec fn msgtype_head() -> Seq<u8> {
    seq![
        123u8, 34u8, 77u8, 115u8, 103u8, 84u8, 121u8, 112u8, 101u8, 34u8, 58u8,
    ]
}

/// The token bytes `"SYNC"`.
pub open spec fn tok_sync() -> Seq<u8> {
    seq![34u8, 83u8, 89u8, 78u8, 67u8, 34u8]
}

/// The token bytes `"UPDATE"`.
pub open spec fn tok_update() -> Seq<u8> {
    seq![34u8, 85u8, 80u8, 68u8, 65u8, 84u8, 69u8, 34u8]
}

/// The token bytes `"RADIO_UPDATE"`.
pub open spec fn tok_radio_update() -> Seq<u8> {
    seq![34u8, 82u8, 65u8, 68u8, 73u8, 79u8, 95u8, 85u8, 80u8, 68u8, 65u8, 84u8, 69u8, 34u8]
}

/// The token bytes `"SERVER_SETTINGS"`.
pub open spec fn tok_server_settings() -> Seq<u8> {
    seq![
        34u8, 83u8, 69u8, 82u8, 86u8, 69u8, 82u8, 95u8, 83u8, 69u8, 84u8, 84u8, 73u8, 78u8,
        71u8, 83u8, 34u8,
    ]
}

/// The token bytes `"VERSION_MISMATCH"`.
pub open spec fn tok_version_mismatch() -> Seq<u8> {
    seq![
        34u8, 86u8, 69u8, 82u8, 83u8, 73u8, 79u8, 78u8, 95u8, 77u8, 73u8, 83u8, 77u8, 65u8,
        84u8, 67u8, 72u8, 34u8,
    ]
}

/// The bytes of `,"ServerSettings":{` — how the settings map opens.
pub open spec fn settings_head() -> Seq<u8> {
    seq![
        44u8, 34u8, 83u8, 101u8, 114u8, 118u8, 101u8, 114u8, 83u8, 101u8, 116u8, 116u8, 105u8,
        110u8, 103u8, 115u8, 34u8, 58u8, 123u8,
    ]
}

/// The bytes of `,"Version":` — how the version field opens.
pub open spec fn version_head() -> Seq<u8> {
    seq![44u8, 34u8, 86u8, 101u8, 114u8, 115u8, 105u8, 111u8, 110u8, 34u8, 58u8]
}

/// Decimal digits of `n`, most significant first.
pub open spec fn dec_u64(n: u64) -> Seq<u8>
    decreases n,
{
    if n < 10 {
        seq![(48 + n) as u8]
    } else {
        dec_u64(n / 10) + seq![(48 + n % 10) as u8]
    }
}

/// Exactly six decimal digits of `n`, which is below one million.
pub open spec fn frac6(n: u64) -> Seq<u8> {
    seq![
        (48 + n / 100000 % 10) as u8,
        (48 + n / 10000 % 10) as u8,
        (48 + n / 1000 % 10) as u8,
        (48 + n / 100 % 10) as u8,
        (48 + n / 10 % 10) as u8,
        (48 + n % 10) as u8,
    ]
}

/// A fixed-point micro-unit value as a JSON number with six decimals.
pub open spec fn dec_micro(v: i64) -> Seq<u8> {
    let a: int = if v < 0 {
        -(v as int)
    } else {
        v as int
    };
    let sign: Seq<u8> = if v < 0 {
        seq![45u8]
    } else {
        Seq::empty()
    };
    sign + dec_u64((a / 1000000) as u64) + seq![46u8] + frac6((a % 1000000) as u64)
}

/// JSON text of a position object.
pub open spec fn json_position(p: Position) -> Seq<u8> {
    lit("{\"Lat\":") + dec_micro(p.lat_micro) + lit(",\"Lng\":") + dec_micro(p.lon_micro) + lit(
        ",\"Alt\":",
    ) + dec_micro(p.alt_micro) + lit("}")
}

/// JSON text of a modulation tag.
pub open spec fn json_modulation(m: Modulation) -> Seq<u8> {
    match m {
        Modulation::AM => lit("\"AM\""),
        Modulation::FM => lit("\"FM\""),
    }
}

/// JSON text of one radio slot.
pub open spec fn json_radio(r: Radio) -> Seq<u8> {
    lit("{\"Freq\":") + dec_u64(r.freq) + lit(",\"Modulation\":") + json_modulation(r.modulation)
        + lit("}")
}

/// JSON text of the elements of a radio array, comma-separated.
pub open spec fn json_radio_items(rs: Seq<Radio>) -> Seq<u8>
    decreases rs.len(),
{
    if rs.len() == 0 {
        Seq::empty()
    } else if rs.len() == 1 {
        json_radio(rs[0])
    } else {
        json_radio(rs[0]) + lit(",") + json_radio_items(rs.skip(1))
    }
}

/// JSON text of a boolean.
pub open spec fn json_bool(b: bool) -> Seq<u8> {
    if b {
        lit("true")
    } else {
        lit("false")
    }
}

/// First half of a radio-info block's JSON text: name, push-to-talk,
/// the radio slots, the control mode.
pub open spec fn json_radio_info_head(ri: RadioInfo) -> Seq<u8> {
    lit("{\"Name\":") + json_string(ri.name@) + lit(",\"Ptt\":") + json_bool(ri.ptt) + lit(
        ",\"Radios\":[",
    ) + json_radio_items(ri.radios@) + lit("],\"Control\":") + (match ri.control {
        RadioSwitchControls::Hotas => lit("\"Hotas\""),
        RadioSwitchControls::InCockpit => lit("\"InCockpit\""),
    })
}

/// Second half of a radio-info block's JSON text: selection, unit
/// binding, simultaneous transmission.
pub open spec fn json_radio_info_tail(ri: RadioInfo) -> Seq<u8> {
    lit(",\"Selected\":") + dec_u64(ri.selected as u64) + lit(",\"Unit\":") + json_string(
        ri.unit@,
    ) + lit(",\"UnitId\":") + dec_u64(ri.unit_id as u64) + lit(",\"SimultaneousTransmission\":")
        + json_bool(ri.simultaneous_transmission) + lit("}")
}

/// JSON text of a radio-info block.
pub open spec fn json_radio_info(ri: RadioInfo) -> Seq<u8> {
    json_radio_info_head(ri) + json_radio_info_tail(ri)
}

/// Identity half of a client snapshot's JSON text: guid, optional
/// name, coalition.
pub open spec fn json_msg_client_head(c: MsgClient) -> Seq<u8> {
    lit("{\"ClientGuid\":") + json_string(c.client_guid@) + (match c.name {
        Some(n) => lit(",\"Name\":") + json_string(n@),
        None => Seq::empty(),
    }) + lit(",\"Coalition\":") + (match c.coalition {
        Coalition::Blue => lit("\"Blue\""),
        Coalition::Red => lit("\"Red\""),
    })
}

/// Payload half of a client snapshot's JSON text: optional radio
/// info, optional position.
pub open spec fn json_msg_client_tail(c: MsgClient) -> Seq<u8> {
    (match c.radio_info {
        Some(ri) => lit(",\"RadioInfo\":") + json_radio_info(ri),
        None => Seq::empty(),
    }) + (match c.lat_lng_position {
        Some(p) => lit(",\"LatLngPosition\":") + json_position(p),
        None => Seq::empty(),
    }) + lit("}")
}

/// JSON text of the client snapshot inside a message.
pub open spec fn json_msg_client(c: MsgClient) -> Seq<u8> {
    json_msg_client_head(c) + json_msg_client_tail(c)
}

/// JSON text of a message-kind tag.
pub open spec fn json_msg_type(t: MsgType) -> Seq<u8> {
    match t {
        MsgType::Sync => tok_sync(),
        MsgType::Update => tok_update(),
        MsgType::RadioUpdate => tok_radio_update(),
        MsgType::ServerSettings => tok_server_settings(),
        MsgType::VersionMismatch => tok_version_mismatch(),
    }
}

/// JSON text of the members of a settings map, comma-separated.
pub open spec fn json_settings_items(es: Seq<SettingsEntry>) -> Seq<u8>
    decreases es.len(),
{
    if es.len() == 0 {
        Seq::empty()
    } else if es.len() == 1 {
        json_string(es[0].key@) + seq![58u8] + json_string(es[0].value@)
    } else {
        json_string(es[0].key@) + seq![58u8] + json_string(es[0].value@) + seq![44u8]
            + json_settings_items(es.skip(1))
    }
}

/// The canonical JSON line of a control message, newline included:
/// the optional client snapshot, the kind tag, the optional settings
/// map, and the version string, in that order.
pub open spec fn spec_encode_message(m: Message) -> Seq<u8> {
    seq![123u8] + (match m.client {
        Some(c) => lit("\"Client\":") + json_msg_client(c) + seq![44u8],
        None => Seq::empty(),
    }) + msgtype_head().skip(1) + json_msg_type(m.msg_type) + (match m.server_settings {
        Some(es) => settings_head() + json_settings_items(es@) + seq![125u8],
        None => Seq::empty(),
    }) + version_head() + json_string(m.version@) + seq![125u8, 10u8]
}

fn push_lit(v: &mut Vec<u8>, s: &str)
    ensures
        final(v)@ == old(v)@ + lit(s),
{
    push_bytes(v, s.as_bytes());
}

fn push_json_string(v: &mut Vec<u8>, s: &Vec<u8>)
    ensures
        final(v)@ == old(v)@ + json_string(s@),
{
    v.push(34);
    push_bytes(v, s.as_slice());
    v.push(34);
    proof {
        assert(v@ =~= old(v)@ + json_string(s@));
    }
}

fn push_dec_u64(v: &mut Vec<u8>, n: u64)
    ensures
        final(v)@ == old(v)@ + dec_u64(n),
    decreases n,
{
    if n < 10 {
        v.push(48 + n as u8);
        proof {
            assert(v@ =~= old(v)@ + dec_u64(n));
        }
    } else {
        push_dec_u64(v, n / 10);
        v.push(48 + (n % 10) as u8);
        proof {
            assert(v@ =~= old(v)@ + dec_u64(n));
        }
    }
}

fn push_frac6(v: &mut Vec<u8>, n: u64)
    requires
        n < 1000000,
    ensures
        final(v)@ == old(v)@ + frac6(n),
{
    v.push(48 + (n / 100000 % 10) as u8);
    v.push(48 + (n / 10000 % 10) as u8);
    v.push(48 + (n / 1000 % 10) as u8);
    v.push(48 + (n / 100 % 10) as u8);
    v.push(48 + (n / 10 % 10) as u8);
    v.push(48 + (n % 10) as u8);
    proof {
        assert(v@ =~= old(v)@ + frac6(n));
    }
}

fn push_dec_micro(v: &mut Vec<u8>, x: i64)
    ensures
        final(v)@ == old(v)@ + dec_micro(x),
{
    let a: u64 = if x == i64::MIN {
        9223372036854775808u64
    } else if x < 0 {
        (-x) as u64
    } else {
        x as u64
    };
    if x < 0 {
        v.push(45);
    }
    push_dec_u64(v, a / 1000000);
    v.push(46);
    push_frac6(v, a % 1000000);
    proof {
        assert(v@ =~= old(v)@ + dec_micro(x));
    }
}

fn push_json_position(v: &mut Vec<u8>, p: Position)
    ensures
        final(v)@ == old(v)@ + json_position(p),
{
    push_lit(v, "{\"Lat\":");
    push_dec_micro(v, p.lat_micro);
    push_lit(v, ",\"Lng\":");
    push_dec_micro(v, p.lon_micro);
    push_lit(v, ",\"Alt\":");
    push_dec_micro(v, p.alt_micro);
    push_lit(v, "}");
    proof {
        assert(v@ =~= old(v)@ + json_position(p));
    }
}

fn push_json_radio(v: &mut Vec<u8>, r: Radio)
    ensures
        final(v)@ == old(v)@ + json_radio(r),
{
    push_lit(v, "{\"Freq\":");
    push_dec_u64(v, r.freq);
    push_lit(v, ",\"Modulation\":");
    match r.modulation {
        Modulation::AM => push_lit(v, "\"AM\""),
        Modulation::FM => push_lit(v, "\"FM\""),
    }
    push_lit(v, "}");
    proof {
        assert(v@ =~= old(v)@ + json_radio(r));
    }
}

/// Splitting a radio list after its head extends the text by a comma
/// and the tail.
proof fn lemma_json_radio_items_unfold(rs: Seq<Radio>)
    requires
        rs.len() >= 2,
    ensures
        json_radio_items(rs) == json_radio(rs[0]) + lit(",") + json_radio_items(rs.skip(1)),
{
}

fn push_json_radio_items(v: &mut Vec<u8>, rs: &Vec<Radio>)
    ensures
        final(v)@ == old(v)@ + json_radio_items(rs@),
{
    let n = rs.len();
    if n == 0 {
        proof {
            assert(v@ =~= old(v)@ + json_radio_items(rs@));
        }
        return ;
    }
    let mut k: usize = 0;
    proof {
        assert(rs@.skip(0) =~= rs@);
    }
    while k + 1 < n
        invariant
            n == rs@.len(),
            n >= 1,
            k < n,
            old(v)@ + json_radio_items(rs@) == v@ + json_radio_items(rs@.skip(k as int)),
        decreases n - k,
    {
        push_json_radio(v, rs[k]);
        push_lit(v, ",");
        proof {
            lemma_json_radio_items_unfold(rs@.skip(k as int));
            assert(rs@.skip(k as int)[0] == rs@[k as int]);
            assert(rs@.skip(k as int).skip(1) =~= rs@.skip(k + 1));
        }
        k = k + 1;
    }
    push_json_radio(v, rs[k]);
    proof {
        assert(rs@.skip(k as int)[0] == rs@[k as int]);
        assert(json_radio_items(rs@.skip(k as int)) == json_radio(rs@[k as int]));
    }
}

fn push_json_bool(v: &mut Vec<u8>, b: bool)
    ensures
        final(v)@ == old(v)@ + json_bool(b),
{
    if b {
        push_lit(v, "true");
    } else {
        push_lit(v, "false");
    }
}

fn push_json_radio_info_head(v: &mut Vec<u8>, ri: &RadioInfo)
    ensures
        final(v)@ == old(v)@ + json_radio_info_head(*ri),
{
    push_lit(v, "{\"Name\":");
    push_json_string(v, &ri.name);
    push_lit(v, ",\"Ptt\":");
    push_json_bool(v, ri.ptt);
    push_lit(v, ",\"Radios\":[");
    push_json_radio_items(v, &ri.radios);
    push_lit(v, "],\"Control\":");
    match ri.control {
        RadioSwitchControls::Hotas => push_lit(v, "\"Hotas\""),
        RadioSwitchControls::InCockpit => push_lit(v, "\"InCockpit\""),
    }
    proof {
        assert(v@ =~= old(v)@ + json_radio_info_head(*ri));
    }
}

fn push_json_radio_info_tail(v: &mut Vec<u8>, ri: &RadioInfo)
    ensures
        final(v)@ == old(v)@ + json_radio_info_tail(*ri),
{
    push_lit(v, ",\"Selected\":");
    push_dec_u64(v, ri.selected as u64);
    push_lit(v, ",\"Unit\":");
    push_json_string(v, &ri.unit);
    push_lit(v, ",\"UnitId\":");
    push_dec_u64(v, ri.unit_id as u64);
    push_lit(v, ",\"SimultaneousTransmission\":");
    push_json_bool(v, ri.simultaneous_transmission);
    push_lit(v, "}");
    proof {
        assert(v@ =~= old(v)@ + json_radio_info_tail(*ri));
    }
}

fn push_json_radio_info(v: &mut Vec<u8>, ri: &RadioInfo)
    ensures
        final(v)@ == old(v)@ + json_radio_info(*ri),
{
    push_json_radio_info_head(v, ri);
    push_json_radio_info_tail(v, ri);
    proof {
        assert(v@ =~= old(v)@ + json_radio_info(*ri));
    }
}

fn push_json_msg_client_head(v: &mut Vec<u8>, c: &MsgClient)
    ensures
        final(v)@ == old(v)@ + json_msg_client_head(*c),
{
    push_lit(v, "{\"ClientGuid\":");
    push_json_string(v, &c.client_guid);
    match &c.name {
        Some(n) => {
            push_lit(v, ",\"Name\":");
            push_json_string(v, n);
        },
        None => {},
    }
    push_lit(v, ",\"Coalition\":");
    match c.coalition {
        Coalition::Blue => push_lit(v, "\"Blue\""),
        Coalition::Red => push_lit(v, "\"Red\""),
    }
    proof {
        assert(v@ =~= old(v)@ + json_msg_client_head(*c));
    }
}

#[verifier::rlimit(100)]
fn push_json_msg_client_tail(v: &mut Vec<u8>, c: &MsgClient)
    ensures
        final(v)@ == old(v)@ + json_msg_client_tail(*c),
{
    match &c.radio_info {
        Some(ri) => {
            push_lit(v, ",\"RadioInfo\":");
            push_json_radio_info(v, ri);
        },
        None => {},
    }
    match &c.lat_lng_position {
        Some(p) => {
            push_lit(v, ",\"LatLngPosition\":");
            push_json_position(v, *p);
        },
        None => {},
    }
    push_lit(v, "}");
    proof {
        assert(v@ =~= old(v)@ + json_msg_client_tail(*c));
    }
}

fn push_json_msg_client(v: &mut Vec<u8>, c: &MsgClient)
    ensures
        final(v)@ == old(v)@ + json_msg_client(*c),
{
    push_json_msg_client_head(v, c);
    push_json_msg_client_tail(v, c);
    proof {
        assert(v@ =~= old(v)@ + json_msg_client(*c));
    }
}

/// Splitting a settings map after its head extends the text by a comma
/// and the tail.
proof fn lemma_json_settings_items_unfold(es: Seq<SettingsEntry>)
    requires
        es.len() >= 2,
    ensures
        json_settings_items(es) == json_string(es[0].key@) + seq![58u8] + json_string(
            es[0].value@,
        ) + seq![44u8] + json_settings_items(es.skip(1)),
{
}

fn push_json_settings_items(v: &mut Vec<u8>, es: &Vec<SettingsEntry>)
    ensures
        final(v)@ == old(v)@ + json_settings_items(es@),
{
    let n = es.len();
    if n == 0 {
        proof {
            assert(v@ =~= old(v)@ + json_settings_items(es@));
        }
        return ;
    }
    let mut k: usize = 0;
    proof {
        assert(es@.skip(0) =~= es@);
    }
    while k + 1 < n
        invariant
            n == es@.len(),
            n >= 1,
            k < n,
            old(v)@ + json_settings_items(es@) == v@ + json_settings_items(es@.skip(k as int)),
        decreases n - k,
    {
        push_json_string(v, &es[k].key);
        v.push(58);
        push_json_string(v, &es[k].value);
        v.push(44);
        proof {
            lemma_json_settings_items_unfold(es@.skip(k as int));
            assert(es@.skip(k as int)[0] == es@[k as int]);
            assert(es@.skip(k as int).skip(1) =~= es@.skip(k + 1));
        }
        k = k + 1;
    }
    push_json_string(v, &es[k].key);
    v.push(58);
    push_json_string(v, &es[k].value);
    proof {
        assert(es@.skip(k as int)[0] == es@[k as int]);
        assert(json_settings_items(es@.skip(k as int)) == json_string(es@[k as int].key@)
            + seq![58u8] + json_string(es@[k as int].value@));
        assert(v@ =~= old(v)@ + json_settings_items(es@));
    }
}

fn push_msgtype_key(v: &mut Vec<u8>)
    ensures
        final(v)@ == old(v)@ + msgtype_head().skip(1),
{
    v.push(34);
    v.push(77);
    v.push(115);
    v.push(103);
    v.push(84);
    v.push(121);
    v.push(112);
    v.push(101);
    v.push(34);
    v.push(58);
    proof {
        assert(v@ =~= old(v)@ + msgtype_head().skip(1));
    }
}

fn push_settings_head(v: &mut Vec<u8>)
    ensures
        final(v)@ == old(v)@ + settings_head(),
{
    v.push(44);
    v.push(34);
    v.push(83);
    v.push(101);
    v.push(114);
    v.push(118);
    v.push(101);
    v.push(114);
    v.push(83);
    v.push(101);
    v.push(116);
    v.push(116);
    v.push(105);
    v.push(110);
    v.push(103);
    v.push(115);
    v.push(34);
    v.push(58);
    v.push(123);
    proof {
        assert(v@ =~= old(v)@ + settings_head());
    }
}

fn push_version_head(v: &mut Vec<u8>)
    ensures
        final(v)@ == old(v)@ + version_head(),
{
    v.push(44);
    v.push(34);
    v.push(86);
    v.push(101);
    v.push(114);
    v.push(115);
    v.push(105);
    v.push(111);
    v.push(110);
    v.push(34);
    v.push(58);
    proof {
        assert(v@ =~= old(v)@ + version_head());
    }
}

fn push_msg_type(v: &mut Vec<u8>, t: MsgType)
    ensures
        final(v)@ == old(v)@ + json_msg_type(t),
{
    match t {
        MsgType::Sync => {
            v.push(34);
            v.push(83);
            v.push(89);
            v.push(78);
            v.push(67);
            v.push(34);
        },
        MsgType::Update => {
            v.push(34);
            v.push(85);
            v.push(80);
            v.push(68);
            v.push(65);
            v.push(84);
            v.push(69);
            v.push(34);
        },
        MsgType::RadioUpdate => {
            v.push(34);
            v.push(82);
            v.push(65);
            v.push(68);
            v.push(73);
            v.push(79);
            v.push(95);
            v.push(85);
            v.push(80);
            v.push(68);
            v.push(65);
            v.push(84);
            v.push(69);
            v.push(34);
        },
        MsgType::ServerSettings => {
            v.push(34);
            v.push(83);
            v.push(69);
            v.push(82);
            v.push(86);
            v.push(69);
            v.push(82);
            v.push(95);
            v.push(83);
            v.push(69);
            v.push(84);
            v.push(84);
            v.push(73);
            v.push(78);
            v.push(71);
            v.push(83);
            v.push(34);
        },
        MsgType::VersionMismatch => {
            v.push(34);
            v.push(86);
            v.push(69);
            v.push(82);
            v.push(83);
            v.push(73);
            v.push(79);
            v.push(78);
            v.push(95);
            v.push(77);
            v.push(73);
            v.push(83);
            v.push(77);
            v.push(65);
            v.push(84);
            v.push(67);
            v.push(72);
            v.push(34);
        },
    }
    proof {
        assert(v@ =~= old(v)@ + json_msg_type(t));
    }
}

/// Frames one control message as its canonical JSON line. Encoding is
/// total: it never fails, whatever the message holds; only strings
/// that are json-plain are framed faithfully.
#[verifier::rlimit(60)]
pub fn encode_message(m: &Message) -> (r: Vec<u8>)
    ensures
        r@ == spec_encode_message(*m),
        r@.len() > 0,
        r@[r@.len() - 1] == 10,
{
    let mut v: Vec<u8> = Vec::new();
    v.push(123);
    match &m.client {
        Some(c) => {
            push_lit(&mut v, "\"Client\":");
            push_json_msg_client(&mut v, c);
            v.push(44);
        },
        None => {},
    }
    push_msgtype_key(&mut v);
    push_msg_type(&mut v, m.msg_type);
    match &m.server_settings {
        Some(es) => {
            push_settings_head(&mut v);
            push_json_settings_items(&mut v, es);
            v.push(125);
        },
        None => {},
    }
    push_version_head(&mut v);
    push_json_string(&mut v, &m.version);
    v.push(125);
    v.push(10);
    proof {
        assert(v@ =~= spec_encode_message(*m));
    }
    v
}

/// Position of the first newline byte at or after `i`.
pub open spec fn find_newline(s: Seq<u8>, i: int) -> Option<int>
    decreases s.len() - i,
    when 0 <= i <= s.len()
{
    if i >= s.len() {
        None
    } else if s[i] == 10 {
        Some(i)
    } else {
        find_newline(s, i + 1)
    }
}

/// Splits the first whole frame off an inbound buffer: the bytes
/// before the first newline, and how many bytes (newline included)
/// were consumed. Yields nothing while no newline has arrived; the
/// caller keeps buffering.
pub fn decode_frame(buf: &[u8]) -> (r: Option<(Vec<u8>, usize)>)
    ensures
        match r {
            Some((line, consumed)) => {
                &&& find_newline(buf@, 0) == Some(consumed - 1)
                &&& line@ == buf@.subrange(0, consumed - 1)
                &&& 0 < consumed <= buf@.len()
            },
            None => find_newline(buf@, 0) is None,
        },
{
    let n = buf.len();
    let mut i: usize = 0;
    while i < n
        invariant
            i <= n == buf@.len(),
            n <= usize::MAX,
            find_newline(buf@, 0) == find_newline(buf@, i as int),
        decreases n - i,
    {
        if buf[i] == 10 {
            let line = slice_to_vec(vstd::slice::slice_subrange(buf, 0, i));
            return Some((line, i + 1));
        }
        i = i + 1;
    }
    None
}

/// First quote byte at or after `i`.
pub open spec fn scan_quote(s: Seq<u8>, i: int) -> Option<int>
    decreases s.len() - i,
    when 0 <= i <= s.len()
{
    if i >= s.len() {
        None
    } else if s[i] == 34 {
        Some(i)
    } else {
        scan_quote(s, i + 1)
    }
}

/// The members of a settings object from `i` up to and past the
/// closing brace: quoted keys and values, comma-separated.
pub open spec fn parse_entries(s: Seq<u8>, i: int) -> Option<(Seq<(Seq<u8>, Seq<u8>)>, int)>
    decreases s.len() - i,
    when 0 <= i <= s.len()
{
    if i < s.len() && s[i] == 125 {
        Some((Seq::empty(), i + 1))
    } else if i < s.len() && s[i] == 34 {
        match scan_quote(s, i + 1) {
            None => None,
            Some(ke) => if ke + 2 < s.len() && s[ke + 1] == 58 && s[ke + 2] == 34 {
                match scan_quote(s, ke + 3) {
                    None => None,
                    Some(ve) => if ve + 1 < s.len() {
                        if s[ve + 1] == 125 {
                            Some((seq![(s.subrange(i + 1, ke), s.subrange(ke + 3, ve))], ve + 2))
                        } else if s[ve + 1] == 44 && i < ve + 2 {
                            match parse_entries(s, ve + 2) {
                                None => None,
                                Some((rest, j)) => Some(
                                    (
                                        seq![(s.subrange(i + 1, ke), s.subrange(ke + 3, ve))]
                                            + rest,
                                        j,
                                    ),
                                ),
                            }
                        } else {
                            None
                        }
                    } else {
                        None
                    },
                }
            } else {
                None
            },
        }
    } else {
        None
    }
}

/// The kind token at position eleven of a control line, and where the
/// line continues after it.
pub open spec fn token_at(s: Seq<u8>) -> Option<(MsgType, int)> {
    if matches_exact(s, 11, tok_sync()) {
        Some((MsgType::Sync, 11 + tok_sync().len() as int))
    } else if matches_exact(s, 11, tok_update()) {
        Some((MsgType::Update, 11 + tok_update().len() as int))
    } else if matches_exact(s, 11, tok_radio_update()) {
        Some((MsgType::RadioUpdate, 11 + tok_radio_update().len() as int))
    } else if matches_exact(s, 11, tok_server_settings()) {
        Some((MsgType::ServerSettings, 11 + tok_server_settings().len() as int))
    } else if matches_exact(s, 11, tok_version_mismatch()) {
        Some((MsgType::VersionMismatch, 11 + tok_version_mismatch().len() as int))
    } else {
        None
    }
}

/// The version field and closing brace that end a control line.
pub open spec fn version_part(s: Seq<u8>, j: int) -> Option<Seq<u8>> {
    if matches_exact(s, j, version_head()) && j + 12 <= s.len() && s[j + 11] == 34 {
        match scan_quote(s, j + 12) {
            Some(ve) => if ve + 2 == s.len() && s[ve + 1] == 125 {
                Some(s.subrange(j + 12, ve))
            } else {
                None
            },
            None => None,
        }
    } else {
        None
    }
}

/// What a canonical control line without a client snapshot holds: the
/// kind tag, the settings map if one is present, and the version.
pub open spec fn spec_decode_control(s: Seq<u8>) -> Option<
    (MsgType, Option<Seq<(Seq<u8>, Seq<u8>)>>, Seq<u8>),
> {
    if matches_exact(s, 0, msgtype_head()) {
        match token_at(s) {
            None => None,
            Some((t, i)) => if matches_exact(s, i, settings_head()) {
                match parse_entries(s, i + 19) {
                    None => None,
                    Some((es, j)) => match version_part(s, j) {
                        Some(ver) => Some((t, Some(es), ver)),
                        None => None,
                    },
                }
            } else {
                match version_part(s, i) {
                    Some(ver) => Some((t, None, ver)),
                    None => None,
                }
            },
        }
    } else {
        None
    }
}

/// The settings entries as key/value byte pairs.
pub open spec fn settings_entries_view(v: Seq<SettingsEntry>) -> Seq<(Seq<u8>, Seq<u8>)> {
    Seq::new(v.len(), |i: int| (v[i].key@, v[i].value@))
}

fn scan_quote_at(s: &[u8], i: usize) -> (r: Option<usize>)
    requires
        i <= s@.len(),
    ensures
        match r {
            Some(q) => scan_quote(s@, i as int) == Some(q as int) && i <= q < s@.len(),
            None => scan_quote(s@, i as int) is None,
        },
{
    let n = s.len();
    let mut j: usize = i;
    while j < n
        invariant
            i <= j <= n == s@.len(),
            scan_quote(s@, i as int) == scan_quote(s@, j as int),
        decreases n - j,
    {
        if s[j] == 34 {
            return Some(j);
        }
        j = j + 1;
    }
    None
}

fn parse_entries_at(s: &[u8], start: usize) -> (r: Option<(Vec<SettingsEntry>, usize)>)
    requires
        start <= s@.len(),
    ensures
        match r {
            Some((v, j)) => parse_entries(s@, start as int) == Some(
                (settings_entries_view(v@), j as int),
            ) && start < j <= s@.len(),
            None => parse_entries(s@, start as int) is None,
        },
{
    let n = s.len();
    let mut acc: Vec<SettingsEntry> = Vec::new();
    let mut k: usize = start;
    proof {
        assert(settings_entries_view(acc@) =~= Seq::<(Seq<u8>, Seq<u8>)>::empty());
    }
    loop
        invariant
            start <= k <= n == s@.len(),
            n <= usize::MAX,
            parse_entries(s@, start as int) == (match parse_entries(s@, k as int) {
                Some((rest, j)) => Some((settings_entries_view(acc@) + rest, j)),
                None => None::<(Seq<(Seq<u8>, Seq<u8>)>, int)>,
            }),
        decreases s@.len() - k,
    {
        if k < n && s[k] == 125 {
            proof {
                assert(settings_entries_view(acc@) + Seq::<(Seq<u8>, Seq<u8>)>::empty()
                    =~= settings_entries_view(acc@));
            }
            return Some((acc, k + 1));
        }
        if !(k < n && s[k] == 34) {
            return None;
        }
        let ke = match scan_quote_at(s, k + 1) {
            Some(q) => q,
            None => {
                return None;
            },
        };
        if !(n - ke > 2 && s[ke + 1] == 58 && s[ke + 2] == 34) {
            return None;
        }
        let ve = match scan_quote_at(s, ke + 3) {
            Some(q) => q,
            None => {
                return None;
            },
        };
        if !(ve + 1 < n) {
            return None;
        }
        let key = vstd::slice::slice_to_vec(vstd::slice::slice_subrange(s, k + 1, ke));
        let value = vstd::slice::slice_to_vec(vstd::slice::slice_subrange(s, ke + 3, ve));
        let ghost prev = settings_entries_view(acc@);
        let ghost e0: Seq<(Seq<u8>, Seq<u8>)> = seq![
            (s@.subrange(k as int + 1, ke as int), s@.subrange(ke as int + 3, ve as int)),
        ];
        acc.push(SettingsEntry { key, value });
        proof {
            assert(settings_entries_view(acc@) =~= prev + e0);
        }
        if s[ve + 1] == 125 {
            proof {
                assert(parse_entries(s@, k as int) == Some((e0, ve + 2)));
                assert(settings_entries_view(acc@) =~= prev + e0);
            }
            return Some((acc, ve + 2));
        } else if s[ve + 1] == 44 {
            let ghost old_k = k as int;
            k = ve + 2;
            proof {
                if parse_entries(s@, k as int) is Some {
                    let (rest, jj) = parse_entries(s@, k as int)->0;
                    assert(parse_entries(s@, old_k) == Some((e0 + rest, jj)));
                    assert(prev + (e0 + rest) =~= (prev + e0) + rest);
                }
            }
        } else {
            return None;
        }
    }
}

/// Unframes one canonical control line that carries no client
/// snapshot: kind tag, optional settings map, version string.
pub fn decode_control_line(line: &[u8]) -> (r: Option<Message>)
    ensures
        match r {
            Some(m) => {
                &&& spec_decode_control(line@) matches Some((t, ss, ver))
                &&& m.msg_type == t
                &&& m.client is None
                &&& m.version@ == ver
                &&& match m.server_settings {
                    Some(v) => ss matches Some(es) && settings_entries_view(v@) == es,
                    None => ss is None,
                }
            },
            None => spec_decode_control(line@) is None,
        },
{
    let s = line;
    let n = s.len();
    let mut head: Vec<u8> = Vec::new();
    head.push(123);
    push_msgtype_key(&mut head);
    proof {
        assert(head@ =~= msgtype_head());
    }
    if !crate::extractor::match_exact(s, 0, head.as_slice()) {
        return None;
    }
    let mut t: MsgType = MsgType::Sync;
    let mut i: usize = 0;
    let mut found = false;
    let mut tok: Vec<u8> = Vec::new();
    push_msg_type(&mut tok, MsgType::Sync);
    if crate::extractor::match_exact(s, 11, tok.as_slice()) {
        t = MsgType::Sync;
        i = 11 + tok.len();
        found = true;
    }
    if !found {
        let mut tok2: Vec<u8> = Vec::new();
        push_msg_type(&mut tok2, MsgType::Update);
        if crate::extractor::match_exact(s, 11, tok2.as_slice()) {
            t = MsgType::Update;
            i = 11 + tok2.len();
            found = true;
        }
    }
    if !found {
        let mut tok3: Vec<u8> = Vec::new();
        push_msg_type(&mut tok3, MsgType::RadioUpdate);
        if crate::extractor::match_exact(s, 11, tok3.as_slice()) {
            t = MsgType::RadioUpdate;
            i = 11 + tok3.len();
            found = true;
        }
    }
    if !found {
        let mut tok4: Vec<u8> = Vec::new();
        push_msg_type(&mut tok4, MsgType::ServerSettings);
        if crate::extractor::match_exact(s, 11, tok4.as_slice()) {
            t = MsgType::ServerSettings;
            i = 11 + tok4.len();
            found = true;
        }
    }
    if !found {
        let mut tok5: Vec<u8> = Vec::new();
        push_msg_type(&mut tok5, MsgType::VersionMismatch);
        if crate::extractor::match_exact(s, 11, tok5.as_slice()) {
            t = MsgType::VersionMismatch;
            i = 11 + tok5.len();
            found = true;
        }
    }
    if !found {
        return None;
    }
    proof {
        assert(token_at(s@) == Some((t, i as int)));
    }
    let mut shead: Vec<u8> = Vec::new();
    push_settings_head(&mut shead);
    let mut server_settings: Option<Vec<SettingsEntry>> = None;
    let mut j: usize = i;
    if crate::extractor::match_exact(s, i, shead.as_slice()) {
        match parse_entries_at(s, i + 19) {
            Some((v, j2)) => {
                server_settings = Some(v);
                j = j2;
            },
            None => {
                return None;
            },
        }
    }
    let mut vhead: Vec<u8> = Vec::new();
    push_version_head(&mut vhead);
    if !crate::extractor::match_exact(s, j, vhead.as_slice()) {
        return None;
    }
    if n - j < 12 || s[j + 11] != 34 {
        return None;
    }
    let ve = match scan_quote_at(s, j + 12) {
        Some(q) => q,
        None => {
            return None;
        },
    };
    if !(n - ve == 2 && s[ve + 1] == 125) {
        return None;
    }
    let version = vstd::slice::slice_to_vec(vstd::slice::slice_subrange(s, j + 12, ve));
    Some(Message { client: None, msg_type: t, server_settings, version })
}

/// A control line the encoder frames faithfully: no client snapshot,
/// and every string verbatim-safe.
pub open spec fn control_line_wf(m: Message) -> bool {
    &&& m.client is None
    &&& json_plain(m.version@)
    &&& match m.server_settings {
        Some(es) => forall|i: int|
            0 <= i < es@.len() ==> json_plain((#[trigger] es@[i]).key@) && json_plain(
                es@[i].value@,
            ),
        None => true,
    }
}

/// The first quote after a quote-free stretch is found exactly.
proof fn lemma_scan_quote_exact(s: Seq<u8>, i: int, j: int)
    requires
        0 <= i <= j < s.len(),
        forall|k: int| i <= k < j ==> s[k] != 34,
        s[j] == 34,
    ensures
        scan_quote(s, i) == Some(j),
    decreases j - i,
{
    if i < j {
        lemma_scan_quote_exact(s, i + 1, j);
    }
}

/// Encoded settings members followed by a closing brace parse back to
/// the same key/value pairs.
proof fn lemma_parse_entries_of_items(s: Seq<u8>, i: int, es: Seq<SettingsEntry>)
    requires
        0 <= i,
        i + json_settings_items(es).len() + 1 <= s.len(),
        s.subrange(i, i + json_settings_items(es).len()) == json_settings_items(es),
        s[i + json_settings_items(es).len()] == 125,
        forall|k: int|
            0 <= k < es.len() ==> json_plain((#[trigger] es[k]).key@) && json_plain(es[k].value@),
    ensures
        parse_entries(s, i) == Some(
            (settings_entries_view(es), i + json_settings_items(es).len() + 1),
        ),
    decreases es.len(),
{
    let items = json_settings_items(es);
    let ilen = items.len() as int;
    assert(forall|k: int| 0 <= k < ilen ==> s[i + k] == #[trigger] items[k]) by {
        assert(forall|k: int| 0 <= k < ilen ==> #[trigger] s.subrange(i, i + ilen)[k] == s[i + k]);
    }
    if es.len() == 0 {
        assert(s[i] == 125);
        assert(settings_entries_view(es) =~= Seq::<(Seq<u8>, Seq<u8>)>::empty());
    } else {
        let key = es[0].key@;
        let val = es[0].value@;
        let kl = key.len() as int;
        let vl = val.len() as int;
        let head = json_string(key) + seq![58u8] + json_string(val);
        assert(head.len() == kl + vl + 5);
        if es.len() == 1 {
            assert(items == head);
        } else {
            lemma_json_settings_items_unfold(es);
            assert(items == head + seq![44u8] + json_settings_items(es.skip(1)));
        }
        assert(forall|k: int| 0 <= k < head.len() ==> items[k] == #[trigger] head[k]);
        assert(s[i] == head[0]);
        assert(head[0] == 34);
        assert(forall|k: int| 0 <= k < kl ==> s[i + 1 + k] == #[trigger] key[k]) by {
            assert(forall|k: int| 0 <= k < kl ==> head[1 + k] == #[trigger] key[k]);
        }
        let ke = i + 1 + kl;
        assert(head[1 + kl] == 34);
        assert(s[ke] == 34);
        assert(forall|k: int| i + 1 <= k < ke ==> s[k] != 34) by {
            assert(forall|k: int| i + 1 <= k < ke ==> s[k] == key[k - (i + 1)]);
        }
        lemma_scan_quote_exact(s, i + 1, ke);
        assert(head[1 + kl + 1] == 58 && head[1 + kl + 2] == 34);
        assert(s[ke + 1] == 58 && s[ke + 2] == 34);
        assert(forall|k: int| 0 <= k < vl ==> s[ke + 3 + k] == #[trigger] val[k]) by {
            assert(forall|k: int| 0 <= k < vl ==> head[kl + 4 + k] == #[trigger] val[k]);
        }
        let ve = ke + 3 + vl;
        assert(head[kl + vl + 4] == 34);
        assert(s[ve] == 34);
        assert(forall|k: int| ke + 3 <= k < ve ==> s[k] != 34) by {
            assert(forall|k: int| ke + 3 <= k < ve ==> s[k] == val[k - (ke + 3)]);
        }
        lemma_scan_quote_exact(s, ke + 3, ve);
        assert(s.subrange(i + 1, ke) =~= key);
        assert(s.subrange(ke + 3, ve) =~= val);
        if es.len() == 1 {
            assert(ve + 1 == i + ilen);
            assert(s[ve + 1] == 125);
            assert(parse_entries(s, i) == Some(
                (seq![(key, val)], ve + 2),
            ));
            assert(settings_entries_view(es) =~= seq![(key, val)]);
        } else {
            assert(items[head.len() as int] == 44);
            assert(ve + 1 == i + head.len());
            assert(s[ve + 1] == 44);
            let rest_items = json_settings_items(es.skip(1));
            let i2 = ve + 2;
            assert(s.subrange(i2, i2 + rest_items.len()) =~= rest_items) by {
                assert(forall|k: int|
                    0 <= k < rest_items.len() ==> items[head.len() + 1 + k] == #[trigger]
                        rest_items[k]);
            }
            assert(i2 + rest_items.len() == i + ilen);
            assert(forall|k: int|
                0 <= k < es.skip(1).len() ==> (#[trigger] es.skip(1)[k]) == es[k + 1]);
            lemma_parse_entries_of_items(s, i2, es.skip(1));
            assert(parse_entries(s, i) == Some(
                (seq![(key, val)] + settings_entries_view(es.skip(1)), i + ilen + 1),
            ));
            assert(settings_entries_view(es) =~= seq![(key, val)] + settings_entries_view(
                es.skip(1),
            ));
        }
    }
}

/// The version field and final brace of an encoded line parse back to
/// the version string.
proof fn lemma_version_tail(s: Seq<u8>, j: int, ver: Seq<u8>)
    requires
        json_plain(ver),
        0 <= j,
        s.len() == j + 14 + ver.len(),
        s.subrange(j, s.len() as int) == version_head() + json_string(ver) + seq![125u8],
    ensures
        version_part(s, j) == Some(ver),
{
    let tail = version_head() + json_string(ver) + seq![125u8];
    let hi = s.len() as int;
    assert(forall|k: int| 0 <= k < tail.len() ==> s[j + k] == #[trigger] tail[k]) by {
        assert(forall|k: int|
            0 <= k < tail.len() ==> #[trigger] s.subrange(j, hi)[k] == s[j + k]);
    }
    assert(matches_exact(s, j, version_head())) by {
        assert(forall|k: int|
            0 <= k < version_head().len() ==> tail[k] == #[trigger] version_head()[k]);
    }
    assert(tail[11] == 34);
    assert(s[j + 11] == 34);
    let vl = ver.len() as int;
    assert(forall|k: int| 0 <= k < vl ==> s[j + 12 + k] == #[trigger] ver[k]) by {
        assert(forall|k: int| 0 <= k < vl ==> tail[12 + k] == #[trigger] ver[k]);
    }
    let ve = j + 12 + vl;
    assert(tail[12 + vl] == 34);
    assert(s[ve] == 34);
    assert(forall|k: int| j + 12 <= k < ve ==> s[k] != 34) by {
        assert(forall|k: int| j + 12 <= k < ve ==> s[k] == ver[k - (j + 12)]);
    }
    lemma_scan_quote_exact(s, j + 12, ve);
    assert(tail[13 + vl] == 125);
    assert(s[ve + 1] == 125);
    assert(ve + 2 == s.len());
    assert(s.subrange(j + 12, ve) =~= ver);
}

/// Law: decoding the canonical line of a control message without a
/// client snapshot yields the message's kind tag, settings map and
/// version back — the codec round-trips what it frames.
#[verifier::rlimit(100)]
pub proof fn lemma_control_line_round_trip(m: Message)
    requires
        control_line_wf(m),
    ensures
        ({
            let e = spec_encode_message(m);
            spec_decode_control(e.subrange(0, e.len() - 1)) == Some(
                (
                    m.msg_type,
                    match m.server_settings {
                        Some(es) => Some(settings_entries_view(es@)),
                        None => None,
                    },
                    m.version@,
                ),
            )
        }),
{
    let e = spec_encode_message(m);
    let line = e.subrange(0, e.len() - 1);
    let tok = json_msg_type(m.msg_type);
    let spart: Seq<u8> = match m.server_settings {
        Some(es) => settings_head() + json_settings_items(es@) + seq![125u8],
        None => Seq::empty(),
    };
    let vtail = version_head() + json_string(m.version@) + seq![125u8];
    assert(line =~= msgtype_head() + tok + spart + vtail);
    let u = msgtype_head() + tok + spart + vtail;
    assert(forall|k: int| 0 <= k < u.len() ==> #[trigger] line[k] == u[k]);
    assert(matches_exact(line, 0, msgtype_head())) by {
        assert(forall|k: int|
            0 <= k < msgtype_head().len() ==> u[k] == #[trigger] msgtype_head()[k]);
    }
    assert(forall|k: int| 0 <= k < tok.len() ==> line[11 + k] == #[trigger] tok[k]) by {
        assert(forall|k: int| 0 <= k < tok.len() ==> u[11 + k] == #[trigger] tok[k]);
    }
    let i = 11 + tok.len() as int;
    assert(token_at(line) == Some((m.msg_type, i))) by {
        match m.msg_type {
            MsgType::Sync => {
            },
            MsgType::Update => {
                assert(line[12int] == tok_update()[1]);
                if matches_exact(line, 11, tok_sync()) {
                    assert(line[12int] == tok_sync()[1]);
                }
            },
            MsgType::RadioUpdate => {
                assert(line[12int] == tok_radio_update()[1]);
                if matches_exact(line, 11, tok_sync()) {
                    assert(line[12int] == tok_sync()[1]);
                }
                if matches_exact(line, 11, tok_update()) {
                    assert(line[12int] == tok_update()[1]);
                }
            },
            MsgType::ServerSettings => {
                assert(line[12int] == tok_server_settings()[1]);
                assert(line[13int] == tok_server_settings()[2]);
                if matches_exact(line, 11, tok_sync()) {
                    assert(line[13int] == tok_sync()[2]);
                }
                if matches_exact(line, 11, tok_update()) {
                    assert(line[12int] == tok_update()[1]);
                }
                if matches_exact(line, 11, tok_radio_update()) {
                    assert(line[12int] == tok_radio_update()[1]);
                }
            },
            MsgType::VersionMismatch => {
                assert(line[12int] == tok_version_mismatch()[1]);
                if matches_exact(line, 11, tok_sync()) {
                    assert(line[12int] == tok_sync()[1]);
                }
                if matches_exact(line, 11, tok_update()) {
                    assert(line[12int] == tok_update()[1]);
                }
                if matches_exact(line, 11, tok_radio_update()) {
                    assert(line[12int] == tok_radio_update()[1]);
                }
                if matches_exact(line, 11, tok_server_settings()) {
                    assert(line[12int] == tok_server_settings()[1]);
                }
            },
        }
    }
    match m.server_settings {
        Some(es) => {
            let items = json_settings_items(es@);
            assert(matches_exact(line, i, settings_head())) by {
                assert(forall|k: int|
                    0 <= k < settings_head().len() ==> line[i + k]
                        == #[trigger] settings_head()[k]) by {
                    assert(forall|k: int|
                        0 <= k < settings_head().len() ==> u[i + k] == #[trigger] spart[k]);
                    assert(forall|k: int|
                        0 <= k < settings_head().len() ==> spart[k]
                            == #[trigger] settings_head()[k]);
                }
            }
            assert(line.subrange(i + 19, i + 19 + items.len()) =~= items) by {
                assert(forall|k: int|
                    0 <= k < items.len() ==> u[i + 19 + k] == #[trigger] spart[19 + k]);
                assert(forall|k: int|
                    0 <= k < items.len() ==> spart[19 + k] == #[trigger] items[k]);
            }
            assert(line[i + 19 + items.len()] == 125) by {
                assert(spart[19 + items.len() as int] == 125);
            }
            lemma_parse_entries_of_items(line, i + 19, es@);
            let j = i + 19 + items.len() + 1;
            assert(line.subrange(j, line.len() as int) =~= vtail);
            lemma_version_tail(line, j, m.version@);
        },
        None => {
            assert(!matches_exact(line, i, settings_head())) by {
                assert(line[i + 2] == vtail[2]);
                assert(vtail[2] == 86);
                if matches_exact(line, i, settings_head()) {
                    assert(line[i + 2] == settings_head()[2]);
                }
            }
            assert(line.subrange(i, line.len() as int) =~= vtail);
            lemma_version_tail(line, i, m.version@);
        },
    }
}

} // verus!


