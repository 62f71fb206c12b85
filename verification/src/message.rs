//! Control messages exchanged with the radio server over the TCP
//! channel, and the builders the session driver uses to produce them.
use vstd::prelude::*;
use crate::client::Client;
use crate::position::Position;
use crate::util::copy_bytes;

verus! {

/// Protocol version the client speaks, as bytes of `1.9.0.0`.
pub open spec fn version_bytes() -> Seq<u8> {
    seq![49u8, 46u8, 57u8, 46u8, 48u8, 46u8, 48u8]
}

/// The protocol version string `1.9.0.0` as bytes.
pub fn protocol_version() -> (r: Vec<u8>)
    ensures
        r@ == version_bytes(),
{
    let mut v: Vec<u8> = Vec::new();
    v.push(49);
    v.push(46);
    v.push(57);
    v.push(46);
    v.push(48);
    v.push(46);
    v.push(48);
    proof {
        assert(v@ =~= version_bytes());
    }
    v
}

/// Kind tag of a control message.
#[derive(Clone, Copy, PartialEq, Eq, Structural, Debug)]
pub enum MsgType {
    Sync,
    Update,
    RadioUpdate,
    ServerSettings,
    VersionMismatch,
}

#[derive(Clone, Copy, PartialEq, Eq, Structural, Debug)]
pub enum Coalition {
    Blue,
    Red,
}

#[derive(Clone, Copy, PartialEq, Eq, Structural, Debug)]
pub enum RadioSwitchControls {
    Hotas,
    InCockpit,
}

/// Modulation kind stamped on a frequency entry; on the wire `0` is AM
/// and `1` is FM.
#[derive(Clone, Copy, PartialEq, Eq, Structural, Debug)]
pub enum Modulation {
    AM,
    FM,
}

/// One of the ten radio slots advertised in a radio update.
#[derive(Clone, Copy, PartialEq, Eq, Structural, Debug)]
pub struct Radio {
    pub freq: u64,
    pub modulation: Modulation,
}

impl Default for Radio {
    /// An unused slot: one hertz, AM.
    fn default() -> (r: Self)
        ensures
            r.freq == 1 && r.modulation == Modulation::AM,
    {
        Radio { freq: 1, modulation: Modulation::AM }
    }
}

/// The radio-info block of a radio update.
pub struct RadioInfo {
    pub name: Vec<u8>,
    pub ptt: bool,
    pub radios: Vec<Radio>,
    pub control: RadioSwitchControls,
    pub selected: u8,
    pub unit: Vec<u8>,
    pub unit_id: u32,
    pub simultaneous_transmission: bool,
}

/// The client snapshot carried inside a control message.
pub struct MsgClient {
    pub client_guid: Vec<u8>,
    pub name: Option<Vec<u8>>,
    pub coalition: Coalition,
    pub radio_info: Option<RadioInfo>,
    pub lat_lng_position: Option<Position>,
}

/// One key/value entry of a server-settings map.
pub struct SettingsEntry {
    pub key: Vec<u8>,
    pub value: Vec<u8>,
}

/// A control message: a tagged payload plus the protocol version.
pub struct Message {
    pub client: Option<MsgClient>,
    pub msg_type: MsgType,
    pub server_settings: Option<Vec<SettingsEntry>>,
    pub version: Vec<u8>,
}

/// An inbound update from the host simulator about the unit the
/// session is bound to.
pub struct GameMessage {
    pub name: Vec<u8>,
    pub unit: Vec<u8>,
    pub unit_id: u32,
    pub ptt: bool,
    pub selected: u8,
    pub radios: Vec<Radio>,
    pub lat_lng_position: Position,
}

/// What every message built from the session identity has in common:
/// the session id as guid, coalition blue, the current protocol
/// version, and no settings payload.
pub open spec fn message_of_client(m: Message, c: Client, pos: Position) -> bool {
    &&& m.client matches Some(mc) && {
        &&& mc.client_guid@ == c.spec_sguid()
        &&& mc.coalition == Coalition::Blue
        &&& mc.lat_lng_position == Some(pos)
    }
    &&& m.server_settings is None
    &&& m.version@ == version_bytes()
}

/// Shape of the sync message that opens a session.
pub open spec fn sync_message_props(m: Message, c: Client, pos: Position) -> bool {
    &&& m.msg_type == MsgType::Sync
    &&& message_of_client(m, c, pos)
    &&& m.client->0.name matches Some(n) && n@ == c.spec_name()
    &&& m.client->0.radio_info is None
}

/// Shape of a plain position update.
pub open spec fn update_message_props(m: Message, c: Client, pos: Position) -> bool {
    &&& m.msg_type == MsgType::Update
    &&& message_of_client(m, c, pos)
    &&& m.client->0.name matches Some(n) && n@ == c.spec_name()
    &&& m.client->0.radio_info is None
}

/// Shape of the full radio update sent right after the sync message.
pub open spec fn radio_update_message_props(m: Message, c: Client, pos: Position) -> bool {
    &&& m.msg_type == MsgType::RadioUpdate
    &&& message_of_client(m, c, pos)
    &&& m.client->0.name matches Some(n) && n@ == c.spec_name()
    &&& m.client->0.radio_info matches Some(info) && {
        &&& info.ptt == false
        &&& info.radios@.len() == 10
        &&& info.control == RadioSwitchControls::Hotas
        &&& info.selected == 0
        &&& info.simultaneous_transmission == true
        &&& match c.spec_unit() {
            Some(u) => info.unit@ == u.name@ && info.unit_id == u.id,
            None => info.unit@ == c.spec_name() && info.unit_id == 0,
        }
    }
}

/// Shape of a radio update relayed from the game feed.
pub open spec fn game_radio_message_props(m: Message, c: Client, gm: GameMessage) -> bool {
    &&& m.msg_type == MsgType::RadioUpdate
    &&& message_of_client(m, c, gm.lat_lng_position)
    &&& m.client->0.name matches Some(n) && n@ == gm.name@
    &&& m.client->0.radio_info matches Some(info) && {
        &&& info.name@ == gm.name@
        &&& info.ptt == gm.ptt
        &&& info.radios@ == gm.radios@
        &&& info.control == RadioSwitchControls::Hotas
        &&& info.selected == gm.selected
        &&& info.unit@ == gm.unit@
        &&& info.unit_id == gm.unit_id
        &&& info.simultaneous_transmission == true
    }
}

/// Exactly ten default radio slots.
fn default_radios() -> (r: Vec<Radio>)
    ensures
        r@.len() == 10,
        forall|i: int|
            0 <= i < r@.len() ==> (#[trigger] r@[i]).freq == 1 && r@[i].modulation
                == Modulation::AM,
{
    let mut v: Vec<Radio> = Vec::new();
    let mut k: usize = 0;
    while k < 10
        invariant
            k <= 10,
            v@.len() == k,
            forall|i: int|
                0 <= i < v@.len() ==> (#[trigger] v@[i]).freq == 1 && v@[i].modulation
                    == Modulation::AM,
        decreases 10 - k,
    {
        v.push(Radio::default());
        k = k + 1;
    }
    v
}

/// The sync message that opens a session; the server answers it with
/// its settings and version.
pub fn create_sync_message(client: &Client, pos: Position) -> (r: Message)
    ensures
        sync_message_props(r, *client, pos),
{
    Message {
        client: Some(
            MsgClient {
                client_guid: copy_bytes(client.sguid()),
                name: Some(copy_bytes(client.name())),
                coalition: Coalition::Blue,
                radio_info: None,
                lat_lng_position: Some(pos),
            },
        ),
        msg_type: MsgType::Sync,
        server_settings: None,
        version: protocol_version(),
    }
}

/// The plain position update sent when the shared position moved.
pub fn create_update_message(client: &Client, pos: Position) -> (r: Message)
    ensures
        update_message_props(r, *client, pos),
{
    Message {
        client: Some(
            MsgClient {
                client_guid: copy_bytes(client.sguid()),
                name: Some(copy_bytes(client.name())),
                coalition: Coalition::Blue,
                radio_info: None,
                lat_lng_position: Some(pos),
            },
        ),
        msg_type: MsgType::Update,
        server_settings: None,
        version: protocol_version(),
    }
}

/// The full radio update sent right after the sync message: ten
/// default slots, hands-on-throttle-and-stick control, slot zero
/// selected, simultaneous transmission on, and the unit binding (or
/// the display name when the session is unbound).
pub fn create_radio_update_message(client: &Client, pos: Position) -> (r: Message)
    ensures
        radio_update_message_props(r, *client, pos),
{
    let (unit_name, unit_id) = match client.unit() {
        Some(u) => (copy_bytes(&u.name), u.id),
        None => (copy_bytes(client.name()), 0),
    };
    let mut info_name: Vec<u8> = Vec::new();
    push_ascii(&mut info_name, 82);  // R
    push_ascii(&mut info_name, 97);  // a
    push_ascii(&mut info_name, 100);  // d
    push_ascii(&mut info_name, 105);  // i
    push_ascii(&mut info_name, 111);  // o
    push_ascii(&mut info_name, 115);  // s
    Message {
        client: Some(
            MsgClient {
                client_guid: copy_bytes(client.sguid()),
                name: Some(copy_bytes(client.name())),
                coalition: Coalition::Blue,
                radio_info: Some(
                    RadioInfo {
                        name: info_name,
                        ptt: false,
                        radios: default_radios(),
                        control: RadioSwitchControls::Hotas,
                        selected: 0,
                        unit: unit_name,
                        unit_id,
                        simultaneous_transmission: true,
                    },
                ),
                lat_lng_position: Some(pos),
            },
        ),
        msg_type: MsgType::RadioUpdate,
        server_settings: None,
        version: protocol_version(),
    }
}

fn push_ascii(v: &mut Vec<u8>, b: u8)
    ensures
        final(v)@ == old(v)@ + seq![b],
{
    v.push(b);
}

/// A radio update built from the latest game feed message: the game's
/// own radios, push-to-talk state, selection, unit binding and
/// position, under this session's id.
pub fn radio_message_from_game(client: &Client, game_message: &GameMessage) -> (r: Message)
    ensures
        game_radio_message_props(r, *client, *game_message),
{
    let mut radios: Vec<Radio> = Vec::new();
    let mut k: usize = 0;
    while k < game_message.radios.len()
        invariant
            k <= game_message.radios@.len(),
            radios@ == game_message.radios@.subrange(0, k as int),
        decreases game_message.radios@.len() - k,
    {
        radios.push(game_message.radios[k]);
        k = k + 1;
        proof {
            assert(game_message.radios@.subrange(0, k as int) =~= game_message.radios@.subrange(
                0,
                k - 1,
            ) + seq![game_message.radios@[k - 1]]);
        }
    }
    proof {
        assert(game_message.radios@.subrange(0, game_message.radios@.len() as int)
            =~= game_message.radios@);
    }
    Message {
        client: Some(
            MsgClient {
                client_guid: copy_bytes(client.sguid()),
                name: Some(copy_bytes(&game_message.name)),
                coalition: Coalition::Blue,
                radio_info: Some(
                    RadioInfo {
                        name: copy_bytes(&game_message.name),
                        ptt: game_message.ptt,
                        radios,
                        control: RadioSwitchControls::Hotas,
                        selected: game_message.selected,
                        unit: copy_bytes(&game_message.unit),
                        unit_id: game_message.unit_id,
                        simultaneous_transmission: true,
                    },
                ),
                lat_lng_position: Some(game_message.lat_lng_position),
            },
        ),
        msg_type: MsgType::RadioUpdate,
        server_settings: None,
        version: protocol_version(),
    }
}

} // verus!
