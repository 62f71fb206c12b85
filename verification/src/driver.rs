//! The session driver's decision core: a state machine from events
//! (inbound control messages, game-feed updates, timer ticks, outbound
//! audio, shutdown) to actions (send a control message, send a voice
//! datagram or a ping, fail, stop). The surrounding event loop owns
//! the sockets and timers; every decision it takes is made here.
use vstd::prelude::*;
use vstd::string::StringSliceAdditionalSpecFns;
use crate::client::Client;
use crate::message::{
    create_update_message, create_radio_update_message, create_sync_message, game_radio_message_props,
    radio_message_from_game, radio_update_message_props, sync_message_props, update_message_props,
    version_bytes, GameMessage, Message, Modulation, MsgType, SettingsEntry,
};
use crate::position::Position;
use crate::floatbits::{f64_bits_of, f64_bits_of_u64};
use crate::util::{bytes_eq, copy_bytes};
use crate::voice_codec::{packet_wf, Frequency, VoicePacket};

verus! {

/// Toggles the radio server advertises; they gate whether position
/// updates are worth sending.
#[derive(Clone, Copy, PartialEq, Eq, Structural, Debug)]
pub struct ServerSettings {
    pub los_enabled: bool,
    pub distance_enabled: bool,
}

/// Key of the line-of-sight toggle in a settings map.
pub open spec fn los_key() -> Seq<u8> {
    "LOS_ENABLED".spec_bytes()
}

/// Key of the distance toggle in a settings map.
pub open spec fn distance_key() -> Seq<u8> {
    "DISTANCE_ENABLED".spec_bytes()
}

/// The one value that enables line-of-sight gating: literally `True`.
/// The peer capitalizes this key's value; the comparison is
/// case-sensitive on purpose.
pub open spec fn los_on_value() -> Seq<u8> {
    "True".spec_bytes()
}

/// The one value that enables distance gating: literally `true`,
/// lower-case, unlike the line-of-sight value; the asymmetry mirrors
/// the peer and is deliberate.
pub open spec fn distance_on_value() -> Seq<u8> {
    "true".spec_bytes()
}

/// The value under `key` in a settings map: the first entry wins.
pub open spec fn lookup_value(entries: Seq<SettingsEntry>, key: Seq<u8>) -> Option<Seq<u8>>
    decreases entries.len(),
{
    if entries.len() == 0 {
        None
    } else if entries[0].key@ == key {
        Some(entries[0].value@)
    } else {
        lookup_value(entries.skip(1), key)
    }
}

/// The first entry under `key`, by linear scan.
fn find_value<'a>(entries: &'a Vec<SettingsEntry>, key: &[u8]) -> (r: Option<&'a Vec<u8>>)
    ensures
        match r {
            Some(v) => lookup_value(entries@, key@) == Some(v@),
            None => lookup_value(entries@, key@) is None,
        },
{
    let mut i: usize = 0;
    proof {
        assert(entries@.skip(0) =~= entries@);
    }
    while i < entries.len()
        invariant
            i <= entries@.len(),
            lookup_value(entries@, key@) == lookup_value(entries@.skip(i as int), key@),
        decreases entries@.len() - i,
    {
        proof {
            assert(entries@.skip(i as int)[0] == entries@[i as int]);
            assert(entries@.skip(i as int).skip(1) =~= entries@.skip(i + 1));
        }
        if bytes_eq(entries[i].key.as_slice(), key) {
            return Some(&entries[i].value);
        }
        i = i + 1;
    }
    proof {
        assert(entries@.skip(entries@.len() as int) =~= Seq::<SettingsEntry>::empty());
    }
    None
}

/// The settings after latching a settings map: each flag is on exactly
/// when its key carries its one enabling value, in that value's exact
/// casing.
pub open spec fn settings_after(entries: Seq<SettingsEntry>) -> ServerSettings {
    ServerSettings {
        los_enabled: lookup_value(entries, los_key()) == Some(los_on_value()),
        distance_enabled: lookup_value(entries, distance_key()) == Some(distance_on_value()),
    }
}

/// Latches both flags from a settings map.
pub fn apply_server_settings(entries: &Vec<SettingsEntry>) -> (r: ServerSettings)
    ensures
        r == settings_after(entries@),
{
    let los = match find_value(entries, "LOS_ENABLED".as_bytes()) {
        Some(v) => bytes_eq(v.as_slice(), "True".as_bytes()),
        None => false,
    };
    let distance = match find_value(entries, "DISTANCE_ENABLED".as_bytes()) {
        Some(v) => bytes_eq(v.as_slice(), "true".as_bytes()),
        None => false,
    };
    ServerSettings { los_enabled: los, distance_enabled: distance }
}

/// The packet id that follows `n`: one more, wrapping to zero past the
/// largest 64-bit value.
pub open spec fn wrap_inc(n: u64) -> u64 {
    if n == 0xffff_ffff_ffff_ffff {
        0
    } else {
        (n + 1) as u64
    }
}

/// An event the driver loop waits on.
pub enum DriverEvent {
    /// A decoded inbound control message.
    Control(Message),
    /// A buffered message from the game feed.
    Game(GameMessage),
    /// The position-update timer fired; carries a fresh snapshot of
    /// the shared position.
    PositionTick(Position),
    /// The game-relay timer fired.
    GameTick,
    /// The voice keep-alive timer fired.
    PingTick,
    /// One chunk of synthesized audio was submitted to the voice sink.
    Voice(Vec<u8>),
    /// The shutdown signal fired.
    Shutdown,
}

/// A session-terminating failure.
pub enum SessionError {
    /// The server speaks another protocol version; both versions are
    /// carried so the caller can report them verbatim.
    VersionMismatch { ours: Vec<u8>, theirs: Vec<u8> },
}

/// What the driver loop must do next.
pub enum DriverAction {
    /// Nothing.
    Idle,
    /// Write this message on the TCP channel, newline-framed.
    SendControl(Message),
    /// Frame and send this packet on the UDP channel.
    SendVoice(VoicePacket),
    /// Send these 22 bytes as a UDP keep-alive.
    SendPing(Vec<u8>),
    /// Terminate the session with this error.
    Fail(SessionError),
    /// Terminate the session quietly.
    Stop,
}

/// The driver's own mutable state between events.
pub struct SessionDriver {
    /// Latest settings the server advertised.
    pub settings: ServerSettings,
    /// Id for the next outbound voice packet.
    pub packet_id: u64,
    /// Position carried by the last position update that was sent.
    pub last_pos: Position,
    /// Latest buffered game-feed message.
    pub last_game_msg: Option<GameMessage>,
    /// Whether the session was created with a game feed, and hence
    /// wants to receive voice and keep its NAT mapping alive.
    pub recv_voice: bool,
}

/// Largest audio chunk one datagram can carry beside its single
/// frequency entry.
pub const MAX_AUDIO_LEN: usize = 65462;

impl SessionDriver {
    /// A fresh driver: both flags off, packet ids from one, nothing
    /// buffered, the initial position on record.
    pub fn new(has_game_source: bool, initial_pos: Position) -> (r: Self)
        ensures
            r.settings == (ServerSettings { los_enabled: false, distance_enabled: false }),
            r.packet_id == 1,
            r.last_pos == initial_pos,
            r.last_game_msg is None,
            r.recv_voice == has_game_source,
    {
        SessionDriver {
            settings: ServerSettings { los_enabled: false, distance_enabled: false },
            packet_id: 1,
            last_pos: initial_pos,
            last_game_msg: None,
            recv_voice: has_game_source,
        }
    }

    /// The two messages that open every session, in order: first the
    /// sync message, then the full radio update.
    pub fn handshake(&self, client: &Client, pos: Position) -> (r: (Message, Message))
        ensures
            sync_message_props(r.0, *client, pos),
            radio_update_message_props(r.1, *client, pos),
    {
        (create_sync_message(client, pos), create_radio_update_message(client, pos))
    }

    /// One step of the driver loop: reacts to `ev` and says what to do.
    pub fn step(&mut self, client: &Client, ev: DriverEvent) -> (a: DriverAction)
        requires
            client.wf(),
            ev matches DriverEvent::Voice(audio) ==> audio@.len() <= MAX_AUDIO_LEN as nat,
        ensures
            match ev {
                DriverEvent::Control(msg) => {
                    &&& final(self).settings == match msg.server_settings {
                        Some(entries) => settings_after(entries@),
                        None => old(self).settings,
                    }
                    &&& match msg.msg_type {
                        MsgType::VersionMismatch => a matches DriverAction::Fail(
                            SessionError::VersionMismatch { ours, theirs },
                        ) && ours@ == version_bytes() && theirs@ == msg.version@,
                        _ => a is Idle,
                    }
                    &&& final(self).packet_id == old(self).packet_id
                    &&& final(self).last_pos == old(self).last_pos
                    &&& final(self).last_game_msg == old(self).last_game_msg
                    &&& final(self).recv_voice == old(self).recv_voice
                },
                DriverEvent::Game(gm) => {
                    &&& a is Idle
                    &&& final(self).last_game_msg == Some(gm)
                    &&& final(self).settings == old(self).settings
                    &&& final(self).packet_id == old(self).packet_id
                    &&& final(self).last_pos == old(self).last_pos
                    &&& final(self).recv_voice == old(self).recv_voice
                },
                DriverEvent::PositionTick(p) => {
                    &&& if !old(self).recv_voice && (old(self).settings.los_enabled || old(
                        self,
                    ).settings.distance_enabled) && p != old(self).last_pos {
                        &&& a matches DriverAction::SendControl(m) && update_message_props(
                            m,
                            *client,
                            p,
                        )
                        &&& final(self).last_pos == p
                    } else {
                        &&& a is Idle
                        &&& final(self).last_pos == old(self).last_pos
                    }
                    &&& final(self).settings == old(self).settings
                    &&& final(self).packet_id == old(self).packet_id
                    &&& final(self).last_game_msg == old(self).last_game_msg
                    &&& final(self).recv_voice == old(self).recv_voice
                },
                DriverEvent::GameTick => {
                    &&& match old(self).last_game_msg {
                        Some(gm) => a matches DriverAction::SendControl(m)
                            && game_radio_message_props(m, *client, gm),
                        None => a is Idle,
                    }
                    &&& final(self).settings == old(self).settings
                    &&& final(self).packet_id == old(self).packet_id
                    &&& final(self).last_pos == old(self).last_pos
                    &&& final(self).last_game_msg == old(self).last_game_msg
                    &&& final(self).recv_voice == old(self).recv_voice
                },
                DriverEvent::PingTick => {
                    &&& if old(self).recv_voice {
                        a matches DriverAction::SendPing(s) && s@ == client.spec_sguid()
                    } else {
                        a is Idle
                    }
                    &&& *final(self) == *old(self)
                },
                DriverEvent::Voice(audio) => {
                    &&& a matches DriverAction::SendVoice(p) && {
                        &&& packet_wf(p@)
                        &&& p@.audio_part == audio@
                        &&& p@.frequencies.len() == 1
                        &&& p@.frequencies[0].freq_bits == f64_bits_of(client.spec_freq())
                        &&& p@.frequencies[0].modulation == (if client.spec_m()
                            == "FM".spec_bytes() {
                            Modulation::FM
                        } else {
                            Modulation::AM
                        })
                        &&& p@.frequencies[0].encryption == 0
                        &&& p@.unit_id == match client.spec_unit() {
                            Some(u) => u.id,
                            None => 0u32,
                        }
                        &&& p@.packet_id == old(self).packet_id
                        &&& p@.hop_count == 0
                        &&& p@.transmission_sguid == client.spec_sguid()
                        &&& p@.client_sguid == client.spec_sguid()
                    }
                    &&& final(self).packet_id == wrap_inc(old(self).packet_id)
                    &&& final(self).settings == old(self).settings
                    &&& final(self).last_pos == old(self).last_pos
                    &&& final(self).last_game_msg == old(self).last_game_msg
                    &&& final(self).recv_voice == old(self).recv_voice
                },
                DriverEvent::Shutdown => {
                    &&& a is Stop
                    &&& *final(self) == *old(self)
                },
            },
    {
        match ev {
            DriverEvent::Control(msg) => {
                if let Some(entries) = &msg.server_settings {
                    self.settings = apply_server_settings(entries);
                }
                match msg.msg_type {
                    MsgType::VersionMismatch => DriverAction::Fail(
                        SessionError::VersionMismatch {
                            ours: crate::message::protocol_version(),
                            theirs: msg.version,
                        },
                    ),
                    _ => DriverAction::Idle,
                }
            },
            DriverEvent::Game(gm) => {
                self.last_game_msg = Some(gm);
                DriverAction::Idle
            },
            DriverEvent::PositionTick(p) => {
                if !self.recv_voice && (self.settings.los_enabled || self.settings.distance_enabled)
                    && !position_eq(p, self.last_pos) {
                    self.last_pos = p;
                    DriverAction::SendControl(create_update_message(client, p))
                } else {
                    DriverAction::Idle
                }
            },
            DriverEvent::GameTick => {
                match &self.last_game_msg {
                    Some(gm) => DriverAction::SendControl(radio_message_from_game(client, gm)),
                    None => DriverAction::Idle,
                }
            },
            DriverEvent::PingTick => {
                if self.recv_voice {
                    DriverAction::SendPing(copy_bytes(client.sguid()))
                } else {
                    DriverAction::Idle
                }
            },
            DriverEvent::Voice(audio) => {
                let modulation = if bytes_eq(client.m().as_slice(), "FM".as_bytes()) {
                    Modulation::FM
                } else {
                    Modulation::AM
                };
                let mut frequencies: Vec<Frequency> = Vec::new();
                frequencies.push(
                    Frequency {
                        freq_bits: f64_bits_of_u64(client.freq()),
                        modulation,
                        encryption: 0,
                    },
                );
                let unit_id = match client.unit() {
                    Some(u) => u.id,
                    None => 0,
                };
                let packet = VoicePacket {
                    audio_part: audio,
                    frequencies,
                    unit_id,
                    packet_id: self.packet_id,
                    hop_count: 0,
                    transmission_sguid: copy_bytes(client.sguid()),
                    client_sguid: copy_bytes(client.sguid()),
                };
                self.packet_id = if self.packet_id == 0xffff_ffff_ffff_ffff {
                    0
                } else {
                    self.packet_id + 1
                };
                DriverAction::SendVoice(packet)
            },
            DriverEvent::Shutdown => DriverAction::Stop,
        }
    }
}

/// Whole-record position equality.
fn position_eq(a: Position, b: Position) -> (r: bool)
    ensures
        r == (a == b),
{
    let same = a.lat_micro == b.lat_micro && a.lon_micro == b.lon_micro && a.alt_micro
        == b.alt_micro;
    proof {
        if same {
            assert(a == b);
        }
    }
    same
}

/// Law: the session id is stable and 22 bytes long — every control
/// message built from a well-formed session carries exactly the
/// session's own id as its guid, whatever the payload and position.
pub proof fn lemma_session_id_stable(m: Message, c: Client, pos: Position)
    requires
        c.wf(),
        crate::message::message_of_client(m, c, pos),
    ensures
        m.client->0.client_guid@ == c.spec_sguid(),
        m.client->0.client_guid@.len() == 22,
{
}

/// The id stamped on the k-th voice packet of a session, counting from
/// zero: ids start at one and wrap past the largest 64-bit value.
pub open spec fn packet_id_after(k: nat) -> u64
    decreases k,
{
    if k == 0 {
        1
    } else {
        wrap_inc(packet_id_after((k - 1) as nat))
    }
}

/// Law: voice packet ids are strictly increasing modulo two to the
/// 64th, starting at one — the id of the k-th emitted packet is
/// `1 + k` reduced modulo two to the 64th, so consecutive packets
/// differ by exactly one, wrapping.
pub proof fn lemma_packet_id_sequence(k: nat)
    ensures
        packet_id_after(k) as nat == (1 + k) % 0x1_0000_0000_0000_0000,
    decreases k,
{
    if k > 0 {
        lemma_packet_id_sequence((k - 1) as nat);
    }
}

} // verus!
