//! Binary framing of voice packets for the UDP channel. All integers
//! are little-endian; each datagram carries exactly one packet:
//! a two-byte total length, two-byte audio length, two-byte
//! frequencies-block length, the audio bytes, the ten-byte frequency
//! entries, then unit id, packet id, hop count and the two 22-byte
//! session ids.
use vstd::prelude::*;
use crate::message::Modulation;
use crate::util::push_bytes;

verus! {

/// One frequency entry of a voice packet: the transmission frequency
/// as the raw bit pattern of a 64-bit float in hertz, the modulation
/// byte, and the encryption byte (zero means no encryption).
#[derive(Clone, Copy, PartialEq, Eq, Structural, Debug)]
pub struct Frequency {
    pub freq_bits: u64,
    pub modulation: Modulation,
    pub encryption: u8,
}

/// A voice packet as carried in one UDP datagram.
#[derive(Debug, PartialEq)]
pub struct VoicePacket {
    pub audio_part: Vec<u8>,
    pub frequencies: Vec<Frequency>,
    pub unit_id: u32,
    pub packet_id: u64,
    pub hop_count: u8,
    pub transmission_sguid: Vec<u8>,
    pub client_sguid: Vec<u8>,
}

/// The mathematical shape of a voice packet.
pub struct VoicePacketModel {
    pub audio_part: Seq<u8>,
    pub frequencies: Seq<Frequency>,
    pub unit_id: u32,
    pub packet_id: u64,
    pub hop_count: u8,
    pub transmission_sguid: Seq<u8>,
    pub client_sguid: Seq<u8>,
}

impl View for VoicePacket {
    type V = VoicePacketModel;

    open spec fn view(&self) -> VoicePacketModel {
        VoicePacketModel {
            audio_part: self.audio_part@,
            frequencies: self.frequencies@,
            unit_id: self.unit_id,
            packet_id: self.packet_id,
            hop_count: self.hop_count,
            transmission_sguid: self.transmission_sguid@,
            client_sguid: self.client_sguid@,
        }
    }
}

/// A packet the codec can frame: both session ids are 22 bytes and the
/// whole datagram fits the two-byte length field.
pub open spec fn packet_wf(p: VoicePacketModel) -> bool {
    &&& p.transmission_sguid.len() == 22
    &&& p.client_sguid.len() == 22
    &&& 63 + p.audio_part.len() + 10 * p.frequencies.len() <= 65535
}

/// Wire byte of a modulation kind.
pub open spec fn modulation_byte(m: Modulation) -> u8 {
    match m {
        Modulation::AM => 0u8,
        Modulation::FM => 1u8,
    }
}

/// Modulation kind of a wire byte; bytes above one are not a
/// modulation this client knows.
pub open spec fn parse_modulation(b: u8) -> Option<Modulation> {
    if b == 0 {
        Some(Modulation::AM)
    } else if b == 1 {
        Some(Modulation::FM)
    } else {
        None
    }
}

/// Little-endian bytes of a 16-bit value.
pub open spec fn u16_le(n: u16) -> Seq<u8> {
    seq![(n & 0xff) as u8, ((n >> 8) & 0xff) as u8]
}

/// Little-endian bytes of a 32-bit value.
pub open spec fn u32_le(n: u32) -> Seq<u8> {
    seq![
        (n & 0xff) as u8,
        ((n >> 8) & 0xff) as u8,
        ((n >> 16) & 0xff) as u8,
        ((n >> 24) & 0xff) as u8,
    ]
}

/// Little-endian bytes of a 64-bit value.
pub open spec fn u64_le(n: u64) -> Seq<u8> {
    seq![
        (n & 0xff) as u8,
        ((n >> 8) & 0xff) as u8,
        ((n >> 16) & 0xff) as u8,
        ((n >> 24) & 0xff) as u8,
        ((n >> 32) & 0xff) as u8,
        ((n >> 40) & 0xff) as u8,
        ((n >> 48) & 0xff) as u8,
        ((n >> 56) & 0xff) as u8,
    ]
}

/// The 16-bit value whose little-endian bytes sit at `i` in `s`.
pub open spec fn u16_at(s: Seq<u8>, i: int) -> u16 {
    (s[i] as u16) | ((s[i + 1] as u16) << 8)
}

/// The 32-bit value whose little-endian bytes sit at `i` in `s`.
pub open spec fn u32_at(s: Seq<u8>, i: int) -> u32 {
    (s[i] as u32) | ((s[i + 1] as u32) << 8) | ((s[i + 2] as u32) << 16) | ((s[i + 3] as u32)
        << 24)
}

/// The 64-bit value whose little-endian bytes sit at `i` in `s`.
pub open spec fn u64_at(s: Seq<u8>, i: int) -> u64 {
    (s[i] as u64) | ((s[i + 1] as u64) << 8) | ((s[i + 2] as u64) << 16) | ((s[i + 3] as u64)
        << 24) | ((s[i + 4] as u64) << 32) | ((s[i + 5] as u64) << 40) | ((s[i + 6] as u64) << 48)
        | ((s[i + 7] as u64) << 56)
}

/// Reading back the little-endian bytes of a 16-bit value yields it.
pub proof fn lemma_u16_le_at(n: u16, s: Seq<u8>, i: int)
    requires
        0 <= i,
        i + 2 <= s.len(),
        s.subrange(i, i + 2) == u16_le(n),
    ensures
        u16_at(s, i) == n,
{
    assert(s[i] == u16_le(n)[0] && s[i + 1] == u16_le(n)[1]) by {
        assert(s.subrange(i, i + 2)[0] == s[i]);
        assert(s.subrange(i, i + 2)[1] == s[i + 1]);
    }
    let b0 = (n & 0xff) as u8;
    let b1 = ((n >> 8) & 0xff) as u8;
    assert((b0 as u16) | ((b1 as u16) << 8) == n) by (bit_vector)
        requires
            b0 == (n & 0xff) as u8 && b1 == ((n >> 8) & 0xff) as u8,
    ;
}

/// Reading back the little-endian bytes of a 32-bit value yields it.
pub proof fn lemma_u32_le_at(n: u32, s: Seq<u8>, i: int)
    requires
        0 <= i,
        i + 4 <= s.len(),
        s.subrange(i, i + 4) == u32_le(n),
    ensures
        u32_at(s, i) == n,
{
    assert(forall|k: int| 0 <= k < 4 ==> s[i + k] == #[trigger] u32_le(n)[k]) by {
        assert(forall|k: int| 0 <= k < 4 ==> #[trigger] s.subrange(i, i + 4)[k] == s[i + k]);
    }
    let b0 = (n & 0xff) as u8;
    let b1 = ((n >> 8) & 0xff) as u8;
    let b2 = ((n >> 16) & 0xff) as u8;
    let b3 = ((n >> 24) & 0xff) as u8;
    assert((b0 as u32) | ((b1 as u32) << 8) | ((b2 as u32) << 16) | ((b3 as u32) << 24) == n)
        by (bit_vector)
        requires
            b0 == (n & 0xff) as u8 && b1 == ((n >> 8) & 0xff) as u8 && b2 == ((n >> 16)
                & 0xff) as u8 && b3 == ((n >> 24) & 0xff) as u8,
    ;
}

/// Reading back the little-endian bytes of a 64-bit value yields it.
pub proof fn lemma_u64_le_at(n: u64, s: Seq<u8>, i: int)
    requires
        0 <= i,
        i + 8 <= s.len(),
        s.subrange(i, i + 8) == u64_le(n),
    ensures
        u64_at(s, i) == n,
{
    assert(forall|k: int| 0 <= k < 8 ==> s[i + k] == #[trigger] u64_le(n)[k]) by {
        assert(forall|k: int| 0 <= k < 8 ==> #[trigger] s.subrange(i, i + 8)[k] == s[i + k]);
    }
    let b0 = (n & 0xff) as u8;
    let b1 = ((n >> 8) & 0xff) as u8;
    let b2 = ((n >> 16) & 0xff) as u8;
    let b3 = ((n >> 24) & 0xff) as u8;
    let b4 = ((n >> 32) & 0xff) as u8;
    let b5 = ((n >> 40) & 0xff) as u8;
    let b6 = ((n >> 48) & 0xff) as u8;
    let b7 = ((n >> 56) & 0xff) as u8;
    assert((b0 as u64) | ((b1 as u64) << 8) | ((b2 as u64) << 16) | ((b3 as u64) << 24) | ((
    b4 as u64) << 32) | ((b5 as u64) << 40) | ((b6 as u64) << 48) | ((b7 as u64) << 56) == n)
        by (bit_vector)
        requires
            b0 == (n & 0xff) as u8 && b1 == ((n >> 8) & 0xff) as u8 && b2 == ((n >> 16)
                & 0xff) as u8 && b3 == ((n >> 24) & 0xff) as u8 && b4 == ((n >> 32) & 0xff) as u8
                && b5 == ((n >> 40) & 0xff) as u8 && b6 == ((n >> 48) & 0xff) as u8 && b7 == ((n
                >> 56) & 0xff) as u8,
    ;
}

/// Wire bytes of one frequency entry.
pub open spec fn frequency_bytes(f: Frequency) -> Seq<u8> {
    u64_le(f.freq_bits) + seq![modulation_byte(f.modulation), f.encryption]
}

/// Wire bytes of a run of frequency entries.
pub open spec fn frequencies_bytes(fs: Seq<Frequency>) -> Seq<u8>
    decreases fs.len(),
{
    if fs.len() == 0 {
        Seq::empty()
    } else {
        frequency_bytes(fs[0]) + frequencies_bytes(fs.skip(1))
    }
}

/// Appending one entry extends the byte run at its end.
pub proof fn lemma_frequencies_bytes_push(fs: Seq<Frequency>, f: Frequency)
    ensures
        frequencies_bytes(fs + seq![f]) == frequencies_bytes(fs) + frequency_bytes(f),
    decreases fs.len(),
{
    if fs.len() == 0 {
        assert(fs + seq![f] =~= seq![f]);
        assert(frequencies_bytes(seq![f]) == frequency_bytes(f) + frequencies_bytes(
            seq![f].skip(1),
        ));
        assert(seq![f].skip(1) =~= Seq::<Frequency>::empty());
        assert(frequencies_bytes(fs) + frequency_bytes(f) =~= frequency_bytes(f)
            + Seq::<u8>::empty());
    } else {
        lemma_frequencies_bytes_push(fs.skip(1), f);
        assert((fs + seq![f]).skip(1) =~= fs.skip(1) + seq![f]);
        assert((fs + seq![f])[0] == fs[0]);
        assert(frequencies_bytes(fs + seq![f]) == frequency_bytes(fs[0]) + (frequencies_bytes(
            fs.skip(1),
        ) + frequency_bytes(f)));
        assert(frequency_bytes(fs[0]) + (frequencies_bytes(fs.skip(1)) + frequency_bytes(f))
            =~= (frequency_bytes(fs[0]) + frequencies_bytes(fs.skip(1))) + frequency_bytes(f));
    }
}

/// Each entry is ten bytes.
pub proof fn lemma_frequencies_bytes_len(fs: Seq<Frequency>)
    ensures
        frequencies_bytes(fs).len() == 10 * fs.len(),
    decreases fs.len(),
{
    if fs.len() > 0 {
        lemma_frequencies_bytes_len(fs.skip(1));
    }
}

/// The whole datagram for a packet: length header, audio, frequency
/// entries, unit id, packet id, hop count and the two session ids.
pub open spec fn spec_encode_voice(p: VoicePacketModel) -> Seq<u8> {
    let alen = p.audio_part.len();
    let flen = 10 * p.frequencies.len();
    let total = 63 + alen + flen;
    u16_le(total as u16) + u16_le(alen as u16) + u16_le(flen as u16) + p.audio_part
        + frequencies_bytes(p.frequencies) + u32_le(p.unit_id) + u64_le(p.packet_id)
        + seq![p.hop_count] + p.transmission_sguid + p.client_sguid
}

/// Frequency entries parsed from `n` ten-byte records at offset `i`.
pub open spec fn parse_frequencies(s: Seq<u8>, i: int, n: nat) -> Option<Seq<Frequency>>
    decreases n,
{
    if n == 0 {
        Some(Seq::empty())
    } else {
        match parse_modulation(s[i + 8]) {
            None => None,
            Some(md) => match parse_frequencies(s, i + 10, (n - 1) as nat) {
                None => None,
                Some(rest) => Some(
                    seq![
                        Frequency {
                            freq_bits: u64_at(s, i),
                            modulation: md,
                            encryption: s[i + 9],
                        },
                    ] + rest,
                ),
            },
        }
    }
}

/// The packet a datagram holds, if its framing is sound: the declared
/// total is available and consistent with the section lengths, the
/// frequency block is whole ten-byte entries, and each modulation byte
/// is known.
pub open spec fn spec_decode_voice(s: Seq<u8>) -> Option<VoicePacketModel> {
    if s.len() < 6 {
        None
    } else {
        let total = u16_at(s, 0) as int;
        let alen = u16_at(s, 2) as int;
        let flen = u16_at(s, 4) as int;
        if s.len() < total || total != 63 + alen + flen || flen % 10 != 0 {
            None
        } else {
            match parse_frequencies(s, 6 + alen, (flen / 10) as nat) {
                None => None,
                Some(fs) => {
                    let off = 6 + alen + flen;
                    Some(
                        VoicePacketModel {
                            audio_part: s.subrange(6, 6 + alen),
                            frequencies: fs,
                            unit_id: u32_at(s, off),
                            packet_id: u64_at(s, off + 4),
                            hop_count: s[off + 12],
                            transmission_sguid: s.subrange(off + 13, off + 35),
                            client_sguid: s.subrange(off + 35, off + 57),
                        },
                    )
                },
            }
        }
    }
}

fn push_u16_le(v: &mut Vec<u8>, n: u16)
    ensures
        final(v)@ == old(v)@ + u16_le(n),
{
    proof {
        assert(n & 0xff < 256 && (n >> 8) & 0xff < 256) by (bit_vector);
    }
    v.push((n & 0xff) as u8);
    v.push(((n >> 8) & 0xff) as u8);
    proof {
        assert(v@ =~= old(v)@ + u16_le(n));
    }
}

fn push_u32_le(v: &mut Vec<u8>, n: u32)
    ensures
        final(v)@ == old(v)@ + u32_le(n),
{
    proof {
        assert(n & 0xff < 256 && (n >> 8) & 0xff < 256 && (n >> 16) & 0xff < 256 && (n >> 24)
            & 0xff < 256) by (bit_vector);
    }
    v.push((n & 0xff) as u8);
    v.push(((n >> 8) & 0xff) as u8);
    v.push(((n >> 16) & 0xff) as u8);
    v.push(((n >> 24) & 0xff) as u8);
    proof {
        assert(v@ =~= old(v)@ + u32_le(n));
    }
}

fn push_u64_le(v: &mut Vec<u8>, n: u64)
    ensures
        final(v)@ == old(v)@ + u64_le(n),
{
    proof {
        assert(n & 0xff < 256 && (n >> 8) & 0xff < 256 && (n >> 16) & 0xff < 256 && (n >> 24)
            & 0xff < 256 && (n >> 32) & 0xff < 256 && (n >> 40) & 0xff < 256 && (n >> 48) & 0xff
            < 256 && (n >> 56) & 0xff < 256) by (bit_vector);
    }
    v.push((n & 0xff) as u8);
    v.push(((n >> 8) & 0xff) as u8);
    v.push(((n >> 16) & 0xff) as u8);
    v.push(((n >> 24) & 0xff) as u8);
    v.push(((n >> 32) & 0xff) as u8);
    v.push(((n >> 40) & 0xff) as u8);
    v.push(((n >> 48) & 0xff) as u8);
    v.push(((n >> 56) & 0xff) as u8);
    proof {
        assert(v@ =~= old(v)@ + u64_le(n));
    }
}

fn modulation_to_byte(m: Modulation) -> (r: u8)
    ensures
        r == modulation_byte(m),
{
    match m {
        Modulation::AM => 0,
        Modulation::FM => 1,
    }
}

/// Frames `p` as one datagram. Encoding never fails on a well-formed
/// packet.
pub fn encode_voice(p: &VoicePacket) -> (r: Vec<u8>)
    requires
        packet_wf(p@),
    ensures
        r@ == spec_encode_voice(p@),
        r@.len() == 63 + p@.audio_part.len() + 10 * p@.frequencies.len(),
{
    proof {
        lemma_frequencies_bytes_len(p@.frequencies);
    }
    let alen = p.audio_part.len();
    let flen = 10 * p.frequencies.len();
    let total = 63 + alen + flen;
    let mut out: Vec<u8> = Vec::new();
    push_u16_le(&mut out, total as u16);
    push_u16_le(&mut out, alen as u16);
    push_u16_le(&mut out, flen as u16);
    push_bytes(&mut out, p.audio_part.as_slice());
    let mut k: usize = 0;
    let ghost header = out@;
    while k < p.frequencies.len()
        invariant
            k <= p.frequencies@.len(),
            out@ == header + frequencies_bytes(p.frequencies@.subrange(0, k as int)),
        decreases p.frequencies@.len() - k,
    {
        let f = p.frequencies[k];
        push_u64_le(&mut out, f.freq_bits);
        out.push(modulation_to_byte(f.modulation));
        out.push(f.encryption);
        proof {
            lemma_frequencies_bytes_push(p.frequencies@.subrange(0, k as int), f);
            assert(p.frequencies@.subrange(0, k + 1 as int) =~= p.frequencies@.subrange(
                0,
                k as int,
            ) + seq![f]);
            assert(out@ =~= header + (frequencies_bytes(p.frequencies@.subrange(0, k as int))
                + frequency_bytes(f)));
        }
        k = k + 1;
    }
    proof {
        assert(p.frequencies@.subrange(0, p.frequencies@.len() as int) =~= p.frequencies@);
    }
    push_u32_le(&mut out, p.unit_id);
    push_u64_le(&mut out, p.packet_id);
    out.push(p.hop_count);
    push_bytes(&mut out, p.transmission_sguid.as_slice());
    push_bytes(&mut out, p.client_sguid.as_slice());
    proof {
        assert(out@ =~= spec_encode_voice(p@));
    }
    out
}

fn read_u16(b: &[u8], i: usize) -> (r: u16)
    requires
        i + 2 <= b@.len(),
    ensures
        r == u16_at(b@, i as int),
{
    (b[i] as u16) | ((b[i + 1] as u16) << 8)
}

fn read_u32(b: &[u8], i: usize) -> (r: u32)
    requires
        i + 4 <= b@.len(),
    ensures
        r == u32_at(b@, i as int),
{
    (b[i] as u32) | ((b[i + 1] as u32) << 8) | ((b[i + 2] as u32) << 16) | ((b[i + 3] as u32)
        << 24)
}

fn read_u64(b: &[u8], i: usize) -> (r: u64)
    requires
        i + 8 <= b@.len(),
    ensures
        r == u64_at(b@, i as int),
{
    (b[i] as u64) | ((b[i + 1] as u64) << 8) | ((b[i + 2] as u64) << 16) | ((b[i + 3] as u64)
        << 24) | ((b[i + 4] as u64) << 32) | ((b[i + 5] as u64) << 40) | ((b[i + 6] as u64) << 48)
        | ((b[i + 7] as u64) << 56)
}

/// Unframes one datagram. Yields nothing whenever the datagram is
/// shorter than its declared length or the framing is inconsistent.
pub fn decode_voice(b: &[u8]) -> (r: Option<VoicePacket>)
    ensures
        match r {
            Some(p) => spec_decode_voice(b@) == Some(p@),
            None => spec_decode_voice(b@) is None,
        },
{
    if b.len() < 6 {
        return None;
    }
    let total = read_u16(b, 0) as usize;
    let alen = read_u16(b, 2) as usize;
    let flen = read_u16(b, 4) as usize;
    if b.len() < total {
        return None;
    }
    if total != 63 + alen + flen {
        return None;
    }
    if flen % 10 != 0 {
        return None;
    }
    let nfreq = flen / 10;
    let base = 6 + alen;
    let audio = vstd::slice::slice_to_vec(vstd::slice::slice_subrange(b, 6, base));
    let mut fs: Vec<Frequency> = Vec::new();
    let mut k: usize = 0;
    while k < nfreq
        invariant
            k <= nfreq,
            nfreq == flen / 10,
            flen % 10 == 0,
            base == 6 + alen,
            b@.len() >= total == 63 + alen + flen,
            total as int == u16_at(b@, 0) as int,
            alen as int == u16_at(b@, 2) as int,
            flen as int == u16_at(b@, 4) as int,
            fs@.len() == k,
            parse_frequencies(b@, base as int, nfreq as nat) == match parse_frequencies(
                b@,
                base + 10 * k,
                (nfreq - k) as nat,
            ) {
                Some(rest) => Some(fs@ + rest),
                None => None::<Seq<Frequency>>,
            },
        decreases nfreq - k,
    {
        let i = base + 10 * k;
        proof {
            assert(i + 10 <= base + flen) by (nonlinear_arith)
                requires
                    i == base + 10 * k,
                    k < nfreq,
                    nfreq == flen / 10,
                    flen % 10 == 0,
            ;
        }
        let mb = b[i + 8];
        let md = if mb == 0 {
            Modulation::AM
        } else if mb == 1 {
            Modulation::FM
        } else {
            proof {
                assert(parse_frequencies(b@, i as int, (nfreq - k) as nat) is None);
                assert(parse_frequencies(b@, base as int, nfreq as nat) is None);
                let salen = u16_at(b@, 2) as int;
                let sflen = u16_at(b@, 4) as int;
                assert(6 + salen == base as int && (sflen / 10) as nat == nfreq as nat);
                assert(spec_decode_voice(b@) is None);
            }
            return None;
        };
        let bits = read_u64(b, i);
        let entry = Frequency { freq_bits: bits, modulation: md, encryption: b[i + 9] };
        fs.push(entry);
        proof {
            let rest0 = parse_frequencies(b@, i + 10, (nfreq - k - 1) as nat);
            assert(parse_frequencies(b@, i as int, (nfreq - k) as nat) == match rest0 {
                Some(rest) => Some(seq![entry] + rest),
                None => None::<Seq<Frequency>>,
            });
            if rest0 is Some {
                assert(fs@ + rest0->0 =~= fs@.subrange(0, fs@.len() - 1) + (seq![entry]
                    + rest0->0));
            }
        }
        k = k + 1;
    }
    proof {
        assert(parse_frequencies(b@, base + 10 * nfreq, 0nat) == Some(Seq::<Frequency>::empty()));
        assert(fs@ + Seq::<Frequency>::empty() =~= fs@);
    }
    let off = base + flen;
    let unit_id = read_u32(b, off);
    let packet_id = read_u64(b, off + 4);
    let hop_count = b[off + 12];
    let transmission_sguid = vstd::slice::slice_to_vec(
        vstd::slice::slice_subrange(b, off + 13, off + 35),
    );
    let client_sguid = vstd::slice::slice_to_vec(
        vstd::slice::slice_subrange(b, off + 35, off + 57),
    );
    Some(
        VoicePacket {
            audio_part: audio,
            frequencies: fs,
            unit_id,
            packet_id,
            hop_count,
            transmission_sguid,
            client_sguid,
        },
    )
}

/// Frequency entries laid down by the encoder parse back to themselves.
proof fn lemma_parse_frequencies_of_bytes(s: Seq<u8>, i: int, fs: Seq<Frequency>)
    requires
        0 <= i,
        i + 10 * fs.len() <= s.len(),
        s.subrange(i, i + 10 * fs.len()) == frequencies_bytes(fs),
    ensures
        parse_frequencies(s, i, fs.len() as nat) == Some(fs),
    decreases fs.len(),
{
    lemma_frequencies_bytes_len(fs);
    if fs.len() == 0 {
        assert(parse_frequencies(s, i, 0nat) == Some(Seq::<Frequency>::empty()));
        assert(fs =~= Seq::<Frequency>::empty());
    } else {
        let head = frequency_bytes(fs[0]);
        let tail = frequencies_bytes(fs.skip(1));
        lemma_frequencies_bytes_len(fs.skip(1));
        assert(frequencies_bytes(fs) == head + tail);
        assert(forall|j: int|
            0 <= j < 10 * fs.len() ==> s[i + j] == #[trigger] frequencies_bytes(fs)[j]) by {
            assert(forall|j: int|
                0 <= j < 10 * fs.len() ==> #[trigger] s.subrange(i, i + 10 * fs.len())[j] == s[i
                    + j]);
        }
        assert(s.subrange(i, i + 8) =~= u64_le(fs[0].freq_bits));
        lemma_u64_le_at(fs[0].freq_bits, s, i);
        assert(frequencies_bytes(fs)[8] == modulation_byte(fs[0].modulation));
        assert(frequencies_bytes(fs)[9] == fs[0].encryption);
        assert(s[i + 8] == modulation_byte(fs[0].modulation));
        assert(parse_modulation(modulation_byte(fs[0].modulation)) == Some(fs[0].modulation));
        assert(s[i + 9] == fs[0].encryption);
        assert(s.subrange(i + 10, i + 10 + 10 * fs.skip(1).len()) =~= frequencies_bytes(
            fs.skip(1),
        )) by {
            assert(forall|j: int|
                0 <= j < 10 * fs.skip(1).len() ==> #[trigger] frequencies_bytes(fs.skip(1))[j]
                    == frequencies_bytes(fs)[10 + j]);
            assert(forall|j: int|
                0 <= j < 10 * fs.skip(1).len() ==> s[i + 10 + j] == #[trigger] frequencies_bytes(
                    fs,
                )[10 + j]);
        }
        lemma_parse_frequencies_of_bytes(s, i + 10, fs.skip(1));
        assert(parse_frequencies(s, i, fs.len() as nat) == Some(
            seq![
                Frequency {
                    freq_bits: u64_at(s, i),
                    modulation: fs[0].modulation,
                    encryption: s[i + 9],
                },
            ] + fs.skip(1),
        ));
        assert(seq![fs[0]] + fs.skip(1) =~= fs);
    }
}

/// Unframing a framed well-formed packet yields the packet back.
pub proof fn lemma_voice_round_trip(p: VoicePacketModel)
    requires
        packet_wf(p),
    ensures
        spec_decode_voice(spec_encode_voice(p)) == Some(p),
{
    let alen = p.audio_part.len() as int;
    let flen = 10 * p.frequencies.len() as int;
    let total = 63 + alen + flen;
    let e = spec_encode_voice(p);
    lemma_frequencies_bytes_len(p.frequencies);
    assert(e.len() == total);
    assert(e.subrange(0, 2) =~= u16_le(total as u16));
    assert(e.subrange(2, 4) =~= u16_le(alen as u16));
    assert(e.subrange(4, 6) =~= u16_le(flen as u16));
    lemma_u16_le_at(total as u16, e, 0);
    lemma_u16_le_at(alen as u16, e, 2);
    lemma_u16_le_at(flen as u16, e, 4);
    assert(u16_at(e, 0) as int == total);
    assert(u16_at(e, 2) as int == alen);
    assert(u16_at(e, 4) as int == flen);
    assert(flen % 10 == 0);
    assert(flen / 10 == p.frequencies.len());
    assert(e.subrange(6, 6 + alen) =~= p.audio_part);
    assert(e.subrange(6 + alen, 6 + alen + flen) =~= frequencies_bytes(p.frequencies));
    lemma_parse_frequencies_of_bytes(e, 6 + alen, p.frequencies);
    let off = 6 + alen + flen;
    assert(e.subrange(off, off + 4) =~= u32_le(p.unit_id));
    lemma_u32_le_at(p.unit_id, e, off);
    assert(e.subrange(off + 4, off + 12) =~= u64_le(p.packet_id));
    lemma_u64_le_at(p.packet_id, e, off + 4);
    assert(e[off + 12] == p.hop_count);
    assert(e.subrange(off + 13, off + 35) =~= p.transmission_sguid);
    assert(e.subrange(off + 35, off + 57) =~= p.client_sguid);
}

} // verus!

