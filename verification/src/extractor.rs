//! The mission directive grammar: station directives read from unit
//! display names and from the mission briefing text. Anchored forms
//! (matched case-insensitively against a whole name):
//!
//! ```text
//! ATIS      <Name> <FreqMHz> [ , TRAFFIC <FreqMHz> ] [ , VOICE <VoiceSpec> ]
//! CARRIER   <Name> <FreqMHz>                         [ , VOICE <VoiceSpec> ]
//! WEATHER   <Name> <FreqMHz>                         [ , VOICE <VoiceSpec> ]
//! BROADCAST        <FreqMHz> [ , VOICE <VoiceSpec> ] : <message>
//! ```
//!
//! The briefing-wide scan finds, case-sensitively and anywhere in the
//! text, `ATIS <Name> <FreqMHz>` and `TRAFFIC <Name> <FreqMHz>` (the
//! traffic name admits no spaces). A frequency is whole or fractional
//! megahertz with at most three decimals, converted exactly to hertz.
use vstd::prelude::*;
use crate::util::{bytes_eq, push_bytes};
use vstd::slice::{slice_subrange, slice_to_vec};

verus! {

/// A text-to-speech voice choice: the cloud provider and its voice
/// name, taken verbatim from the directive.
#[derive(Debug, PartialEq, Eq)]
pub enum TtsProvider {
    GoogleCloud { voice: Vec<u8> },
    AmazonWebServices { voice: Vec<u8> },
}

/// Mathematical shape of a voice choice.
pub enum TtsProviderModel {
    GoogleCloud { voice: Seq<u8> },
    AmazonWebServices { voice: Seq<u8> },
}

impl View for TtsProvider {
    type V = TtsProviderModel;

    open spec fn view(&self) -> TtsProviderModel {
        match self {
            TtsProvider::GoogleCloud { voice } => TtsProviderModel::GoogleCloud { voice: voice@ },
            TtsProvider::AmazonWebServices { voice } => TtsProviderModel::AmazonWebServices {
                voice: voice@,
            },
        }
    }
}

/// A parsed station directive: station name, its frequency in hertz,
/// an optional traffic frequency, an optional voice.
#[derive(Debug, PartialEq, Eq)]
pub struct StationConfig {
    pub name: Vec<u8>,
    pub atis: u64,
    pub traffic: Option<u64>,
    pub tts: Option<TtsProvider>,
}

/// Mathematical shape of a station directive.
pub struct StationConfigModel {
    pub name: Seq<u8>,
    pub atis: u64,
    pub traffic: Option<u64>,
    pub tts: Option<TtsProviderModel>,
}

impl View for StationConfig {
    type V = StationConfigModel;

    open spec fn view(&self) -> StationConfigModel {
        StationConfigModel {
            name: self.name@,
            atis: self.atis,
            traffic: self.traffic,
            tts: match self.tts {
                Some(t) => Some(t@),
                None => None,
            },
        }
    }
}

/// A parsed broadcast directive: frequency, spoken message, optional
/// voice.
#[derive(Debug, PartialEq, Eq)]
pub struct BroadcastConfig {
    pub freq: u64,
    pub message: Vec<u8>,
    pub tts: Option<TtsProvider>,
}

/// Mathematical shape of a broadcast directive.
pub struct BroadcastConfigModel {
    pub freq: u64,
    pub message: Seq<u8>,
    pub tts: Option<TtsProviderModel>,
}

impl View for BroadcastConfig {
    type V = BroadcastConfigModel;

    open spec fn view(&self) -> BroadcastConfigModel {
        BroadcastConfigModel {
            freq: self.freq,
            message: self.message@,
            tts: match self.tts {
                Some(t) => Some(t@),
                None => None,
            },
        }
    }
}

/// A parsed weather-station directive.
#[derive(Debug, PartialEq, Eq)]
pub struct WetherStationConfig {
    pub name: Vec<u8>,
    pub freq: u64,
    pub tts: Option<TtsProvider>,
}

/// Mathematical shape of a weather-station directive.
pub struct WetherStationConfigModel {
    pub name: Seq<u8>,
    pub freq: u64,
    pub tts: Option<TtsProviderModel>,
}

impl View for WetherStationConfig {
    type V = WetherStationConfigModel;

    open spec fn view(&self) -> WetherStationConfigModel {
        WetherStationConfigModel {
            name: self.name@,
            freq: self.freq,
            tts: match self.tts {
                Some(t) => Some(t@),
                None => None,
            },
        }
    }
}

/// The keyword bytes `ATIS `.
pub open spec fn atis_kw() -> Seq<u8> {
    seq![65u8, 84u8, 73u8, 83u8, 32u8]
}

/// The keyword bytes `CARRIER `.
pub open spec fn carrier_kw() -> Seq<u8> {
    seq![67u8, 65u8, 82u8, 82u8, 73u8, 69u8, 82u8, 32u8]
}

/// The keyword bytes `WEATHER `.
pub open spec fn weather_kw() -> Seq<u8> {
    seq![87u8, 69u8, 65u8, 84u8, 72u8, 69u8, 82u8, 32u8]
}

/// The keyword bytes `BROADCAST `.
pub open spec fn broadcast_kw() -> Seq<u8> {
    seq![66u8, 82u8, 79u8, 65u8, 68u8, 67u8, 65u8, 83u8, 84u8, 32u8]
}

/// The keyword bytes `TRAFFIC `.
pub open spec fn traffic_kw() -> Seq<u8> {
    seq![84u8, 82u8, 65u8, 70u8, 70u8, 73u8, 67u8, 32u8]
}

/// The keyword bytes `VOICE `.
pub open spec fn voice_kw() -> Seq<u8> {
    seq![86u8, 79u8, 73u8, 67u8, 69u8, 32u8]
}

/// The provider prefix bytes `AWS:`.
pub open spec fn aws_prefix() -> Seq<u8> {
    seq![65u8, 87u8, 83u8, 58u8]
}

/// The provider prefix bytes `GC:`.
pub open spec fn gc_prefix() -> Seq<u8> {
    seq![71u8, 67u8, 58u8]
}

/// ASCII decimal digit.
pub open spec fn is_digit(b: u8) -> bool {
    48 <= b <= 57
}

/// ASCII letter.
pub open spec fn is_letter(b: u8) -> bool {
    (65 <= b <= 90) || (97 <= b <= 122)
}

/// Byte a station name may hold: letters, hyphen, space.
pub open spec fn is_name_byte(b: u8) -> bool {
    is_letter(b) || b == 45 || b == 32
}

/// Byte a traffic-entry name may hold: letters, hyphen; no space.
pub open spec fn is_traffic_name_byte(b: u8) -> bool {
    is_letter(b) || b == 45
}

/// Byte a voice spec may hold: letters, hyphen, colon.
pub open spec fn is_voice_byte(b: u8) -> bool {
    is_letter(b) || b == 45 || b == 58
}

/// ASCII upper-casing of one byte.
pub open spec fn to_upper(b: u8) -> u8 {
    if 97 <= b <= 122 {
        (b - 32) as u8
    } else {
        b
    }
}

/// The keyword `kw` occurs at `i` in `s`, ASCII-case-insensitively.
pub open spec fn matches_ci(s: Seq<u8>, i: int, kw: Seq<u8>) -> bool {
    &&& 0 <= i
    &&& i + kw.len() <= s.len()
    &&& forall|j: int| 0 <= j < kw.len() ==> to_upper(s[i + j]) == to_upper(#[trigger] kw[j])
}

/// The keyword `kw` occurs at `i` in `s`, byte for byte.
pub open spec fn matches_exact(s: Seq<u8>, i: int, kw: Seq<u8>) -> bool {
    &&& 0 <= i
    &&& i + kw.len() <= s.len()
    &&& forall|j: int| 0 <= j < kw.len() ==> s[i + j] == #[trigger] kw[j]
}

/// First position at or after `i` whose byte leaves the class, or the
/// end of `s`.
pub open spec fn run_end(s: Seq<u8>, i: int, cls: spec_fn(u8) -> bool) -> int
    decreases s.len() - i,
    when 0 <= i <= s.len()
{
    if i < s.len() && cls(s[i]) {
        run_end(s, i + 1, cls)
    } else {
        i
    }
}

/// What a class run looks like: it covers `[i, run_end)` and stops at
/// the first byte outside the class.
pub proof fn lemma_run_end(s: Seq<u8>, i: int, cls: spec_fn(u8) -> bool)
    requires
        0 <= i <= s.len(),
    ensures
        i <= run_end(s, i, cls) <= s.len(),
        forall|j: int| i <= j < run_end(s, i, cls) ==> cls(#[trigger] s[j]),
        run_end(s, i, cls) < s.len() ==> !cls(s[run_end(s, i, cls)]),
    decreases s.len() - i,
{
    if i < s.len() && cls(s[i]) {
        lemma_run_end(s, i + 1, cls);
    }
}

/// A megahertz token at `i`: three digits, the first `1` to `3`, then
/// optionally a dot and one to three more digits, read greedily. Yields
/// the exact hertz value — the scaled decimal, with no rounding error —
/// and the position after the token.
pub open spec fn parse_freq(s: Seq<u8>, i: int) -> Option<(u64, int)> {
    if 0 <= i && i + 3 <= s.len() && 49 <= s[i] <= 51 && is_digit(s[i + 1]) && is_digit(s[i + 2]) {
        let whole = ((s[i] - 48) * 100 + (s[i + 1] - 48) * 10 + (s[i + 2] - 48)) as u64;
        if i + 4 < s.len() && s[i + 3] == 46 && is_digit(s[i + 4]) {
            let d1 = (s[i + 4] - 48) as u64;
            if i + 5 < s.len() && is_digit(s[i + 5]) {
                let d2 = (s[i + 5] - 48) as u64;
                if i + 6 < s.len() && is_digit(s[i + 6]) {
                    let d3 = (s[i + 6] - 48) as u64;
                    Some(
                        (
                            (whole * 1000000 + d1 * 100000 + d2 * 10000 + d3 * 1000) as u64,
                            i + 7,
                        ),
                    )
                } else {
                    Some(((whole * 1000000 + d1 * 100000 + d2 * 10000) as u64, i + 6))
                }
            } else {
                Some(((whole * 1000000 + d1 * 100000) as u64, i + 5))
            }
        } else {
            Some(((whole * 1000000) as u64, i + 3))
        }
    } else {
        None
    }
}

/// A station name followed by a space and a frequency, starting at
/// `p`: the name run is everything up to the frequency's first digit,
/// whose preceding byte must be the separating space.
pub open spec fn parse_name_freq(s: Seq<u8>, p: int) -> Option<(Seq<u8>, u64, int)>
    recommends
        0 <= p <= s.len(),
{
    let e = run_end(s, p, |b: u8| is_name_byte(b));
    if e > p + 1 && s[e - 1] == 32 {
        match parse_freq(s, e) {
            Some((hz, j)) => Some((s.subrange(p, e - 1), hz, j)),
            None => None,
        }
    } else {
        None
    }
}

/// Position after a comma and at most one following space.
pub open spec fn sep_skip(s: Seq<u8>, j: int) -> int {
    let n = s.len();
    if n - j > 1 && s[j + 1] == 32 {
        j + 2
    } else {
        j + 1
    }
}

/// The provider encoded in a voice spec: an `AWS:` prefix selects
/// Amazon, a `GC:` prefix selects Google, and a bare name is a Google
/// voice.
pub open spec fn parse_tts(v: Seq<u8>) -> TtsProviderModel {
    if v.len() >= 4 && v.subrange(0, 4) == aws_prefix() {
        TtsProviderModel::AmazonWebServices { voice: v.skip(4) }
    } else if v.len() >= 3 && v.subrange(0, 3) == gc_prefix() {
        TtsProviderModel::GoogleCloud { voice: v.skip(3) }
    } else {
        TtsProviderModel::GoogleCloud { voice: v }
    }
}

/// A `VOICE <spec>` group at `k` running to the very end of `s`.
pub open spec fn parse_voice_to_end(s: Seq<u8>, k: int) -> Option<TtsProviderModel> {
    if matches_ci(s, k, voice_kw()) {
        let v0 = k + 6;
        let ve = run_end(s, v0, |b: u8| is_voice_byte(b));
        if ve == s.len() && ve > v0 {
            Some(parse_tts(s.subrange(v0, ve)))
        } else {
            None
        }
    } else {
        None
    }
}

/// The optional `, TRAFFIC <freq>` and `, VOICE <spec>` groups of a
/// station directive, which must reach the end of `s`.
pub open spec fn parse_atis_tail(s: Seq<u8>, j: int) -> Option<(Option<u64>, Option<
    TtsProviderModel,
>)> {
    if j == s.len() {
        Some((None, None))
    } else if 0 <= j < s.len() && s[j] == 44 {
        let k = sep_skip(s, j);
        if matches_ci(s, k, traffic_kw()) {
            match parse_freq(s, k + 8) {
                Some((thz, j2)) => {
                    if j2 == s.len() {
                        Some((Some(thz), None))
                    } else if s[j2] == 44 {
                        match parse_voice_to_end(s, sep_skip(s, j2)) {
                            Some(t) => Some((Some(thz), Some(t))),
                            None => None,
                        }
                    } else {
                        None
                    }
                },
                None => None,
            }
        } else {
            match parse_voice_to_end(s, k) {
                Some(t) => Some((None, Some(t))),
                None => None,
            }
        }
    } else {
        None
    }
}

/// The optional `, VOICE <spec>` group of a carrier or weather
/// directive, which must reach the end of `s`.
pub open spec fn parse_simple_tail(s: Seq<u8>, j: int) -> Option<Option<TtsProviderModel>> {
    if j == s.len() {
        Some(None)
    } else if 0 <= j < s.len() && s[j] == 44 {
        match parse_voice_to_end(s, sep_skip(s, j)) {
            Some(t) => Some(Some(t)),
            None => None,
        }
    } else {
        None
    }
}

/// A whole-string station directive under the given keyword.
pub open spec fn spec_station_directive(s: Seq<u8>, kw: Seq<u8>, with_traffic: bool) -> Option<
    StationConfigModel,
> {
    if matches_ci(s, 0, kw) {
        match parse_name_freq(s, kw.len() as int) {
            Some((name, hz, j)) => {
                if with_traffic {
                    match parse_atis_tail(s, j) {
                        Some((traffic, tts)) => Some(
                            StationConfigModel { name, atis: hz, traffic, tts },
                        ),
                        None => None,
                    }
                } else {
                    match parse_simple_tail(s, j) {
                        Some(tts) => Some(
                            StationConfigModel { name, atis: hz, traffic: None, tts },
                        ),
                        None => None,
                    }
                }
            },
            None => None,
        }
    } else {
        None
    }
}

/// The whole-string `ATIS` directive.
pub open spec fn spec_extract_atis(s: Seq<u8>) -> Option<StationConfigModel> {
    spec_station_directive(s, atis_kw(), true)
}

/// The whole-string `CARRIER` directive.
pub open spec fn spec_extract_carrier(s: Seq<u8>) -> Option<StationConfigModel> {
    spec_station_directive(s, carrier_kw(), false)
}

/// The whole-string `WEATHER` directive.
pub open spec fn spec_extract_weather(s: Seq<u8>) -> Option<StationConfigModel> {
    spec_station_directive(s, weather_kw(), false)
}

/// Leading spaces of `r`, capped one short of its length so a message
/// of spaces alone keeps its last space.
pub open spec fn msg_space_skip(r: Seq<u8>, i: int) -> int
    decreases r.len() - i,
    when 0 <= i <= r.len()
{
    if i + 1 < r.len() && r[i] == 32 {
        msg_space_skip(r, i + 1)
    } else {
        i
    }
}

/// A broadcast message may not span lines.
pub open spec fn valid_message(s: Seq<u8>, q: int) -> bool {
    &&& q < s.len()
    &&& forall|j: int| msg_space_skip(s, q) <= j < s.len() ==> s[j] != 10
}

/// The rightmost colon in `(lo, hi)` that leaves a valid message
/// behind it; the colon splitting voice from message is chosen
/// greedily from the right.
pub open spec fn find_colon_split(s: Seq<u8>, lo: int, p: int) -> Option<int>
    decreases p - lo,
    when lo <= p
{
    if p <= lo {
        None
    } else if s[p] == 58 && valid_message(s, p + 1) {
        Some(p)
    } else {
        find_colon_split(s, lo, p - 1)
    }
}

/// A whole-string `BROADCAST` directive: keyword, frequency, an
/// optional voice group, a colon, then the message with leading spaces
/// dropped.
pub open spec fn spec_extract_broadcast(s: Seq<u8>) -> Option<BroadcastConfigModel> {
    let kw = broadcast_kw();
    if matches_ci(s, 0, kw) {
        match parse_freq(s, kw.len() as int) {
            Some((hz, j)) => {
                if j < s.len() && s[j] == 58 && valid_message(s, j + 1) {
                    Some(
                        BroadcastConfigModel {
                            freq: hz,
                            message: s.skip(msg_space_skip(s, j + 1)),
                            tts: None,
                        },
                    )
                } else if j < s.len() && s[j] == 44 {
                    let k = sep_skip(s, j);
                    if matches_ci(s, k, voice_kw()) {
                        let v0 = k + 6;
                        let ve = run_end(s, v0, |b: u8| is_voice_byte(b));
                        if ve <= v0 {
                            None
                        } else {
                        match find_colon_split(s, v0, ve - 1) {
                            Some(p) => Some(
                                BroadcastConfigModel {
                                    freq: hz,
                                    message: s.skip(msg_space_skip(s, p + 1)),
                                    tts: Some(parse_tts(s.subrange(v0, p))),
                                },
                            ),
                            None => None,
                        }
                        }
                    } else {
                        None
                    }
                } else {
                    None
                }
            },
            None => None,
        }
    } else {
        None
    }
}

fn upper_byte(b: u8) -> (r: u8)
    ensures
        r == to_upper(b),
{
    if 97 <= b && b <= 122 {
        b - 32
    } else {
        b
    }
}

fn is_digit_b(b: u8) -> (r: bool)
    ensures
        r == is_digit(b),
{
    48 <= b && b <= 57
}

fn is_name_byte_b(b: u8) -> (r: bool)
    ensures
        r == is_name_byte(b),
{
    (65 <= b && b <= 90) || (97 <= b && b <= 122) || b == 45 || b == 32
}

fn is_traffic_name_byte_b(b: u8) -> (r: bool)
    ensures
        r == is_traffic_name_byte(b),
{
    (65 <= b && b <= 90) || (97 <= b && b <= 122) || b == 45
}

fn is_voice_byte_b(b: u8) -> (r: bool)
    ensures
        r == is_voice_byte(b),
{
    (65 <= b && b <= 90) || (97 <= b && b <= 122) || b == 45 || b == 58
}

fn match_ci(s: &[u8], i: usize, kw: &[u8]) -> (r: bool)
    ensures
        r == matches_ci(s@, i as int, kw@),
{
    if i > s.len() || kw.len() > s.len() - i {
        return false;
    }
    let mut j: usize = 0;
    while j < kw.len()
        invariant
            j <= kw@.len(),
            i + kw@.len() <= s@.len(),
            s@.len() <= usize::MAX,
            forall|x: int| 0 <= x < j ==> to_upper(s@[i + x]) == to_upper(#[trigger] kw@[x]),
        decreases kw@.len() - j,
    {
        if upper_byte(s[i + j]) != upper_byte(kw[j]) {
            return false;
        }
        j = j + 1;
    }
    true
}

pub(crate) fn match_exact(s: &[u8], i: usize, kw: &[u8]) -> (r: bool)
    ensures
        r == matches_exact(s@, i as int, kw@),
{
    if i > s.len() || kw.len() > s.len() - i {
        return false;
    }
    let mut j: usize = 0;
    while j < kw.len()
        invariant
            j <= kw@.len(),
            i + kw@.len() <= s@.len(),
            s@.len() <= usize::MAX,
            forall|x: int| 0 <= x < j ==> s@[i + x] == #[trigger] kw@[x],
        decreases kw@.len() - j,
    {
        if s[i + j] != kw[j] {
            return false;
        }
        j = j + 1;
    }
    true
}

fn name_run_end(s: &[u8], i: usize) -> (r: usize)
    requires
        i <= s@.len(),
    ensures
        r == run_end(s@, i as int, |b: u8| is_name_byte(b)),
        i <= r <= s@.len(),
{
    let mut j: usize = i;
    while j < s.len() && is_name_byte_b(s[j])
        invariant
            i <= j <= s@.len(),
            run_end(s@, i as int, |b: u8| is_name_byte(b)) == run_end(
                s@,
                j as int,
                |b: u8| is_name_byte(b),
            ),
        decreases s@.len() - j,
    {
        j = j + 1;
    }
    proof {
        lemma_run_end(s@, j as int, |b: u8| is_name_byte(b));
    }
    j
}

fn traffic_name_run_end(s: &[u8], i: usize) -> (r: usize)
    requires
        i <= s@.len(),
    ensures
        r == run_end(s@, i as int, |b: u8| is_traffic_name_byte(b)),
        i <= r <= s@.len(),
{
    let mut j: usize = i;
    while j < s.len() && is_traffic_name_byte_b(s[j])
        invariant
            i <= j <= s@.len(),
            run_end(s@, i as int, |b: u8| is_traffic_name_byte(b)) == run_end(
                s@,
                j as int,
                |b: u8| is_traffic_name_byte(b),
            ),
        decreases s@.len() - j,
    {
        j = j + 1;
    }
    proof {
        lemma_run_end(s@, j as int, |b: u8| is_traffic_name_byte(b));
    }
    j
}

fn voice_run_end(s: &[u8], i: usize) -> (r: usize)
    requires
        i <= s@.len(),
    ensures
        r == run_end(s@, i as int, |b: u8| is_voice_byte(b)),
        i <= r <= s@.len(),
{
    let mut j: usize = i;
    while j < s.len() && is_voice_byte_b(s[j])
        invariant
            i <= j <= s@.len(),
            run_end(s@, i as int, |b: u8| is_voice_byte(b)) == run_end(
                s@,
                j as int,
                |b: u8| is_voice_byte(b),
            ),
        decreases s@.len() - j,
    {
        j = j + 1;
    }
    proof {
        lemma_run_end(s@, j as int, |b: u8| is_voice_byte(b));
    }
    j
}

/// The exact hertz value of a megahertz token, and where it ends.
pub fn parse_freq_at(s: &[u8], i: usize) -> (r: Option<(u64, usize)>)
    requires
        i <= s@.len(),
    ensures
        match r {
            Some((hz, j)) => parse_freq(s@, i as int) == Some((hz, j as int)) && i < j <= s@.len(),
            None => parse_freq(s@, i as int) is None,
        },
{
    if s.len() - i < 3 || !(49 <= s[i] && s[i] <= 51) || !is_digit_b(s[i + 1]) || !is_digit_b(
        s[i + 2],
    ) {
        return None;
    }
    let whole: u64 = ((s[i] - 48) as u64) * 100 + ((s[i + 1] - 48) as u64) * 10 + ((s[i + 2]
        - 48) as u64);
    if s.len() - i > 4 && s[i + 3] == 46 && is_digit_b(s[i + 4]) {
        let d1 = (s[i + 4] - 48) as u64;
        if s.len() - i > 5 && is_digit_b(s[i + 5]) {
            let d2 = (s[i + 5] - 48) as u64;
            if s.len() - i > 6 && is_digit_b(s[i + 6]) {
                let d3 = (s[i + 6] - 48) as u64;
                Some((whole * 1000000 + d1 * 100000 + d2 * 10000 + d3 * 1000, i + 7))
            } else {
                Some((whole * 1000000 + d1 * 100000 + d2 * 10000, i + 6))
            }
        } else {
            Some((whole * 1000000 + d1 * 100000, i + 5))
        }
    } else {
        Some((whole * 1000000, i + 3))
    }
}

fn parse_name_freq_at(s: &[u8], p: usize) -> (r: Option<(Vec<u8>, u64, usize)>)
    requires
        p <= s@.len(),
    ensures
        match r {
            Some((name, hz, j)) => parse_name_freq(s@, p as int) == Some((name@, hz, j as int))
                && j <= s@.len(),
            None => parse_name_freq(s@, p as int) is None,
        },
{
    let e = name_run_end(s, p);
    if e > p && e - 1 > p && s[e - 1] == 32 {
        match parse_freq_at(s, e) {
            Some((hz, j)) => Some((slice_to_vec(slice_subrange(s, p, e - 1)), hz, j)),
            None => None,
        }
    } else {
        None
    }
}

fn parse_tts_bytes(v: &[u8]) -> (r: TtsProvider)
    ensures
        r@ == parse_tts(v@),
{
    if v.len() >= 4 && v[0] == 65 && v[1] == 87 && v[2] == 83 && v[3] == 58 {
        proof {
            assert(v@.subrange(0, 4) =~= aws_prefix());
        }
        TtsProvider::AmazonWebServices { voice: slice_to_vec(slice_subrange(v, 4, v.len())) }
    } else if v.len() >= 3 && v[0] == 71 && v[1] == 67 && v[2] == 58 {
        proof {
            assert(v@.subrange(0, 3) =~= gc_prefix());
            if v@.len() >= 4 && v@.subrange(0, 4) == aws_prefix() {
                assert(v@.subrange(0, 4)[0] == v@[0]);
            }
        }
        TtsProvider::GoogleCloud { voice: slice_to_vec(slice_subrange(v, 3, v.len())) }
    } else {
        proof {
            if v@.len() >= 4 && v@.subrange(0, 4) == aws_prefix() {
                assert(v@.subrange(0, 4)[0] == v@[0]);
                assert(v@.subrange(0, 4)[1] == v@[1]);
                assert(v@.subrange(0, 4)[2] == v@[2]);
                assert(v@.subrange(0, 4)[3] == v@[3]);
            }
            if v@.len() >= 3 && v@.subrange(0, 3) == gc_prefix() {
                assert(v@.subrange(0, 3)[0] == v@[0]);
                assert(v@.subrange(0, 3)[1] == v@[1]);
                assert(v@.subrange(0, 3)[2] == v@[2]);
            }
        }
        TtsProvider::GoogleCloud { voice: slice_to_vec(v) }
    }
}

fn voice_kw_v() -> (r: Vec<u8>)
    ensures
        r@ == voice_kw(),
{
    let mut v: Vec<u8> = Vec::new();
    v.push(86);
    v.push(79);
    v.push(73);
    v.push(67);
    v.push(69);
    v.push(32);
    proof {
        assert(v@ =~= voice_kw());
    }
    v
}

fn traffic_kw_v() -> (r: Vec<u8>)
    ensures
        r@ == traffic_kw(),
{
    let mut v: Vec<u8> = Vec::new();
    v.push(84);
    v.push(82);
    v.push(65);
    v.push(70);
    v.push(70);
    v.push(73);
    v.push(67);
    v.push(32);
    proof {
        assert(v@ =~= traffic_kw());
    }
    v
}

fn atis_kw_v() -> (r: Vec<u8>)
    ensures
        r@ == atis_kw(),
{
    let mut v: Vec<u8> = Vec::new();
    v.push(65);
    v.push(84);
    v.push(73);
    v.push(83);
    v.push(32);
    proof {
        assert(v@ =~= atis_kw());
    }
    v
}

fn carrier_kw_v() -> (r: Vec<u8>)
    ensures
        r@ == carrier_kw(),
{
    let mut v: Vec<u8> = Vec::new();
    v.push(67);
    v.push(65);
    v.push(82);
    v.push(82);
    v.push(73);
    v.push(69);
    v.push(82);
    v.push(32);
    proof {
        assert(v@ =~= carrier_kw());
    }
    v
}

fn weather_kw_v() -> (r: Vec<u8>)
    ensures
        r@ == weather_kw(),
{
    let mut v: Vec<u8> = Vec::new();
    v.push(87);
    v.push(69);
    v.push(65);
    v.push(84);
    v.push(72);
    v.push(69);
    v.push(82);
    v.push(32);
    proof {
        assert(v@ =~= weather_kw());
    }
    v
}

fn broadcast_kw_v() -> (r: Vec<u8>)
    ensures
        r@ == broadcast_kw(),
{
    let mut v: Vec<u8> = Vec::new();
    v.push(66);
    v.push(82);
    v.push(79);
    v.push(65);
    v.push(68);
    v.push(67);
    v.push(65);
    v.push(83);
    v.push(84);
    v.push(32);
    proof {
        assert(v@ =~= broadcast_kw());
    }
    v
}

fn parse_voice_to_end_at(s: &[u8], k: usize) -> (r: Option<TtsProvider>)
    ensures
        match r {
            Some(t) => parse_voice_to_end(s@, k as int) == Some(t@),
            None => parse_voice_to_end(s@, k as int) is None,
        },
{
    let kw = voice_kw_v();
    if !match_ci(s, k, kw.as_slice()) {
        return None;
    }
    let n = s.len();
    proof {
        assert(k + 6 <= n);
    }
    let v0 = k + 6;
    let ve = voice_run_end(s, v0);
    if ve == s.len() && ve > v0 {
        Some(parse_tts_bytes(slice_subrange(s, v0, ve)))
    } else {
        None
    }
}

fn sep_skip_at(s: &[u8], j: usize) -> (r: usize)
    requires
        j < s@.len(),
    ensures
        r as int == sep_skip(s@, j as int),
        r <= s@.len(),
{
    let n = s.len();
    if n - j > 1 && s[j + 1] == 32 {
        j + 2
    } else {
        j + 1
    }
}

fn parse_atis_tail_at(s: &[u8], j: usize) -> (r: Option<(Option<u64>, Option<TtsProvider>)>)
    requires
        j <= s@.len(),
    ensures
        match r {
            Some((traffic, tts)) => parse_atis_tail(s@, j as int) matches Some((t2, v2))
                && traffic == t2 && (match tts {
                Some(t) => v2 == Some(t@),
                None => v2 is None,
            }),
            None => parse_atis_tail(s@, j as int) is None,
        },
{
    if j == s.len() {
        return Some((None, None));
    }
    if s[j] != 44 {
        return None;
    }
    let k = sep_skip_at(s, j);
    let tkw = traffic_kw_v();
    if match_ci(s, k, tkw.as_slice()) {
        match parse_freq_at(s, k + 8) {
            Some((thz, j2)) => {
                if j2 == s.len() {
                    Some((Some(thz), None))
                } else if s[j2] == 44 {
                    let k2 = sep_skip_at(s, j2);
                    match parse_voice_to_end_at(s, k2) {
                        Some(t) => Some((Some(thz), Some(t))),
                        None => None,
                    }
                } else {
                    None
                }
            },
            None => None,
        }
    } else {
        match parse_voice_to_end_at(s, k) {
            Some(t) => Some((None, Some(t))),
            None => None,
        }
    }
}

fn parse_simple_tail_at(s: &[u8], j: usize) -> (r: Option<Option<TtsProvider>>)
    requires
        j <= s@.len(),
    ensures
        match r {
            Some(tts) => parse_simple_tail(s@, j as int) matches Some(v2) && (match tts {
                Some(t) => v2 == Some(t@),
                None => v2 is None,
            }),
            None => parse_simple_tail(s@, j as int) is None,
        },
{
    if j == s.len() {
        return Some(None);
    }
    if s[j] != 44 {
        return None;
    }
    let k = sep_skip_at(s, j);
    match parse_voice_to_end_at(s, k) {
        Some(t) => Some(Some(t)),
        None => None,
    }
}

/// A whole station directive under `kw`, with or without the traffic
/// group.
fn station_directive(s: &[u8], kw: &[u8], with_traffic: bool) -> (r: Option<StationConfig>)
    ensures
        match r {
            Some(c) => spec_station_directive(s@, kw@, with_traffic) == Some(c@),
            None => spec_station_directive(s@, kw@, with_traffic) is None,
        },
{
    if !match_ci(s, 0, kw) {
        return None;
    }
    match parse_name_freq_at(s, kw.len()) {
        Some((name, hz, j)) => {
            if with_traffic {
                match parse_atis_tail_at(s, j) {
                    Some((traffic, tts)) => Some(StationConfig { name, atis: hz, traffic, tts }),
                    None => None,
                }
            } else {
                match parse_simple_tail_at(s, j) {
                    Some(tts) => Some(StationConfig { name, atis: hz, traffic: None, tts }),
                    None => None,
                }
            }
        },
        None => None,
    }
}

/// Parses a unit name as an `ATIS` directive.
pub fn extract_atis_station_config(config: &[u8]) -> (r: Option<StationConfig>)
    ensures
        match r {
            Some(c) => spec_extract_atis(config@) == Some(c@),
            None => spec_extract_atis(config@) is None,
        },
{
    let kw = atis_kw_v();
    station_directive(config, kw.as_slice(), true)
}

/// Parses a unit name as a `CARRIER` directive.
pub fn extract_carrier_station_config(config: &[u8]) -> (r: Option<StationConfig>)
    ensures
        match r {
            Some(c) => spec_extract_carrier(config@) == Some(c@),
            None => spec_extract_carrier(config@) is None,
        },
{
    let kw = carrier_kw_v();
    station_directive(config, kw.as_slice(), false)
}

/// Parses a unit name as a `WEATHER` directive.
pub fn extract_weather_station_config(config: &[u8]) -> (r: Option<WetherStationConfig>)
    ensures
        match r {
            Some(c) => spec_extract_weather(config@) matches Some(m) && m.name == c@.name
                && m.atis == c@.freq && m.tts == c@.tts,
            None => spec_extract_weather(config@) is None,
        },
{
    let kw = weather_kw_v();
    match station_directive(config, kw.as_slice(), false) {
        Some(c) => Some(WetherStationConfig { name: c.name, freq: c.atis, tts: c.tts }),
        None => None,
    }
}

fn msg_space_skip_at(s: &[u8], q: usize) -> (r: usize)
    requires
        q <= s@.len(),
    ensures
        r as int == msg_space_skip(s@, q as int),
        q <= r <= s@.len(),
{
    let n = s.len();
    let mut i: usize = q;
    while i < s.len() && s.len() - i > 1 && s[i] == 32
        invariant
            q <= i <= s@.len(),
            s@.len() <= usize::MAX,
            msg_space_skip(s@, q as int) == msg_space_skip(s@, i as int),
        decreases s@.len() - i,
    {
        i = i + 1;
    }
    i
}

fn valid_message_at(s: &[u8], q: usize) -> (r: bool)
    requires
        q <= s@.len(),
    ensures
        r == valid_message(s@, q as int),
{
    if q >= s.len() {
        return false;
    }
    let sp = msg_space_skip_at(s, q);
    let mut i: usize = sp;
    while i < s.len()
        invariant
            sp <= i <= s@.len(),
            sp as int == msg_space_skip(s@, q as int),
            q < s@.len(),
            forall|j: int| sp <= j < i ==> s@[j] != 10,
        decreases s@.len() - i,
    {
        if s[i] == 10 {
            return false;
        }
        i = i + 1;
    }
    true
}

fn find_colon_split_at(s: &[u8], lo: usize, hi: usize) -> (r: Option<usize>)
    requires
        lo <= hi,
        hi < s@.len(),
    ensures
        match r {
            Some(p) => find_colon_split(s@, lo as int, hi as int) == Some(p as int) && lo < p
                <= hi,
            None => find_colon_split(s@, lo as int, hi as int) is None,
        },
{
    let n = s.len();
    let mut p: usize = hi;
    while p > lo
        invariant
            lo <= p <= hi < s@.len(),
            s@.len() <= usize::MAX,
            find_colon_split(s@, lo as int, hi as int) == find_colon_split(
                s@,
                lo as int,
                p as int,
            ),
        decreases p,
    {
        if s[p] == 58 && valid_message_at(s, p + 1) {
            return Some(p);
        }
        p = p - 1;
    }
    None
}

/// Parses a unit name as a `BROADCAST` directive.
pub fn extract_custom_broadcast_config(config: &[u8]) -> (r: Option<BroadcastConfig>)
    ensures
        match r {
            Some(c) => spec_extract_broadcast(config@) == Some(c@),
            None => spec_extract_broadcast(config@) is None,
        },
{
    let s = config;
    let kw = broadcast_kw_v();
    if !match_ci(s, 0, kw.as_slice()) {
        return None;
    }
    match parse_freq_at(s, kw.len()) {
        Some((hz, j)) => {
            if j < s.len() && s[j] == 58 && valid_message_at(s, j + 1) {
                let sp = msg_space_skip_at(s, j + 1);
                Some(
                    BroadcastConfig {
                        freq: hz,
                        message: slice_to_vec(slice_subrange(s, sp, s.len())),
                        tts: None,
                    },
                )
            } else if j < s.len() && s[j] == 44 {
                let k = sep_skip_at(s, j);
                let vkw = voice_kw_v();
                if match_ci(s, k, vkw.as_slice()) {
                    let n = s.len();
                    proof {
                        assert(k + 6 <= n);
                    }
                    let v0 = k + 6;
                    let ve = voice_run_end(s, v0);
                    if ve <= v0 {
                        None
                    } else {
                        match find_colon_split_at(s, v0, ve - 1) {
                            Some(p) => {
                                let sp = msg_space_skip_at(s, p + 1);
                                Some(
                                    BroadcastConfig {
                                        freq: hz,
                                        message: slice_to_vec(slice_subrange(s, sp, s.len())),
                                        tts: Some(parse_tts_bytes(slice_subrange(s, v0, p))),
                                    },
                                )
                            },
                            None => None,
                        }
                    }
                } else {
                    None
                }
            } else {
                None
            }
        },
        None => None,
    }
}

/// A case-sensitive briefing match `ATIS <Name> <Freq>` at `i` exactly.
pub open spec fn atis_match_at(s: Seq<u8>, i: int) -> Option<(Seq<u8>, u64, int)>
    recommends
        0 <= i <= s.len(),
{
    if matches_exact(s, i, atis_kw()) {
        parse_name_freq(s, i + atis_kw().len())
    } else {
        None
    }
}

/// A case-sensitive briefing match `TRAFFIC <Name> <Freq>` at `i`;
/// the name admits no spaces here.
pub open spec fn traffic_match_at(s: Seq<u8>, i: int) -> Option<(Seq<u8>, u64, int)>
    recommends
        0 <= i <= s.len(),
{
    if matches_exact(s, i, traffic_kw()) {
        let p = i + traffic_kw().len();
        let e = run_end(s, p, |b: u8| is_traffic_name_byte(b));
        if e > p && e < s.len() && s[e] == 32 {
            match parse_freq(s, e + 1) {
                Some((hz, j)) => Some((s.subrange(p, e), hz, j)),
                None => None,
            }
        } else {
            None
        }
    } else {
        None
    }
}

/// All briefing `ATIS` matches from `i` on, leftmost first and
/// non-overlapping, as bare station entries.
pub open spec fn scan_atis(s: Seq<u8>, i: int) -> Seq<StationConfigModel>
    decreases s.len() - i,
    when 0 <= i <= s.len()
{
    if i >= s.len() {
        Seq::empty()
    } else {
        match atis_match_at(s, i) {
            Some((name, hz, j)) => if i < j <= s.len() {
                seq![StationConfigModel { name, atis: hz, traffic: None, tts: None }]
                    + scan_atis(s, j)
            } else {
                scan_atis(s, i + 1)
            },
            None => scan_atis(s, i + 1),
        }
    }
}

/// All briefing `TRAFFIC` matches from `i` on, as name/frequency
/// pairs.
pub open spec fn scan_traffic(s: Seq<u8>, i: int) -> Seq<(Seq<u8>, u64)>
    decreases s.len() - i,
    when 0 <= i <= s.len()
{
    if i >= s.len() {
        Seq::empty()
    } else {
        match traffic_match_at(s, i) {
            Some((name, hz, j)) => if i < j <= s.len() {
                seq![(name, hz)] + scan_traffic(s, j)
            } else {
                scan_traffic(s, i + 1)
            },
            None => scan_traffic(s, i + 1),
        }
    }
}

/// Index of the first entry under `name`, from `i` on.
pub open spec fn find_name(cfgs: Seq<StationConfigModel>, name: Seq<u8>, i: int) -> Option<int>
    decreases cfgs.len() - i,
    when 0 <= i <= cfgs.len()
{
    if i >= cfgs.len() {
        None
    } else if cfgs[i].name == name {
        Some(i)
    } else {
        find_name(cfgs, name, i + 1)
    }
}

/// Adds a station entry: a later entry under a name already seen
/// replaces the earlier one in place.
pub open spec fn upsert(cfgs: Seq<StationConfigModel>, c: StationConfigModel) -> Seq<
    StationConfigModel,
> {
    match find_name(cfgs, c.name, 0) {
        Some(ix) => cfgs.update(ix, c),
        None => cfgs.push(c),
    }
}

/// Folds station entries into the station list.
pub open spec fn fold_stations(
    acc: Seq<StationConfigModel>,
    items: Seq<StationConfigModel>,
) -> Seq<StationConfigModel>
    decreases items.len(),
{
    if items.len() == 0 {
        acc
    } else {
        fold_stations(upsert(acc, items[0]), items.skip(1))
    }
}

/// Sets the traffic frequency of the station under `name`, if the
/// list has one; a traffic entry under an unknown name is dropped.
pub open spec fn set_traffic(cfgs: Seq<StationConfigModel>, name: Seq<u8>, hz: u64) -> Seq<
    StationConfigModel,
> {
    match find_name(cfgs, name, 0) {
        Some(ix) => cfgs.update(
            ix,
            StationConfigModel {
                name: cfgs[ix].name,
                atis: cfgs[ix].atis,
                traffic: Some(hz),
                tts: cfgs[ix].tts,
            },
        ),
        None => cfgs,
    }
}

/// Folds traffic entries into the station list.
pub open spec fn fold_traffic(acc: Seq<StationConfigModel>, items: Seq<(Seq<u8>, u64)>) -> Seq<
    StationConfigModel,
>
    decreases items.len(),
{
    if items.len() == 0 {
        acc
    } else {
        fold_traffic(set_traffic(acc, items[0].0, items[0].1), items.skip(1))
    }
}

/// The stations a briefing text names: every `ATIS` match, one entry
/// per station name, with traffic frequencies attached by the
/// `TRAFFIC` matches.
pub open spec fn spec_station_frequencies(s: Seq<u8>) -> Seq<StationConfigModel> {
    fold_traffic(fold_stations(Seq::empty(), scan_atis(s, 0)), scan_traffic(s, 0))
}

/// The station list as models.
pub open spec fn configs_view(v: Seq<StationConfig>) -> Seq<StationConfigModel> {
    Seq::new(v.len(), |i: int| v[i]@)
}

fn atis_match_exec(s: &[u8], i: usize) -> (r: Option<(Vec<u8>, u64, usize)>)
    requires
        i <= s@.len(),
    ensures
        match r {
            Some((name, hz, j)) => atis_match_at(s@, i as int) == Some((name@, hz, j as int))
                && i < j <= s@.len(),
            None => atis_match_at(s@, i as int) is None,
        },
{
    let kw = atis_kw_v();
    if !match_exact(s, i, kw.as_slice()) {
        return None;
    }
    let n = s.len();
    proof {
        assert(i + 5 <= n);
    }
    match parse_name_freq_at(s, i + 5) {
        Some((name, hz, j)) => Some((name, hz, j)),
        None => None,
    }
}

fn traffic_match_exec(s: &[u8], i: usize) -> (r: Option<(Vec<u8>, u64, usize)>)
    requires
        i <= s@.len(),
    ensures
        match r {
            Some((name, hz, j)) => traffic_match_at(s@, i as int) == Some((name@, hz, j as int))
                && i < j <= s@.len(),
            None => traffic_match_at(s@, i as int) is None,
        },
{
    let kw = traffic_kw_v();
    if !match_exact(s, i, kw.as_slice()) {
        return None;
    }
    let n = s.len();
    proof {
        assert(i + 8 <= n);
    }
    let p = i + 8;
    let e = traffic_name_run_end(s, p);
    if e > p && e < s.len() && s[e] == 32 {
        match parse_freq_at(s, e + 1) {
            Some((hz, j)) => Some((slice_to_vec(slice_subrange(s, p, e)), hz, j)),
            None => None,
        }
    } else {
        None
    }
}

/// Replaces the entry under the new entry's name, or appends it.
fn upsert_exec(acc: &mut Vec<StationConfig>, c: StationConfig)
    ensures
        configs_view(final(acc)@) == upsert(configs_view(old(acc)@), c@),
{
    let mut ix: usize = 0;
    while ix < acc.len()
        invariant
            ix <= acc@.len(),
            acc@ == old(acc)@,
            find_name(configs_view(acc@), c@.name, 0) == find_name(
                configs_view(acc@),
                c@.name,
                ix as int,
            ),
        decreases acc@.len() - ix,
    {
        if bytes_eq(acc[ix].name.as_slice(), c.name.as_slice()) {
            proof {
                assert(configs_view(acc@)[ix as int].name == c@.name);
            }
            let ghost before = acc@;
            acc.remove(ix);
            acc.insert(ix, c);
            proof {
                assert(acc@ =~= before.update(ix as int, c));
                assert(configs_view(acc@) =~= upsert(
                    configs_view(old(acc)@),
                    c@,
                ));
            }
            return ;
        }
        proof {
            assert(configs_view(acc@)[ix as int].name != c@.name);
        }
        ix = ix + 1;
    }
    acc.push(c);
    proof {
        assert(configs_view(acc@) =~= upsert(configs_view(old(acc)@), c@));
    }
}

/// Attaches a traffic frequency to the station under `name`, if any.
fn set_traffic_exec(acc: &mut Vec<StationConfig>, name: &[u8], hz: u64)
    ensures
        configs_view(final(acc)@) == set_traffic(configs_view(old(acc)@), name@, hz),
{
    let mut ix: usize = 0;
    while ix < acc.len()
        invariant
            ix <= acc@.len(),
            acc@ == old(acc)@,
            find_name(configs_view(acc@), name@, 0) == find_name(
                configs_view(acc@),
                name@,
                ix as int,
            ),
        decreases acc@.len() - ix,
    {
        if bytes_eq(acc[ix].name.as_slice(), name) {
            proof {
                assert(configs_view(acc@)[ix as int].name == name@);
            }
            let ghost before = acc@;
            let prev = acc.remove(ix);
            let updated = StationConfig {
                name: prev.name,
                atis: prev.atis,
                traffic: Some(hz),
                tts: prev.tts,
            };
            acc.insert(ix, updated);
            proof {
                assert(acc@ =~= before.update(ix as int, updated));
                assert(configs_view(acc@) =~= set_traffic(configs_view(old(acc)@), name@, hz));
            }
            return ;
        }
        proof {
            assert(configs_view(acc@)[ix as int].name != name@);
        }
        ix = ix + 1;
    }
    proof {
        assert(configs_view(acc@) =~= set_traffic(configs_view(old(acc)@), name@, hz));
    }
}

/// Extracts every station the briefing text names, with any traffic
/// frequencies attached; one entry per station name, the last `ATIS`
/// match under a name winning.
pub fn extract_atis_station_frequencies(situation: &[u8]) -> (r: Vec<StationConfig>)
    ensures
        configs_view(r@) == spec_station_frequencies(situation@),
{
    let s = situation;
    let n = s.len();
    let mut acc: Vec<StationConfig> = Vec::new();
    let mut i: usize = 0;
    proof {
        assert(configs_view(acc@) =~= Seq::<StationConfigModel>::empty());
    }
    while i < s.len()
        invariant
            i <= s@.len(),
            s@.len() <= usize::MAX,
            fold_stations(configs_view(acc@), scan_atis(s@, i as int)) == fold_stations(
                Seq::empty(),
                scan_atis(s@, 0),
            ),
        decreases s@.len() - i,
    {
        match atis_match_exec(s, i) {
            Some((name, hz, j)) => {
                let ghost prev = configs_view(acc@);
                let ghost items = scan_atis(s@, i as int);
                let c = StationConfig { name, atis: hz, traffic: None, tts: None };
                proof {
                    assert(items[0] == c@);
                    assert(items.skip(1) =~= scan_atis(s@, j as int));
                }
                upsert_exec(&mut acc, c);
                i = j;
            },
            None => {
                i = i + 1;
            },
        }
    }
    proof {
        assert(scan_atis(s@, s@.len() as int) =~= Seq::<StationConfigModel>::empty());
    }
    let mut i2: usize = 0;
    while i2 < s.len()
        invariant
            i2 <= s@.len(),
            s@.len() <= usize::MAX,
            fold_traffic(configs_view(acc@), scan_traffic(s@, i2 as int)) == fold_traffic(
                fold_stations(Seq::empty(), scan_atis(s@, 0)),
                scan_traffic(s@, 0),
            ),
        decreases s@.len() - i2,
    {
        match traffic_match_exec(s, i2) {
            Some((name, hz, j)) => {
                let ghost items = scan_traffic(s@, i2 as int);
                proof {
                    assert(items[0] == (name@, hz));
                    assert(items.skip(1) =~= scan_traffic(s@, j as int));
                }
                set_traffic_exec(&mut acc, name.as_slice(), hz);
                i2 = j;
            },
            None => {
                i2 = i2 + 1;
            },
        }
    }
    proof {
        assert(scan_traffic(s@, s@.len() as int) =~= Seq::<(Seq<u8>, u64)>::empty());
    }
    acc
}

/// A frequency the canonical form can carry: between 100 and 400
/// megahertz, whole multiples of a kilohertz (three decimals).
pub open spec fn valid_mhz(hz: u64) -> bool {
    100_000_000 <= hz < 400_000_000 && hz % 1000 == 0
}

/// The canonical megahertz token of `hz`: three whole digits, a dot,
/// three decimals.
pub open spec fn mhz_bytes(hz: u64) -> Seq<u8> {
    let q = hz / 1000;
    let w = q / 1000;
    let f = q % 1000;
    seq![
        (48 + w / 100) as u8,
        (48 + w / 10 % 10) as u8,
        (48 + w % 10) as u8,
        46u8,
        (48 + f / 100) as u8,
        (48 + f / 10 % 10) as u8,
        (48 + f % 10) as u8,
    ]
}

/// The canonical voice spec of a provider choice, prefix included.
pub open spec fn tts_bytes(t: TtsProviderModel) -> Seq<u8> {
    match t {
        TtsProviderModel::GoogleCloud { voice } => gc_prefix() + voice,
        TtsProviderModel::AmazonWebServices { voice } => aws_prefix() + voice,
    }
}

/// Voice names the grammar can carry: voice-class bytes only.
pub open spec fn tts_wf(t: TtsProviderModel) -> bool {
    match t {
        TtsProviderModel::GoogleCloud { voice } => forall|i: int|
            0 <= i < voice.len() ==> is_voice_byte(#[trigger] voice[i]),
        TtsProviderModel::AmazonWebServices { voice } => forall|i: int|
            0 <= i < voice.len() ==> is_voice_byte(#[trigger] voice[i]),
    }
}

/// A station entry the canonical form can carry: a nonempty name of
/// name-class bytes, representable frequencies, a well-formed voice.
pub open spec fn station_config_emittable(c: StationConfigModel) -> bool {
    &&& c.name.len() >= 1
    &&& forall|i: int| 0 <= i < c.name.len() ==> is_name_byte(#[trigger] c.name[i])
    &&& valid_mhz(c.atis)
    &&& match c.traffic {
        Some(t) => valid_mhz(t),
        None => true,
    }
    &&& match c.tts {
        Some(t) => tts_wf(t),
        None => true,
    }
}

/// The canonical directive text of a station entry under `kw`.
pub open spec fn emit_station_directive(kw: Seq<u8>, c: StationConfigModel) -> Seq<u8> {
    kw + c.name + seq![32u8] + mhz_bytes(c.atis) + (match c.traffic {
        Some(t) => seq![44u8, 32u8] + traffic_kw() + mhz_bytes(t),
        None => Seq::empty(),
    }) + (match c.tts {
        Some(t) => seq![44u8, 32u8] + voice_kw() + tts_bytes(t),
        None => Seq::empty(),
    })
}

/// A run covering `[i, j)` and stopped at `j` ends exactly at `j`.
proof fn lemma_run_end_exact(s: Seq<u8>, i: int, j: int, cls: spec_fn(u8) -> bool)
    requires
        0 <= i <= j <= s.len(),
        forall|k: int| i <= k < j ==> cls(#[trigger] s[k]),
        j < s.len() ==> !cls(s[j]),
    ensures
        run_end(s, i, cls) == j,
    decreases j - i,
{
    if i < j {
        lemma_run_end_exact(s, i + 1, j, cls);
    }
}

/// The canonical megahertz token parses back to its exact value.
proof fn lemma_parse_freq_of_mhz(s: Seq<u8>, i: int, hz: u64)
    requires
        valid_mhz(hz),
        0 <= i,
        i + 7 <= s.len(),
        s.subrange(i, i + 7) == mhz_bytes(hz),
    ensures
        parse_freq(s, i) == Some((hz, i + 7)),
{
    let m = mhz_bytes(hz);
    assert(s[i] == m[0]) by {
        assert(s.subrange(i, i + 7)[0] == s[i]);
    }
    assert(s[i + 1] == m[1]) by {
        assert(s.subrange(i, i + 7)[1] == s[i + 1]);
    }
    assert(s[i + 2] == m[2]) by {
        assert(s.subrange(i, i + 7)[2] == s[i + 2]);
    }
    assert(s[i + 3] == m[3]) by {
        assert(s.subrange(i, i + 7)[3] == s[i + 3]);
    }
    assert(s[i + 4] == m[4]) by {
        assert(s.subrange(i, i + 7)[4] == s[i + 4]);
    }
    assert(s[i + 5] == m[5]) by {
        assert(s.subrange(i, i + 7)[5] == s[i + 5]);
    }
    assert(s[i + 6] == m[6]) by {
        assert(s.subrange(i, i + 7)[6] == s[i + 6]);
    }
    let q = hz / 1000;
    let w = q / 1000;
    let f = q % 1000;
    assert(hz == q * 1000);
    assert(q == w * 1000 + f);
    assert(100 <= w <= 399);
    assert(49 <= s[i] <= 51);
    assert(is_digit(s[i + 1]) && is_digit(s[i + 2]) && is_digit(s[i + 4]) && is_digit(s[i + 5])
        && is_digit(s[i + 6]));
    assert((s[i] - 48) * 100 + (s[i + 1] - 48) * 10 + (s[i + 2] - 48) == w);
    assert((w * 1000000 + (s[i + 4] - 48) * 100000 + (s[i + 5] - 48) * 10000 + (s[i + 6] - 48)
        * 1000) as u64 == hz) by {
        assert((f / 100) * 100000 + (f / 10 % 10) * 10000 + (f % 10) * 1000 == f * 1000);
        assert(w * 1000000 + f * 1000 == q * 1000);
    }
}

/// The canonical voice spec parses back to its provider choice.
proof fn lemma_parse_tts_of_bytes(t: TtsProviderModel)
    requires
        tts_wf(t),
    ensures
        parse_tts(tts_bytes(t)) == t,
{
    let v = tts_bytes(t);
    match t {
        TtsProviderModel::AmazonWebServices { voice } => {
            assert(v.subrange(0, 4) =~= aws_prefix());
            assert(v.skip(4) =~= voice);
        },
        TtsProviderModel::GoogleCloud { voice } => {
            if v.len() >= 4 && v.subrange(0, 4) == aws_prefix() {
                assert(v.subrange(0, 4)[0] == v[0]);
                assert(v[0] == 71);
                assert(false);
            }
            assert(v.subrange(0, 3) =~= gc_prefix());
            assert(v.skip(3) =~= voice);
        },
    }
}

/// A canonical `, VOICE <spec>` group at `j0`, reaching the end of
/// `s`, parses back to its provider choice.
proof fn lemma_voice_group(s: Seq<u8>, j0: int, t: TtsProviderModel)
    requires
        tts_wf(t),
        0 <= j0,
        s.len() == j0 + 8 + tts_bytes(t).len(),
        s.subrange(j0, s.len() as int) == seq![44u8, 32u8] + voice_kw() + tts_bytes(t),
    ensures
        s[j0] == 44,
        sep_skip(s, j0) == j0 + 2,
        parse_voice_to_end(s, j0 + 2) == Some(t),
{
    let tail = seq![44u8, 32u8] + voice_kw() + tts_bytes(t);
    let vb = tts_bytes(t);
    let hi = s.len() as int;
    assert(s[j0] == tail[0] && s[j0 + 1] == tail[1]) by {
        assert(s.subrange(j0, hi)[0] == s[j0]);
        assert(s.subrange(j0, hi)[1] == s[j0 + 1]);
    }
    assert(s[j0] == 44 && s[j0 + 1] == 32);
    let k = j0 + 2;
    assert(matches_ci(s, k, voice_kw())) by {
        assert(forall|j: int|
            0 <= j < voice_kw().len() ==> s[k + j] == #[trigger] voice_kw()[j]) by {
            assert(forall|j: int|
                0 <= j < voice_kw().len() ==> #[trigger] s.subrange(j0, hi)[2 + j] == s[j0 + 2
                    + j]);
            assert(forall|j: int|
                0 <= j < voice_kw().len() ==> tail[2 + j] == #[trigger] voice_kw()[j]);
        }
    }
    let v0 = k + 6;
    assert(forall|j: int| 0 <= j < vb.len() ==> s[v0 + j] == #[trigger] vb[j]) by {
        assert(forall|j: int|
            0 <= j < vb.len() ==> #[trigger] s.subrange(j0, hi)[8 + j] == s[j0 + 8 + j]);
        assert(forall|j: int| 0 <= j < vb.len() ==> tail[8 + j] == #[trigger] vb[j]);
    }
    assert(forall|j: int| 0 <= j < vb.len() ==> is_voice_byte(#[trigger] vb[j])) by {
        match t {
            TtsProviderModel::GoogleCloud { voice } => {
                assert(forall|j: int| 0 <= j < voice.len() ==> vb[3 + j] == #[trigger] voice[j]);
                assert(forall|j: int|
                    0 <= j < vb.len() ==> is_voice_byte(#[trigger] vb[j]) || j < 3);
            },
            TtsProviderModel::AmazonWebServices { voice } => {
                assert(forall|j: int| 0 <= j < voice.len() ==> vb[4 + j] == #[trigger] voice[j]);
                assert(forall|j: int|
                    0 <= j < vb.len() ==> is_voice_byte(#[trigger] vb[j]) || j < 4);
            },
        }
    }
    let cls = |b: u8| is_voice_byte(b);
    assert(run_end(s, v0, cls) == s.len()) by {
        assert(forall|k2: int| v0 <= k2 < s.len() ==> cls(#[trigger] s[k2])) by {
            assert(forall|k2: int|
                v0 <= k2 < s.len() ==> #[trigger] s[k2] == vb[k2 - v0]) by {
                assert(forall|k2: int|
                    v0 <= k2 < s.len() ==> s[v0 + (k2 - v0)] == #[trigger] vb[k2 - v0]);
            }
        }
        lemma_run_end_exact(s, v0, s.len() as int, cls);
    }
    assert(vb.len() >= 3);
    assert(s.subrange(v0, s.len() as int) =~= vb);
    lemma_parse_tts_of_bytes(t);
}

/// The head of a canonical station directive — keyword, name, space,
/// frequency — parses back to the name and frequency.
#[verifier::rlimit(100)]
proof fn lemma_station_head(kw: Seq<u8>, c: StationConfigModel)
    requires
        station_config_emittable(c),
    ensures
        matches_ci(emit_station_directive(kw, c), 0, kw),
        parse_name_freq(emit_station_directive(kw, c), kw.len() as int) == Some(
            (c.name, c.atis, (kw.len() + c.name.len() + 8) as int),
        ),
{
    let s = emit_station_directive(kw, c);
    let p = kw.len() as int;
    let e = p + c.name.len() + 1;
    assert(matches_ci(s, 0, kw)) by {
        assert(forall|j: int| 0 <= j < kw.len() ==> s[j] == #[trigger] kw[j]);
    }
    let cls = |b: u8| is_name_byte(b);
    assert(run_end(s, p, cls) == e) by {
        assert(forall|k: int| p <= k < e - 1 ==> s[k] == #[trigger] c.name[k - p]);
        assert(s[e - 1] == 32);
        assert(forall|k: int| p <= k < e ==> cls(#[trigger] s[k]));
        assert(s[e] == mhz_bytes(c.atis)[0]);
        assert(49 <= s[e] <= 51);
        assert(!cls(s[e]));
        lemma_run_end_exact(s, p, e, cls);
    }
    assert(s.subrange(p, e - 1) =~= c.name);
    assert(s.subrange(e, e + 7) =~= mhz_bytes(c.atis));
    lemma_parse_freq_of_mhz(s, e, c.atis);
}

/// Law: parsing the canonical directive text of a station entry yields
/// the entry back — for the traffic-carrying form when `with_traffic`
/// is set, else for the simple form, whose entries carry no traffic.
#[verifier::rlimit(100)]
pub proof fn lemma_station_directive_round_trip(
    kw: Seq<u8>,
    c: StationConfigModel,
    with_traffic: bool,
)
    requires
        station_config_emittable(c),
        !with_traffic ==> c.traffic is None,
    ensures
        spec_station_directive(emit_station_directive(kw, c), kw, with_traffic) == Some(c),
{
    let s = emit_station_directive(kw, c);
    let p = kw.len() as int;
    lemma_station_head(kw, c);
    let j0 = p + c.name.len() + 8;
    match c.traffic {
        Some(t) => {
            let tpart = seq![44u8, 32u8] + traffic_kw() + mhz_bytes(t);
            assert(s.subrange(j0, j0 + 17) =~= tpart);
            assert(s[j0] == 44 && s[j0 + 1] == 32) by {
                assert(s.subrange(j0, j0 + 17)[0] == s[j0]);
                assert(s.subrange(j0, j0 + 17)[1] == s[j0 + 1]);
            }
            let k = j0 + 2;
            assert(sep_skip(s, j0) == k);
            assert(matches_ci(s, k, traffic_kw())) by {
                assert(forall|j: int|
                    0 <= j < traffic_kw().len() ==> s[k + j] == #[trigger] traffic_kw()[j]) by {
                    assert(forall|j: int|
                        0 <= j < traffic_kw().len() ==> #[trigger] s.subrange(j0, j0 + 17)[2 + j]
                            == s[j0 + 2 + j]);
                }
            }
            assert(s.subrange(k + 8, k + 15) =~= mhz_bytes(t)) by {
                assert(forall|k2: int|
                    0 <= k2 < 7 ==> #[trigger] s.subrange(j0, j0 + 17)[10 + k2] == s[j0 + 10
                        + k2]);
                assert(forall|k2: int|
                    0 <= k2 < 7 ==> #[trigger] s.subrange(k + 8, k + 15)[k2] == s[k + 8 + k2]);
            }
            lemma_parse_freq_of_mhz(s, k + 8, t);
            let j2 = k + 15;
            match c.tts {
                Some(tv) => {
                    assert(s.subrange(j2, s.len() as int) =~= seq![44u8, 32u8] + voice_kw()
                        + tts_bytes(tv));
                    lemma_voice_group(s, j2, tv);
                    assert(parse_atis_tail(s, j0) == Some((Some(t), Some(tv))));
                },
                None => {
                    assert(j2 == s.len());
                    assert(parse_atis_tail(s, j0) == Some((Some(t), None::<TtsProviderModel>)));
                },
            }
        },
        None => {
            match c.tts {
                Some(tv) => {
                    assert(s.subrange(j0, s.len() as int) =~= seq![44u8, 32u8] + voice_kw()
                        + tts_bytes(tv));
                    lemma_voice_group(s, j0, tv);
                    if with_traffic {
                        assert(!matches_ci(s, j0 + 2, traffic_kw())) by {
                            assert(s[j0 + 2] == voice_kw()[0]);
                            if matches_ci(s, j0 + 2, traffic_kw()) {
                                assert(to_upper(s[j0 + 2]) == to_upper(traffic_kw()[0]));
                            }
                        }
                        assert(parse_atis_tail(s, j0) == Some((None::<u64>, Some(tv))));
                    } else {
                        assert(parse_simple_tail(s, j0) == Some(Some(tv)));
                    }
                },
                None => {
                    assert(j0 == s.len());
                },
            }
        },
    }
}

/// Law: parsing the canonical `ATIS` text of a station entry yields
/// the entry back.
pub proof fn lemma_atis_round_trip(c: StationConfigModel)
    requires
        station_config_emittable(c),
    ensures
        spec_extract_atis(emit_station_directive(atis_kw(), c)) == Some(c),
{
    lemma_station_directive_round_trip(atis_kw(), c, true);
}

/// Law: parsing the canonical `CARRIER` text of a traffic-free station
/// entry yields the entry back.
pub proof fn lemma_carrier_round_trip(c: StationConfigModel)
    requires
        station_config_emittable(c),
        c.traffic is None,
    ensures
        spec_extract_carrier(emit_station_directive(carrier_kw(), c)) == Some(c),
{
    lemma_station_directive_round_trip(carrier_kw(), c, false);
}

/// Law: parsing the canonical `WEATHER` text of a traffic-free station
/// entry yields the entry back.
pub proof fn lemma_weather_round_trip(c: StationConfigModel)
    requires
        station_config_emittable(c),
        c.traffic is None,
    ensures
        spec_extract_weather(emit_station_directive(weather_kw(), c)) == Some(c),
{
    lemma_station_directive_round_trip(weather_kw(), c, false);
}

fn push_mhz(v: &mut Vec<u8>, hz: u64)
    requires
        valid_mhz(hz),
    ensures
        final(v)@ == old(v)@ + mhz_bytes(hz),
{
    let q = hz / 1000;
    let w = q / 1000;
    let f = q % 1000;
    v.push(48 + (w / 100) as u8);
    v.push(48 + (w / 10 % 10) as u8);
    v.push(48 + (w % 10) as u8);
    v.push(46);
    v.push(48 + (f / 100) as u8);
    v.push(48 + (f / 10 % 10) as u8);
    v.push(48 + (f % 10) as u8);
    proof {
        assert(v@ =~= old(v)@ + mhz_bytes(hz));
    }
}

fn push_tts(v: &mut Vec<u8>, t: &TtsProvider)
    ensures
        final(v)@ == old(v)@ + tts_bytes(t@),
{
    match t {
        TtsProvider::GoogleCloud { voice } => {
            v.push(71);
            v.push(67);
            v.push(58);
            push_bytes(v, voice.as_slice());
        },
        TtsProvider::AmazonWebServices { voice } => {
            v.push(65);
            v.push(87);
            v.push(83);
            v.push(58);
            push_bytes(v, voice.as_slice());
        },
    }
    proof {
        assert(v@ =~= old(v)@ + tts_bytes(t@));
    }
}

fn canonical_station_directive(kw: &Vec<u8>, c: &StationConfig) -> (r: Vec<u8>)
    requires
        station_config_emittable(c@),
    ensures
        r@ == emit_station_directive(kw@, c@),
{
    let mut v: Vec<u8> = Vec::new();
    push_bytes(&mut v, kw.as_slice());
    push_bytes(&mut v, c.name.as_slice());
    v.push(32);
    push_mhz(&mut v, c.atis);
    match &c.traffic {
        Some(t) => {
            v.push(44);
            v.push(32);
            let tkw = traffic_kw_v();
            push_bytes(&mut v, tkw.as_slice());
            push_mhz(&mut v, *t);
        },
        None => {},
    }
    match &c.tts {
        Some(t) => {
            v.push(44);
            v.push(32);
            let vkw = voice_kw_v();
            push_bytes(&mut v, vkw.as_slice());
            push_tts(&mut v, t);
        },
        None => {},
    }
    proof {
        assert(v@ =~= emit_station_directive(kw@, c@));
    }
    v
}

/// The canonical `ATIS` text of a station entry; parsing it yields the
/// entry back.
pub fn canonical_atis_directive(c: &StationConfig) -> (r: Vec<u8>)
    requires
        station_config_emittable(c@),
    ensures
        r@ == emit_station_directive(atis_kw(), c@),
        spec_extract_atis(r@) == Some(c@),
{
    let kw = atis_kw_v();
    let r = canonical_station_directive(&kw, c);
    proof {
        lemma_atis_round_trip(c@);
    }
    r
}

/// The canonical `CARRIER` text of a traffic-free station entry;
/// parsing it yields the entry back.
pub fn canonical_carrier_directive(c: &StationConfig) -> (r: Vec<u8>)
    requires
        station_config_emittable(c@),
        c@.traffic is None,
    ensures
        r@ == emit_station_directive(carrier_kw(), c@),
        spec_extract_carrier(r@) == Some(c@),
{
    let kw = carrier_kw_v();
    let r = canonical_station_directive(&kw, c);
    proof {
        lemma_carrier_round_trip(c@);
    }
    r
}

/// The canonical `WEATHER` text of a traffic-free station entry;
/// parsing it yields the entry back.
pub fn canonical_weather_directive(c: &StationConfig) -> (r: Vec<u8>)
    requires
        station_config_emittable(c@),
        c@.traffic is None,
    ensures
        r@ == emit_station_directive(weather_kw(), c@),
        spec_extract_weather(r@) == Some(c@),
{
    let kw = weather_kw_v();
    let r = canonical_station_directive(&kw, c);
    proof {
        lemma_weather_round_trip(c@);
    }
    r
}

/// Law: every frequency a directive carries is the exact scaled
/// decimal of its token — a whole number of kilohertz between 100 and
/// 400 megahertz — so the conversion to hertz is the rounded product
/// with one million, and every parsed frequency is canonical.
pub proof fn lemma_parsed_freq_valid(s: Seq<u8>, i: int, hz: u64, j: int)
    requires
        parse_freq(s, i) == Some((hz, j)),
    ensures
        valid_mhz(hz),
{
}

/// A voice spec that parsed carries only voice-class bytes.
proof fn lemma_parsed_tts_wf(s: Seq<u8>, k: int, t: TtsProviderModel)
    requires
        parse_voice_to_end(s, k) == Some(t),
    ensures
        tts_wf(t),
{
    let v0 = k + 6;
    let cls = |b: u8| is_voice_byte(b);
    let ve = run_end(s, v0, cls);
    lemma_run_end(s, v0, cls);
    let v = s.subrange(v0, ve);
    assert(forall|i: int| 0 <= i < v.len() ==> is_voice_byte(#[trigger] v[i])) by {
        assert(forall|i: int| 0 <= i < v.len() ==> #[trigger] v[i] == s[v0 + i]);
    }
    match parse_tts(v) {
        TtsProviderModel::AmazonWebServices { voice } => {
            assert(forall|i: int|
                0 <= i < voice.len() ==> is_voice_byte(#[trigger] voice[i])) by {
                assert(forall|i: int| 0 <= i < voice.len() ==> #[trigger] voice[i] == v[4 + i]);
            }
        },
        TtsProviderModel::GoogleCloud { voice } => {
            if v.len() >= 3 && v.subrange(0, 3) == gc_prefix() && !(v.len() >= 4 && v.subrange(
                0,
                4,
            ) == aws_prefix()) {
                assert(forall|i: int|
                    0 <= i < voice.len() ==> is_voice_byte(#[trigger] voice[i])) by {
                    assert(forall|i: int|
                        0 <= i < voice.len() ==> #[trigger] voice[i] == v[3 + i]);
                }
            } else {
                assert(voice == v);
            }
        },
    }
}

/// A station entry that parsed from some text is one the canonical
/// form can carry.
proof fn lemma_parsed_station_emittable(
    s: Seq<u8>,
    kw: Seq<u8>,
    with_traffic: bool,
    c: StationConfigModel,
)
    requires
        spec_station_directive(s, kw, with_traffic) == Some(c),
    ensures
        station_config_emittable(c),
        !with_traffic ==> c.traffic is None,
{
    let p = kw.len() as int;
    let cls = |b: u8| is_name_byte(b);
    let e = run_end(s, p, cls);
    lemma_run_end(s, p, cls);
    let (name, hz, j) = parse_name_freq(s, p)->0;
    let (hz2, j2f) = parse_freq(s, e)->0;
    lemma_parsed_freq_valid(s, e, hz2, j2f);
    assert(c.name == s.subrange(p, e - 1));
    assert(c.name.len() >= 1);
    assert forall|i2: int| 0 <= i2 < c.name.len() implies is_name_byte(
        #[trigger] c.name[i2],
    ) by {
        assert(c.name[i2] == s[p + i2]);
    }
    if with_traffic {
        let (traffic, tts) = parse_atis_tail(s, j)->0;
        if j == s.len() {
        } else {
            let k = sep_skip(s, j);
            if matches_ci(s, k, traffic_kw()) {
                let (thz, j2) = parse_freq(s, k + 8)->0;
                lemma_parsed_freq_valid(s, k + 8, thz, j2);
                if j2 == s.len() {
                } else {
                    lemma_parsed_tts_wf(s, sep_skip(s, j2), tts->0);
                }
            } else {
                lemma_parsed_tts_wf(s, k, tts->0);
            }
        }
    } else {
        let tts = parse_simple_tail(s, j)->0;
        if j == s.len() {
        } else {
            lemma_parsed_tts_wf(s, sep_skip(s, j), tts->0);
        }
    }
}

/// Law: parsing an `ATIS` directive and re-emitting its canonical form
/// parses back to the same station entry.
pub proof fn lemma_atis_parse_emit_idempotent(s: Seq<u8>, c: StationConfigModel)
    requires
        spec_extract_atis(s) == Some(c),
    ensures
        spec_extract_atis(emit_station_directive(atis_kw(), c)) == Some(c),
{
    lemma_parsed_station_emittable(s, atis_kw(), true, c);
    lemma_station_directive_round_trip(atis_kw(), c, true);
}

/// Law: parsing a `CARRIER` directive and re-emitting its canonical
/// form parses back to the same station entry.
pub proof fn lemma_carrier_parse_emit_idempotent(s: Seq<u8>, c: StationConfigModel)
    requires
        spec_extract_carrier(s) == Some(c),
    ensures
        spec_extract_carrier(emit_station_directive(carrier_kw(), c)) == Some(c),
{
    lemma_parsed_station_emittable(s, carrier_kw(), false, c);
    lemma_station_directive_round_trip(carrier_kw(), c, false);
}

/// Law: parsing a `WEATHER` directive and re-emitting its canonical
/// form parses back to the same station entry.
pub proof fn lemma_weather_parse_emit_idempotent(s: Seq<u8>, c: StationConfigModel)
    requires
        spec_extract_weather(s) == Some(c),
    ensures
        spec_extract_weather(emit_station_directive(weather_kw(), c)) == Some(c),
{
    lemma_parsed_station_emittable(s, weather_kw(), false, c);
    lemma_station_directive_round_trip(weather_kw(), c, false);
}

} // verus!




