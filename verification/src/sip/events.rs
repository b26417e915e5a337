//! What the SIP library reports: states, directions and messages of its log.

use crate::call::health::{elapsed_secs, seconds_since};
use crate::text::{
    after_first, before_char, behind_first, chars_of, contains, contains_text, decimal,
    decimal_text, join3, last_index, rfind_char, same_text, slice_text, text_of, trim, trimmed,
    up_to_char, find_char, copy_range,
};
use vstd::prelude::*;
use vstd::string::*;

verus! {

/// The state of an invitation.
#[derive(Debug, Clone, Copy, PartialEq, Eq, Structural)]
pub enum InvState {
    Null,
    Calling,
    Incoming,
    Early,
    Connecting,
    Confirmed,
    Disconnected,
    Unknown(u32),
}

/// The state that a number stands for.
pub open spec fn inv_state(n: u32) -> InvState {
    if n == 0 {
        InvState::Null
    } else if n == 1 {
        InvState::Calling
    } else if n == 2 {
        InvState::Incoming
    } else if n == 3 {
        InvState::Early
    } else if n == 4 {
        InvState::Connecting
    } else if n == 5 {
        InvState::Confirmed
    } else if n == 6 {
        InvState::Disconnected
    } else {
        InvState::Unknown(n)
    }
}

impl From<u32> for InvState {
    fn from(state: u32) -> Self {
        match state {
            0 => InvState::Null,
            1 => InvState::Calling,
            2 => InvState::Incoming,
            3 => InvState::Early,
            4 => InvState::Connecting,
            5 => InvState::Confirmed,
            6 => InvState::Disconnected,
            x => InvState::Unknown(x),
        }
    }
}

impl vstd::std_specs::convert::FromSpecImpl<u32> for InvState {
    open spec fn obeys_from_spec() -> bool {
        true
    }

    open spec fn from_spec(n: u32) -> Self {
        inv_state(n)
    }
}

impl InvState {
    /// The name of the state.
    pub fn text(&self) -> (r: String)
        ensures
            r@ == (match *self {
                InvState::Null => "NULL"@,
                InvState::Calling => "CALLING"@,
                InvState::Incoming => "INCOMING"@,
                InvState::Early => "EARLY"@,
                InvState::Connecting => "CONNECTING"@,
                InvState::Confirmed => "CONFIRMED"@,
                InvState::Disconnected => "DISCONNECTED"@,
                InvState::Unknown(n) => "UNKNOWN("@ + decimal(n as nat) + ")"@,
            }),
    {
        match self {
            InvState::Null => String::from_str("NULL"),
            InvState::Calling => String::from_str("CALLING"),
            InvState::Incoming => String::from_str("INCOMING"),
            InvState::Early => String::from_str("EARLY"),
            InvState::Connecting => String::from_str("CONNECTING"),
            InvState::Confirmed => String::from_str("CONFIRMED"),
            InvState::Disconnected => String::from_str("DISCONNECTED"),
            InvState::Unknown(n) => join3("UNKNOWN(", decimal_text(*n as u64).as_str(), ")"),
        }
    }
}

/// The direction of media.
#[derive(Debug, Clone, Copy, PartialEq, Eq, Structural)]
pub enum MediaDir {
    NoMedia,
    Encoding,
    Decoding,
    EncodingDecoding,
    Unknown(u32),
}

/// The direction that a number stands for.
pub open spec fn media_dir(n: u32) -> MediaDir {
    if n == 0 {
        MediaDir::NoMedia
    } else if n == 1 {
        MediaDir::Encoding
    } else if n == 2 {
        MediaDir::Decoding
    } else if n == 3 {
        MediaDir::EncodingDecoding
    } else {
        MediaDir::Unknown(n)
    }
}

impl From<u32> for MediaDir {
    fn from(dir: u32) -> Self {
        match dir {
            0 => MediaDir::NoMedia,
            1 => MediaDir::Encoding,
            2 => MediaDir::Decoding,
            3 => MediaDir::EncodingDecoding,
            x => MediaDir::Unknown(x),
        }
    }
}

impl vstd::std_specs::convert::FromSpecImpl<u32> for MediaDir {
    open spec fn obeys_from_spec() -> bool {
        true
    }

    open spec fn from_spec(n: u32) -> Self {
        media_dir(n)
    }
}

impl MediaDir {
    /// The name of the direction.
    pub fn text(&self) -> (r: String)
        ensures
            r@ == (match *self {
                MediaDir::NoMedia => "NONE"@,
                MediaDir::Encoding => "ENCODING"@,
                MediaDir::Decoding => "DECODING"@,
                MediaDir::EncodingDecoding => "ENCODING_DECODING"@,
                MediaDir::Unknown(n) => "UNKNOWN("@ + decimal(n as nat) + ")"@,
            }),
    {
        match self {
            MediaDir::NoMedia => String::from_str("NONE"),
            MediaDir::Encoding => String::from_str("ENCODING"),
            MediaDir::Decoding => String::from_str("DECODING"),
            MediaDir::EncodingDecoding => String::from_str("ENCODING_DECODING"),
            MediaDir::Unknown(n) => join3("UNKNOWN(", decimal_text(*n as u64).as_str(), ")"),
        }
    }
}

/// The state of a call's media.
#[derive(Debug, Clone, Copy, PartialEq, Eq, Structural)]
pub enum MediaStatus {
    NoMedia,
    Active,
    LocalHold,
    RemoteHold,
    Error,
    Unknown,
}

/// The state of media that a number stands for.
pub fn media_status(n: u32) -> (r: MediaStatus)
    ensures
        r == (if n == 0 {
            MediaStatus::NoMedia
        } else if n == 1 {
            MediaStatus::Active
        } else if n == 2 {
            MediaStatus::LocalHold
        } else if n == 3 {
            MediaStatus::RemoteHold
        } else if n == 4 {
            MediaStatus::Error
        } else {
            MediaStatus::Unknown
        }),
{
    match n {
        0 => MediaStatus::NoMedia,
        1 => MediaStatus::Active,
        2 => MediaStatus::LocalHold,
        3 => MediaStatus::RemoteHold,
        4 => MediaStatus::Error,
        _ => MediaStatus::Unknown,
    }
}

/// A condition that a message of the SIP library tells of.
#[derive(Debug, Clone, Copy, PartialEq, Eq, Structural)]
pub enum PjsipEvent {
    /// No call slot is left.
    TooManyCalls,
    /// A TLS handshake failed.
    SslHandshakeError,
    /// A response could not be sent.
    SendResponseFailed,
    /// ICE failed.
    IceNegotiationFailed,
    /// A transport failed.
    TransportError,
    /// No codec matches.
    NoMatchingCodec,
    /// A subscription to an unknown event package was refused.
    BadEventSubscription,
    /// A packet could not be parsed.
    MalformedPacket,
    /// Anything else.
    Unclassified,
}

/// The condition that a message tells of, and the level that it is logged at where that is not
/// the library's own.
pub open spec fn classified(msg: Seq<char>) -> (PjsipEvent, Option<u8>) {
    if contains_text(msg, "too many calls"@) {
        (PjsipEvent::TooManyCalls, Some(0))
    } else if contains_text(msg, "SSL_ERROR_SSL"@) || contains_text(msg, "SSL_ERROR_SYSCALL"@) {
        (PjsipEvent::SslHandshakeError, None)
    } else if contains_text(msg, "Unable to send"@) && contains_text(msg, "response"@) {
        (PjsipEvent::SendResponseFailed, Some(1))
    } else if contains_text(msg, "ICE"@) && contains_text(msg, "failed"@) {
        (PjsipEvent::IceNegotiationFailed, None)
    } else if contains_text(msg, "Transport"@) && contains_text(msg, "error"@) {
        (PjsipEvent::TransportError, Some(1))
    } else if contains_text(msg, "No matching codec"@) {
        (PjsipEvent::NoMatchingCodec, None)
    } else if contains_text(msg, "Unable to create server subscription"@) {
        (PjsipEvent::BadEventSubscription, Some(4))
    } else if contains_text(msg, "PJSIP syntax error exception"@) {
        (PjsipEvent::MalformedPacket, None)
    } else {
        (PjsipEvent::Unclassified, None)
    }
}

impl PjsipEvent {
    /// The condition that a message tells of, and the level that it is logged at.
    pub fn classify(msg: &str) -> (r: (Self, Option<u8>))
        ensures
            r == classified(msg@),
    {
        if contains(msg, "too many calls") {
            (PjsipEvent::TooManyCalls, Some(0))
        } else if contains(msg, "SSL_ERROR_SSL") || contains(msg, "SSL_ERROR_SYSCALL") {
            (PjsipEvent::SslHandshakeError, None)
        } else if contains(msg, "Unable to send") && contains(msg, "response") {
            (PjsipEvent::SendResponseFailed, Some(1))
        } else if contains(msg, "ICE") && contains(msg, "failed") {
            (PjsipEvent::IceNegotiationFailed, None)
        } else if contains(msg, "Transport") && contains(msg, "error") {
            (PjsipEvent::TransportError, Some(1))
        } else if contains(msg, "No matching codec") {
            (PjsipEvent::NoMatchingCodec, None)
        } else if contains(msg, "Unable to create server subscription") {
            (PjsipEvent::BadEventSubscription, Some(4))
        } else if contains(msg, "PJSIP syntax error exception") {
            (PjsipEvent::MalformedPacket, None)
        } else {
            (PjsipEvent::Unclassified, None)
        }
    }

    /// The tag of the condition.
    pub fn as_str(self) -> (r: &'static str)
        ensures
            r@ == (match self {
                PjsipEvent::TooManyCalls => "TOO_MANY_CALLS"@,
                PjsipEvent::SslHandshakeError => "SSL_HANDSHAKE_ERROR"@,
                PjsipEvent::SendResponseFailed => "SEND_RESPONSE_FAILED"@,
                PjsipEvent::IceNegotiationFailed => "ICE_NEGOTIATION_FAILED"@,
                PjsipEvent::TransportError => "TRANSPORT_ERROR"@,
                PjsipEvent::NoMatchingCodec => "NO_MATCHING_CODEC"@,
                PjsipEvent::BadEventSubscription => "BAD_EVENT_SUBSCRIBE"@,
                PjsipEvent::MalformedPacket => "MALFORMED_PACKET"@,
                PjsipEvent::Unclassified => "UNCLASSIFIED"@,
            }),
    {
        match self {
            PjsipEvent::TooManyCalls => "TOO_MANY_CALLS",
            PjsipEvent::SslHandshakeError => "SSL_HANDSHAKE_ERROR",
            PjsipEvent::SendResponseFailed => "SEND_RESPONSE_FAILED",
            PjsipEvent::IceNegotiationFailed => "ICE_NEGOTIATION_FAILED",
            PjsipEvent::TransportError => "TRANSPORT_ERROR",
            PjsipEvent::NoMatchingCodec => "NO_MATCHING_CODEC",
            PjsipEvent::BadEventSubscription => "BAD_EVENT_SUBSCRIBE",
            PjsipEvent::MalformedPacket => "MALFORMED_PACKET",
            PjsipEvent::Unclassified => "UNCLASSIFIED",
        }
    }
}

/// The level of a message.
#[derive(Debug, Clone, Copy, PartialEq, Eq, Structural)]
pub enum LogLevel {
    Error,
    Warn,
    Info,
    Debug,
    Trace,
}

/// The level that a number stands for.
pub fn log_level(n: u8) -> (r: LogLevel)
    ensures
        r == (if n <= 1 {
            LogLevel::Error
        } else if n == 2 {
            LogLevel::Warn
        } else if n == 3 {
            LogLevel::Info
        } else if n == 4 {
            LogLevel::Debug
        } else {
            LogLevel::Trace
        }),
{
    match n {
        0 | 1 => LogLevel::Error,
        2 => LogLevel::Warn,
        3 => LogLevel::Info,
        4 => LogLevel::Debug,
        _ => LogLevel::Trace,
    }
}

/// The text in front of the first space or tab, or all of it.
pub open spec fn before_blank(s: Seq<char>) -> Seq<char>
    decreases s.len(),
{
    if s.len() == 0 || s[0] == ' ' || s[0] == '\t' {
        Seq::empty()
    } else {
        seq![s[0]] + before_blank(s.subrange(1, s.len() as int))
    }
}

proof fn lemma_before_blank(s: Seq<char>, k: int)
    requires
        0 <= k <= s.len(),
        forall|j: int| 0 <= j < k ==> s[j] != ' ' && s[j] != '\t',
        k < s.len() ==> s[k] == ' ' || s[k] == '\t',
    ensures
        before_blank(s) == s.subrange(0, k),
    decreases k,
{
    if k == 0 {
        assert(s.subrange(0, 0) =~= Seq::<char>::empty());
    } else {
        let t = s.subrange(1, s.len() as int);
        lemma_before_blank(t, k - 1);
        assert(s.subrange(0, k) =~= seq![s[0]] + t.subrange(0, k - 1));
    }
}

/// The source of a dropped packet: the word behind the transport, which stands behind `from`.
pub open spec fn packet_source(msg: Seq<char>) -> Option<Seq<char>> {
    match behind_first(msg, "from "@) {
        None => None,
        Some(rest) => match behind_first(rest, " "@) {
            None => None,
            Some(after) => Some(before_blank(after)),
        },
    }
}

/// The source of a dropped packet, as a message tells it.
pub fn extract_packet_source(msg: &str) -> (r: Option<String>)
    ensures
        r is Some <==> packet_source(msg@) is Some,
        r is Some ==> Some((r->0)@) == packet_source(msg@),
{
    let v: Vec<char> = chars_of(msg);
    let rest: Vec<char> = match after_first(v.as_slice(), "from ") {
        Some(r) => r,
        None => {
            return None;
        },
    };
    let after: Vec<char> = match after_first(rest.as_slice(), " ") {
        Some(a) => a,
        None => {
            return None;
        },
    };
    let mut end: usize = 0;
    while end < after.len() && after[end] != ' ' && after[end] != '\t'
        invariant
            end <= after@.len(),
            forall|j: int| 0 <= j < end ==> after@[j] != ' ' && after@[j] != '\t',
        decreases after@.len() - end,
    {
        end = end + 1;
    }
    proof {
        lemma_before_blank(after@, end as int);
    }
    Some(slice_text(after.as_slice(), 0, end))
}

/// The host of a peer: what stands in square brackets, or in front of the last colon.
pub open spec fn peer_host_is(host: Option<Seq<char>>, peer: Seq<char>) -> bool {
    if peer.len() > 0 && peer[0] == '[' {
        let rest = peer.subrange(1, peer.len() as int);
        if rest.contains(']') {
            host == Some(before_char(rest, ']'))
        } else {
            host is None
        }
    } else if peer.contains(':') {
        exists|k: int| #[trigger] last_index(peer, ':', k) && host == Some(peer.subrange(0, k))
    } else {
        host == Some(peer)
    }
}

/// The host of a peer.
pub fn peer_host(peer: &str) -> (r: Option<String>)
    ensures
        peer_host_is(
            match r {
                Some(s) => Some(s@),
                None => None,
            },
            peer@,
        ),
{
    let v: Vec<char> = chars_of(peer);
    if v.len() > 0 && v[0] == '[' {
        let rest: Vec<char> = copy_range(v.as_slice(), 1, v.len());
        match find_char(rest.as_slice(), ']') {
            None => None,
            Some(k) => {
                proof {
                    assert(rest@[k as int] == ']');
                }
                Some(text_of(up_to_char(rest.as_slice(), ']').as_slice()))
            },
        }
    } else {
        match rfind_char(v.as_slice(), ':') {
            Some(k) => {
                proof {
                    assert(v@[k as int] == ':');
                }
                Some(slice_text(v.as_slice(), 0, k))
            },
            None => Some(String::from_str(peer)),
        }
    }
}

/// The peer of a failed handshake, as a message tells it: the text behind `peer:`.
pub open spec fn ssl_peer(msg: Seq<char>) -> Option<Seq<char>> {
    match behind_first(msg, "peer: "@) {
        None => None,
        Some(rest) => if trim(rest).len() == 0 {
            None
        } else {
            Some(trim(rest))
        },
    }
}

/// The peer of a failed handshake, as a message tells it.
pub fn extract_ssl_peer(msg: &str) -> (r: Option<String>)
    ensures
        r is Some <==> ssl_peer(msg@) is Some,
        r is Some ==> Some((r->0)@) == ssl_peer(msg@),
{
    let v: Vec<char> = chars_of(msg);
    match after_first(v.as_slice(), "peer: ") {
        None => None,
        Some(rest) => {
            let t: Vec<char> = trimmed(rest.as_slice());
            if t.len() == 0 {
                None
            } else {
                Some(text_of(t.as_slice()))
            }
        },
    }
}

/// The seconds between two messages on one source.
pub const MALFORMED_LOG_INTERVAL_SECS: u64 = 60;

/// The seconds after which a source is forgotten.
pub const MALFORMED_ENTRY_IDLE_SECS: u64 = 300;

/// What is known of a source of malformed packets: when it was last logged, and how many
/// packets came since.
pub struct ThrottleEntry {
    pub source: String,
    pub last_logged: u64,
    pub suppressed: u64,
}

/// The sources of malformed packets.
pub struct MalformedThrottle {
    entries: Vec<ThrottleEntry>,
}

/// What is logged of a malformed packet.
#[derive(Debug, Clone, Copy, PartialEq, Eq, Structural)]
pub enum ThrottleStep {
    /// It is the first of its source.
    First,
    /// Nothing.
    Quiet,
    /// So many came within so many seconds.
    Summary { suppressed: u64, window_secs: u64 },
}

/// What is known of the sources.
pub type ThrottleFacts = Map<Seq<char>, (u64, u64)>;

/// The facts of entries.
pub open spec fn facts_of(entries: Seq<ThrottleEntry>) -> ThrottleFacts
    decreases entries.len(),
{
    if entries.len() == 0 {
        Map::empty()
    } else {
        facts_of(entries.drop_last()).insert(
            entries.last().source@,
            (entries.last().last_logged, entries.last().suppressed),
        )
    }
}

/// The source is known, and was logged not too long ago.
pub open spec fn is_live(m: ThrottleFacts, source: Seq<char>, now: u64) -> bool {
    m.contains_key(source) && seconds_since(now, m[source].0) < MALFORMED_ENTRY_IDLE_SECS
}

/// What is logged of a packet.
pub open spec fn throttle_step(m: ThrottleFacts, source: Seq<char>, now: u64) -> ThrottleStep {
    if !is_live(m, source, now) {
        ThrottleStep::First
    } else if seconds_since(now, m[source].0) >= MALFORMED_LOG_INTERVAL_SECS {
        ThrottleStep::Summary {
            suppressed: (m[source].1 + 1) as u64,
            window_secs: seconds_since(now, m[source].0) as u64,
        }
    } else {
        ThrottleStep::Quiet
    }
}

/// What is known of the source of a packet, once it was taken in.
pub open spec fn throttle_after(m: ThrottleFacts, source: Seq<char>, now: u64) -> (u64, u64) {
    match throttle_step(m, source, now) {
        ThrottleStep::Quiet => (m[source].0, (m[source].1 + 1) as u64),
        _ => (now, 0),
    }
}

/// No source is listed twice.
pub open spec fn sources_distinct(entries: Seq<ThrottleEntry>) -> bool {
    forall|i: int, j: int|
        #![trigger entries[i], entries[j]]
        0 <= i < j < entries.len() ==> entries[i].source@ != entries[j].source@
}

proof fn lemma_facts(entries: Seq<ThrottleEntry>)
    requires
        sources_distinct(entries),
    ensures
        forall|i: int|
            0 <= i < entries.len() ==> facts_of(entries).contains_key(
                (#[trigger] entries[i]).source@,
            ) && facts_of(entries)[entries[i].source@] == (
                entries[i].last_logged,
                entries[i].suppressed,
            ),
        forall|s: Seq<char>| #[trigger]
            facts_of(entries).contains_key(s) ==> exists|i: int|
                0 <= i < entries.len() && (#[trigger] entries[i]).source@ == s,
    decreases entries.len(),
{
    if entries.len() > 0 {
        let e = entries.drop_last();
        assert(sources_distinct(e)) by {
            assert forall|i: int, j: int|
                #![trigger e[i], e[j]]
                0 <= i < j < e.len() implies e[i].source@ != e[j].source@ by {
                assert(entries[i].source@ != entries[j].source@);
            }
        }
        lemma_facts(e);
        assert forall|i: int| 0 <= i < entries.len() implies facts_of(entries).contains_key(
            (#[trigger] entries[i]).source@,
        ) && facts_of(entries)[entries[i].source@] == (
            entries[i].last_logged,
            entries[i].suppressed,
        ) by {
            if i < entries.len() - 1 {
                assert(e[i] == entries[i]);
                assert(entries[i].source@ != entries[entries.len() - 1].source@);
            }
        }
        assert forall|s: Seq<char>| #[trigger] facts_of(entries).contains_key(
            s,
        ) implies exists|i: int| 0 <= i < entries.len() && (#[trigger] entries[i]).source@ == s by {
            if s == entries.last().source@ {
                assert(entries[entries.len() - 1].source@ == s);
            } else {
                assert(facts_of(e).contains_key(s));
                let i = choose|i: int| 0 <= i < e.len() && (#[trigger] e[i]).source@ == s;
                assert(entries[i].source@ == s);
            }
        }
    }
}

impl MalformedThrottle {
    /// What is known of the sources.
    pub closed spec fn view(&self) -> ThrottleFacts {
        facts_of(self.entries@)
    }

    #[verifier::type_invariant]
    spec fn distinct(&self) -> bool {
        sources_distinct(self.entries@)
    }

    /// No source is known.
    pub fn new() -> (r: Self)
        ensures
            r@ == Map::<Seq<char>, (u64, u64)>::empty(),
    {
        MalformedThrottle { entries: Vec::new() }
    }

    /// How many packets of a source were passed over since one was logged.
    pub fn suppressed(&self, source: &str) -> (n: u64)
        ensures
            n == (if self@.contains_key(source@) {
                self@[source@].1
            } else {
                0
            }),
    {
        proof {
            use_type_invariant(self);
            lemma_facts(self.entries@);
        }
        let mut i: usize = 0;
        while i < self.entries.len()
            invariant
                i <= self.entries@.len(),
                self@ == facts_of(self.entries@),
                forall|j: int|
                    0 <= j < self.entries@.len() ==> self@.contains_key(
                        (#[trigger] self.entries@[j]).source@,
                    ) && self@[self.entries@[j].source@] == (
                        self.entries@[j].last_logged,
                        self.entries@[j].suppressed,
                    ),
                forall|k: Seq<char>| #[trigger]
                    self@.contains_key(k) ==> exists|j: int|
                        0 <= j < self.entries@.len() && (#[trigger] self.entries@[j]).source@ == k,
                forall|j: int| 0 <= j < i ==> (#[trigger] self.entries@[j]).source@ != source@,
            decreases self.entries@.len() - i,
        {
            let entry: &ThrottleEntry = &self.entries[i];
            if same_text(entry.source.as_str(), source) {
                return entry.suppressed;
            }
            i = i + 1;
        }
        0
    }

    /// Takes a malformed packet in, and says what is logged of it: the first packet of a source
    /// at once, then a summary each minute. Sources that have been quiet are forgotten.
    pub fn handle_malformed_packet(&mut self, source: &str, now: u64) -> (s: ThrottleStep)
        requires
            old(self)@.contains_key(source@) ==> old(self)@[source@].1 < u64::MAX,
        ensures
            s == throttle_step(old(self)@, source@, now),
            forall|k: Seq<char>| #[trigger]
                final(self)@.contains_key(k) <==> k == source@ || is_live(old(self)@, k, now),
            forall|k: Seq<char>| #[trigger]
                final(self)@.contains_key(k) ==> final(self)@[k] == (if k == source@ {
                    throttle_after(old(self)@, source@, now)
                } else {
                    old(self)@[k]
                }),
    {
        proof {
            use_type_invariant(&*self);
            lemma_facts(self.entries@);
        }
        let ghost m = self@;
        let mut kept: Vec<ThrottleEntry> = Vec::new();
        let mut step: ThrottleStep = ThrottleStep::First;
        let mut logged: u64 = now;
        let mut pending: u64 = 0;
        let mut i: usize = 0;
        while i < self.entries.len()
            invariant
                i <= self.entries@.len(),
                m == facts_of(self.entries@),
                m == old(self)@,
                sources_distinct(self.entries@),
                m.contains_key(source@) ==> m[source@].1 < u64::MAX,
                forall|j: int|
                    0 <= j < self.entries@.len() ==> m.contains_key(
                        (#[trigger] self.entries@[j]).source@,
                    ) && m[self.entries@[j].source@] == (
                        self.entries@[j].last_logged,
                        self.entries@[j].suppressed,
                    ),
                sources_distinct(kept@),
                forall|a: int|
                    0 <= a < kept@.len() ==> (#[trigger] kept@[a]).source@ != source@ && is_live(
                        m,
                        kept@[a].source@,
                        now,
                    ) && m[kept@[a].source@] == (kept@[a].last_logged, kept@[a].suppressed)
                        && exists|j: int|
                        0 <= j < i && (#[trigger] self.entries@[j]).source@ == kept@[a].source@,
                forall|j: int|
                    0 <= j < i && (#[trigger] self.entries@[j]).source@ != source@ && is_live(
                        m,
                        self.entries@[j].source@,
                        now,
                    ) ==> exists|a: int|
                        0 <= a < kept@.len() && (#[trigger] kept@[a]).source@
                            == self.entries@[j].source@,
                if exists|j: int| 0 <= j < i && (#[trigger] self.entries@[j]).source@ == source@ {
                    step == throttle_step(m, source@, now) && (logged, pending) == throttle_after(
                        m,
                        source@,
                        now,
                    )
                } else {
                    step == ThrottleStep::First && logged == now && pending == 0
                },
            decreases self.entries@.len() - i,
        {
            let entry: &ThrottleEntry = &self.entries[i];
            let ghost e = *entry;
            let ghost kept_before = kept@;
            proof {
                assert(m.contains_key(self.entries@[i as int].source@));
            }
            let idle: u64 = elapsed_secs(now, entry.last_logged);
            if same_text(entry.source.as_str(), source) {
                if idle < MALFORMED_ENTRY_IDLE_SECS {
                    if idle >= MALFORMED_LOG_INTERVAL_SECS {
                        step =
                        ThrottleStep::Summary {
                            suppressed: entry.suppressed + 1,
                            window_secs: idle,
                        };
                    } else {
                        step = ThrottleStep::Quiet;
                        logged = entry.last_logged;
                        pending = entry.suppressed + 1;
                    }
                }
                proof {
                    assert(self.entries@[i as int].source@ == source@);
                    assert forall|j: int| 0 <= j < i implies (#[trigger] self.entries@[j]).source@
                        != source@ by {
                        assert(self.entries@[j].source@ != self.entries@[i as int].source@);
                    }
                }
            } else if idle < MALFORMED_ENTRY_IDLE_SECS {
                kept.push(
                    ThrottleEntry {
                        source: entry.source.clone(),
                        last_logged: entry.last_logged,
                        suppressed: entry.suppressed,
                    },
                );
                proof {
                    let last = kept@.len() - 1;
                    assert(kept@[last].source@ == e.source@);
                    assert forall|a: int, b: int|
                        #![trigger kept@[a], kept@[b]]
                        0 <= a < b < kept@.len() implies kept@[a].source@ != kept@[b].source@ by {
                        if b == last {
                            assert(kept_before[a] == kept@[a]);
                            let j = choose|j: int|
                                0 <= j < i && (#[trigger] self.entries@[j]).source@
                                    == kept_before[a].source@;
                            assert(self.entries@[j].source@ != self.entries@[i as int].source@);
                        } else {
                            assert(kept_before[a].source@ != kept_before[b].source@);
                        }
                    }
                    assert forall|a: int| 0 <= a < kept@.len() implies (
                    #[trigger] kept@[a]).source@ != source@ && is_live(m, kept@[a].source@, now)
                        && m[kept@[a].source@] == (kept@[a].last_logged, kept@[a].suppressed)
                        && exists|j: int|
                        0 <= j < i + 1 && (#[trigger] self.entries@[j]).source@
                            == kept@[a].source@ by {
                        if a < last {
                            assert(kept_before[a] == kept@[a]);
                            let j = choose|j: int|
                                0 <= j < i && (#[trigger] self.entries@[j]).source@
                                    == kept_before[a].source@;
                            assert(self.entries@[j].source@ == kept@[a].source@);
                        } else {
                            assert(self.entries@[i as int].source@ == kept@[a].source@);
                        }
                    }
                    assert forall|j: int|
                        0 <= j < i + 1 && (#[trigger] self.entries@[j]).source@ != source@
                            && is_live(m, self.entries@[j].source@, now) implies exists|a: int|
                        0 <= a < kept@.len() && (#[trigger] kept@[a]).source@
                            == self.entries@[j].source@ by {
                        if j < i {
                            let a = choose|a: int|
                                0 <= a < kept_before.len() && (#[trigger] kept_before[a]).source@
                                    == self.entries@[j].source@;
                            assert(kept@[a].source@ == self.entries@[j].source@);
                        } else {
                            assert(kept@[last].source@ == self.entries@[j].source@);
                        }
                    }
                }
            }
            i = i + 1;
        }
        let ghost others = kept@;
        kept.push(
            ThrottleEntry { source: String::from_str(source), last_logged: logged, suppressed: pending },
        );
        proof {
            if exists|j: int|
                0 <= j < self.entries@.len() && (#[trigger] self.entries@[j]).source@ == source@ {
            } else {
                assert(!m.contains_key(source@));
            }
            let last = others.len() as int;
            assert(kept@[last].source@ == source@);
            assert(sources_distinct(kept@)) by {
                assert forall|a: int, b: int|
                    #![trigger kept@[a], kept@[b]]
                    0 <= a < b < kept@.len() implies kept@[a].source@ != kept@[b].source@ by {
                    assert(kept@[a] == others[a]);
                    if b < last {
                        assert(others[a].source@ != others[b].source@);
                    }
                }
            }
            lemma_facts(kept@);
            let f = facts_of(kept@);
            assert forall|k: Seq<char>| #[trigger] f.contains_key(k) <==> k == source@ || is_live(
                m,
                k,
                now,
            ) by {
                if f.contains_key(k) {
                    let a = choose|a: int|
                        0 <= a < kept@.len() && (#[trigger] kept@[a]).source@ == k;
                    if a < last {
                        assert(kept@[a] == others[a]);
                    }
                }
                if k != source@ && is_live(m, k, now) {
                    let j = choose|j: int|
                        0 <= j < self.entries@.len() && (#[trigger] self.entries@[j]).source@ == k;
                    let a = choose|a: int|
                        0 <= a < others.len() && (#[trigger] others[a]).source@ == k;
                    assert(kept@[a].source@ == k);
                }
                if k == source@ {
                    assert(f.contains_key(kept@[last].source@));
                }
            }
            assert forall|k: Seq<char>| #[trigger] f.contains_key(k) implies f[k] == (if k == source@ {
                throttle_after(m, source@, now)
            } else {
                m[k]
            }) by {
                let a = choose|a: int| 0 <= a < kept@.len() && (#[trigger] kept@[a]).source@ == k;
                if a < last {
                    assert(kept@[a] == others[a]);
                }
            }
        }
        *self = MalformedThrottle { entries: kept };
        step
    }
}

/// A flood is logged once a minute: whatever of a source's packets is logged, what follows within
/// a minute is not.
pub proof fn law_floods_are_logged_once_a_minute(
    before: ThrottleFacts,
    after: ThrottleFacts,
    source: Seq<char>,
    first: u64,
    second: u64,
)
    requires
        !(throttle_step(before, source, first) is Quiet),
        after.contains_key(source),
        after[source] == throttle_after(before, source, first),
        seconds_since(second, first) < 60,
    ensures
        throttle_step(after, source, second) is Quiet,
{
}

/// Every number stands for a state, and every direction, of its own: no two are taken for each
/// other.
pub proof fn law_states_are_told_apart(a: u32, b: u32)
    ensures
        inv_state(a) == inv_state(b) ==> a == b,
        media_dir(a) == media_dir(b) ==> a == b,
        a >= 7 ==> inv_state(a) == InvState::Unknown(a),
        a >= 4 ==> media_dir(a) == MediaDir::Unknown(a),
        a <= 6 ==> !(inv_state(a) is Unknown),
        a <= 3 ==> !(media_dir(a) is Unknown),
{
}

/// What a message tells of: the first of the conditions whose words it holds, in the order of their
/// weight, and none where it holds the words of none.
pub proof fn law_what_a_message_tells_of(msg: Seq<char>)
    ensures
        ({
            let (e, level) = classified(msg);
            let calls = contains_text(msg, "too many calls"@);
            let ssl = contains_text(msg, "SSL_ERROR_SSL"@) || contains_text(
                msg,
                "SSL_ERROR_SYSCALL"@,
            );
            let send = contains_text(msg, "Unable to send"@) && contains_text(msg, "response"@);
            let ice = contains_text(msg, "ICE"@) && contains_text(msg, "failed"@);
            let transport = contains_text(msg, "Transport"@) && contains_text(msg, "error"@);
            let codec = contains_text(msg, "No matching codec"@);
            let subscription = contains_text(msg, "Unable to create server subscription"@);
            let syntax = contains_text(msg, "PJSIP syntax error exception"@);
            &&& e == PjsipEvent::TooManyCalls <==> calls
            &&& e == PjsipEvent::SslHandshakeError <==> ssl && !calls
            &&& e == PjsipEvent::SendResponseFailed <==> send && !calls && !ssl
            &&& e == PjsipEvent::IceNegotiationFailed <==> ice && !calls && !ssl && !send
            &&& e == PjsipEvent::TransportError <==> transport && !calls && !ssl && !send && !ice
            &&& e == PjsipEvent::NoMatchingCodec <==> codec && !calls && !ssl && !send && !ice
                && !transport
            &&& e == PjsipEvent::BadEventSubscription <==> subscription && !calls && !ssl && !send
                && !ice && !transport && !codec
            &&& e == PjsipEvent::MalformedPacket <==> syntax && !calls && !ssl && !send && !ice
                && !transport && !codec && !subscription
            &&& level == (if e == PjsipEvent::TooManyCalls {
                Some(0u8)
            } else if e == PjsipEvent::SendResponseFailed || e == PjsipEvent::TransportError {
                Some(1u8)
            } else if e == PjsipEvent::BadEventSubscription {
                Some(4u8)
            } else {
                None
            })
        }),
{
}

/// The host of a peer is found in front of its port, and in its brackets where it has some.
pub proof fn law_the_host_of_a_peer_is_found(
    host: Seq<char>,
    port: Seq<char>,
    found: Option<Seq<char>>,
    found6: Option<Seq<char>>,
)
    requires
        host.len() > 0,
        host[0] != '[',
        !host.contains(']'),
        !port.contains(':'),
        peer_host_is(found, host + seq![':'] + port),
        peer_host_is(found6, seq!['['] + host + seq![']', ':'] + port),
    ensures
        found == Some(host),
        found6 == Some(host),
{
    let peer = host + seq![':'] + port;
    let n = host.len() as int;
    assert(peer[n] == ':');
    assert(peer.contains(':'));
    let k = choose|k: int| #[trigger] last_index(peer, ':', k) && found == Some(peer.subrange(0, k));
    assert(k == n) by {
        if k > n {
            assert(port[k - n - 1] == ':');
        } else if k < n {
            assert(peer[n] != ':');
        }
    }
    assert(peer.subrange(0, n) =~= host);
    let peer6 = seq!['['] + host + seq![']', ':'] + port;
    let rest = peer6.subrange(1, peer6.len() as int);
    assert(rest =~= host + seq![']'] + (seq![':'] + port));
    assert(rest[n] == ']');
    crate::text::law_text_ends_in_front_of_a_character(host, ']', seq![':'] + port);
}

/// When a malformed packet is logged: the first of a source, or of one that was quiet for five
/// minutes, at once; then none for a minute; and behind that a summary of all that came, this one
/// among them. What is not logged is counted, and a log starts the count anew.
pub proof fn law_when_malformed_packets_are_logged(m: ThrottleFacts, source: Seq<char>, now: u64)
    requires
        m.contains_key(source) ==> m[source].1 < u64::MAX,
    ensures
        ({
            let s = throttle_step(m, source, now);
            let (logged, count) = throttle_after(m, source, now);
            let known = m.contains_key(source) && now < m[source].0 + 300_000;
            let within = now < m[source].0 + 60_000;
            &&& s == ThrottleStep::First <==> !known
            &&& s == ThrottleStep::Quiet <==> known && within
            &&& s is Summary <==> known && !within
            &&& s is Summary ==> s->suppressed == m[source].1 + 1 && 1000 * s->window_secs <= now
                - m[source].0 < 1000 * (s->window_secs + 1)
            &&& s == ThrottleStep::Quiet ==> logged == m[source].0 && count == m[source].1 + 1
            &&& s != ThrottleStep::Quiet ==> logged == now && count == 0
        }),
{
}

/// The source of a dropped packet is the word behind the transport, which stands behind the first
/// "from".
pub proof fn law_the_source_of_a_packet_is_found(
    front: Seq<char>,
    transport: Seq<char>,
    source: Seq<char>,
    tail: Seq<char>,
)
    requires
        forall|j: int|
            0 <= j < front.len() ==> !#[trigger] crate::text::occurs_at(
                front + "from "@ + transport + " "@ + source + " "@ + tail,
                "from "@,
                j,
            ),
        !transport.contains(' '),
        !source.contains(' '),
        !source.contains('\t'),
    ensures
        packet_source(front + "from "@ + transport + " "@ + source + " "@ + tail) == Some(source),
{
    reveal_strlit("from ");
    reveal_strlit(" ");
    let msg = front + "from "@ + transport + " "@ + source + " "@ + tail;
    let n = front.len() as int;
    assert(msg.subrange(n, n + 5) =~= "from "@);
    assert forall|j: int| 0 <= j < n implies #[trigger] msg.subrange(j, j + 5) != "from "@ by {
        assert(!crate::text::occurs_at(msg, "from "@, j));
    }
    crate::text::law_text_follows_the_first_mark(msg, "from "@, n);
    let rest = msg.subrange(n + 5, msg.len() as int);
    assert(rest =~= transport + " "@ + source + " "@ + tail);
    let k = transport.len() as int;
    assert(rest.subrange(k, k + 1) =~= " "@);
    assert forall|j: int| 0 <= j < k implies #[trigger] rest.subrange(j, j + 1) != " "@ by {
        assert(rest.subrange(j, j + 1)[0] == transport[j]);
        assert(transport.contains(transport[j]));
        assert(" "@[0] == ' ');
    }
    crate::text::law_text_follows_the_first_mark(rest, " "@, k);
    let after = rest.subrange(k + 1, rest.len() as int);
    assert(after =~= source + " "@ + tail);
    assert forall|j: int| 0 <= j < source.len() implies after[j] != ' ' && after[j] != '\t' by {
        assert(source.contains(source[j]));
    }
    lemma_before_blank(after, source.len() as int);
    assert(after.subrange(0, source.len() as int) =~= source);
}

/// The peer of a failed handshake is what stands behind the first "peer: ", without white space
/// round it.
pub proof fn law_the_peer_of_a_handshake_is_found(
    front: Seq<char>,
    peer: Seq<char>,
    msg: Seq<char>,
)
    requires
        msg == front + "peer: "@ + peer,
        forall|j: int| 0 <= j < front.len() ==> #[trigger] msg.subrange(j, j + 6) != "peer: "@,
        peer.len() > 0,
        !crate::text::white_space(peer[0]),
        !crate::text::white_space(peer.last()),
    ensures
        ssl_peer(msg) == Some(peer),
{
    reveal_strlit("peer: ");
    let n = front.len() as int;
    assert(msg.subrange(n, n + 6) =~= "peer: "@);
    crate::text::law_text_follows_the_first_mark(msg, "peer: "@, n);
    assert(msg.subrange(n + 6, msg.len() as int) =~= peer);
    assert(trim(peer) == peer);
}

/// A peer without a port is its host; one with an opening bracket that is never closed has none.
pub proof fn law_a_peer_without_a_port(
    peer: Seq<char>,
    rest: Seq<char>,
    found: Option<Seq<char>>,
    broken: Option<Seq<char>>,
)
    requires
        !peer.contains(':'),
        peer.len() > 0 ==> peer[0] != '[',
        !rest.contains(']'),
        peer_host_is(found, peer),
        peer_host_is(broken, seq!['['] + rest),
    ensures
        found == Some(peer),
        broken is None,
{
    let open = seq!['['] + rest;
    assert(open.subrange(1, open.len() as int) =~= rest);
}

/// Every source is remembered as its last entry says, wherever that stands; one without an entry is
/// not known.
pub proof fn law_every_source_is_remembered(entries: Seq<ThrottleEntry>, source: Seq<char>, k: int)
    requires
        -1 <= k < entries.len(),
        k >= 0 ==> entries[k].source@ == source,
        forall|j: int| k < j < entries.len() ==> (#[trigger] entries[j]).source@ != source,
    ensures
        facts_of(entries).contains_key(source) <==> k >= 0,
        k >= 0 ==> facts_of(entries)[source] == (entries[k].last_logged, entries[k].suppressed),
    decreases entries.len(),
{
    if entries.len() > 0 {
        let last = entries.len() - 1;
        assert(entries[last] == entries.last());
        if k < last {
            let fewer = entries.drop_last();
            assert forall|j: int| k < j < fewer.len() implies (#[trigger] fewer[j]).source@
                != source by {
                assert(fewer[j] == entries[j]);
            }
            law_every_source_is_remembered(fewer, source, k);
        }
    }
}

} // verus!
