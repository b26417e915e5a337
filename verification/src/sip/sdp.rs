//! Session descriptions: offers of T.38, their answer, and hold.

use crate::config::{opt_text, EnvConfig};
use crate::text::{
    contains, contains_text, decimal, decimal_text, join3, lower_case, lowercase, parse_decimal,
    parse_u32, parse_u8, same_text,
};
use vstd::prelude::*;
use vstd::string::*;

verus! {

/// An attribute: its name and value.
#[derive(Debug)]
pub struct SdpAttr {
    pub name: String,
    pub value: String,
}

/// A media line, with what belongs to it.
#[derive(Debug)]
pub struct SdpMedia {
    pub media: String,
    pub transport: String,
    pub port: u16,
    /// The address of the media, where it is not that of the session.
    pub conn: Option<String>,
    pub attrs: Vec<SdpAttr>,
}

/// A session description.
#[derive(Debug)]
pub struct SdpSession {
    pub conn: Option<String>,
    pub media: Vec<SdpMedia>,
}

/// What an offer of T.38 states.
#[derive(Debug)]
pub struct T38OfferParams {
    pub remote_ip: String,
    pub remote_port: u16,
    pub t38_version: u8,
    pub max_bit_rate: u32,
    pub rate_management: String,
    pub udp_ec: String,
}

/// The value of the last attribute of a name.
pub open spec fn last_attr(attrs: Seq<SdpAttr>, name: Seq<char>) -> Option<Seq<char>>
    decreases attrs.len(),
{
    if attrs.len() == 0 {
        None
    } else if attrs.last().name@ == name {
        Some(attrs.last().value@)
    } else {
        last_attr(attrs.drop_last(), name)
    }
}

fn find_attr(attrs: &Vec<SdpAttr>, name: &str) -> (r: Option<String>)
    ensures
        opt_text(r) == last_attr(attrs@, name@),
{
    let mut i: usize = attrs.len();
    proof {
        assert(attrs@.take(attrs@.len() as int) =~= attrs@);
    }
    while i > 0
        invariant
            i <= attrs@.len(),
            last_attr(attrs@, name@) == last_attr(attrs@.take(i as int), name@),
        decreases i,
    {
        proof {
            assert(attrs@.take(i as int).drop_last() =~= attrs@.take(i - 1));
        }
        i = i - 1;
        if same_text(attrs[i].name.as_str(), name) {
            return Some(attrs[i].value.clone());
        }
    }
    None
}

/// A number out of an attribute, or `fallback` where it is missing or no such number.
pub open spec fn attr_number(value: Option<Seq<char>>, max: nat, fallback: nat) -> nat {
    match value {
        None => fallback,
        Some(v) => match parse_decimal(v, max) {
            Some(n) => n,
            None => fallback,
        },
    }
}

/// A text out of an attribute, or `fallback` where it is missing.
pub open spec fn attr_text(value: Option<Seq<char>>, fallback: Seq<char>) -> Seq<char> {
    match value {
        None => fallback,
        Some(v) => v,
    }
}

/// The address of a media line: its own, or else that of the session.
pub open spec fn media_address(m: SdpMedia, session: Option<Seq<char>>) -> Option<Seq<char>> {
    if m.conn is Some {
        opt_text(m.conn)
    } else {
        session
    }
}

/// The media line offers T.38: it is an image over UDPTL, enabled, and has an address. The
/// transport is given in lower case.
pub open spec fn offers_t38(m: SdpMedia, lower_transport: Seq<char>, session: Option<Seq<char>>) -> bool {
    m.media@ == "image"@ && contains_text(lower_transport, "udptl"@) && m.port != 0
        && media_address(m, session) is Some
}

/// The parameters are those of the media line.
pub open spec fn are_t38_params(p: T38OfferParams, m: SdpMedia, session: Option<Seq<char>>) -> bool {
    &&& Some(p.remote_ip@) == media_address(m, session)
    &&& p.remote_port == m.port
    &&& p.t38_version == attr_number(
        last_attr(m.attrs@, "T38FaxVersion"@),
        u8::MAX as nat,
        0,
    )
    &&& p.max_bit_rate == attr_number(
        last_attr(m.attrs@, "T38MaxBitRate"@),
        u32::MAX as nat,
        14400,
    )
    &&& p.rate_management@ == attr_text(
        last_attr(m.attrs@, "T38FaxRateManagement"@),
        "transferredTCF"@,
    )
    &&& p.udp_ec@ == attr_text(last_attr(m.attrs@, "T38FaxUdpEC"@), "t38UDPRedundancy"@)
}

/// What a media line offers, if it offers T.38, given its transport in lower case.
pub fn t38_of_media(m: &SdpMedia, lower_transport: &str, session: &Option<String>) -> (r: Option<
    T38OfferParams,
>)
    ensures
        r is Some <==> offers_t38(*m, lower_transport@, opt_text(*session)),
        r is Some ==> are_t38_params(r->0, *m, opt_text(*session)),
{
    if !same_text(m.media.as_str(), "image") {
        return None;
    }
    if !contains(lower_transport, "udptl") {
        return None;
    }
    if m.port == 0 {
        return None;
    }
    let remote_ip: String = match &m.conn {
        Some(c) => c.clone(),
        None => match session {
            Some(c) => c.clone(),
            None => {
                return None;
            },
        },
    };
    let t38_version: u8 = match find_attr(&m.attrs, "T38FaxVersion") {
        Some(v) => match parse_u8(v.as_str()) {
            Some(n) => n,
            None => 0,
        },
        None => 0,
    };
    let max_bit_rate: u32 = match find_attr(&m.attrs, "T38MaxBitRate") {
        Some(v) => match parse_u32(v.as_str()) {
            Some(n) => n,
            None => 14400,
        },
        None => 14400,
    };
    let rate_management: String = match find_attr(&m.attrs, "T38FaxRateManagement") {
        Some(v) => v,
        None => String::from_str("transferredTCF"),
    };
    let udp_ec: String = match find_attr(&m.attrs, "T38FaxUdpEC") {
        Some(v) => v,
        None => String::from_str("t38UDPRedundancy"),
    };
    Some(
        T38OfferParams {
            remote_ip,
            remote_port: m.port,
            t38_version,
            max_bit_rate,
            rate_management,
            udp_ec,
        },
    )
}

/// The first media line of an offer that offers T.38.
pub open spec fn first_t38(offer: SdpSession, i: int) -> bool {
    &&& 0 <= i < offer.media@.len()
    &&& media_offers_t38(offer, i)
    &&& forall|j: int| 0 <= j < i ==> !media_offers_t38(offer, j)
}

/// The media line with the index offers T.38.
pub open spec fn media_offers_t38(offer: SdpSession, i: int) -> bool {
    offers_t38(
        offer.media@[i],
        lower_case(offer.media@[i].transport@),
        opt_text(offer.conn),
    )
}

/// What an offer states of T.38: the first of its media lines that offers it.
pub fn sdp_has_t38(offer: &SdpSession) -> (r: Option<T38OfferParams>)
    ensures
        match r {
            Some(p) => exists|i: int| #[trigger]
                first_t38(*offer, i) && are_t38_params(p, offer.media@[i], opt_text(offer.conn)),
            None => forall|i: int|
                0 <= i < offer.media@.len() ==> !#[trigger] media_offers_t38(*offer, i),
        },
{
    let mut i: usize = 0;
    while i < offer.media.len()
        invariant
            i <= offer.media@.len(),
            forall|j: int| 0 <= j < i ==> !#[trigger] media_offers_t38(*offer, j),
        decreases offer.media@.len() - i,
    {
        let m: &SdpMedia = &offer.media[i];
        let lower: String = lowercase(m.transport.as_str());
        if let Some(p) = t38_of_media(m, lower.as_str(), &offer.conn) {
            proof {
                assert(media_offers_t38(*offer, i as int));
                assert(first_t38(*offer, i as int));
            }
            return Some(p);
        }
        proof {
            assert(!media_offers_t38(*offer, i as int));
        }
        i = i + 1;
    }
    None
}

/// The description that answers an offer of T.38.
pub open spec fn t38_answer_text(session_id: u64, local_ip: Seq<char>, local_port: u16) -> Seq<char> {
    "v=0\r\no=- "@ + decimal(session_id as nat) + " "@ + decimal(session_id as nat) + " IN IP4 "@
        + local_ip + "\r\ns=T.38 Fax\r\nc=IN IP4 "@ + local_ip + "\r\nt=0 0\r\nm=image "@ + decimal(
        local_port as nat,
    )
        + " udptl t38\r\na=T38FaxVersion:0\r\na=T38MaxBitRate:14400\r\na=T38FaxRateManagement:transferredTCF\r\na=T38FaxMaxBuffer:260\r\na=T38FaxMaxDatagram:316\r\na=T38FaxUdpEC:t38UDPRedundancy\r\n"@
}

/// The description that answers an offer of T.38.
pub fn build_t38_answer(session_id: u64, local_ip: &str, local_port: u16) -> (r: String)
    ensures
        r@ == t38_answer_text(session_id, local_ip@, local_port),
{
    let id: String = decimal_text(session_id);
    let mut s: String = join3("v=0\r\no=- ", id.as_str(), " ");
    s = join3(s.as_str(), id.as_str(), " IN IP4 ");
    s = join3(s.as_str(), local_ip, "\r\ns=T.38 Fax\r\nc=IN IP4 ");
    s = join3(s.as_str(), local_ip, "\r\nt=0 0\r\nm=image ");
    s =
    join3(
        s.as_str(),
        decimal_text(local_port as u64).as_str(),
        " udptl t38\r\na=T38FaxVersion:0\r\na=T38MaxBitRate:14400\r\na=T38FaxRateManagement:transferredTCF\r\na=T38FaxMaxBuffer:260\r\na=T38FaxMaxDatagram:316\r\na=T38FaxUdpEC:t38UDPRedundancy\r\n",
    );
    s
}

/// The address that a description announces: that of RTP, or else the public host.
pub fn announced_ip(env: &EnvConfig) -> (r: String)
    ensures
        r@ == (match opt_text(env.rtp_public_ip) {
            Some(ip) => ip,
            None => match opt_text(env.sip_public_host) {
                Some(h) => h,
                None => "0.0.0.0"@,
            },
        }),
{
    match &env.rtp_public_ip {
        Some(ip) => ip.clone(),
        None => String::from_str(env.sip_public_host_or_default()),
    }
}

/// The attribute puts the media on hold.
pub open spec fn is_hold(name: Seq<char>) -> bool {
    name == "sendonly"@ || name == "recvonly"@ || name == "inactive"@
}

/// The attributes that do not put the media on hold.
pub open spec fn without_hold(attrs: Seq<SdpAttr>) -> Seq<SdpAttr> {
    attrs.filter(|a: SdpAttr| !is_hold(a.name@))
}

/// Some attribute puts the media on hold.
pub open spec fn has_hold(attrs: Seq<SdpAttr>) -> bool {
    exists|i: int| 0 <= i < attrs.len() && is_hold((#[trigger] attrs[i]).name@)
}

/// Takes the attributes that put the media on hold out of a media line. Without them the
/// media goes both ways.
pub fn strip_media_hold(m: &mut SdpMedia) -> (stripped: bool)
    ensures
        stripped == has_hold(old(m).attrs@),
        final(m).attrs@ == without_hold(old(m).attrs@),
        final(m).media == old(m).media,
        final(m).transport == old(m).transport,
        final(m).port == old(m).port,
        final(m).conn == old(m).conn,
{
    let mut stripped: bool = false;
    let mut i: usize = 0;
    let ghost all = m.attrs@;
    let ghost p = |a: SdpAttr| !is_hold(a.name@);
    proof {
        reveal(Seq::filter);
        assert(m.attrs@.take(0) =~= all.take(0).filter(p));
    }
    let ghost mut seen: int = 0;
    while i < m.attrs.len()
        invariant
            i <= m.attrs@.len(),
            0 <= seen <= all.len(),
            i <= seen,
            m.attrs@.len() - i == all.len() - seen,
            p == (|a: SdpAttr| !is_hold(a.name@)),
            all == old(m).attrs@,
            m.attrs@.subrange(i as int, m.attrs@.len() as int) == all.subrange(
                seen,
                all.len() as int,
            ),
            m.attrs@.take(i as int) == all.take(seen).filter(p),
            stripped == (exists|j: int| 0 <= j < seen && is_hold((#[trigger] all[j]).name@)),
            m.media == old(m).media,
            m.transport == old(m).transport,
            m.port == old(m).port,
            m.conn == old(m).conn,
        decreases all.len() - seen,
    {
        let ghost rest = m.attrs@.subrange(i as int, m.attrs@.len() as int);
        let ghost before = m.attrs@;
        proof {
            assert(rest[0] == m.attrs@[i as int]);
            assert(all.subrange(seen, all.len() as int)[0] == all[seen]);
            assert(m.attrs@[i as int] == all[seen]);
            assert(all.take(seen + 1) =~= all.take(seen).push(all[seen]));
            reveal(Seq::filter);
            assert(all.take(seen + 1).drop_last() =~= all.take(seen));
        }
        let hold: bool = same_text(m.attrs[i].name.as_str(), "sendonly") || same_text(
            m.attrs[i].name.as_str(),
            "recvonly",
        ) || same_text(m.attrs[i].name.as_str(), "inactive");
        if hold {
            m.attrs.remove(i);
            stripped = true;
            proof {
                let left = m.attrs@.subrange(i as int, m.attrs@.len() as int);
                assert forall|k: int| 0 <= k < left.len() implies #[trigger] left[k] == rest[k
                    + 1] by {
                    assert(m.attrs@[i + k] == before[i + k + 1]);
                }
                assert(left =~= all.subrange(seen + 1, all.len() as int));
                assert(m.attrs@.take(i as int) =~= before.take(i as int));
                assert(is_hold(all[seen].name@));
            }
        } else {
            i = i + 1;
            proof {
                let left = m.attrs@.subrange(i as int, m.attrs@.len() as int);
                assert forall|k: int| 0 <= k < left.len() implies #[trigger] left[k] == rest[k
                    + 1] by {}
                assert(left =~= all.subrange(seen + 1, all.len() as int));
                assert(m.attrs@.take(i as int) =~= before.take(i - 1).push(all[seen]));
            }
        }
        proof {
            seen = seen + 1;
        }
    }
    proof {
        assert(all.take(all.len() as int) =~= all);
        assert(m.attrs@.take(m.attrs@.len() as int) =~= m.attrs@);
    }
    stripped
}

/// A media line of a description says what it said, but for hold.
pub open spec fn hold_stripped(before: SdpMedia, after: SdpMedia) -> bool {
    &&& after.attrs@ == without_hold(before.attrs@)
    &&& after.media == before.media
    &&& after.transport == before.transport
    &&& after.port == before.port
    &&& after.conn == before.conn
}

/// Takes hold out of every media line of a description. Returns whether there was any.
pub fn strip_hold(sdp: &mut SdpSession) -> (stripped: bool)
    ensures
        final(sdp).conn == old(sdp).conn,
        final(sdp).media@.len() == old(sdp).media@.len(),
        forall|i: int|
            0 <= i < old(sdp).media@.len() ==> hold_stripped(
                old(sdp).media@[i],
                #[trigger] final(sdp).media@[i],
            ),
        stripped == (exists|i: int|
            0 <= i < old(sdp).media@.len() && has_hold((#[trigger] old(sdp).media@[i]).attrs@)),
{
    let mut stripped: bool = false;
    let mut i: usize = 0;
    let ghost all = sdp.media@;
    while i < sdp.media.len()
        invariant
            i <= sdp.media@.len(),
            all == old(sdp).media@,
            sdp.conn == old(sdp).conn,
            sdp.media@.len() == all.len(),
            forall|j: int|
                0 <= j < i ==> hold_stripped(all[j], #[trigger] sdp.media@[j]),
            forall|j: int| i <= j < all.len() ==> #[trigger] sdp.media@[j] == all[j],
            stripped == (exists|j: int| 0 <= j < i && has_hold((#[trigger] all[j]).attrs@)),
        decreases all.len() - i,
    {
        let ghost before = sdp.media@;
        proof {
            assert(sdp.media@[i as int] == all[i as int]);
        }
        let s: bool = strip_media_hold(&mut sdp.media[i]);
        proof {
            assert forall|j: int| 0 <= j < i implies hold_stripped(
                all[j],
                #[trigger] sdp.media@[j],
            ) by {
                assert(sdp.media@[j] == before[j]);
            }
            if s {
                assert(has_hold(all[i as int].attrs@));
            }
        }
        if s {
            stripped = true;
        }
        i = i + 1;
    }
    stripped
}

/// A description from which hold was taken is not on hold.
pub proof fn law_stripped_media_is_not_on_hold(before: SdpMedia, after: SdpMedia)
    requires
        hold_stripped(before, after),
    ensures
        !has_hold(after.attrs@),
{
    let p = |a: SdpAttr| !is_hold(a.name@);
    broadcast use vstd::seq_lib::group_filter_ensures;

    assert forall|i: int| 0 <= i < after.attrs@.len() implies !is_hold(
        (#[trigger] after.attrs@[i]).name@,
    ) by {
        assert(p(before.attrs@.filter(p)[i]));
    }
}

/// What is done with an offer that changes a call.
#[derive(Debug)]
pub enum ReinviteStep {
    /// It offers T.38, which is answered at once.
    T38(T38OfferParams),
    /// It offers sound: the media go both ways, with hold taken out.
    Audio,
}

/// What is done with an offer that changes a call.
pub fn reinvite_step(offer: Option<&SdpSession>) -> (r: ReinviteStep)
    ensures
        match r {
            ReinviteStep::T38(p) => offer is Some && exists|i: int| #[trigger]
                first_t38(*(offer->0), i) && are_t38_params(
                    p,
                    (offer->0).media@[i],
                    opt_text((offer->0).conn),
                ),
            ReinviteStep::Audio => offer is Some ==> forall|i: int|
                0 <= i < (offer->0).media@.len() ==> !#[trigger] media_offers_t38(*(offer->0), i),
        },
{
    match offer {
        None => ReinviteStep::Audio,
        Some(o) => match sdp_has_t38(o) {
            Some(p) => ReinviteStep::T38(p),
            None => ReinviteStep::Audio,
        },
    }
}

/// The last attribute of a name is what counts, wherever it stands; without one there is no value.
pub proof fn law_the_last_attribute_counts(attrs: Seq<SdpAttr>, name: Seq<char>, k: int)
    requires
        -1 <= k < attrs.len(),
        k >= 0 ==> attrs[k].name@ == name,
        forall|j: int| k < j < attrs.len() ==> (#[trigger] attrs[j]).name@ != name,
    ensures
        k >= 0 ==> last_attr(attrs, name) == Some(attrs[k].value@),
        k < 0 ==> last_attr(attrs, name) is None,
    decreases attrs.len(),
{
    if attrs.len() > 0 {
        let last = attrs.len() - 1;
        assert(attrs[last] == attrs.last());
        if k < last {
            let fewer = attrs.drop_last();
            assert forall|j: int| k < j < fewer.len() implies (#[trigger] fewer[j]).name@ != name by {
                assert(fewer[j] == attrs[j]);
            }
            law_the_last_attribute_counts(fewer, name, k);
        }
    }
}

/// A number in an attribute is read as it stands, up to the largest that is allowed; without the
/// attribute, and where its value is no number, the number that was agreed on counts.
pub proof fn law_attributes_are_read_as_they_stand(
    n: nat,
    max: nat,
    fallback: nat,
    v: Seq<char>,
    text: Seq<char>,
)
    ensures
        n <= max ==> attr_number(Some(decimal(n)), max, fallback) == n,
        attr_number(None, max, fallback) == fallback,
        parse_decimal(v, max) is None ==> attr_number(Some(v), max, fallback) == fallback,
        attr_text(Some(v), text) == v,
        attr_text(None, text) == text,
{
    if n <= max {
        crate::text::lemma_parse_undoes_decimal(n, max);
    }
}

/// Which media lines offer T.38: images over UDPTL that are not switched off, at an address of their
/// own or of the session, of which their own counts.
pub proof fn law_which_media_offer_t38(
    m: SdpMedia,
    lower_transport: Seq<char>,
    session: Option<Seq<char>>,
)
    ensures
        offers_t38(m, lower_transport, session) <==> m.media@ == "image"@ && (exists|k: int|
            crate::text::occurs_at(lower_transport, "udptl"@, k)) && m.port > 0 && (m.conn is Some
            || session is Some),
        m.conn is Some ==> media_address(m, session) == Some((m.conn->0)@),
        m.conn is None ==> media_address(m, session) == session,
{
}

/// Taking hold out leaves every other attribute where it was, and takes out each of the three that
/// put media on hold.
pub proof fn law_only_hold_is_taken_out(attrs: Seq<SdpAttr>, a: SdpAttr)
    ensures
        without_hold(Seq::empty()).len() == 0,
        ({
            let holds = a.name@ == "sendonly"@ || a.name@ == "recvonly"@ || a.name@ == "inactive"@;
            without_hold(attrs.push(a)) == (if holds {
                without_hold(attrs)
            } else {
                without_hold(attrs).push(a)
            })
        }),
{
    let p = |a: SdpAttr| !is_hold(a.name@);
    assert(attrs.push(a).drop_last() =~= attrs);
    assert(attrs.push(a).last() == a);
    reveal(Seq::filter);
    assert(attrs.push(a).filter(p) == (if p(a) {
        attrs.filter(p).push(a)
    } else {
        attrs.filter(p)
    }));
}

/// The first media line that offers T.38 is the one that is answered.
pub proof fn law_the_first_offer_is_answered(
    offer: SdpSession,
    p: T38OfferParams,
    i: int,
    k: int,
)
    requires
        first_t38(offer, i),
        are_t38_params(p, offer.media@[i], opt_text(offer.conn)),
        0 <= k < offer.media@.len(),
        media_offers_t38(offer, k),
        forall|j: int| 0 <= j < k ==> !#[trigger] media_offers_t38(offer, j),
    ensures
        p.remote_port == offer.media@[k].port,
        offer.media@[k].conn is Some ==> p.remote_ip@ == (offer.media@[k].conn->0)@,
        offer.media@[k].conn is None && offer.conn is Some ==> p.remote_ip@ == (offer.conn->0)@,
{
    if i < k {
        assert(!media_offers_t38(offer, i));
    } else if k < i {
        assert(!media_offers_t38(offer, k));
    }
}

/// What the last attribute of each name states is what is agreed on; without it that is version
/// nought, 14400 bits a second, rates that are managed by the training that is transferred, and
/// redundancy.
pub proof fn law_what_an_offer_agrees_on(
    p: T38OfferParams,
    m: SdpMedia,
    session: Option<Seq<char>>,
    version: u8,
    rate: u32,
)
    requires
        are_t38_params(p, m, session),
    ensures
        last_attr(m.attrs@, "T38FaxVersion"@) == Some(decimal(version as nat)) ==> p.t38_version
            == version,
        last_attr(m.attrs@, "T38FaxVersion"@) is None ==> p.t38_version == 0,
        last_attr(m.attrs@, "T38MaxBitRate"@) == Some(decimal(rate as nat)) ==> p.max_bit_rate
            == rate,
        last_attr(m.attrs@, "T38MaxBitRate"@) is None ==> p.max_bit_rate == 14400,
        last_attr(m.attrs@, "T38FaxRateManagement"@) is Some ==> last_attr(
            m.attrs@,
            "T38FaxRateManagement"@,
        ) == Some(p.rate_management@),
        last_attr(m.attrs@, "T38FaxRateManagement"@) is None ==> p.rate_management@
            == "transferredTCF"@,
        last_attr(m.attrs@, "T38FaxUdpEC"@) is Some ==> last_attr(m.attrs@, "T38FaxUdpEC"@) == Some(
            p.udp_ec@,
        ),
        last_attr(m.attrs@, "T38FaxUdpEC"@) is None ==> p.udp_ec@ == "t38UDPRedundancy"@,
{
    law_attributes_are_read_as_they_stand(version as nat, u8::MAX as nat, 0, Seq::empty(), Seq::empty());
    law_attributes_are_read_as_they_stand(
        rate as nat,
        u32::MAX as nat,
        14400,
        Seq::empty(),
        Seq::empty(),
    );
}

} // verus!
