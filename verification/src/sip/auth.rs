//! Authentication, and the calls and registrations that are turned away.

use crate::sip::types::{DigestAuthParams, SIP_REALM};
use crate::text::{
    chars_of, contains, contains_text, decimal, decimal_text, join2, join3, lower_case, lowercase,
    push_char, same_text,
};
use vstd::prelude::*;
use vstd::string::*;

verus! {

/// A lower-case user agent names a scanner.
pub open spec fn names_scanner(lower: Seq<char>) -> bool {
    contains_text(lower, "friendly-scanner"@) || contains_text(lower, "sipvicious"@)
        || contains_text(lower, "scanner"@)
}

/// Whether a lower-case user agent names a scanner.
pub fn is_scanner_name(lower: &str) -> (r: bool)
    ensures
        r == names_scanner(lower@),
{
    contains(lower, "friendly-scanner") || contains(lower, "sipvicious") || contains(
        lower,
        "scanner",
    )
}

/// Whether a user agent names a scanner, without regard to case.
pub fn is_sipvicious_scanner(user_agent: &str) -> (r: bool)
    ensures
        r == names_scanner(lower_case(user_agent@)),
{
    is_scanner_name(lowercase(user_agent).as_str())
}

/// The fields of an Authorization header; a field that is missing is empty.
#[derive(Debug)]
pub struct AuthorizationFields {
    pub scheme: String,
    pub username: String,
    pub realm: String,
    pub nonce: String,
    pub uri: String,
    pub response: String,
    pub qop: String,
    pub nc: String,
    pub cnonce: String,
}

/// The fields that every digest needs are there.
pub open spec fn is_complete(f: AuthorizationFields) -> bool {
    f.username@.len() > 0 && f.realm@.len() > 0 && f.nonce@.len() > 0 && f.uri@.len() > 0
        && f.response@.len() > 0
}

/// A field that may be missing.
pub open spec fn is_optional(r: Option<String>, field: Seq<char>) -> bool {
    if field.len() == 0 {
        r is None
    } else {
        r is Some && (r->0)@ == field
    }
}

/// The credentials are those of the fields, without a method.
pub open spec fn are_credentials(p: DigestAuthParams, f: AuthorizationFields) -> bool {
    &&& p.username@ == f.username@
    &&& p.realm@ == f.realm@
    &&& p.nonce@ == f.nonce@
    &&& p.uri@ == f.uri@
    &&& p.response@ == f.response@
    &&& p.method@.len() == 0
    &&& is_optional(p.qop, f.qop@)
    &&& is_optional(p.nc, f.nc@)
    &&& is_optional(p.cnonce, f.cnonce@)
}

fn optional(field: &str) -> (r: Option<String>)
    ensures
        is_optional(r, field@),
{
    if field.is_empty() {
        None
    } else {
        Some(String::from_str(field))
    }
}

/// The credentials of a digest whose scheme, in lower case, is given. Anything but a complete
/// digest has none.
pub fn digest_credentials(lower_scheme: &str, f: &AuthorizationFields) -> (r: Option<
    DigestAuthParams,
>)
    ensures
        r is Some <==> lower_scheme@ == "digest"@ && is_complete(*f),
        r is Some ==> are_credentials(r->0, *f),
{
    if !same_text(lower_scheme, "digest") {
        return None;
    }
    if f.username.as_str().is_empty() || f.realm.as_str().is_empty() || f.nonce.as_str().is_empty()
        || f.uri.as_str().is_empty() || f.response.as_str().is_empty() {
        return None;
    }
    Some(
        DigestAuthParams {
            username: f.username.clone(),
            realm: f.realm.clone(),
            nonce: f.nonce.clone(),
            uri: f.uri.clone(),
            response: f.response.clone(),
            method: String::new(),
            qop: optional(f.qop.as_str()),
            nc: optional(f.nc.as_str()),
            cnonce: optional(f.cnonce.as_str()),
        },
    )
}

/// The credentials of an Authorization header, if it is a complete digest.
pub fn extract_digest_auth(f: &AuthorizationFields) -> (r: Option<DigestAuthParams>)
    ensures
        r is Some <==> lower_case(f.scheme@) == "digest"@ && is_complete(*f),
        r is Some ==> are_credentials(r->0, *f),
{
    digest_credentials(lowercase(f.scheme.as_str()).as_str(), f)
}

/// The hexadecimal digit `d`, in lower case.
pub open spec fn hex_char(d: int) -> char {
    if d < 10 {
        (48 + d) as u8 as char
    } else {
        (87 + d) as u8 as char
    }
}

/// Bytes in hexadecimal notation, two digits each.
pub open spec fn hex_text(bytes: Seq<u8>) -> Seq<char> {
    Seq::new(
        2 * bytes.len(),
        |i: int|
            if i % 2 == 0 {
                hex_char(bytes[i / 2] as int / 16)
            } else {
                hex_char(bytes[i / 2] as int % 16)
            },
    )
}

fn hex_digit(d: u8) -> (c: char)
    requires
        d < 16,
    ensures
        c == hex_char(d as int),
{
    if d < 10 {
        (48 + d) as char
    } else {
        (87 + d) as char
    }
}

/// Bytes in hexadecimal notation.
pub fn to_hex(bytes: &[u8]) -> (r: String)
    ensures
        r@ == hex_text(bytes@),
{
    let mut r: String = String::new();
    let mut i: usize = 0;
    proof {
        assert(r@ =~= hex_text(bytes@.take(0)));
    }
    while i < bytes.len()
        invariant
            i <= bytes@.len(),
            r@ == hex_text(bytes@.take(i as int)),
        decreases bytes@.len() - i,
    {
        let b: u8 = bytes[i];
        let ghost before = r@;
        push_char(&mut r, hex_digit(b / 16));
        push_char(&mut r, hex_digit(b % 16));
        i = i + 1;
        proof {
            let now = hex_text(bytes@.take(i as int));
            assert(bytes@.take(i as int)[i - 1] == b);
            assert forall|k: int| 0 <= k < now.len() implies now[k] == r@[k] by {
                if k < before.len() {
                    assert(bytes@.take(i as int)[k / 2] == bytes@.take(i - 1)[k / 2]);
                    assert(before[k] == now[k]);
                } else {
                    assert(k == 2 * (i - 1) || k == 2 * (i - 1) + 1);
                }
            }
            assert(r@ =~= now);
        }
    }
    proof {
        assert(bytes@.take(bytes@.len() as int) =~= bytes@);
    }
    r
}

/// `rand::random`: sixteen bytes of chance, of which nothing is known.
#[verifier::external_body]
fn random_bytes() -> (r: [u8; 16]) {
    rand::random()
}

/// The challenge with a nonce.
pub open spec fn challenge_text(nonce: Seq<char>) -> Seq<char> {
    "Digest realm=\""@ + SIP_REALM@ + "\", nonce=\""@ + nonce
        + "\", algorithm=MD5, qop=\"auth\""@
}

/// The challenge with a nonce.
pub fn challenge_with(nonce: &str) -> (r: String)
    ensures
        r@ == challenge_text(nonce@),
{
    let mut s: String = join3("Digest realm=\"", SIP_REALM, "\", nonce=\"");
    s = join3(s.as_str(), nonce, "\", algorithm=MD5, qop=\"auth\"");
    s
}

/// A challenge with a new nonce, made of sixteen bytes of chance.
pub fn new_challenge() -> (r: String)
    ensures
        exists|bytes: Seq<u8>| bytes.len() == 16 && r@ == challenge_text(#[trigger] hex_text(bytes)),
{
    let bytes: [u8; 16] = random_bytes();
    let s = bytes.as_slice();
    let nonce: String = to_hex(s);
    proof {
        assert(s@.len() == 16);
    }
    challenge_with(nonce.as_str())
}

/// What is known of the source of a request.
#[derive(Debug, Clone, Copy, PartialEq, Eq, Structural)]
pub struct SourceStanding {
    /// The address of the source is known.
    pub known: bool,
    /// Bans are in force, and the source is not exempt from them.
    pub subject_to_bans: bool,
    /// The source is banned.
    pub banned: bool,
}

/// Why a source is put on record.
#[derive(Debug, Clone, Copy, PartialEq, Eq, Structural)]
pub enum Offense {
    /// It scans; it is banned for good.
    Scanner,
    /// It dialled a number that is too long to be an extension.
    SuspiciousExtension,
    /// It dialled a number that is far too long.
    VeryLongExtension,
}

/// What is done with an incoming call.
#[derive(Debug, Clone, Copy, PartialEq, Eq, Structural)]
pub enum IncomingStep {
    /// It is hung up with the code, and its source put on record.
    Reject { code: u16, record: Option<Offense> },
    /// It is handed on: it carries credentials, or none are asked for.
    HandOn,
    /// It carries no credentials, and is challenged.
    Challenge,
}

/// Every character is a decimal digit.
pub open spec fn all_numeric(s: Seq<char>) -> bool {
    forall|i: int| 0 <= i < s.len() ==> '0' <= #[trigger] s[i] && s[i] <= '9'
}

fn is_numeric(v: &[char]) -> (r: bool)
    ensures
        r == all_numeric(v@),
{
    let mut i: usize = 0;
    while i < v.len()
        invariant
            i <= v@.len(),
            forall|j: int| 0 <= j < i ==> '0' <= #[trigger] v@[j] && v@[j] <= '9',
        decreases v@.len() - i,
    {
        if v[i] < '0' || v[i] > '9' {
            return false;
        }
        i = i + 1;
    }
    true
}

/// The lengths at which a number is suspicious, and at which it is far too long.
#[derive(Debug, Clone, Copy, PartialEq, Eq, Structural)]
pub struct ExtensionLimits {
    pub suspicious_min: usize,
    pub very_long_min: usize,
}

/// What is done with an incoming call: banned sources, scanners and long numbers are turned
/// away, in this order. Where there are no limits no number is too long. Of what is left, calls
/// without credentials are challenged, unless none are asked for.
pub open spec fn incoming_step(
    source: SourceStanding,
    scanner: bool,
    extension: Seq<char>,
    limits: Option<ExtensionLimits>,
    has_credentials: bool,
    require_auth: bool,
) -> IncomingStep {
    let on_record = source.known && source.subject_to_bans;
    if on_record && source.banned {
        IncomingStep::Reject { code: 403, record: None }
    } else if scanner {
        IncomingStep::Reject {
            code: 403,
            record: if on_record {
                Some(Offense::Scanner)
            } else {
                None
            },
        }
    } else if limits is Some && all_numeric(extension) && extension.len()
        >= (limits->0).suspicious_min {
        IncomingStep::Reject {
            code: 404,
            record: if !on_record {
                None
            } else if extension.len() >= (limits->0).very_long_min {
                Some(Offense::VeryLongExtension)
            } else {
                Some(Offense::SuspiciousExtension)
            },
        }
    } else if has_credentials || !require_auth {
        IncomingStep::HandOn
    } else {
        IncomingStep::Challenge
    }
}

/// Decides what is done with an incoming call.
pub fn judge_incoming(
    source: SourceStanding,
    user_agent: Option<&str>,
    extension: &str,
    limits: Option<ExtensionLimits>,
    has_credentials: bool,
    require_auth: bool,
) -> (r: IncomingStep)
    ensures
        r == incoming_step(
            source,
            user_agent is Some && names_scanner(lower_case((user_agent->0)@)),
            extension@,
            limits,
            has_credentials,
            require_auth,
        ),
{
    let on_record: bool = source.known && source.subject_to_bans;
    if on_record && source.banned {
        return IncomingStep::Reject { code: 403, record: None };
    }
    let scanner: bool = match user_agent {
        Some(ua) => is_sipvicious_scanner(ua),
        None => false,
    };
    if scanner {
        let record: Option<Offense> = if on_record {
            Some(Offense::Scanner)
        } else {
            None
        };
        return IncomingStep::Reject { code: 403, record };
    }
    if let Some(l) = limits {
        let v: Vec<char> = chars_of(extension);
        if is_numeric(v.as_slice()) && v.len() >= l.suspicious_min {
            let record: Option<Offense> = if !on_record {
                None
            } else if v.len() >= l.very_long_min {
                Some(Offense::VeryLongExtension)
            } else {
                Some(Offense::SuspiciousExtension)
            };
            return IncomingStep::Reject { code: 404, record };
        }
    }
    if has_credentials || !require_auth {
        IncomingStep::HandOn
    } else {
        IncomingStep::Challenge
    }
}

/// Calls are challenged only where credentials are asked for and they carry none: where none are
/// asked for, no call is.
pub proof fn law_calls_are_challenged_for_want_of_credentials(
    source: SourceStanding,
    scanner: bool,
    extension: Seq<char>,
    limits: Option<ExtensionLimits>,
    has_credentials: bool,
    require_auth: bool,
)
    ensures
        ({
            let s = incoming_step(
                source,
                scanner,
                extension,
                limits,
                has_credentials,
                require_auth,
            );
            &&& s == IncomingStep::Challenge ==> require_auth && !has_credentials
            &&& s == IncomingStep::HandOn ==> has_credentials || !require_auth
        }),
{
}

/// A source that is exempt from bans is never put on record, and is turned away only for what
/// it does now.
pub proof fn law_exempt_sources_leave_no_record(
    source: SourceStanding,
    scanner: bool,
    extension: Seq<char>,
    limits: Option<ExtensionLimits>,
    has_credentials: bool,
    require_auth: bool,
)
    requires
        !source.subject_to_bans,
    ensures
        incoming_step(source, scanner, extension, limits, has_credentials, require_auth)
            matches IncomingStep::Reject { code, record } ==> record is None && (scanner || code
            == 404),
{
}

/// What the cache of credentials says.
#[derive(Debug, Clone, Copy, PartialEq, Eq, Structural)]
pub enum CacheVerdict {
    Verified,
    Mismatch,
    Miss,
}

/// What is done with a registration.
#[derive(Debug, Clone, Copy, PartialEq, Eq, Structural)]
pub enum RegisterStep {
    /// It is answered 403; nothing is handed on.
    Forbid { record_scanner: bool },
    /// It is answered 429; nothing is handed on.
    SlowDown,
    /// It is answered 200, and handed on.
    Accept,
    /// It is answered 403, and handed on to be verified anew.
    ForbidAndVerify,
    /// Its answer is put off until it is verified.
    Defer,
    /// It is answered 200 without credentials; nothing is handed on.
    AcceptOpen,
    /// It is challenged.
    Challenge,
}

/// What a registration brings with it.
#[derive(Debug, Clone, Copy, PartialEq, Eq, Structural)]
pub struct RegisterFacts {
    /// The source sends too many registrations.
    pub too_many: bool,
    /// There are credentials.
    pub has_credentials: bool,
    /// The user failed too often a short while ago.
    pub in_cooldown: bool,
    /// What the cache of credentials says, if there is one.
    pub cache: Option<CacheVerdict>,
    /// An answer can be put off.
    pub can_defer: bool,
    /// Credentials are asked for.
    pub require_auth: bool,
}

/// What is done with a registration.
pub open spec fn register_step(source: SourceStanding, scanner: bool, f: RegisterFacts) -> RegisterStep {
    let on_record = source.known && source.subject_to_bans;
    if on_record && source.banned {
        RegisterStep::Forbid { record_scanner: false }
    } else if scanner {
        RegisterStep::Forbid { record_scanner: on_record }
    } else if on_record && f.too_many {
        RegisterStep::SlowDown
    } else if f.has_credentials {
        if f.in_cooldown {
            RegisterStep::SlowDown
        } else {
            match f.cache {
                Some(CacheVerdict::Mismatch) => RegisterStep::ForbidAndVerify,
                Some(CacheVerdict::Miss) => if f.can_defer {
                    RegisterStep::Defer
                } else {
                    RegisterStep::Accept
                },
                _ => RegisterStep::Accept,
            }
        }
    } else if f.require_auth {
        RegisterStep::Challenge
    } else {
        RegisterStep::AcceptOpen
    }
}

/// Decides what is done with a registration.
pub fn judge_register(source: SourceStanding, user_agent: Option<&str>, f: RegisterFacts) -> (r:
    RegisterStep)
    ensures
        r == register_step(
            source,
            user_agent is Some && names_scanner(lower_case((user_agent->0)@)),
            f,
        ),
{
    let on_record: bool = source.known && source.subject_to_bans;
    if on_record && source.banned {
        return RegisterStep::Forbid { record_scanner: false };
    }
    let scanner: bool = match user_agent {
        Some(ua) => is_sipvicious_scanner(ua),
        None => false,
    };
    if scanner {
        return RegisterStep::Forbid { record_scanner: on_record };
    }
    if on_record && f.too_many {
        return RegisterStep::SlowDown;
    }
    if !f.has_credentials {
        if f.require_auth {
            return RegisterStep::Challenge;
        }
        return RegisterStep::AcceptOpen;
    }
    if f.in_cooldown {
        return RegisterStep::SlowDown;
    }
    match f.cache {
        Some(CacheVerdict::Mismatch) => RegisterStep::ForbidAndVerify,
        Some(CacheVerdict::Miss) => {
            if f.can_defer {
                RegisterStep::Defer
            } else {
                RegisterStep::Accept
            }
        },
        _ => RegisterStep::Accept,
    }
}

impl RegisterStep {
    /// The code that the registration is answered with at once, if it is.
    pub fn code(self) -> (r: Option<u16>)
        ensures
            r == (match self {
                RegisterStep::Forbid { .. } => Some(403u16),
                RegisterStep::SlowDown => Some(429u16),
                RegisterStep::Accept => Some(200u16),
                RegisterStep::ForbidAndVerify => Some(403u16),
                RegisterStep::Defer => None,
                RegisterStep::AcceptOpen => Some(200u16),
                RegisterStep::Challenge => Some(401u16),
            }),
    {
        match self {
            RegisterStep::Forbid { .. } => Some(403),
            RegisterStep::SlowDown => Some(429),
            RegisterStep::Accept => Some(200),
            RegisterStep::ForbidAndVerify => Some(403),
            RegisterStep::Defer => None,
            RegisterStep::AcceptOpen => Some(200),
            RegisterStep::Challenge => Some(401),
        }
    }

    /// Whether the registration is handed on to be verified and recorded.
    pub fn is_handed_on(self) -> (r: bool)
        ensures
            r == (self == RegisterStep::Accept || self == RegisterStep::ForbidAndVerify || self
                == RegisterStep::Defer),
    {
        match self {
            RegisterStep::Accept => true,
            RegisterStep::ForbidAndVerify => true,
            RegisterStep::Defer => true,
            _ => false,
        }
    }
}

/// A registration without credentials is accepted only where none are asked for, and one with
/// wrong credentials is never accepted.
pub proof fn law_registrations_need_credentials(
    source: SourceStanding,
    scanner: bool,
    f: RegisterFacts,
)
    ensures
        ({
            let s = register_step(source, scanner, f);
            &&& s == RegisterStep::AcceptOpen ==> !f.require_auth && !f.has_credentials
            &&& s == RegisterStep::Accept ==> f.has_credentials && f.cache != Some(
                CacheVerdict::Mismatch,
            )
            &&& s == RegisterStep::Challenge ==> f.require_auth && !f.has_credentials
        }),
{
}

/// The seconds that a registration lasts: as its Expires header says, or else the parameter of its
/// Contact header, or else an hour.
pub fn extract_expires(header: Option<u32>, contact: Option<u32>) -> (r: u32)
    ensures
        r == (match (header, contact) {
            (Some(v), _) => v,
            (None, Some(v)) => v,
            (None, None) => 3600,
        }),
{
    match (header, contact) {
        (Some(v), _) => v,
        (None, Some(v)) => v,
        (None, None) => 3600,
    }
}

/// The URI of a contact, made of its user, host and port; a port that is not positive is left
/// out.
pub open spec fn contact_uri_text(user: Option<Seq<char>>, host: Seq<char>, port: i32) -> Seq<char> {
    let authority = match user {
        Some(u) => "sip:"@ + u + "@"@ + host,
        None => "sip:"@ + host,
    };
    if port > 0 {
        authority + ":"@ + decimal(port as nat)
    } else {
        authority
    }
}

/// The URI of a contact. A contact without a host has none; an empty user is none.
pub fn extract_contact_uri(user: &str, host: &str, port: i32) -> (r: Option<String>)
    ensures
        r is Some <==> host@.len() > 0,
        r is Some ==> (r->0)@ == contact_uri_text(
            if user@.len() > 0 {
                Some(user@)
            } else {
                None
            },
            host@,
            port,
        ),
{
    if host.is_empty() {
        return None;
    }
    let authority: String = if !user.is_empty() {
        let head: String = join3("sip:", user, "@");
        join2(head.as_str(), host)
    } else {
        join2("sip:", host)
    };
    if port > 0 {
        Some(join3(authority.as_str(), ":", decimal_text(port as u64).as_str()))
    } else {
        Some(authority)
    }
}

/// The headers of the answer that accepts a registration: Expires, and the Contact that was
/// registered, if there is one. Strict clients take an answer without it for a refusal.
pub fn register_ok_headers(expires: u32, contact_uri: Option<&str>) -> (r: Vec<
    (&'static str, String),
>)
    ensures
        r@.len() == (if contact_uri is Some {
            2nat
        } else {
            1nat
        }),
        r@[0].0@ == "Expires"@,
        r@[0].1@ == decimal(expires as nat),
        contact_uri is Some ==> r@[1].0@ == "Contact"@ && r@[1].1@ == "<"@ + (contact_uri->0)@
            + ">;expires="@ + decimal(expires as nat),
{
    let mut r: Vec<(&'static str, String)> = Vec::new();
    r.push(("Expires", decimal_text(expires as u64)));
    if let Some(uri) = contact_uri {
        let head: String = join3("<", uri, ">;expires=");
        r.push(("Contact", join2(head.as_str(), decimal_text(expires as u64).as_str())));
    }
    r
}

/// The headers and code of the answer to a registration that was put off.
pub fn deferred_register_code(auth_ok: bool) -> (r: u16)
    ensures
        r == (if auth_ok {
            200u16
        } else {
            403u16
        }),
{
    if auth_ok {
        200
    } else {
        403
    }
}

/// Whom a call is turned away for, and for what: a banned source, a scanner, or a number of digits
/// only that is as long as the limit or longer. Every other call is handed on where it carries
/// credentials or none are asked for, and challenged where it does not.
pub proof fn law_every_call_is_judged(
    source: SourceStanding,
    scanner: bool,
    extension: Seq<char>,
    limits: Option<ExtensionLimits>,
    has_credentials: bool,
    require_auth: bool,
)
    ensures
        ({
            let s = incoming_step(
                source,
                scanner,
                extension,
                limits,
                has_credentials,
                require_auth,
            );
            let banned = source.known && source.subject_to_bans && source.banned;
            let digits_only = forall|i: int|
                0 <= i < extension.len() ==> 48 <= (#[trigger] extension[i]) as int <= 57;
            let too_long = limits is Some && digits_only && extension.len()
                >= (limits->0).suspicious_min;
            let far_too_long = too_long && extension.len() >= (limits->0).very_long_min;
            let remembered = source.known && source.subject_to_bans;
            &&& s is Reject <==> banned || scanner || too_long
            &&& s == IncomingStep::HandOn <==> !banned && !scanner && !too_long && (has_credentials
                || !require_auth)
            &&& s == IncomingStep::Challenge <==> !banned && !scanner && !too_long
                && !has_credentials && require_auth
            &&& banned || scanner ==> s->code == 403
            &&& !banned && !scanner && too_long ==> s->code == 404
            &&& banned ==> s->record is None
            &&& !banned && scanner ==> s->record == (if remembered {
                Some(Offense::Scanner)
            } else {
                None
            })
            &&& !banned && !scanner && too_long ==> s->record == (if !remembered {
                None
            } else if far_too_long {
                Some(Offense::VeryLongExtension)
            } else {
                Some(Offense::SuspiciousExtension)
            })
        }),
{
    let digits_only = forall|i: int|
        0 <= i < extension.len() ==> 48 <= (#[trigger] extension[i]) as int <= 57;
    assert(all_numeric(extension) == digits_only);
}

/// What becomes of every registration: a banned source and a scanner are forbidden, too many
/// registrations and a user who failed too often are slowed down, wrong credentials are forbidden
/// and verified anew, unknown ones put off where that can be, and all others accepted. Without
/// credentials a registration is challenged where they are asked for.
pub proof fn law_every_registration_is_judged(
    source: SourceStanding,
    scanner: bool,
    f: RegisterFacts,
)
    ensures
        ({
            let s = register_step(source, scanner, f);
            let subject = source.known && source.subject_to_bans;
            let turned_away = (subject && source.banned) || scanner;
            let slowed = (subject && f.too_many) || (f.has_credentials && f.in_cooldown);
            let open = !turned_away && !slowed;
            &&& s is Forbid <==> turned_away
            &&& s == (RegisterStep::Forbid { record_scanner: true }) <==> scanner && subject
                && !source.banned
            &&& s == RegisterStep::SlowDown <==> !turned_away && slowed
            &&& s == RegisterStep::Challenge <==> open && !f.has_credentials && f.require_auth
            &&& s == RegisterStep::AcceptOpen <==> open && !f.has_credentials && !f.require_auth
            &&& s == RegisterStep::ForbidAndVerify <==> open && f.has_credentials && f.cache
                == Some(CacheVerdict::Mismatch)
            &&& s == RegisterStep::Defer <==> open && f.has_credentials && f.cache == Some(
                CacheVerdict::Miss,
            ) && f.can_defer
            &&& s == RegisterStep::Accept <==> open && f.has_credentials && (f.cache is None
                || f.cache == Some(CacheVerdict::Verified) || (f.cache == Some(CacheVerdict::Miss)
                && !f.can_defer))
        }),
{
}

/// The number that a hexadecimal digit in lower case stands for.
pub open spec fn hex_value(c: char) -> int {
    if 48 <= c as int <= 57 {
        c as int - 48
    } else if 97 <= c as int <= 102 {
        c as int - 87
    } else {
        -1
    }
}

/// Hexadecimal notation keeps every byte: the two digits at its place give it back, so that two
/// nonces are the same only where their bytes are.
pub proof fn law_hexadecimal_notation_keeps_the_bytes(bytes: Seq<u8>, i: int)
    requires
        0 <= i < bytes.len(),
    ensures
        hex_text(bytes).len() == 2 * bytes.len(),
        0 <= hex_value(hex_text(bytes)[2 * i]) < 16,
        0 <= hex_value(hex_text(bytes)[2 * i + 1]) < 16,
        16 * hex_value(hex_text(bytes)[2 * i]) + hex_value(hex_text(bytes)[2 * i + 1]) == bytes[i],
{
    let b = bytes[i] as int;
    assert(hex_text(bytes)[2 * i] == hex_char(b / 16));
    assert(hex_text(bytes)[2 * i + 1] == hex_char(b % 16));
}

/// A digest is complete where none of the five fields that it needs is empty, and its credentials are
/// the fields as they came: of those that it may lack, each that is there.
pub proof fn law_a_digest_keeps_its_fields(p: DigestAuthParams, f: AuthorizationFields)
    requires
        are_credentials(p, f),
    ensures
        is_complete(f) <==> !seq![p.username@, p.realm@, p.nonce@, p.uri@, p.response@].contains(
            Seq::empty(),
        ),
        p.username@ == f.username@ && p.realm@ == f.realm@ && p.nonce@ == f.nonce@ && p.uri@
            == f.uri@ && p.response@ == f.response@,
        p.method@ == Seq::<char>::empty(),
        p.qop is Some <==> f.qop@ != Seq::<char>::empty(),
        p.qop is Some ==> (p.qop->0)@ == f.qop@,
        p.nc is Some <==> f.nc@ != Seq::<char>::empty(),
        p.nc is Some ==> (p.nc->0)@ == f.nc@,
        p.cnonce is Some <==> f.cnonce@ != Seq::<char>::empty(),
        p.cnonce is Some ==> (p.cnonce->0)@ == f.cnonce@,
{
    let none = Seq::<char>::empty();
    let needed = seq![p.username@, p.realm@, p.nonce@, p.uri@, p.response@];
    assert(needed[0] == p.username@ && needed[1] == p.realm@ && needed[2] == p.nonce@ && needed[3]
        == p.uri@ && needed[4] == p.response@);
    assert(f.username@.len() == 0 ==> f.username@ =~= none);
    assert(f.realm@.len() == 0 ==> f.realm@ =~= none);
    assert(f.nonce@.len() == 0 ==> f.nonce@ =~= none);
    assert(f.uri@.len() == 0 ==> f.uri@ =~= none);
    assert(f.response@.len() == 0 ==> f.response@ =~= none);
    assert(f.qop@.len() == 0 ==> f.qop@ =~= none);
    assert(f.nc@.len() == 0 ==> f.nc@ =~= none);
    assert(f.cnonce@.len() == 0 ==> f.cnonce@ =~= none);
    assert(p.method@ =~= none);
}

/// A user agent is that of a scanner wherever one of two words stands in its name, and only there.
pub proof fn law_which_user_agents_are_scanners(front: Seq<char>, back: Seq<char>, name: Seq<char>)
    ensures
        names_scanner(front + "scanner"@ + back),
        names_scanner(front + "sipvicious"@ + back),
        !contains_text(name, "scanner"@) && !contains_text(name, "sipvicious"@) ==> !names_scanner(
            name,
        ),
{
    reveal_strlit("scanner");
    reveal_strlit("sipvicious");
    reveal_strlit("friendly-scanner");
    let n = front.len() as int;
    let a = front + "scanner"@ + back;
    let b = front + "sipvicious"@ + back;
    assert(a.subrange(n, n + 7) =~= "scanner"@);
    assert(crate::text::occurs_at(a, "scanner"@, n));
    assert(b.subrange(n, n + 10) =~= "sipvicious"@);
    assert(crate::text::occurs_at(b, "sipvicious"@, n));
    if contains_text(name, "friendly-scanner"@) {
        let k = choose|k: int| crate::text::occurs_at(name, "friendly-scanner"@, k);
        let whole = name.subrange(k, k + 16);
        assert(whole.subrange(9, 16) =~= "scanner"@);
        assert(name.subrange(k + 9, k + 16) =~= whole.subrange(9, 16));
        assert(crate::text::occurs_at(name, "scanner"@, k + 9));
    }
}

/// The URI of a contact names its user, its host and its port, one behind the other; a user or a port
/// that is missing leaves no mark.
pub proof fn law_a_contact_names_its_parts(user: Seq<char>, host: Seq<char>, port: i32)
    ensures
        contact_uri_text(None, host, 0) == "sip:"@ + host,
        contact_uri_text(Some(user), host, 0) == "sip:"@ + user + "@"@ + host,
        port <= 0 ==> contact_uri_text(Some(user), host, port) == contact_uri_text(
            Some(user),
            host,
            0,
        ) && contact_uri_text(None, host, port) == contact_uri_text(None, host, 0),
        port >= 1 ==> contact_uri_text(Some(user), host, port) == contact_uri_text(
            Some(user),
            host,
            0,
        ) + ":"@ + decimal(port as nat) && contact_uri_text(None, host, port) == contact_uri_text(
            None,
            host,
            0,
        ) + ":"@ + decimal(port as nat),
{
}

/// A challenge holds its nonce in quotes, so that no two nonces are asked for alike.
pub proof fn law_challenges_are_told_apart(a: Seq<char>, b: Seq<char>)
    ensures
        contains_text(challenge_text(a), "nonce=\""@ + a + "\""@),
        challenge_text(a) == challenge_text(b) ==> a == b,
{
    reveal_strlit("nonce=\"");
    reveal_strlit("\"");
    reveal_strlit("\", nonce=\"");
    reveal_strlit("\", algorithm=MD5, qop=\"auth\"");
    let head = "Digest realm=\""@ + SIP_REALM@;
    let n = (head.len() + 3) as int;
    let mark = "nonce=\""@ + a + "\""@;
    let all = challenge_text(a);
    assert(all.subrange(n, n + mark.len()) =~= mark);
    assert(crate::text::occurs_at(all, mark, n));
    if challenge_text(a) == challenge_text(b) {
        let other = challenge_text(b);
        assert(a.len() == b.len());
        assert(all.subrange(n + 7, n + 7 + a.len()) =~= a);
        assert(other.subrange(n + 7, n + 7 + b.len()) =~= b);
    }
}

/// A text is numeric where each of its characters is one of the ten digits.
pub proof fn law_which_names_are_numeric(s: Seq<char>, c: char)
    ensures
        all_numeric(Seq::empty()),
        all_numeric(s.push(c)) <==> all_numeric(s) && "0123456789"@.contains(c),
{
    reveal_strlit("0123456789");
    let t = s.push(c);
    let digits = "0123456789"@;
    assert(t[s.len() as int] == c);
    assert(forall|i: int| 0 <= i < s.len() ==> #[trigger] s[i] == t[i]);
    if '0' <= c && c <= '9' {
        assert(digits[c as int - 48] == c);
    }
}

} // verus!
