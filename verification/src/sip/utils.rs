//! Names and numbers out of SIP URIs.

use crate::text::{
    before_char, behind_prefix, chars_of, find_char, strip_end, strip_prefix, strip_start,
    stripped_end, stripped_start, text_of, trim, trimmed, up_to_char,
};
use vstd::prelude::*;
use vstd::string::*;

verus! {

/// A URI without the angle brackets round it.
pub open spec fn unbracketed(uri: Seq<char>) -> Seq<char> {
    strip_end(strip_start(uri, '<'), '>')
}

/// The user of a SIP URI: what stands in front of the at sign, without angle brackets and the
/// scheme.
pub open spec fn sip_user(uri: Seq<char>) -> Seq<char> {
    let u = unbracketed(uri);
    match behind_prefix(u, "sip:"@) {
        Some(rest) => before_char(rest, '@'),
        None => before_char(u, '@'),
    }
}

/// The user of a SIP URI.
pub fn extract_sip_username(uri: &str) -> (r: String)
    ensures
        r@ == sip_user(uri@),
{
    let v: Vec<char> = chars_of(uri);
    let left: Vec<char> = stripped_start(v.as_slice(), '<');
    let both: Vec<char> = stripped_end(left.as_slice(), '>');
    let user: Vec<char> = match strip_prefix(both.as_slice(), "sip:") {
        Some(rest) => up_to_char(rest.as_slice(), '@'),
        None => up_to_char(both.as_slice(), '@'),
    };
    text_of(user.as_slice())
}

/// The display name of an address: what stands in front of the first angle bracket, without
/// quotes and white space round it. An address without an angle bracket has none.
pub open spec fn display_name(address: Seq<char>) -> Seq<char> {
    let a = trim(address);
    if a.contains('<') {
        trim(strip_end(strip_start(trim(before_char(a, '<')), '"'), '"'))
    } else {
        Seq::empty()
    }
}

/// The display name of an address.
pub fn extract_display_name(uri: &str) -> (r: String)
    ensures
        r@ == display_name(uri@),
{
    let a: Vec<char> = trimmed(chars_of(uri).as_slice());
    match find_char(a.as_slice(), '<') {
        None => {
            let r: String = String::new();
            proof {
                assert(r@ =~= Seq::<char>::empty());
            }
            r
        },
        Some(k) => {
            proof {
                assert(a@[k as int] == '<');
            }
            let head: Vec<char> = trimmed(up_to_char(a.as_slice(), '<').as_slice());
            let left: Vec<char> = stripped_start(head.as_slice(), '"');
            let both: Vec<char> = stripped_end(left.as_slice(), '"');
            text_of(trimmed(both.as_slice()).as_slice())
        },
    }
}

/// The identity that a P-Asserted-Identity header states: its display name, or else its user.
pub open spec fn asserted_identity(value: Seq<char>) -> Option<Seq<char>> {
    if value.len() == 0 {
        None
    } else if display_name(value).len() > 0 {
        Some(display_name(value))
    } else if sip_user(value).len() > 0 {
        Some(sip_user(value))
    } else {
        None
    }
}

/// The identity that a P-Asserted-Identity header states.
pub fn extract_p_asserted_identity(value: &str) -> (r: Option<String>)
    ensures
        r is Some <==> asserted_identity(value@) is Some,
        r is Some ==> Some((r->0)@) == asserted_identity(value@),
{
    if value.is_empty() {
        return None;
    }
    let name: String = extract_display_name(value);
    if !name.as_str().is_empty() {
        return Some(name);
    }
    let user: String = extract_sip_username(value);
    if !user.as_str().is_empty() {
        Some(user)
    } else {
        None
    }
}

/// Who calls: the asserted identity, or else the display name of the From header, or else its
/// user.
pub open spec fn caller_identity(from_uri: Seq<char>, asserted: Option<Seq<char>>) -> Seq<char> {
    if asserted is Some && asserted_identity(asserted->0) is Some {
        asserted_identity(asserted->0)->0
    } else if display_name(from_uri).len() > 0 {
        display_name(from_uri)
    } else {
        sip_user(from_uri)
    }
}

/// Who calls, given the From header and the P-Asserted-Identity header, if there is one.
pub fn extract_caller_id(from_uri: &str, asserted: Option<&str>) -> (r: String)
    ensures
        r@ == caller_identity(
            from_uri@,
            match asserted {
                Some(a) => Some(a@),
                None => None,
            },
        ),
{
    if let Some(a) = asserted {
        if let Some(id) = extract_p_asserted_identity(a) {
            return id;
        }
    }
    let name: String = extract_display_name(from_uri);
    if !name.as_str().is_empty() {
        return name;
    }
    extract_sip_username(from_uri)
}

/// The user of a SIP URI is found, with and without angle brackets and with and without the scheme:
/// it is what stands in front of the at sign.
pub proof fn law_the_user_of_a_uri_is_found(user: Seq<char>, host: Seq<char>)
    requires
        user.len() > 0,
        !user.contains('@'),
        user[0] != '<',
        host.len() > 0,
        host.last() != '>',
        behind_prefix(user + "@"@ + host, "sip:"@) is None,
    ensures
        sip_user("sip:"@ + user + "@"@ + host) == user,
        sip_user("<sip:"@ + user + "@"@ + host + ">"@) == user,
        sip_user(user + "@"@ + host) == user,
{
    reveal_strlit("sip:");
    reveal_strlit("<sip:");
    reveal_strlit("@");
    reveal_strlit(">");
    let plain = user + "@"@ + host;
    let full = "sip:"@ + user + "@"@ + host;
    let round = "<sip:"@ + user + "@"@ + host + ">"@;
    crate::text::law_text_ends_in_front_of_a_character(user, '@', host);
    assert(plain =~= user + seq!['@'] + host);
    assert(full =~= "sip:"@ + plain);
    assert(full.subrange(0, 4) =~= "sip:"@);
    assert(full.subrange(4, full.len() as int) =~= plain);
    assert(strip_start(full, '<') == full);
    assert(strip_end(full, '>') == full);
    assert(strip_start(plain, '<') == plain);
    assert(strip_end(plain, '>') == plain);
    let inner = full + ">"@;
    assert(round.subrange(1, round.len() as int) =~= inner);
    assert(strip_start(inner, '<') == inner);
    assert(strip_start(round, '<') == inner);
    assert(inner.drop_last() =~= full);
    assert(strip_end(inner, '>') == full);
}

/// Who calls: the identity that the network asserts goes before the name that the caller gives, and
/// a name before the user of the address.
pub proof fn law_who_calls(from_uri: Seq<char>, asserted: Option<Seq<char>>)
    ensures
        asserted is Some && display_name(asserted->0).len() > 0 && (asserted->0).len() > 0
            ==> caller_identity(from_uri, asserted) == display_name(asserted->0),
        asserted is Some && (asserted->0).len() > 0 && display_name(asserted->0).len() == 0
            && sip_user(asserted->0).len() > 0 ==> caller_identity(from_uri, asserted) == sip_user(
            asserted->0,
        ),
        asserted is None || (asserted->0).len() == 0 || (display_name(asserted->0).len() == 0
            && sip_user(asserted->0).len() == 0) ==> caller_identity(from_uri, asserted) == (
        if display_name(from_uri).len() > 0 {
            display_name(from_uri)
        } else {
            sip_user(from_uri)
        }),
{
}

/// A name in quotes in front of an address is its display name; an address without angle brackets
/// has none.
pub proof fn law_the_name_in_quotes_is_shown(name: Seq<char>, rest: Seq<char>, bare: Seq<char>)
    requires
        name.len() > 0,
        !name.contains('<'),
        name[0] != '"' && name.last() != '"',
        !crate::text::white_space(name[0]) && !crate::text::white_space(name.last()),
        rest.len() > 0 && !crate::text::white_space(rest.last()),
        !bare.contains('<'),
    ensures
        display_name("\""@ + name + "\" <"@ + rest) == name,
        display_name(bare).len() == 0,
{
    reveal_strlit("\"");
    reveal_strlit("\" <");
    let a = "\""@ + name + "\" <"@ + rest;
    let quoted = "\""@ + name + "\""@;
    let front = quoted + seq![' '];
    lemma_trim_keeps(a);
    assert(a =~= front + seq!['<'] + rest);
    assert(!front.contains('<')) by {
        if front.contains('<') {
            let k = choose|k: int| 0 <= k < front.len() && front[k] == '<';
            assert(name[k - 1] == '<');
        }
    }
    crate::text::law_text_ends_in_front_of_a_character(front, '<', rest);
    assert(a.contains('<')) by {
        assert(a[front.len() as int] == '<');
    }
    assert(trim(front) == quoted) by {
        assert(crate::text::trim_start(front) == front);
        assert(front.drop_last() =~= quoted);
        assert(crate::text::trim_end(front) == crate::text::trim_end(quoted));
        assert(crate::text::trim_end(quoted) == quoted);
    }
    let open = name + seq!['"'];
    assert(quoted.subrange(1, quoted.len() as int) =~= open);
    assert(strip_start(open, '"') == open);
    assert(strip_start(quoted, '"') == open);
    assert(open.drop_last() =~= name);
    assert(strip_end(name, '"') == name);
    assert(strip_end(open, '"') == name);
    lemma_trim_keeps(name);
    assert(!trim(bare).contains('<')) by {
        crate::text::law_trimming_takes_white_space_off(bare);
        let t = trim(bare);
        if t.contains('<') {
            let (x, y) = choose|x: int, y: int|
                #![trigger bare.subrange(x, y)]
                0 <= x <= y <= bare.len() && t == bare.subrange(x, y) && (forall|i: int|
                    0 <= i < x ==> crate::text::white_space(#[trigger] bare[i])) && (forall|i: int|
                    y <= i < bare.len() ==> crate::text::white_space(#[trigger] bare[i]));
            let k = choose|k: int| 0 <= k < t.len() && t[k] == '<';
            assert(bare[x + k] == '<');
        }
    }
}

/// A text without white space at its ends is trimmed already.
proof fn lemma_trim_keeps(s: Seq<char>)
    requires
        s.len() > 0,
        !crate::text::white_space(s[0]),
        !crate::text::white_space(s.last()),
    ensures
        trim(s) == s,
{
}

} // verus!
