//! A backend that routes by a fixed dialplan.

use crate::routing::{CallError, MenuRoute, PhoneDirectoryEntry, RouteDecision};
use crate::services::snowflake::Snowflake;
use crate::sorting::{sort_by_label, Labelled, sorted_stably};
use crate::text::same_text;
use vstd::prelude::*;
use vstd::string::*;

verus! {

/// The voice channel that an extension leads to.
#[derive(Debug, Clone, Copy)]
pub struct ExtensionTarget {
    pub guild: Snowflake,
    pub channel: Snowflake,
}

/// A menu and the extension that leads to it.
#[derive(Debug)]
pub struct MenuConfig {
    pub extension: String,
    pub timeout_seconds: u64,
    pub max_attempts: u8,
}

/// A phone of the directory; without an extension its name is dialled.
#[derive(Debug)]
pub struct PhoneConfig {
    pub label: String,
    pub extension: Option<String>,
}

/// The seconds that a menu waits for a digit, where the dialplan does not say.
pub fn default_menu_timeout_seconds() -> (r: u64)
    ensures
        r == 10,
{
    10
}

/// The wrong digits that a menu allows, where the dialplan does not say.
pub fn default_menu_max_attempts() -> (r: u8)
    ensures
        r == 3,
{
    3
}

/// The names of the entries of a table.
pub open spec fn names<T>(s: Seq<(String, T)>) -> Seq<Seq<char>> {
    s.map_values(|e: (String, T)| e.0@)
}

/// A dialplan: extensions, menus and phones, each under its name.
#[derive(Debug)]
pub struct StaticBackend {
    bot_token: String,
    extensions: Vec<(String, ExtensionTarget)>,
    menus: Vec<(String, MenuConfig)>,
    phones: Vec<(String, PhoneConfig)>,
}

impl StaticBackend {
    /// The bot token.
    pub closed spec fn token(&self) -> Seq<char> {
        self.bot_token@
    }

    /// The extensions.
    pub closed spec fn extension_table(&self) -> Seq<(String, ExtensionTarget)> {
        self.extensions@
    }

    /// The menus.
    pub closed spec fn menu_table(&self) -> Seq<(String, MenuConfig)> {
        self.menus@
    }

    /// The phones.
    pub closed spec fn phone_table(&self) -> Seq<(String, PhoneConfig)> {
        self.phones@
    }

    /// No name occurs twice in a table.
    pub open spec fn wf(&self) -> bool {
        &&& names(self.extension_table()).no_duplicates()
        &&& names(self.menu_table()).no_duplicates()
        &&& names(self.phone_table()).no_duplicates()
    }

    /// A backend for the tables of a dialplan.
    pub fn new(
        bot_token: String,
        extensions: Vec<(String, ExtensionTarget)>,
        menus: Vec<(String, MenuConfig)>,
        phones: Vec<(String, PhoneConfig)>,
    ) -> (b: Self)
        requires
            names(extensions@).no_duplicates(),
            names(menus@).no_duplicates(),
            names(phones@).no_duplicates(),
        ensures
            b.wf(),
            b.token() == bot_token@,
            b.extension_table() == extensions@,
            b.menu_table() == menus@,
            b.phone_table() == phones@,
    {
        StaticBackend { bot_token, extensions, menus, phones }
    }

    /// The bot token.
    pub fn bot_token(&self) -> (r: &str)
        ensures
            r@ == self.token(),
    {
        self.bot_token.as_str()
    }

    /// How many extensions there are.
    pub fn extension_count(&self) -> (n: usize)
        ensures
            n == self.extension_table().len(),
    {
        self.extensions.len()
    }

    /// Where an extension leads, by the table of extensions.
    pub fn lookup(&self, extension: &str) -> (r: Option<ExtensionTarget>)
        ensures
            match r {
                Some(t) => exists|i: int|
                    0 <= i < self.extension_table().len() && (
                    #[trigger] self.extension_table()[i]).0@ == extension@ && t
                        == self.extension_table()[i].1,
                None => !names(self.extension_table()).contains(extension@),
            },
    {
        let mut i: usize = 0;
        while i < self.extensions.len()
            invariant
                i <= self.extensions@.len(),
                forall|j: int| 0 <= j < i ==> (#[trigger] self.extensions@[j]).0@ != extension@,
            decreases self.extensions@.len() - i,
        {
            if same_text(self.extensions[i].0.as_str(), extension) {
                assert(self.extension_table()[i as int].0@ == extension@);
                return Some(self.extensions[i].1);
            }
            i = i + 1;
        }
        proof {
            let ns = names(self.extensions@);
            if ns.contains(extension@) {
                let k = choose|k: int| 0 <= k < ns.len() && ns[k] == extension@;
                assert(self.extensions@[k].0@ == extension@);
            }
        }
        None
    }

    /// Routes a call: a menu with this extension wins, then the table of extensions decides.
    ///
    /// Where several menus share an extension, the first in the table is taken.
    pub fn route_call(&self, extension: &str) -> (r: RouteDecision)
        ensures
            routed(*self, extension@, r),
    {
        let mut i: usize = 0;
        while i < self.menus.len()
            invariant
                i <= self.menus@.len(),
                forall|j: int|
                    0 <= j < i ==> (#[trigger] self.menus@[j]).1.extension@ != extension@,
            decreases self.menus@.len() - i,
        {
            if same_text(self.menus[i].1.extension.as_str(), extension) {
                assert(is_first_menu(self.menu_table(), extension@, i as int));
                return RouteDecision::Menu {
                    menu: MenuRoute {
                        id: self.menus[i].0.clone(),
                        prompt: None,
                        invalid_prompt: None,
                        timeout_seconds: self.menus[i].1.timeout_seconds,
                        max_attempts: self.menus[i].1.max_attempts,
                        options: Vec::new(),
                    },
                };
            }
            i = i + 1;
        }
        assert(!has_menu(*self, extension@)) by {
            assert forall|j: int|
                0 <= j < self.menu_table().len() implies (#[trigger] self.menu_table()[j]).1.extension@
                != extension@ by {
                assert(self.menus@[j].1.extension@ != extension@);
            }
        }
        let found: Option<ExtensionTarget> = self.lookup(extension);
        proof {
            if found is Some {
                let t = self.extension_table();
                let k = choose|k: int|
                    0 <= k < t.len() && (#[trigger] t[k]).0@ == extension@ && found->0 == t[k].1;
                assert(names(t)[k] == extension@);
            }
        }
        match found {
            Some(target) => RouteDecision::Connect {
                channel_id: target.channel,
                guild_id: target.guild,
                user_id: String::from_str("static"),
                bot_token: self.bot_token.clone(),
            },
            None => RouteDecision::RejectWithError { error: CallError::NoChannelMapping },
        }
    }

    /// The phones, ordered by their labels without regard to case.
    pub fn phone_directory(&self) -> (r: Vec<PhoneDirectoryEntry>)
        ensures
            exists|listed: Seq<PhoneDirectoryEntry>| #[trigger]
                lists_phones(listed, self.phone_table()) && sorted_stably(listed, r@),
    {
        let mut entries: Vec<PhoneDirectoryEntry> = Vec::new();
        let mut i: usize = 0;
        while i < self.phones.len()
            invariant
                i <= self.phones@.len(),
                lists_phones(entries@, self.phones@.take(i as int)),
            decreases self.phones@.len() - i,
        {
            let phone: &PhoneConfig = &self.phones[i].1;
            let ext: String = match &phone.extension {
                Some(e) => e.clone(),
                None => self.phones[i].0.clone(),
            };
            entries.push(
                PhoneDirectoryEntry {
                    id: self.phones[i].0.clone(),
                    label: phone.label.clone(),
                    extension: ext,
                },
            );
            i = i + 1;
            proof {
                assert(self.phones@.take(i as int).len() == i);
            }
        }
        proof {
            assert(self.phones@.take(self.phones@.len() as int) =~= self.phones@);
        }
        let ghost listed = entries@;
        let r: Vec<PhoneDirectoryEntry> = sort_by_label(entries);
        proof {
            assert(lists_phones(listed, self.phone_table()) && sorted_stably(listed, r@));
        }
        r
    }
}

/// The label of the first phone that is dialled under an extension, or the extension itself.
pub open spec fn is_nickname(
    nick: Seq<char>,
    phones: Seq<(String, PhoneConfig)>,
    extension: Seq<char>,
) -> bool {
    if exists|i: int| 0 <= i < phones.len() && #[trigger] dialled_as(phones[i]) == extension {
        exists|i: int|
            0 <= i < phones.len() && #[trigger] dialled_as(phones[i]) == extension && nick
                == phones[i].1.label@ && forall|j: int|
                0 <= j < i ==> #[trigger] dialled_as(phones[j]) != extension
    } else {
        nick == extension
    }
}

/// The extension that a phone is dialled under: its own, or else its name.
pub open spec fn dialled_as(phone: (String, PhoneConfig)) -> Seq<char> {
    match phone.1.extension {
        Some(x) => x@,
        None => phone.0@,
    }
}

impl StaticBackend {
    /// The nickname of the bot while it calls an extension: the label of the first phone in the
    /// directory that is dialled under it, or else the extension.
    pub fn call_nickname(&self, extension: &str) -> (r: String)
        ensures
            is_nickname(r@, self.phone_table(), extension@),
    {
        let mut i: usize = 0;
        while i < self.phones.len()
            invariant
                i <= self.phones@.len(),
                forall|j: int|
                    0 <= j < i ==> #[trigger] dialled_as(self.phones@[j]) != extension@,
            decreases self.phones@.len() - i,
        {
            let same: bool = match &self.phones[i].1.extension {
                Some(x) => same_text(x.as_str(), extension),
                None => same_text(self.phones[i].0.as_str(), extension),
            };
            if same {
                proof {
                    assert(dialled_as(self.phone_table()[i as int]) == extension@);
                }
                return self.phones[i].1.label.clone();
            }
            i = i + 1;
        }
        String::from_str(extension)
    }
}

impl Labelled for PhoneDirectoryEntry {
    open spec fn label_of(&self) -> Seq<char> {
        self.label@
    }

    fn label(&self) -> (r: &str) {
        self.label.as_str()
    }
}

/// The directory entry of a phone.
pub open spec fn is_entry(e: PhoneDirectoryEntry, id: Seq<char>, phone: PhoneConfig) -> bool {
    &&& e.id@ == id
    &&& e.label@ == phone.label@
    &&& e.extension@ == (match phone.extension {
        Some(x) => x@,
        None => id,
    })
}

/// Each phone has its entry, in the order of the table.
pub open spec fn lists_phones(
    entries: Seq<PhoneDirectoryEntry>,
    phones: Seq<(String, PhoneConfig)>,
) -> bool {
    entries.len() == phones.len() && forall|i: int|
        0 <= i < phones.len() ==> is_entry(#[trigger] entries[i], phones[i].0@, phones[i].1)
}

/// Some menu of the dialplan has the extension.
pub open spec fn has_menu(b: StaticBackend, extension: Seq<char>) -> bool {
    exists|i: int|
        0 <= i < b.menu_table().len() && (#[trigger] b.menu_table()[i]).1.extension@ == extension
}

/// The menu at an index is the first in the table with the extension.
pub open spec fn is_first_menu(
    menus: Seq<(String, MenuConfig)>,
    extension: Seq<char>,
    i: int,
) -> bool {
    &&& 0 <= i < menus.len()
    &&& menus[i].1.extension@ == extension
    &&& forall|j: int| 0 <= j < i ==> (#[trigger] menus[j]).1.extension@ != extension
}

/// The menu is that of an entry of the dialplan.
pub open spec fn is_menu(menu: MenuRoute, e: (String, MenuConfig)) -> bool {
    &&& menu.id@ == e.0@
    &&& menu.prompt is None
    &&& menu.invalid_prompt is None
    &&& menu.timeout_seconds == e.1.timeout_seconds
    &&& menu.max_attempts == e.1.max_attempts
    &&& menu.options@.len() == 0
}

/// The decision is that of the dialplan for an extension.
pub open spec fn routed(b: StaticBackend, extension: Seq<char>, r: RouteDecision) -> bool {
    if has_menu(b, extension) {
        r is Menu && exists|i: int| #[trigger]
            is_first_menu(b.menu_table(), extension, i) && is_menu(r->menu, b.menu_table()[i])
    } else if names(b.extension_table()).contains(extension) {
        &&& r is Connect
        &&& r->Connect_user_id@ == "static"@
        &&& r->Connect_bot_token@ == b.token()
        &&& exists|i: int|
            0 <= i < b.extension_table().len() && (#[trigger] b.extension_table()[i]).0@
                == extension && r->Connect_channel_id == b.extension_table()[i].1.channel
                && r->Connect_guild_id == b.extension_table()[i].1.guild
    } else {
        r is RejectWithError && r->error == CallError::NoChannelMapping
    }
}

/// An extension leads to one channel: two decisions to connect it agree.
pub proof fn law_an_extension_leads_to_one_channel(
    b: StaticBackend,
    extension: Seq<char>,
    r1: RouteDecision,
    r2: RouteDecision,
)
    requires
        b.wf(),
        routed(b, extension, r1),
        routed(b, extension, r2),
        r1 is Connect,
    ensures
        r2 is Connect,
        r1->Connect_channel_id == r2->Connect_channel_id,
        r1->Connect_guild_id == r2->Connect_guild_id,
{
    let t = b.extension_table();
    let i = choose|i: int|
        0 <= i < t.len() && (#[trigger] t[i]).0@ == extension && r1->Connect_channel_id
            == t[i].1.channel && r1->Connect_guild_id == t[i].1.guild;
    let j = choose|j: int|
        0 <= j < t.len() && (#[trigger] t[j]).0@ == extension && r2->Connect_channel_id
            == t[j].1.channel && r2->Connect_guild_id == t[j].1.guild;
    assert(names(t)[i] == names(t)[j]);
    assert(i == j);
}

/// A call is connected, led through a menu or rejected for want of a mapping, and nothing else.
pub proof fn law_static_routing_is_complete(b: StaticBackend, extension: Seq<char>, r: RouteDecision)
    requires
        routed(b, extension, r),
    ensures
        r is Menu <==> has_menu(b, extension),
        r is Connect <==> !has_menu(b, extension) && names(b.extension_table()).contains(extension),
        r is RejectWithError <==> !has_menu(b, extension) && !names(b.extension_table()).contains(
            extension,
        ),
        !(r is RejectInvalidCredentials),
{
}

/// The two decisions say the same.
pub open spec fn same_decision(a: RouteDecision, b: RouteDecision) -> bool {
    match (a, b) {
        (RouteDecision::Menu { menu: m }, RouteDecision::Menu { menu: n }) => {
            &&& m.id@ == n.id@
            &&& m.prompt is None && n.prompt is None
            &&& m.invalid_prompt is None && n.invalid_prompt is None
            &&& m.timeout_seconds == n.timeout_seconds
            &&& m.max_attempts == n.max_attempts
            &&& m.options@.len() == 0 && n.options@.len() == 0
        },
        (
            RouteDecision::Connect { channel_id: c1, guild_id: g1, user_id: u1, bot_token: t1 },
            RouteDecision::Connect { channel_id: c2, guild_id: g2, user_id: u2, bot_token: t2 },
        ) => c1 == c2 && g1 == g2 && u1@ == u2@ && t1@ == t2@,
        (
            RouteDecision::RejectWithError { error: e1 },
            RouteDecision::RejectWithError { error: e2 },
        ) => e1 == e2,
        _ => false,
    }
}

/// The extension alone decides: whoever calls, with whatever credentials, two calls of one
/// extension are decided alike, and none is rejected for its credentials. A menu wins over an
/// entry of the table of extensions.
pub proof fn law_the_extension_alone_decides(
    b: StaticBackend,
    extension: Seq<char>,
    r1: RouteDecision,
    r2: RouteDecision,
)
    requires
        b.wf(),
        routed(b, extension, r1),
        routed(b, extension, r2),
    ensures
        same_decision(r1, r2),
        !(r1 is RejectInvalidCredentials),
        has_menu(b, extension) ==> r1 is Menu,
{
    if has_menu(b, extension) {
        let t = b.menu_table();
        let i = choose|i: int| #[trigger] is_first_menu(t, extension, i) && is_menu(r1->menu, t[i]);
        let j = choose|j: int| #[trigger] is_first_menu(t, extension, j) && is_menu(r2->menu, t[j]);
        assert(t[i].1.extension@ == extension && t[j].1.extension@ == extension);
        assert(i == j);
    } else if r1 is Connect {
        law_an_extension_leads_to_one_channel(b, extension, r1, r2);
    }
}

/// Every entry of the dialplan can be reached. Calling the extension of a menu leads to the first
/// menu with it, and calling a name of the table of extensions, where no menu has it, to its guild
/// and channel.
pub proof fn law_every_entry_can_be_reached(
    b: StaticBackend,
    extension: Seq<char>,
    r: RouteDecision,
    m: int,
    k: int,
)
    requires
        b.wf(),
        routed(b, extension, r),
    ensures
        0 <= m < b.menu_table().len() && b.menu_table()[m].1.extension@ == extension && (forall|
            j: int,
        |
            0 <= j < m ==> (#[trigger] b.menu_table()[j]).1.extension@ != extension) ==> r is Menu
            && r->menu.id@ == b.menu_table()[m].0@ && r->menu.timeout_seconds
            == b.menu_table()[m].1.timeout_seconds && r->menu.max_attempts
            == b.menu_table()[m].1.max_attempts && r->menu.options@.len() == 0 && r->menu.prompt
            is None,
        0 <= k < b.extension_table().len() && b.extension_table()[k].0@ == extension && (forall|
            j: int,
        |
            0 <= j < b.menu_table().len() ==> (#[trigger] b.menu_table()[j]).1.extension@
                != extension) ==> r is Connect && r->Connect_channel_id
            == b.extension_table()[k].1.channel && r->Connect_guild_id
            == b.extension_table()[k].1.guild && r->Connect_bot_token@ == b.token(),
{
    if has_menu(b, extension) {
        let i = choose|i: int| #[trigger]
            is_first_menu(b.menu_table(), extension, i) && is_menu(r->menu, b.menu_table()[i]);
        if 0 <= m < b.menu_table().len() && b.menu_table()[m].1.extension@ == extension && (forall|
            j: int,
        |
            0 <= j < m ==> (#[trigger] b.menu_table()[j]).1.extension@ != extension) {
            assert(i == m) by {
                if i < m {
                    assert(b.menu_table()[i].1.extension@ != extension);
                } else if m < i {
                    assert(b.menu_table()[m].1.extension@ != extension);
                }
            }
        }
    }
    if 0 <= k < b.extension_table().len() && b.extension_table()[k].0@ == extension && !has_menu(
        b,
        extension,
    ) {
        let all = names(b.extension_table());
        assert(all[k] == extension);
        assert(all.contains(extension));
        let i = choose|i: int|
            0 <= i < b.extension_table().len() && (#[trigger] b.extension_table()[i]).0@
                == extension && r->Connect_channel_id == b.extension_table()[i].1.channel
                && r->Connect_guild_id == b.extension_table()[i].1.guild;
        assert(all[i] == extension);
        assert(i == k);
    }
}

/// Every phone is in the directory, and nothing else is: under its name and its label, with the
/// extension that it is dialled under. While it is called the bot has its label, unless a phone in
/// front of it is dialled alike.
pub proof fn law_every_phone_is_listed(
    phones: Seq<(String, PhoneConfig)>,
    listed: Seq<PhoneDirectoryEntry>,
    nick: Seq<char>,
    k: int,
)
    requires
        0 <= k < phones.len(),
        lists_phones(listed, phones),
        is_nickname(nick, phones, listed[k].extension@),
        forall|j: int| 0 <= j < k ==> (#[trigger] listed[j]).extension@ != listed[k].extension@,
    ensures
        listed.len() == phones.len(),
        listed[k].id@ == phones[k].0@,
        listed[k].label@ == phones[k].1.label@,
        phones[k].1.extension is Some ==> listed[k].extension@ == (phones[k].1.extension->0)@,
        phones[k].1.extension is None ==> listed[k].extension@ == phones[k].0@,
        nick == phones[k].1.label@,
{
    let x = listed[k].extension@;
    assert(is_entry(listed[k], phones[k].0@, phones[k].1));
    assert(dialled_as(phones[k]) == x);
    let i = choose|i: int|
        0 <= i < phones.len() && #[trigger] dialled_as(phones[i]) == x && nick
            == phones[i].1.label@ && forall|j: int|
            0 <= j < i ==> #[trigger] dialled_as(phones[j]) != x;
    if i < k {
        assert(is_entry(listed[i], phones[i].0@, phones[i].1));
        assert(listed[i].extension@ != x);
    }
}

} // verus!
