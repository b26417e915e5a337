//! The spoken menu: servers and voice channels, eight to a page, chosen by digits.

use crate::services::snowflake::Snowflake;
use crate::sip::types::CONF_SAMPLE_RATE;
use crate::sorting::{sort_by_label, sorted_stably, Labelled};
use crate::text::{
    chars_of, decimal, decimal_text, is_white, join2, join3, parse_decimal, text_of, trim, trim_end,
    trim_start, trimmed, white_space,
};
use vstd::prelude::*;
use vstd::string::*;

verus! {

/// A server to choose.
#[derive(Debug)]
pub struct DynamicGuildOption {
    pub guild_id: Snowflake,
    pub name: String,
}

/// A voice channel to choose.
#[derive(Debug)]
pub struct DynamicChannelOption {
    pub channel_id: Snowflake,
    pub name: String,
}

impl Labelled for DynamicGuildOption {
    open spec fn label_of(&self) -> Seq<char> {
        self.name@
    }

    fn label(&self) -> (r: &str) {
        self.name.as_str()
    }
}

impl Labelled for DynamicChannelOption {
    open spec fn label_of(&self) -> Seq<char> {
        self.name@
    }

    fn label(&self) -> (r: &str) {
        self.name.as_str()
    }
}

/// The entries of a page: eight, or what is left.
pub open spec fn page_items<T>(items: Seq<T>, page: nat) -> Seq<T> {
    if page * 8 >= items.len() {
        Seq::empty()
    } else if page * 8 + 8 <= items.len() {
        items.subrange(page as int * 8, page as int * 8 + 8)
    } else {
        items.subrange(page as int * 8, items.len() as int)
    }
}

/// The entries of a page.
pub fn page_slice<T>(items: &[T], page: usize) -> (r: &[T])
    ensures
        r@ == page_items(items@, page as nat),
{
    if page > items.len() / 8 || page * 8 >= items.len() {
        proof {
            assert(page * 8 >= items@.len());
            assert(items@.subrange(0, 0) =~= page_items(items@, page as nat));
        }
        return vstd::slice::slice_subrange(items, 0, 0);
    }
    let start: usize = page * 8;
    let end: usize = if items.len() - start < 8 {
        items.len()
    } else {
        start + 8
    };
    vstd::slice::slice_subrange(items, start, end)
}

/// Whether there is a page behind this one.
pub fn has_next_page(total: usize, page: usize) -> (r: bool)
    ensures
        r == ((page + 1) * 8 < total),
{
    total > 0 && page < (total - 1) / 8
}

/// Each entry stands on exactly one page, at the place that its index gives.
pub proof fn law_pages_hold_each_entry_once<T>(items: Seq<T>, i: int)
    requires
        0 <= i < items.len(),
    ensures
        i % 8 < page_items(items, (i / 8) as nat).len(),
        page_items(items, (i / 8) as nat)[i % 8] == items[i],
        forall|page: nat, k: int|
            #![trigger page_items(items, page)[k]]
            0 <= k < page_items(items, page).len() && page * 8 + k == i ==> page == i / 8 && k == i
                % 8,
{
    assert forall|page: nat, k: int|
        #![trigger page_items(items, page)[k]]
        0 <= k < page_items(items, page).len() && page * 8 + k == i implies page == i / 8 && k == i
        % 8 by {
        assert(k < 8);
    }
}

/// A page has entries exactly where it is the first of a list that has any, or the page before
/// it has one behind it.
pub proof fn law_next_page_has_entries<T>(items: Seq<T>, page: nat)
    ensures
        (page + 1) * 8 < items.len() <==> page_items(items, (page + 1) as nat).len() > 0,
        items.len() > 0 <==> page_items(items, 0).len() > 0,
{
}

/// Signs that a voice does not speak: joiners, keycaps, variation selectors, box drawing,
/// symbols, dingbats and emoji.
pub open spec fn unspoken(c: char) -> bool {
    let u = c as u32;
    u == 0x200D || u == 0x20E3 || 0xFE00 <= u <= 0xFE0F || 0x2500 <= u <= 0x257F || 0x2600 <= u
        <= 0x27BF || 0x1F000 <= u <= 0x1FAFF
}

/// A control character.
pub open spec fn control(c: char) -> bool {
    let u = c as u32;
    u <= 0x1F || 0x7F <= u <= 0x9F
}

/// A sign that is spoken as a pause.
pub open spec fn pause(c: char) -> bool {
    c == '_' || c == '-' || c == '|' || c == '/' || c == '\\' || c == ':' || c == ';' || c == ','
        || c == '.' || c == '#' || c == '[' || c == ']' || c == '(' || c == ')' || c == '{' || c
        == '}'
}

/// A character as it is spoken.
pub open spec fn spoken_char(c: char) -> char {
    if unspoken(c) || control(c) || pause(c) {
        ' '
    } else {
        c
    }
}

/// The text ends in a gap, once spoken.
pub open spec fn ends_in_gap(s: Seq<char>) -> bool {
    s.len() > 0 && white_space(spoken_char(s.last()))
}

/// A text as it is spoken, with each stretch of white space made one space.
pub open spec fn collapsed(s: Seq<char>) -> Seq<char>
    decreases s.len(),
{
    if s.len() == 0 {
        Seq::empty()
    } else {
        let before = collapsed(s.drop_last());
        if !white_space(spoken_char(s.last())) {
            before.push(spoken_char(s.last()))
        } else if ends_in_gap(s.drop_last()) {
            before
        } else {
            before.push(' ')
        }
    }
}

/// A label as it is spoken.
pub open spec fn spoken_label(s: Seq<char>) -> Seq<char> {
    let t = trim(collapsed(s));
    if t.len() == 0 {
        "unnamed"@
    } else {
        t
    }
}

/// Whether a voice does not speak a sign.
pub fn is_tts_skipped_symbol(ch: char) -> (r: bool)
    ensures
        r == unspoken(ch),
{
    let u: u32 = ch as u32;
    u == 0x200D || u == 0x20E3 || (0xFE00 <= u && u <= 0xFE0F) || (0x2500 <= u && u <= 0x257F) || (
    0x2600 <= u && u <= 0x27BF) || (0x1F000 <= u && u <= 0x1FAFF)
}

fn is_control(ch: char) -> (r: bool)
    ensures
        r == control(ch),
{
    let u: u32 = ch as u32;
    u <= 0x1F || (0x7F <= u && u <= 0x9F)
}

fn is_pause(ch: char) -> (r: bool)
    ensures
        r == pause(ch),
{
    match ch {
        '_' | '-' | '|' | '/' | '\\' | ':' | ';' | ',' | '.' | '#' | '[' | ']' | '(' | ')' | '{'
        | '}' => true,
        _ => false,
    }
}

/// A label as it is spoken: signs that are not spoken become gaps, and gaps single spaces.
pub fn clean_tts_label(label: &str) -> (r: String)
    ensures
        r@ == spoken_label(label@),
{
    let v: Vec<char> = chars_of(label);
    let mut out: Vec<char> = Vec::new();
    let mut last_was_space: bool = false;
    let mut i: usize = 0;
    while i < v.len()
        invariant
            v@ == label@,
            i <= v@.len(),
            out@ == collapsed(v@.take(i as int)),
            last_was_space == ends_in_gap(v@.take(i as int)),
        decreases v@.len() - i,
    {
        let ch: char = v[i];
        proof {
            assert(v@.take(i + 1).drop_last() =~= v@.take(i as int));
            assert(v@.take(i + 1).last() == ch);
        }
        let spoken: char = if is_tts_skipped_symbol(ch) || is_control(ch) || is_pause(ch) {
            ' '
        } else {
            ch
        };
        if is_white(spoken) {
            if !last_was_space {
                out.push(' ');
                last_was_space = true;
            }
        } else {
            out.push(spoken);
            last_was_space = false;
        }
        i = i + 1;
    }
    proof {
        assert(v@.take(v@.len() as int) =~= v@);
    }
    let cleaned: Vec<char> = trimmed(out.as_slice());
    if cleaned.len() == 0 {
        String::from_str("unnamed")
    } else {
        text_of(cleaned.as_slice())
    }
}

proof fn lemma_collapsed(s: Seq<char>)
    ensures
        forall|i: int|
            #![trigger collapsed(s)[i]]
            0 <= i < collapsed(s).len() - 1 ==> !(collapsed(s)[i] == ' ' && collapsed(s)[i + 1]
                == ' '),
        collapsed(s).len() > 0 && collapsed(s).last() == ' ' ==> ends_in_gap(s),
    decreases s.len(),
{
    if s.len() > 0 {
        lemma_collapsed(s.drop_last());
    }
}

proof fn lemma_trim_end(s: Seq<char>)
    ensures
        trim_end(s).len() <= s.len(),
        trim_end(s) == s.take(trim_end(s).len() as int),
        trim_end(s).len() > 0 ==> !white_space(trim_end(s).last()),
    decreases s.len(),
{
    if s.len() > 0 && white_space(s.last()) {
        lemma_trim_end(s.drop_last());
        assert(s.drop_last().take(trim_end(s).len() as int) =~= s.take(trim_end(s).len() as int));
    } else {
        assert(s.take(s.len() as int) =~= s);
    }
}

proof fn lemma_trim_start(s: Seq<char>)
    ensures
        trim_start(s).len() <= s.len(),
        trim_start(s) == s.subrange(s.len() - trim_start(s).len(), s.len() as int),
        trim_start(s).len() > 0 ==> !white_space(trim_start(s)[0]),
    decreases s.len(),
{
    if s.len() > 0 && white_space(s[0]) {
        let t = s.subrange(1, s.len() as int);
        lemma_trim_start(t);
        assert(t.subrange(t.len() - trim_start(t).len(), t.len() as int) =~= s.subrange(
            s.len() - trim_start(s).len(),
            s.len() as int,
        ));
    } else {
        assert(s.subrange(0, s.len() as int) =~= s);
    }
}

/// A spoken label is never empty, holds no two spaces in a row, and neither starts nor ends in
/// white space.
pub proof fn law_spoken_labels_are_tidy(s: Seq<char>)
    ensures
        spoken_label(s).len() > 0,
        !white_space(spoken_label(s)[0]),
        !white_space(spoken_label(s).last()),
        forall|i: int|
            #![trigger spoken_label(s)[i]]
            0 <= i < spoken_label(s).len() - 1 ==> !(spoken_label(s)[i] == ' ' && spoken_label(
                s,
            )[i + 1] == ' '),
{
    reveal_strlit("unnamed");
    let c = collapsed(s);
    lemma_collapsed(s);
    lemma_trim_start(c);
    let t = trim_start(c);
    lemma_trim_end(t);
    let u = trim(c);
    if u.len() > 0 {
        let off = c.len() - t.len();
        assert(u[0] == t[0]);
        assert forall|i: int| #![trigger spoken_label(s)[i]] 0 <= i < u.len() - 1 implies !(
        spoken_label(s)[i] == ' ' && spoken_label(s)[i + 1] == ' ') by {
            assert(u[i] == c[off + i]);
            assert(u[i + 1] == c[off + i + 1]);
        }
    }
}

proof fn lemma_collapsed_chars(s: Seq<char>)
    ensures
        forall|i: int|
            0 <= i < collapsed(s).len() ==> !unspoken(#[trigger] collapsed(s)[i]) && !control(
                collapsed(s)[i],
            ) && !pause(collapsed(s)[i]),
    decreases s.len(),
{
    if s.len() > 0 {
        let before = collapsed(s.drop_last());
        let c = spoken_char(s.last());
        lemma_collapsed_chars(s.drop_last());
        assert(!unspoken(' ') && !control(' ') && !pause(' '));
        assert(!unspoken(c) && !control(c) && !pause(c));
        assert forall|i: int| 0 <= i < collapsed(s).len() implies !unspoken(
            #[trigger] collapsed(s)[i],
        ) && !control(collapsed(s)[i]) && !pause(collapsed(s)[i]) by {
            if i < before.len() {
                assert(collapsed(s)[i] == before[i]);
            }
        }
    }
}

/// Emoji, separators and control characters are skipped in spoken labels.
pub proof fn law_spoken_labels_hold_no_signs(s: Seq<char>)
    ensures
        forall|i: int|
            0 <= i < spoken_label(s).len() ==> !unspoken(#[trigger] spoken_label(s)[i]) && !control(
                spoken_label(s)[i],
            ) && !pause(spoken_label(s)[i]),
{
    reveal_strlit("unnamed");
    let c = collapsed(s);
    lemma_collapsed_chars(s);
    lemma_trim_start(c);
    let t = trim_start(c);
    lemma_trim_end(t);
    let u = trim(c);
    if u.len() > 0 {
        let off = c.len() - t.len();
        assert forall|i: int| 0 <= i < u.len() implies !unspoken(#[trigger] spoken_label(s)[i])
            && !control(spoken_label(s)[i]) && !pause(spoken_label(s)[i]) by {
            assert(u[i] == c[off + i]);
        }
    }
}

/// White space in a spoken text is a space.
proof fn lemma_collapsed_white(s: Seq<char>)
    ensures
        forall|i: int|
            0 <= i < collapsed(s).len() && white_space(#[trigger] collapsed(s)[i])
                ==> collapsed(s)[i] == ' ',
    decreases s.len(),
{
    if s.len() > 0 {
        let before = collapsed(s.drop_last());
        lemma_collapsed_white(s.drop_last());
        assert forall|i: int|
            0 <= i < collapsed(s).len() && white_space(
                #[trigger] collapsed(s)[i],
            ) implies collapsed(s)[i] == ' ' by {
            if i < before.len() {
                assert(collapsed(s)[i] == before[i]);
            }
        }
    }
}

/// A text without signs, whose white space is single spaces, is spoken as it is.
proof fn lemma_collapsed_again(t: Seq<char>)
    requires
        forall|i: int|
            0 <= i < t.len() ==> !unspoken(#[trigger] t[i]) && !control(t[i]) && !pause(t[i]) && (
            white_space(t[i]) ==> t[i] == ' '),
        forall|i: int|
            #![trigger t[i]]
            0 <= i < t.len() - 1 ==> !(t[i] == ' ' && t[i + 1] == ' '),
    ensures
        collapsed(t) == t,
    decreases t.len(),
{
    if t.len() > 0 {
        let before = t.drop_last();
        assert forall|i: int|
            #![trigger before[i]]
            0 <= i < before.len() - 1 implies !(before[i] == ' ' && before[i + 1] == ' ') by {
            assert(before[i] == t[i] && before[i + 1] == t[i + 1]);
        }
        lemma_collapsed_again(before);
        let last = t[t.len() - 1];
        assert(spoken_char(last) == last);
        if white_space(last) && ends_in_gap(before) {
            assert(before.last() == t[t.len() - 2]);
        }
        assert(collapsed(t) =~= t);
    } else {
        assert(collapsed(t) =~= t);
    }
}

/// A spoken label that is spoken again stays as it is.
pub proof fn law_spoken_labels_stay(s: Seq<char>)
    ensures
        spoken_label(spoken_label(s)) == spoken_label(s),
{
    reveal_strlit("unnamed");
    let l = spoken_label(s);
    law_spoken_labels_are_tidy(s);
    law_spoken_labels_hold_no_signs(s);
    let c = collapsed(s);
    lemma_collapsed_white(s);
    lemma_trim_start(c);
    let t = trim_start(c);
    lemma_trim_end(t);
    let u = trim(c);
    assert forall|i: int| 0 <= i < l.len() && white_space(#[trigger] l[i]) implies l[i] == ' ' by {
        if u.len() > 0 {
            assert(u[i] == c[c.len() - t.len() + i]);
        }
    }
    lemma_collapsed_again(l);
    assert(trim(l) == l);
}

/// The offers of a page: which digit stands for which label.
pub open spec fn offers<T: Labelled>(items: Seq<T>) -> Seq<char>
    decreases items.len(),
{
    if items.len() == 0 {
        Seq::empty()
    } else {
        offers(items.drop_last()) + (" Press "@ + decimal(items.len()) + " for "@ + spoken_label(
            items.last().label_of(),
        ) + "."@)
    }
}

/// What the caller hears of a page.
pub open spec fn prompt_text<T: Labelled>(
    intro: Seq<char>,
    items: Seq<T>,
    page: nat,
    total: nat,
) -> Seq<char> {
    let listed = intro + offers(items);
    let more = if (page + 1) * 8 < total {
        listed + " Press 9 for more."@
    } else {
        listed
    };
    let back = if page > 0 {
        more + " Press star for previous."@
    } else {
        more
    };
    back + " Press pound to repeat."@
}

/// What the caller hears of a page.
pub fn build_option_prompt<T: Labelled>(intro: &str, items: &[T], page: usize, total: usize) -> (r:
    String)
    ensures
        r@ == prompt_text(intro@, items@, page as nat, total as nat),
{
    let mut prompt: String = String::from_str(intro);
    let mut idx: usize = 0;
    proof {
        assert(prompt@ =~= intro@ + offers(items@.take(0)));
    }
    while idx < items.len()
        invariant
            idx <= items@.len(),
            prompt@ == intro@ + offers(items@.take(idx as int)),
        decreases items@.len() - idx,
    {
        let ghost before = prompt@;
        let label: String = clean_tts_label(items[idx].label());
        let mut offer: String = join3(" Press ", decimal_text(idx as u64 + 1).as_str(), " for ");
        offer = join3(offer.as_str(), label.as_str(), ".");
        prompt.append(offer.as_str());
        idx = idx + 1;
        proof {
            assert(items@.take(idx as int).drop_last() =~= items@.take(idx - 1));
            assert(items@.take(idx as int).last() == items@[idx - 1]);
            assert(prompt@ =~= intro@ + offers(items@.take(idx as int)));
        }
    }
    proof {
        assert(items@.take(items@.len() as int) =~= items@);
    }
    if has_next_page(total, page) {
        prompt.append(" Press 9 for more.");
    }
    if page > 0 {
        prompt.append(" Press star for previous.");
    }
    prompt.append(" Press pound to repeat.");
    prompt
}

/// The introduction of the servers.
pub fn guild_intro() -> (r: String)
    ensures
        r@ == "Select a Discord server."@,
{
    String::from_str("Select a Discord server.")
}

/// The introduction of the voice channels of a server.
pub fn channel_intro(guild_name: &str) -> (r: String)
    ensures
        r@ == "Select a voice channel in "@ + spoken_label(guild_name@) + "."@,
{
    join3("Select a voice channel in ", clean_tts_label(guild_name).as_str(), ".")
}

/// How a menu goes on.
#[derive(Debug, Clone, Copy, PartialEq, Eq, Structural)]
pub enum MenuStep {
    /// The page is spoken: the same, the next or the one before.
    Speak { page: usize },
    /// The entry with the index is chosen.
    Chosen { index: usize },
    /// The digit is wrong: the caller is told, and the page is spoken again.
    Invalid { attempts: u8 },
    /// Too many digits were wrong: the caller is told, and the call is hung up.
    GiveUp,
}

/// The number that a digit from 1 to 8 has.
pub open spec fn choice_of(digit: char) -> Option<int> {
    if '1' <= digit && digit <= '8' {
        Some(digit as u32 - 48)
    } else {
        None
    }
}

/// How a menu goes on, once a digit is pressed.
pub open spec fn step_of_digit(
    total: nat,
    page: usize,
    attempts: u8,
    max_attempts: u8,
    digit: char,
) -> MenuStep {
    let chosen = page * 8 + choice_of(digit)->0 - 1;
    if digit == '#' {
        MenuStep::Speak { page }
    } else if digit == '9' && (page + 1) * 8 < total {
        MenuStep::Speak { page: (page + 1) as usize }
    } else if digit == '*' && page > 0 {
        MenuStep::Speak { page: (page - 1) as usize }
    } else if choice_of(digit) is Some && chosen < total {
        MenuStep::Chosen { index: chosen as usize }
    } else if attempts == u8::MAX || attempts + 1 >= max_attempts {
        MenuStep::GiveUp
    } else {
        MenuStep::Invalid { attempts: (attempts + 1) as u8 }
    }
}

/// Takes a digit in. A wait that timed out counts as a wrong digit.
pub fn menu_step(total: usize, page: usize, attempts: u8, max_attempts: u8, digit: char) -> (r:
    MenuStep)
    requires
        page == 0 || page * 8 < total,
    ensures
        r == step_of_digit(total as nat, page, attempts, max_attempts, digit),
        r matches MenuStep::Speak { page: p } ==> p == 0 || p * 8 < total,
        r matches MenuStep::Chosen { index } ==> index < total,
{
    if digit == '#' {
        return MenuStep::Speak { page };
    }
    if digit == '9' && has_next_page(total, page) {
        return MenuStep::Speak { page: page + 1 };
    }
    if digit == '*' && page > 0 {
        return MenuStep::Speak { page: page - 1 };
    }
    if '1' <= digit && digit <= '8' {
        let n: usize = (digit as u32 - 49) as usize;
        let start: usize = page * 8;
        if n < total && start < total - n {
            return MenuStep::Chosen { index: start + n };
        }
    }
    if attempts == u8::MAX || attempts + 1 >= max_attempts {
        return MenuStep::GiveUp;
    }
    MenuStep::Invalid { attempts: attempts + 1 }
}

/// What is chosen stands on the page that was spoken, where the digit says.
pub proof fn law_a_choice_is_on_the_page<T>(
    items: Seq<T>,
    page: usize,
    attempts: u8,
    max_attempts: u8,
    digit: char,
)
    requires
        items.len() <= usize::MAX,
        step_of_digit(items.len(), page, attempts, max_attempts, digit) is Chosen,
    ensures
        ({
            let index = step_of_digit(items.len(), page, attempts, max_attempts, digit)->index;
            let k = choice_of(digit)->0 - 1;
            0 <= k < page_items(items, page as nat).len() && index == page * 8 + k && page_items(
                items,
                page as nat,
            )[k] == items[index as int]
        }),
{
}

/// The keys that turn pages: the pound sign always speaks the page again, nine the next page
/// where there is one, and the star the page before where there is one. No other key does.
pub proof fn law_page_keys(total: nat, page: usize, attempts: u8, max_attempts: u8, digit: char)
    requires
        (page + 1) * 8 < total ==> page < usize::MAX,
    ensures
        ({
            let s = step_of_digit(total, page, attempts, max_attempts, digit);
            &&& digit == '#' ==> s == (MenuStep::Speak { page })
            &&& digit == '9' ==> (s is Speak <==> (page + 1) * 8 < total) && (s is Speak ==> s->page
                == page + 1)
            &&& digit == '*' ==> (s is Speak <==> page > 0) && (s is Speak ==> s->page == page - 1)
            &&& s is Speak ==> digit == '#' || digit == '9' || digit == '*'
        }),
{
}

/// Wrong digits come to an end: each one counts, and no more than the allowed number is taken.
pub proof fn law_wrong_digits_are_counted(
    total: nat,
    page: usize,
    attempts: u8,
    max_attempts: u8,
    digit: char,
)
    ensures
        step_of_digit(total, page, attempts, max_attempts, digit) matches MenuStep::Invalid {
            attempts: n,
        } ==> n == attempts + 1 && n < max_attempts,
{
}

/// What a caller hears of a step, besides the prompt of a page.
pub open spec fn text_of_step(step: MenuStep) -> Option<Seq<char>> {
    match step {
        MenuStep::Invalid { .. } => Some("Invalid selection."@),
        MenuStep::GiveUp => Some("Too many invalid selections. Goodbye."@),
        _ => None,
    }
}

/// What a caller hears of a step, besides the prompt of a page: that the choice was wrong, or that
/// too many were.
pub fn menu_step_text(step: MenuStep) -> (r: Option<&'static str>)
    ensures
        match r {
            Some(t) => text_of_step(step) == Some(t@),
            None => text_of_step(step) is None,
        },
{
    match step {
        MenuStep::Invalid { .. } => Some("Invalid selection."),
        MenuStep::GiveUp => Some("Too many invalid selections. Goodbye."),
        _ => None,
    }
}

/// The wrong digits that are allowed: at least one.
pub fn allowed_attempts(max_attempts: u8) -> (r: u8)
    ensures
        r == (if max_attempts == 0 {
            1u8
        } else {
            max_attempts
        }),
{
    if max_attempts == 0 {
        1
    } else {
        max_attempts
    }
}

/// The seconds that a menu waits for a digit: at least one.
pub fn digit_timeout(timeout_seconds: u64) -> (r: u64)
    ensures
        r == (if timeout_seconds == 0 {
            1u64
        } else {
            timeout_seconds
        }),
{
    if timeout_seconds == 0 {
        1
    } else {
        timeout_seconds
    }
}

/// What came of a wait for a digit.
#[derive(Debug, Clone, Copy, PartialEq, Eq, Structural)]
pub enum DigitWait {
    Pressed(char),
    Closed,
    TimedOut,
}

/// What follows a wait for a digit.
#[derive(Debug, Clone, Copy, PartialEq, Eq, Structural)]
pub enum DigitStep {
    /// The digit is taken in.
    Take(char),
    /// The caller hears that no selection was received; then a wrong digit is taken in.
    SayNothingReceived,
    /// The call is hung up.
    Hangup,
}

/// What follows a wait for a digit.
pub fn after_digit_wait(w: DigitWait) -> (r: DigitStep)
    ensures
        r == (match w {
            DigitWait::Pressed(d) => DigitStep::Take(d),
            DigitWait::Closed => DigitStep::Hangup,
            DigitWait::TimedOut => DigitStep::SayNothingReceived,
        }),
{
    match w {
        DigitWait::Pressed(d) => DigitStep::Take(d),
        DigitWait::Closed => DigitStep::Hangup,
        DigitWait::TimedOut => DigitStep::SayNothingReceived,
    }
}

/// What the caller hears where there is no server to offer; `None` where there is one.
pub fn no_guilds_text(loaded: Option<usize>) -> (r: Option<&'static str>)
    ensures
        match loaded {
            None => r is Some && (r->0)@ == "I could not load Discord servers."@,
            Some(n) => if n == 0 {
                r is Some && (r->0)@ == "No Discord servers are available."@
            } else {
                r is None
            },
        },
{
    match loaded {
        None => Some("I could not load Discord servers."),
        Some(n) => if n == 0 {
            Some("No Discord servers are available.")
        } else {
            None
        },
    }
}

/// What the caller hears where a server has no voice channel to offer; `None` where it has one.
pub fn no_channels_text(guild_name: &str, loaded: Option<usize>) -> (r: Option<String>)
    ensures
        match loaded {
            None => r is Some && (r->0)@ == "I could not load voice channels."@,
            Some(n) => if n == 0 {
                r is Some && (r->0)@ == guild_name@ + " has no voice channels available."@
            } else {
                r is None
            },
        },
{
    match loaded {
        None => Some(String::from_str("I could not load voice channels.")),
        Some(n) => if n == 0 {
            Some(join2(guild_name, " has no voice channels available."))
        } else {
            None
        },
    }
}

/// The servers whose identifiers can be read, in their order.
pub open spec fn lists_guilds(raw: Seq<(String, String)>, out: Seq<DynamicGuildOption>) -> bool
    decreases raw.len(),
{
    if raw.len() == 0 {
        out.len() == 0
    } else {
        match parse_decimal(raw.last().0@, u64::MAX as nat) {
            None => lists_guilds(raw.drop_last(), out),
            Some(id) => out.len() > 0 && out.last().guild_id.id() == id && out.last().name@
                == raw.last().1@ && lists_guilds(raw.drop_last(), out.drop_last()),
        }
    }
}

/// The voice channels whose identifiers can be read, in their order. Channels of the second
/// kind are voice channels.
pub open spec fn lists_channels(
    raw: Seq<(String, String, u8)>,
    out: Seq<DynamicChannelOption>,
) -> bool
    decreases raw.len(),
{
    if raw.len() == 0 {
        out.len() == 0
    } else if raw.last().2 != 2 {
        lists_channels(raw.drop_last(), out)
    } else {
        match parse_decimal(raw.last().0@, u64::MAX as nat) {
            None => lists_channels(raw.drop_last(), out),
            Some(id) => out.len() > 0 && out.last().channel_id.id() == id && out.last().name@
                == raw.last().1@ && lists_channels(raw.drop_last(), out.drop_last()),
        }
    }
}

/// The servers to offer, given identifiers and names: ordered by name, without regard to case.
pub fn guild_options(raw: &Vec<(String, String)>) -> (r: Vec<DynamicGuildOption>)
    ensures
        exists|listed: Seq<DynamicGuildOption>| #[trigger]
            lists_guilds(raw@, listed) && sorted_stably(listed, r@),
{
    let mut out: Vec<DynamicGuildOption> = Vec::new();
    let mut i: usize = 0;
    while i < raw.len()
        invariant
            i <= raw@.len(),
            lists_guilds(raw@.take(i as int), out@),
        decreases raw@.len() - i,
    {
        proof {
            assert(raw@.take(i + 1).drop_last() =~= raw@.take(i as int));
            assert(raw@.take(i + 1).last() == raw@[i as int]);
        }
        let ghost before = out@;
        if let Some(guild_id) = Snowflake::parse(raw[i].0.as_str()) {
            out.push(DynamicGuildOption { guild_id, name: raw[i].1.clone() });
            proof {
                assert(out@.drop_last() =~= before);
            }
        }
        i = i + 1;
    }
    proof {
        assert(raw@.take(raw@.len() as int) =~= raw@);
    }
    let ghost listed = out@;
    let r: Vec<DynamicGuildOption> = sort_by_label(out);
    proof {
        assert(lists_guilds(raw@, listed) && sorted_stably(listed, r@));
    }
    r
}

/// The voice channels to offer, given identifiers, names and kinds: ordered by name, without
/// regard to case.
pub fn channel_options(raw: &Vec<(String, String, u8)>) -> (r: Vec<DynamicChannelOption>)
    ensures
        exists|listed: Seq<DynamicChannelOption>| #[trigger]
            lists_channels(raw@, listed) && sorted_stably(listed, r@),
{
    let mut out: Vec<DynamicChannelOption> = Vec::new();
    let mut i: usize = 0;
    while i < raw.len()
        invariant
            i <= raw@.len(),
            lists_channels(raw@.take(i as int), out@),
        decreases raw@.len() - i,
    {
        proof {
            assert(raw@.take(i + 1).drop_last() =~= raw@.take(i as int));
            assert(raw@.take(i + 1).last() == raw@[i as int]);
        }
        let ghost before = out@;
        if raw[i].2 == 2 {
            if let Some(channel_id) = Snowflake::parse(raw[i].0.as_str()) {
                out.push(DynamicChannelOption { channel_id, name: raw[i].1.clone() });
                proof {
                    assert(out@.drop_last() =~= before);
                }
            }
        }
        i = i + 1;
    }
    proof {
        assert(raw@.take(raw@.len() as int) =~= raw@);
    }
    let ghost listed = out@;
    let r: Vec<DynamicChannelOption> = sort_by_label(out);
    proof {
        assert(lists_channels(raw@, listed) && sorted_stably(listed, r@));
    }
    r
}

/// How long samples play at the rate of the conference bridge, in milliseconds, and some more.
pub fn playback_ms(samples: u64, more: u64) -> (r: u64)
    requires
        samples * 1000 <= u64::MAX,
        samples * 1000 / 16000 + more <= u64::MAX,
    ensures
        r == samples * 1000 / 16000 + more,
{
    samples * 1000 / CONF_SAMPLE_RATE as u64 + more
}

/// Refuses speech that is not at the rate of the conference bridge.
pub fn check_tts_rate(rate: u32) -> (r: Result<(), String>)
    ensures
        r is Ok <==> rate == 16000,
        r is Err ==> (r->Err_0)@ == "TTS WAV has sample rate "@ + decimal(rate as nat)
            + ", expected "@ + decimal(16000),
{
    if rate != CONF_SAMPLE_RATE {
        let mut m: String = join3(
            "TTS WAV has sample rate ",
            decimal_text(rate as u64).as_str(),
            ", expected ",
        );
        m = join2(m.as_str(), decimal_text(CONF_SAMPLE_RATE as u64).as_str());
        return Err(m);
    }
    Ok(())
}

/// What a caller hears of a wait for a digit: where none came, that none was received.
pub fn digit_step_text(step: DigitStep) -> (r: Option<&'static str>)
    ensures
        match r {
            Some(t) => step == DigitStep::SayNothingReceived && t@ == "No selection received."@,
            None => step != DigitStep::SayNothingReceived,
        },
{
    match step {
        DigitStep::SayNothingReceived => Some("No selection received."),
        _ => None,
    }
}

/// The digit that a menu takes: the one that was pressed, or the null character where none came;
/// `None` where the call is hung up.
pub open spec fn digit_of(step: DigitStep) -> Option<char> {
    match step {
        DigitStep::Take(d) => Some(d),
        DigitStep::SayNothingReceived => Some('\0'),
        DigitStep::Hangup => None,
    }
}

/// The digit that a menu takes.
pub fn digit_taken(step: DigitStep) -> (r: Option<char>)
    ensures
        r == digit_of(step),
{
    match step {
        DigitStep::Take(d) => Some(d),
        DigitStep::SayNothingReceived => Some('\0'),
        DigitStep::Hangup => None,
    }
}

/// A digit that does not come counts as a wrong one.
pub proof fn law_no_digit_is_a_wrong_one(total: nat, page: usize, attempts: u8, max_attempts: u8)
    ensures
        ({
            let digit = digit_of(DigitStep::SayNothingReceived)->0;
            let s = step_of_digit(total, page, attempts, max_attempts, digit);
            s is Invalid || s is GiveUp
        }),
{
}

/// Every entry that a page offers can be chosen: the digit that the prompt names for it, which is
/// its place on the page counted from one, chooses it, however often the caller was wrong before.
pub proof fn law_every_offer_can_be_chosen<T>(
    items: Seq<T>,
    page: usize,
    attempts: u8,
    max_attempts: u8,
    k: int,
    digit: char,
)
    requires
        items.len() <= usize::MAX,
        0 <= k < page_items(items, page as nat).len(),
        decimal((k + 1) as nat) == seq![digit],
    ensures
        digit as int == 49 + k,
        step_of_digit(items.len(), page, attempts, max_attempts, digit) == (MenuStep::Chosen {
            index: (page * 8 + k) as usize,
        }),
        page * 8 + k < items.len(),
        items[page * 8 + k] == page_items(items, page as nat)[k],
{
    assert(decimal((k + 1) as nat)[0] == digit);
}

/// A page offers the eight entries behind those of the pages before it, or as many as are left.
pub proof fn law_a_page_offers_eight<T>(items: Seq<T>, page: nat, k: int)
    requires
        0 <= k < 8,
        page * 8 + k < items.len(),
    ensures
        k < page_items(items, page).len() <= 8,
        page_items(items, page)[k] == items[page * 8 + k],
        page * 8 + 8 <= items.len() ==> page_items(items, page).len() == 8,
        page * 8 + 8 > items.len() ==> page * 8 + page_items(items, page).len() == items.len(),
{
}

/// A key from one to eight chooses the entry at its place on the page, if there is one.
pub proof fn law_digits_choose_by_place(
    total: nat,
    page: usize,
    attempts: u8,
    max_attempts: u8,
    digit: char,
    k: int,
)
    requires
        total <= usize::MAX,
        0 <= k < 8,
        digit as int == 49 + k,
    ensures
        page * 8 + k < total ==> step_of_digit(total, page, attempts, max_attempts, digit) == (
        MenuStep::Chosen { index: (page * 8 + k) as usize }),
        page * 8 + k >= total ==> !(step_of_digit(total, page, attempts, max_attempts, digit)
            is Chosen),
{
}

/// The key means nothing on the page: it neither turns pages nor has an entry at its place.
pub open spec fn is_idle_key(total: nat, page: usize, digit: char) -> bool {
    &&& digit != '#'
    &&& digit == '9' ==> (page + 1) * 8 >= total
    &&& digit == '*' ==> page == 0
    &&& 49 <= digit as int <= 56 ==> page * 8 + (digit as int - 49) >= total
}

/// A key that means nothing is a wrong one, and only such a key is: the caller may try again as long
/// as the allowed number is not reached, and is given up when it is.
pub proof fn law_wrong_keys_use_up_attempts(
    total: nat,
    page: usize,
    attempts: u8,
    max_attempts: u8,
    digit: char,
)
    ensures
        ({
            let s = step_of_digit(total, page, attempts, max_attempts, digit);
            if !is_idle_key(total, page, digit) {
                s is Chosen || s is Speak
            } else if attempts + 1 < max_attempts {
                s == (MenuStep::Invalid { attempts: (attempts + 1) as u8 })
            } else {
                s == MenuStep::GiveUp
            }
        }),
{
}

/// A text stands within another, behind `at` characters.
pub open spec fn stands_at(whole: Seq<char>, at: int, part: Seq<char>) -> bool {
    0 <= at && at + part.len() <= whole.len() && whole.subrange(at, at + part.len()) == part
}

/// What the caller hears of the entry behind `k` others.
pub open spec fn offer_text(k: int, label: Seq<char>) -> Seq<char> {
    " Press "@ + decimal((k + 1) as nat) + " for "@ + spoken_label(label) + "."@
}

proof fn lemma_offers<T: Labelled>(items: Seq<T>, k: int) -> (at: int)
    requires
        0 <= k < items.len(),
    ensures
        stands_at(offers(items), at, offer_text(k, items[k].label_of())),
    decreases items.len(),
{
    let fewer = items.drop_last();
    let part = offer_text(k, items[k].label_of());
    if k == items.len() - 1 {
        let at = offers(fewer).len() as int;
        assert(offers(items).subrange(at, at + part.len()) =~= part);
        at
    } else {
        let at = lemma_offers(fewer, k);
        assert(fewer[k] == items[k]);
        assert(offers(items).subrange(at, at + part.len()) =~= offers(fewer).subrange(
            at,
            at + part.len(),
        ));
        at
    }
}

/// Every entry of a page is read out, with the digit that chooses it and its name as it is spoken.
/// The prompt starts with the introduction and ends with how to hear it again; it offers more
/// exactly where there is a page behind this one, and the way back exactly where there is one
/// before.
pub proof fn law_the_prompt_offers_every_entry<T: Labelled>(
    intro: Seq<char>,
    items: Seq<T>,
    page: nat,
    total: nat,
    k: int,
)
    requires
        0 <= k < items.len(),
    ensures
        exists|at: int| #[trigger]
            stands_at(
                prompt_text(intro, items, page, total),
                at,
                offer_text(k, items[k].label_of()),
            ),
        stands_at(prompt_text(intro, items, page, total), 0, intro),
        ({
            let p = prompt_text(intro, items, page, total);
            let more: Seq<char> = if (page + 1) * 8 < total {
                " Press 9 for more."@
            } else {
                Seq::empty()
            };
            let back: Seq<char> = if page > 0 {
                " Press star for previous."@
            } else {
                Seq::empty()
            };
            p == intro + offers(items) + more + back + " Press pound to repeat."@
        }),
{
    let p = prompt_text(intro, items, page, total);
    let part = offer_text(k, items[k].label_of());
    let at = lemma_offers(items, k);
    let n = intro.len() as int;
    assert(p.subrange(n, n + offers(items).len()) =~= offers(items));
    assert(p.subrange(n + at, n + at + part.len()) =~= offers(items).subrange(at, at + part.len()));
    assert(stands_at(p, n + at, part));
    assert(p.subrange(0, n) =~= intro);
    let more: Seq<char> = if (page + 1) * 8 < total {
        " Press 9 for more."@
    } else {
        Seq::empty()
    };
    let back: Seq<char> = if page > 0 {
        " Press star for previous."@
    } else {
        Seq::empty()
    };
    assert(p =~= intro + offers(items) + more + back + " Press pound to repeat."@);
}

/// A character that is not spoken: white space, a control character, a sign that is read as a pause,
/// or one of those that draw pictures, by their numbers.
pub open spec fn is_silent(c: char) -> bool {
    let u = c as int;
    ||| white_space(c)
    ||| 0 <= u < 32
    ||| 127 <= u < 160
    ||| u == 8205 || u == 8419
    ||| 65024 <= u < 65040
    ||| 9472 <= u < 9600
    ||| 9728 <= u < 10176
    ||| 126976 <= u < 129792
    ||| "_-|/\\:;,.#[](){}"@.contains(c)
}

proof fn lemma_silent(c: char)
    ensures
        is_silent(c) <==> white_space(spoken_char(c)),
        !is_silent(c) ==> spoken_char(c) == c,
{
    reveal_strlit("_-|/\\:;,.#[](){}");
    let signs = "_-|/\\:;,.#[](){}"@;
    if pause(c) {
        assert(signs[0] == '_' && signs[1] == '-' && signs[2] == '|' && signs[3] == '/' && signs[4]
            == '\\' && signs[5] == ':' && signs[6] == ';' && signs[7] == ',' && signs[8] == '.'
            && signs[9] == '#' && signs[10] == '[' && signs[11] == ']' && signs[12] == '('
            && signs[13] == ')' && signs[14] == '{' && signs[15] == '}');
        assert(signs.contains(c));
    }
}

proof fn lemma_letters_of_collapsed(s: Seq<char>)
    ensures
        collapsed(s).filter(|c: char| !white_space(c)) == s.filter(|c: char| !is_silent(c)),
    decreases s.len(),
{
    reveal(Seq::filter);
    let heard = |c: char| !white_space(c);
    let voiced = |c: char| !is_silent(c);
    if s.len() > 0 {
        let c = s.last();
        let before = collapsed(s.drop_last());
        lemma_letters_of_collapsed(s.drop_last());
        lemma_silent(c);
        assert(before.push(c).drop_last() =~= before);
        assert(before.push(' ').drop_last() =~= before);
    } else {
        assert(collapsed(s).filter(heard) =~= s.filter(voiced));
    }
}

proof fn lemma_nothing_to_hear(s: Seq<char>)
    requires
        forall|i: int| 0 <= i < s.len() ==> white_space(#[trigger] s[i]),
    ensures
        s.filter(|c: char| !white_space(c)).len() == 0,
    decreases s.len(),
{
    reveal(Seq::filter);
    if s.len() > 0 {
        assert(s[s.len() - 1] == s.last());
        assert forall|i: int| 0 <= i < s.drop_last().len() implies white_space(
            #[trigger] s.drop_last()[i],
        ) by {
            assert(s.drop_last()[i] == s[i]);
        }
        lemma_nothing_to_hear(s.drop_last());
    }
}

/// A label is spoken whole: every letter of it is heard, in its order, and nothing else is. A label
/// without any is called unnamed.
pub proof fn law_every_letter_is_spoken(s: Seq<char>)
    ensures
        ({
            let letters = s.filter(|c: char| !is_silent(c));
            &&& letters.len() > 0 ==> spoken_label(s).filter(|c: char| !white_space(c)) == letters
            &&& letters.len() == 0 ==> spoken_label(s) == "unnamed"@
        }),
{
    let heard = |c: char| !white_space(c);
    let c = collapsed(s);
    let t = trim(c);
    lemma_letters_of_collapsed(s);
    crate::text::law_trimming_takes_white_space_off(c);
    let (a, b) = choose|a: int, b: int|
        #![trigger c.subrange(a, b)]
        0 <= a <= b <= c.len() && trim(c) == c.subrange(a, b) && (forall|i: int|
            0 <= i < a ==> white_space(#[trigger] c[i])) && (forall|i: int|
            b <= i < c.len() ==> white_space(#[trigger] c[i]));
    let front = c.subrange(0, a);
    let back = c.subrange(b, c.len() as int);
    assert(c =~= front + t + back);
    Seq::filter_distributes_over_add(front + t, back, heard);
    Seq::filter_distributes_over_add(front, t, heard);
    lemma_nothing_to_hear(front);
    lemma_nothing_to_hear(back);
    assert(c.filter(heard) =~= t.filter(heard));
    if t.len() > 0 {
        t.lemma_filter_contains(heard, 0);
        assert(t.filter(heard).contains(t[0]));
    } else {
        t.lemma_filter_len(heard);
    }
}

/// Every server whose identifier is a number can be chosen, under its name, and no other; they keep
/// their order.
pub proof fn law_every_server_is_listed(raw: Seq<(String, String)>, out: Seq<DynamicGuildOption>)
    requires
        lists_guilds(raw, out),
    ensures
        ({
            let kept = raw.filter(
                |e: (String, String)| parse_decimal(e.0@, u64::MAX as nat) is Some,
            );
            out.len() == kept.len() && forall|j: int|
                0 <= j < out.len() ==> Some((#[trigger] out[j]).guild_id.id() as nat)
                    == parse_decimal(kept[j].0@, u64::MAX as nat) && out[j].name@ == kept[j].1@
        }),
    decreases raw.len(),
{
    reveal(Seq::filter);
    let p = |e: (String, String)| parse_decimal(e.0@, u64::MAX as nat) is Some;
    if raw.len() > 0 {
        let fewer = raw.drop_last();
        if parse_decimal(raw.last().0@, u64::MAX as nat) is Some {
            law_every_server_is_listed(fewer, out.drop_last());
            let kept = raw.filter(p);
            assert(kept == fewer.filter(p).push(raw.last()));
            assert forall|j: int| 0 <= j < out.len() implies Some(
                (#[trigger] out[j]).guild_id.id() as nat,
            ) == parse_decimal(kept[j].0@, u64::MAX as nat) && out[j].name@ == kept[j].1@ by {
                if j < out.len() - 1 {
                    assert(out.drop_last()[j] == out[j]);
                }
            }
        } else {
            law_every_server_is_listed(fewer, out);
        }
    }
}

/// Every voice channel whose identifier is a number can be chosen, under its name, and no other
/// channel; they keep their order.
pub proof fn law_every_voice_channel_is_listed(
    raw: Seq<(String, String, u8)>,
    out: Seq<DynamicChannelOption>,
)
    requires
        lists_channels(raw, out),
    ensures
        ({
            let kept = raw.filter(
                |e: (String, String, u8)|
                    e.2 == 2 && parse_decimal(e.0@, u64::MAX as nat) is Some,
            );
            out.len() == kept.len() && forall|j: int|
                0 <= j < out.len() ==> Some((#[trigger] out[j]).channel_id.id() as nat)
                    == parse_decimal(kept[j].0@, u64::MAX as nat) && out[j].name@ == kept[j].1@
        }),
    decreases raw.len(),
{
    reveal(Seq::filter);
    let p = |e: (String, String, u8)| e.2 == 2 && parse_decimal(e.0@, u64::MAX as nat) is Some;
    if raw.len() > 0 {
        let fewer = raw.drop_last();
        if p(raw.last()) {
            law_every_voice_channel_is_listed(fewer, out.drop_last());
            let kept = raw.filter(p);
            assert(kept == fewer.filter(p).push(raw.last()));
            assert forall|j: int| 0 <= j < out.len() implies Some(
                (#[trigger] out[j]).channel_id.id() as nat,
            ) == parse_decimal(kept[j].0@, u64::MAX as nat) && out[j].name@ == kept[j].1@ by {
                if j < out.len() - 1 {
                    assert(out.drop_last()[j] == out[j]);
                }
            }
        } else {
            law_every_voice_channel_is_listed(fewer, out);
        }
    }
}

} // verus!
