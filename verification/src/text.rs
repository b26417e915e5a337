//! Text as sequences of characters: searching, trimming, joining and decimal numbers.

use vstd::prelude::*;
use vstd::string::*;

verus! {

/// `String::push`: the character is appended to the text.
#[verifier::external_body]
pub(crate) fn push_char(s: &mut String, c: char)
    ensures
        final(s)@ == old(s)@.push(c),
{
    s.push(c)
}

/// The character has the Unicode property `White_Space`: it is one of twenty-five.
pub open spec fn white_space(c: char) -> bool {
    let u = c as u32;
    0x9 <= u <= 0xD || u == 0x20 || u == 0x85 || u == 0xA0 || u == 0x1680 || 0x2000 <= u <= 0x200A
        || u == 0x2028 || u == 0x2029 || u == 0x202F || u == 0x205F || u == 0x3000
}

/// Whether a character has the Unicode property `White_Space`.
pub fn is_white(c: char) -> (r: bool)
    ensures
        r == white_space(c),
{
    let u: u32 = c as u32;
    (0x9 <= u && u <= 0xD) || u == 0x20 || u == 0x85 || u == 0xA0 || u == 0x1680 || (0x2000 <= u
        && u <= 0x200A) || u == 0x2028 || u == 0x2029 || u == 0x202F || u == 0x205F || u == 0x3000
}

/// The lower case of a text, by the Unicode tables.
pub uninterp spec fn lower_case(s: Seq<char>) -> Seq<char>;

/// `str::to_lowercase`: the lower case of the text.
#[verifier::external_body]
pub(crate) fn lowercase(s: &str) -> (r: String)
    ensures
        r@ == lower_case(s@),
{
    s.to_lowercase()
}

/// The characters of a text.
pub fn chars_of(s: &str) -> (v: Vec<char>)
    ensures
        v@ == s@,
{
    let mut v: Vec<char> = Vec::new();
    for c in it: s.chars()
        invariant
            v@ == it.seq().take(it.index() as int),
            it.seq() == s@,
    {
        v.push(c);
        proof {
            assert(it.seq().take(it.index() + 1) =~= it.seq().take(it.index() as int).push(c));
        }
    }
    proof {
        assert(s@.take(s@.len() as int) =~= s@);
    }
    v
}

/// The text made of characters.
pub fn text_of(v: &[char]) -> (s: String)
    ensures
        s@ == v@,
{
    let mut s: String = String::new();
    let mut i: usize = 0;
    while i < v.len()
        invariant
            i <= v@.len(),
            s@ == v@.take(i as int),
        decreases v@.len() - i,
    {
        push_char(&mut s, v[i]);
        i = i + 1;
        proof {
            assert(v@.take(i as int) =~= v@.take(i - 1).push(v@[i - 1]));
        }
    }
    proof {
        assert(v@.take(v@.len() as int) =~= v@);
    }
    s
}

/// The text made of the characters from `from` up to `to`.
pub fn slice_text(v: &[char], from: usize, to: usize) -> (s: String)
    requires
        from <= to <= v@.len(),
    ensures
        s@ == v@.subrange(from as int, to as int),
{
    let mut s: String = String::new();
    let mut i: usize = from;
    proof {
        assert(s@ =~= v@.subrange(from as int, from as int));
    }
    while i < to
        invariant
            from <= i <= to <= v@.len(),
            s@ == v@.subrange(from as int, i as int),
        decreases to - i,
    {
        push_char(&mut s, v[i]);
        i = i + 1;
        proof {
            assert(v@.subrange(from as int, i as int) =~= v@.subrange(from as int, i - 1).push(
                v@[i - 1],
            ));
        }
    }
    s
}

/// The decimal digit `d`.
pub open spec fn digit_char(d: nat) -> char {
    if d == 0 {
        '0'
    } else if d == 1 {
        '1'
    } else if d == 2 {
        '2'
    } else if d == 3 {
        '3'
    } else if d == 4 {
        '4'
    } else if d == 5 {
        '5'
    } else if d == 6 {
        '6'
    } else if d == 7 {
        '7'
    } else if d == 8 {
        '8'
    } else {
        '9'
    }
}

/// A number in decimal notation, without leading zeros.
pub open spec fn decimal(n: nat) -> Seq<char>
    decreases n,
{
    if n < 10 {
        seq![digit_char(n)]
    } else {
        decimal(n / 10).push(digit_char(n % 10))
    }
}

/// A signed number in decimal notation.
pub open spec fn signed_decimal(n: int) -> Seq<char> {
    if n < 0 {
        seq!['-'] + decimal((-n) as nat)
    } else {
        decimal(n as nat)
    }
}

fn digit(d: u64) -> (c: char)
    requires
        d < 10,
    ensures
        c == digit_char(d as nat),
{
    match d {
        0 => '0',
        1 => '1',
        2 => '2',
        3 => '3',
        4 => '4',
        5 => '5',
        6 => '6',
        7 => '7',
        8 => '8',
        _ => '9',
    }
}

/// A number in decimal notation.
pub fn decimal_text(n: u64) -> (s: String)
    ensures
        s@ == decimal(n as nat),
    decreases n,
{
    if n < 10 {
        let mut s: String = String::new();
        push_char(&mut s, digit(n));
        proof {
            assert(s@ =~= decimal(n as nat));
        }
        s
    } else {
        let mut s: String = decimal_text(n / 10);
        push_char(&mut s, digit(n % 10));
        s
    }
}

/// A signed number in decimal notation.
pub fn signed_decimal_text(n: i32) -> (s: String)
    ensures
        s@ == signed_decimal(n as int),
{
    if n < 0 {
        let mut s: String = String::new();
        push_char(&mut s, '-');
        let magnitude: i64 = -(n as i64);
        s.append(decimal_text(magnitude as u64).as_str());
        proof {
            assert(s@ =~= signed_decimal(n as int));
        }
        s
    } else {
        decimal_text(n as u64)
    }
}

/// Two texts, one behind the other.
pub fn join2(a: &str, b: &str) -> (s: String)
    ensures
        s@ == a@ + b@,
{
    let mut s: String = String::from_str(a);
    s.append(b);
    s
}

/// Three texts, one behind the other.
pub fn join3(a: &str, b: &str, c: &str) -> (s: String)
    ensures
        s@ == a@ + b@ + c@,
{
    let mut s: String = join2(a, b);
    s.append(c);
    s
}

/// Two texts have the same characters.
pub fn same_text(a: &str, b: &str) -> (r: bool)
    ensures
        r == (a@ == b@),
{
    let x: Vec<char> = chars_of(a);
    let y: Vec<char> = chars_of(b);
    same_chars(x.as_slice(), y.as_slice())
}

/// Two lists hold the same characters.
pub fn same_chars(x: &[char], y: &[char]) -> (r: bool)
    ensures
        r == (x@ == y@),
{
    if x.len() != y.len() {
        return false;
    }
    let mut i: usize = 0;
    while i < x.len()
        invariant
            i <= x@.len(),
            x@.len() == y@.len(),
            forall|j: int| 0 <= j < i ==> x@[j] == y@[j],
        decreases x@.len() - i,
    {
        if x[i] != y[i] {
            return false;
        }
        i = i + 1;
    }
    proof {
        assert(x@ =~= y@);
    }
    true
}

/// `needle` stands in `hay` at index `k`.
pub open spec fn occurs_at(hay: Seq<char>, needle: Seq<char>, k: int) -> bool {
    0 <= k && k + needle.len() <= hay.len() && hay.subrange(k, k + needle.len()) == needle
}

/// `needle` stands somewhere in `hay`.
pub open spec fn contains_text(hay: Seq<char>, needle: Seq<char>) -> bool {
    exists|k: int| occurs_at(hay, needle, k)
}

/// `k` is the first index at which `needle` stands in `hay`.
pub open spec fn first_occurrence(hay: Seq<char>, needle: Seq<char>, k: int) -> bool {
    occurs_at(hay, needle, k) && forall|j: int| 0 <= j < k ==> !occurs_at(hay, needle, j)
}

/// `k` is the first index of the character `c`.
pub open spec fn first_index(s: Seq<char>, c: char, k: int) -> bool {
    0 <= k < s.len() && s[k] == c && forall|j: int| 0 <= j < k ==> s[j] != c
}

/// `k` is the last index of the character `c`.
pub open spec fn last_index(s: Seq<char>, c: char, k: int) -> bool {
    0 <= k < s.len() && s[k] == c && forall|j: int| k < j < s.len() ==> s[j] != c
}

/// Whether `needle` stands in `hay` at index `k`.
pub fn occurs(hay: &[char], needle: &[char], k: usize) -> (r: bool)
    ensures
        r == occurs_at(hay@, needle@, k as int),
{
    if needle.len() > hay.len() || k > hay.len() - needle.len() {
        return false;
    }
    let mut i: usize = 0;
    while i < needle.len()
        invariant
            i <= needle@.len(),
            k + needle@.len() <= hay.len(),
            forall|j: int| 0 <= j < i ==> hay@[k + j] == needle@[j],
        decreases needle@.len() - i,
    {
        if hay[k + i] != needle[i] {
            proof {
                assert(hay@.subrange(k as int, k + needle@.len())[i as int] != needle@[i as int]);
            }
            return false;
        }
        i = i + 1;
    }
    proof {
        assert(hay@.subrange(k as int, k + needle@.len()) =~= needle@);
    }
    true
}

/// The first index at which `needle` stands in `hay`.
pub fn find_text(hay: &[char], needle: &[char]) -> (r: Option<usize>)
    ensures
        match r {
            Some(k) => first_occurrence(hay@, needle@, k as int),
            None => !contains_text(hay@, needle@),
        },
{
    if needle.len() > hay.len() {
        return None;
    }
    let last: usize = hay.len() - needle.len();
    let mut k: usize = 0;
    loop
        invariant
            last + needle@.len() == hay@.len(),
            k <= last,
            forall|j: int| 0 <= j < k ==> !occurs_at(hay@, needle@, j),
        decreases last - k,
    {
        if occurs(hay, needle, k) {
            return Some(k);
        }
        if k == last {
            return None;
        }
        k = k + 1;
    }
}

/// Whether `needle` stands somewhere in `hay`.
pub fn contains(hay: &str, needle: &str) -> (r: bool)
    ensures
        r == contains_text(hay@, needle@),
{
    let h: Vec<char> = chars_of(hay);
    let n: Vec<char> = chars_of(needle);
    match find_text(h.as_slice(), n.as_slice()) {
        Some(_) => true,
        None => false,
    }
}

/// The first index of a character.
pub fn find_char(v: &[char], c: char) -> (r: Option<usize>)
    ensures
        match r {
            Some(k) => first_index(v@, c, k as int),
            None => !v@.contains(c),
        },
{
    let mut i: usize = 0;
    while i < v.len()
        invariant
            i <= v@.len(),
            forall|j: int| 0 <= j < i ==> v@[j] != c,
        decreases v@.len() - i,
    {
        if v[i] == c {
            return Some(i);
        }
        i = i + 1;
    }
    None
}

/// The last index of a character.
pub fn rfind_char(v: &[char], c: char) -> (r: Option<usize>)
    ensures
        match r {
            Some(k) => last_index(v@, c, k as int),
            None => !v@.contains(c),
        },
{
    let mut i: usize = v.len();
    while i > 0
        invariant
            i <= v@.len(),
            forall|j: int| i <= j < v@.len() ==> v@[j] != c,
        decreases i,
    {
        i = i - 1;
        if v[i] == c {
            return Some(i);
        }
    }
    None
}

/// The text without white space at its start.
pub open spec fn trim_start(s: Seq<char>) -> Seq<char>
    decreases s.len(),
{
    if s.len() > 0 && white_space(s[0]) {
        trim_start(s.subrange(1, s.len() as int))
    } else {
        s
    }
}

/// The text without white space at its end.
pub open spec fn trim_end(s: Seq<char>) -> Seq<char>
    decreases s.len(),
{
    if s.len() > 0 && white_space(s.last()) {
        trim_end(s.drop_last())
    } else {
        s
    }
}

/// The text without white space at either end.
pub open spec fn trim(s: Seq<char>) -> Seq<char> {
    trim_end(trim_start(s))
}

/// The text without the character `c` at its start.
pub open spec fn strip_start(s: Seq<char>, c: char) -> Seq<char>
    decreases s.len(),
{
    if s.len() > 0 && s[0] == c {
        strip_start(s.subrange(1, s.len() as int), c)
    } else {
        s
    }
}

/// The text without the character `c` at its end.
pub open spec fn strip_end(s: Seq<char>, c: char) -> Seq<char>
    decreases s.len(),
{
    if s.len() > 0 && s.last() == c {
        strip_end(s.drop_last(), c)
    } else {
        s
    }
}

/// Removes white space at both ends.
pub fn trimmed(v: &[char]) -> (r: Vec<char>)
    ensures
        r@ == trim(v@),
{
    let start: usize = trimmed_start(v);
    let mut end: usize = v.len();
    let ghost inner = v@.subrange(start as int, v@.len() as int);
    proof {
        assert(v@.subrange(start as int, end as int) =~= inner);
    }
    while start < end && is_white(v[end - 1])
        invariant
            start <= end <= v@.len(),
            trim_end(inner) == trim_end(v@.subrange(start as int, end as int)),
        decreases end,
    {
        proof {
            assert(v@.subrange(start as int, end as int).drop_last() =~= v@.subrange(
                start as int,
                end - 1,
            ));
        }
        end = end - 1;
    }
    copy_range(v, start, end)
}

/// The number of white-space characters at the start.
fn trimmed_start(v: &[char]) -> (start: usize)
    ensures
        start <= v@.len(),
        trim_start(v@) == v@.subrange(start as int, v@.len() as int),
{
    let mut start: usize = 0;
    proof {
        assert(v@.subrange(0, v@.len() as int) =~= v@);
    }
    while start < v.len() && is_white(v[start])
        invariant
            start <= v@.len(),
            trim_start(v@) == trim_start(v@.subrange(start as int, v@.len() as int)),
        decreases v@.len() - start,
    {
        proof {
            let now = v@.subrange(start as int, v@.len() as int);
            assert(now.subrange(1, now.len() as int) =~= v@.subrange(
                start + 1,
                v@.len() as int,
            ));
        }
        start = start + 1;
    }
    start
}

/// The characters from `from` up to `to`.
pub fn copy_range(v: &[char], from: usize, to: usize) -> (r: Vec<char>)
    requires
        from <= to <= v@.len(),
    ensures
        r@ == v@.subrange(from as int, to as int),
{
    let mut r: Vec<char> = Vec::new();
    let mut i: usize = from;
    while i < to
        invariant
            from <= i <= to <= v@.len(),
            r@ =~= v@.subrange(from as int, i as int),
        decreases to - i,
    {
        r.push(v[i]);
        i = i + 1;
    }
    r
}

/// Removes the character `c` at the start.
pub fn stripped_start(v: &[char], c: char) -> (r: Vec<char>)
    ensures
        r@ == strip_start(v@, c),
{
    let mut start: usize = 0;
    proof {
        assert(v@.subrange(0, v@.len() as int) =~= v@);
    }
    while start < v.len() && v[start] == c
        invariant
            start <= v@.len(),
            strip_start(v@, c) == strip_start(v@.subrange(start as int, v@.len() as int), c),
        decreases v@.len() - start,
    {
        proof {
            let now = v@.subrange(start as int, v@.len() as int);
            assert(now.subrange(1, now.len() as int) =~= v@.subrange(
                start + 1,
                v@.len() as int,
            ));
        }
        start = start + 1;
    }
    copy_range(v, start, v.len())
}

/// Removes the character `c` at the end.
pub fn stripped_end(v: &[char], c: char) -> (r: Vec<char>)
    ensures
        r@ == strip_end(v@, c),
{
    let mut end: usize = v.len();
    proof {
        assert(v@.subrange(0, v@.len() as int) =~= v@);
    }
    while end > 0 && v[end - 1] == c
        invariant
            end <= v@.len(),
            strip_end(v@, c) == strip_end(v@.subrange(0, end as int), c),
        decreases end,
    {
        proof {
            assert(v@.subrange(0, end as int).drop_last() =~= v@.subrange(0, end - 1));
        }
        end = end - 1;
    }
    copy_range(v, 0, end)
}

/// The value of a decimal digit.
pub open spec fn digit_value(c: char) -> Option<nat> {
    if '0' <= c && c <= '9' {
        Some((c as u32 - 48) as nat)
    } else {
        None
    }
}

/// Every character is a decimal digit.
pub open spec fn all_digits(s: Seq<char>) -> bool {
    forall|i: int| 0 <= i < s.len() ==> digit_value(#[trigger] s[i]) is Some
}

/// The number that decimal digits spell.
pub open spec fn digits_value(s: Seq<char>) -> nat
    decreases s.len(),
{
    if s.len() == 0 {
        0
    } else {
        10 * digits_value(s.drop_last()) + digit_value(s.last())->0
    }
}

/// The digits of a number that may have a plus sign in front.
pub open spec fn unsigned_digits(s: Seq<char>) -> Seq<char> {
    if s.len() > 1 && s[0] == '+' {
        s.subrange(1, s.len() as int)
    } else {
        s
    }
}

/// The number in decimal notation: one digit or more, perhaps behind a plus sign, up to `max`.
pub open spec fn parse_decimal(s: Seq<char>, max: nat) -> Option<nat> {
    let d = unsigned_digits(s);
    if d.len() > 0 && all_digits(d) && digits_value(d) <= max {
        Some(digits_value(d))
    } else {
        None
    }
}

proof fn lemma_digits_value_monotone(s: Seq<char>, i: int)
    requires
        0 <= i <= s.len(),
        all_digits(s),
    ensures
        digits_value(s.take(i)) <= digits_value(s),
    decreases s.len(),
{
    if i == s.len() {
        assert(s.take(i) =~= s);
    } else {
        assert(s.drop_last().take(i) =~= s.take(i));
        assert forall|k: int| 0 <= k < s.drop_last().len() implies digit_value(
            #[trigger] s.drop_last()[k],
        ) is Some by {
            assert(s.drop_last()[k] == s[k]);
        }
        lemma_digits_value_monotone(s.drop_last(), i);
    }
}

/// Reads a number in decimal notation, up to `max`.
fn parse_up_to(s: &str, max: u64) -> (r: Option<u64>)
    ensures
        r is Some <==> parse_decimal(s@, max as nat) is Some,
        r is Some ==> Some((r->0) as nat) == parse_decimal(s@, max as nat),
{
    let v: Vec<char> = chars_of(s);
    let start: usize = if v.len() > 1 && v[0] == '+' {
        1
    } else {
        0
    };
    let ghost d = unsigned_digits(s@);
    proof {
        assert(d =~= v@.subrange(start as int, v@.len() as int));
    }
    if v.len() == start {
        return None;
    }
    let mut value: u64 = 0;
    let mut i: usize = start;
    while i < v.len()
        invariant
            start <= i <= v@.len(),
            start < v@.len(),
            v@ == s@,
            d == v@.subrange(start as int, v@.len() as int),
            d == unsigned_digits(s@),
            all_digits(d.take(i - start)),
            value == digits_value(d.take(i - start)),
            value <= max,
        decreases v@.len() - i,
    {
        let c: char = v[i];
        let ghost k = i - start;
        proof {
            assert(d[k] == c);
            assert(d.take(k + 1).drop_last() =~= d.take(k));
            assert(d.take(k + 1).last() == c);
        }
        if c < '0' || c > '9' {
            return None;
        }
        let digit: u64 = (c as u32 - 48) as u64;
        let ghost next = 10 * value + digit;
        proof {
            assert(digits_value(d.take(k + 1)) == next);
            if all_digits(d) {
                lemma_digits_value_monotone(d, k + 1);
            }
        }
        if value > (u64::MAX - digit) / 10 {
            proof {
                assert(next > u64::MAX);
            }
            return None;
        }
        value = value * 10 + digit;
        if value > max {
            return None;
        }
        i = i + 1;
        proof {
            assert forall|j: int| 0 <= j < k + 1 implies digit_value(#[trigger] d.take(k + 1)[j]) is Some by {
                if j < k {
                    assert(d.take(k)[j] == d.take(k + 1)[j]);
                }
            }
        }
    }
    proof {
        assert(d.take(d.len() as int) =~= d);
    }
    Some(value)
}

/// Reads a number of sixty-four bits in decimal notation.
pub fn parse_u64(s: &str) -> (r: Option<u64>)
    ensures
        r is Some <==> parse_decimal(s@, u64::MAX as nat) is Some,
        r is Some ==> Some((r->0) as nat) == parse_decimal(s@, u64::MAX as nat),
{
    parse_up_to(s, u64::MAX)
}

/// Reads a number of thirty-two bits in decimal notation.
pub fn parse_u32(s: &str) -> (r: Option<u32>)
    ensures
        r is Some <==> parse_decimal(s@, u32::MAX as nat) is Some,
        r is Some ==> Some((r->0) as nat) == parse_decimal(s@, u32::MAX as nat),
{
    match parse_up_to(s, u32::MAX as u64) {
        Some(v) => Some(v as u32),
        None => None,
    }
}

/// Reads a number of eight bits in decimal notation.
pub fn parse_u8(s: &str) -> (r: Option<u8>)
    ensures
        r is Some <==> parse_decimal(s@, u8::MAX as nat) is Some,
        r is Some ==> Some((r->0) as nat) == parse_decimal(s@, u8::MAX as nat),
{
    match parse_up_to(s, u8::MAX as u64) {
        Some(v) => Some(v as u8),
        None => None,
    }
}

proof fn lemma_decimal_digits(n: nat)
    ensures
        decimal(n).len() > 0,
        all_digits(decimal(n)),
        digits_value(decimal(n)) == n,
        decimal(n)[0] != '+',
    decreases n,
{
    if n < 10 {
        assert(decimal(n) =~= seq![digit_char(n)]);
        assert(decimal(n).drop_last() =~= Seq::<char>::empty());
        assert(digits_value(Seq::<char>::empty()) == 0);
    } else {
        lemma_decimal_digits(n / 10);
        let d = decimal(n);
        assert(d.drop_last() =~= decimal(n / 10));
        assert forall|i: int| 0 <= i < d.len() implies digit_value(#[trigger] d[i]) is Some by {
            if i < d.len() - 1 {
                assert(d[i] == decimal(n / 10)[i]);
            }
        }
    }
}

/// Reading the decimal notation of a number gives the number back.
pub proof fn lemma_parse_undoes_decimal(n: nat, max: nat)
    requires
        n <= max,
    ensures
        parse_decimal(decimal(n), max) == Some(n),
{
    lemma_decimal_digits(n);
}

/// The text starts with `prefix`.
pub open spec fn starts_with(s: Seq<char>, prefix: Seq<char>) -> bool {
    occurs_at(s, prefix, 0)
}

/// The text behind `prefix`, if it starts with it.
pub open spec fn behind_prefix(s: Seq<char>, prefix: Seq<char>) -> Option<Seq<char>> {
    if starts_with(s, prefix) {
        Some(s.subrange(prefix.len() as int, s.len() as int))
    } else {
        None
    }
}

/// The text in front of the first `c`, or all of it.
pub open spec fn before_char(s: Seq<char>, c: char) -> Seq<char>
    decreases s.len(),
{
    if s.len() == 0 || s[0] == c {
        Seq::empty()
    } else {
        seq![s[0]] + before_char(s.subrange(1, s.len() as int), c)
    }
}

proof fn lemma_before_char(s: Seq<char>, c: char, k: int)
    requires
        0 <= k <= s.len(),
        forall|j: int| 0 <= j < k ==> s[j] != c,
        k < s.len() ==> s[k] == c,
    ensures
        before_char(s, c) == s.subrange(0, k),
    decreases k,
{
    if k == 0 {
        assert(s.subrange(0, 0) =~= Seq::<char>::empty());
    } else {
        let t = s.subrange(1, s.len() as int);
        lemma_before_char(t, c, k - 1);
        assert(s.subrange(0, k) =~= seq![s[0]] + t.subrange(0, k - 1));
    }
}

/// The text in front of the first `c`, or all of it.
pub fn up_to_char(v: &[char], c: char) -> (r: Vec<char>)
    ensures
        r@ == before_char(v@, c),
{
    let end: usize = match find_char(v, c) {
        Some(k) => k,
        None => v.len(),
    };
    proof {
        if end == v@.len() {
            assert forall|j: int| 0 <= j < end implies v@[j] != c by {
                assert(v@.contains(v@[j]));
            }
        }
        lemma_before_char(v@, c, end as int);
    }
    copy_range(v, 0, end)
}

/// The text behind a prefix, if it starts with it.
pub fn strip_prefix(v: &[char], prefix: &str) -> (r: Option<Vec<char>>)
    ensures
        r is Some <==> behind_prefix(v@, prefix@) is Some,
        r is Some ==> Some((r->0)@) == behind_prefix(v@, prefix@),
{
    let p: Vec<char> = chars_of(prefix);
    if occurs(v, p.as_slice(), 0) {
        Some(copy_range(v, p.len(), v.len()))
    } else {
        None
    }
}

/// The first index from `i` on at which `needle` stands in `hay`.
pub open spec fn index_from(hay: Seq<char>, needle: Seq<char>, i: int) -> Option<int>
    decreases hay.len() - i + 1,
{
    if i < 0 || i + needle.len() > hay.len() {
        None
    } else if occurs_at(hay, needle, i) {
        Some(i)
    } else {
        index_from(hay, needle, i + 1)
    }
}

/// The first index at which `needle` stands in `hay`.
pub open spec fn index_of(hay: Seq<char>, needle: Seq<char>) -> Option<int> {
    index_from(hay, needle, 0)
}

proof fn lemma_index_from(hay: Seq<char>, needle: Seq<char>, i: int, k: int)
    requires
        0 <= i <= k,
        forall|j: int| i <= j < k ==> !occurs_at(hay, needle, j),
        k + needle.len() <= hay.len() ==> occurs_at(hay, needle, k),
    ensures
        index_from(hay, needle, i) == (if k + needle.len() <= hay.len() {
            Some(k)
        } else {
            None
        }),
    decreases k - i,
{
    if i < k && i + needle.len() <= hay.len() {
        lemma_index_from(hay, needle, i + 1, k);
    }
}

/// The text behind the first `needle`, if it stands in the text.
pub open spec fn behind_first(hay: Seq<char>, needle: Seq<char>) -> Option<Seq<char>> {
    match index_of(hay, needle) {
        Some(k) => Some(hay.subrange(k + needle.len(), hay.len() as int)),
        None => None,
    }
}

/// The text behind the first `needle`, if it stands in the text.
pub fn after_first(hay: &[char], needle: &str) -> (r: Option<Vec<char>>)
    ensures
        r is Some <==> behind_first(hay@, needle@) is Some,
        r is Some ==> Some((r->0)@) == behind_first(hay@, needle@),
{
    let n: Vec<char> = chars_of(needle);
    match find_text(hay, n.as_slice()) {
        Some(k) => {
            proof {
                lemma_index_from(hay@, needle@, 0, k as int);
            }
            assert(k + n.len() <= hay.len());
            Some(copy_range(hay, k + n.len(), hay.len()))
        },
        None => {
            proof {
                lemma_index_from(hay@, needle@, 0, hay@.len() as int + 1);
            }
            None
        },
    }
}

/// Decimal notation has only digits, no needless zero in front, and one digit more for every ten
/// times: the digits of a number are those of its tenth, and its last.
pub proof fn law_decimal_notation(n: nat)
    ensures
        n < 10 ==> decimal(n).len() == 1 && decimal(n)[0] as int == 48 + n,
        n >= 10 ==> decimal(n) == decimal(n / 10).push(decimal(n % 10)[0]),
        n > 0 ==> decimal(n)[0] != '0',
        parse_decimal(decimal(n), n) == Some(n),
    decreases n,
{
    lemma_decimal_digits(n);
    if n >= 10 {
        law_decimal_notation(n / 10);
    }
}

/// What is read as a number: one decimal digit or more, perhaps behind one plus sign, and not above
/// the largest that is allowed. Each digit counts ten times what stands behind it.
pub proof fn law_which_texts_are_numbers(s: Seq<char>, c: char, max: nat)
    ensures
        parse_decimal(Seq::empty(), max) is None,
        parse_decimal(s, max) is Some ==> s.len() > 0 && parse_decimal(s, max)->0 <= max,
        parse_decimal(s, max) is Some && 48 <= c as int <= 57 ==> {
            let v = 10 * (parse_decimal(s, max)->0) + (c as int - 48);
            parse_decimal(s.push(c), max) == (if v <= max {
                Some(v as nat)
            } else {
                None
            })
        },
        !(48 <= c as int <= 57) ==> parse_decimal(s.push(c), max) is None,
        48 <= c as int <= 57 ==> parse_decimal(seq![c], max) == (if c as int - 48 <= max {
            Some((c as int - 48) as nat)
        } else {
            None
        }),
        s.len() > 0 && s[0] != '+' ==> parse_decimal(seq!['+'] + s, max) == parse_decimal(s, max),
{
    let d = unsigned_digits(s);
    let e = unsigned_digits(s.push(c));
    if parse_decimal(s, max) is Some && 48 <= c as int <= 57 {
        assert(digit_value(d[0]) is Some);
        assert(e =~= d.push(c));
        assert(e.drop_last() =~= d);
        assert forall|i: int| 0 <= i < e.len() implies digit_value(#[trigger] e[i]) is Some by {
            if i < d.len() {
                assert(e[i] == d[i]);
            }
        }
    }
    if !(48 <= c as int <= 57) {
        assert(e.last() == c);
        assert(digit_value(e[e.len() - 1]) is None);
    }
    let one = seq![c];
    assert(one.drop_last() =~= Seq::<char>::empty());
    reveal_with_fuel(digits_value, 2);
    if s.len() > 0 && s[0] != '+' {
        assert(unsigned_digits(seq!['+'] + s) =~= s);
    }
}

/// Trimming takes white space off both ends and nothing else: what is left is a part of the text,
/// neither starts nor ends with white space, and nothing but white space stood in front of it and
/// behind it.
pub proof fn law_trimming_takes_white_space_off(s: Seq<char>)
    ensures
        exists|a: int, b: int|
            #![trigger s.subrange(a, b)]
            0 <= a <= b <= s.len() && trim(s) == s.subrange(a, b) && (forall|i: int|
                0 <= i < a ==> white_space(#[trigger] s[i])) && (forall|i: int|
                b <= i < s.len() ==> white_space(#[trigger] s[i])),
        trim(s).len() > 0 ==> !white_space(trim(s)[0]) && !white_space(trim(s).last()),
{
    let a = lemma_trim_start_at(s);
    let t = trim_start(s);
    let n = lemma_trim_end_at(t);
    assert(trim(s) =~= s.subrange(a, a + n));
    assert forall|i: int| a + n <= i < s.len() implies white_space(#[trigger] s[i]) by {
        assert(t[i - a] == s[i]);
    }
    if n > 0 {
        assert(trim(s)[0] == t[0]);
    }
}

proof fn lemma_trim_start_at(s: Seq<char>) -> (a: int)
    ensures
        0 <= a <= s.len(),
        trim_start(s) == s.subrange(a, s.len() as int),
        forall|i: int| 0 <= i < a ==> white_space(#[trigger] s[i]),
        trim_start(s).len() > 0 ==> !white_space(trim_start(s)[0]),
    decreases s.len(),
{
    if s.len() > 0 && white_space(s[0]) {
        let t = s.subrange(1, s.len() as int);
        let a = lemma_trim_start_at(t);
        assert(trim_start(s) =~= s.subrange(a + 1, s.len() as int));
        assert forall|i: int| 0 <= i < a + 1 implies white_space(#[trigger] s[i]) by {
            if i > 0 {
                assert(t[i - 1] == s[i]);
            }
        }
        a + 1
    } else {
        assert(s.subrange(0, s.len() as int) =~= s);
        0
    }
}

proof fn lemma_trim_end_at(s: Seq<char>) -> (n: int)
    ensures
        0 <= n <= s.len(),
        trim_end(s) == s.take(n),
        forall|i: int| n <= i < s.len() ==> white_space(#[trigger] s[i]),
        n > 0 ==> !white_space(s[n - 1]),
    decreases s.len(),
{
    if s.len() > 0 && white_space(s.last()) {
        let t = s.drop_last();
        let n = lemma_trim_end_at(t);
        assert(trim_end(s) =~= s.take(n));
        assert forall|i: int| n <= i < s.len() implies white_space(#[trigger] s[i]) by {
            if i < t.len() {
                assert(t[i] == s[i]);
            }
        }
        if n > 0 {
            assert(t[n - 1] == s[n - 1]);
        }
        n
    } else {
        assert(s.take(s.len() as int) =~= s);
        s.len() as int
    }
}

/// The text in front of a character ends at the first one, or is all of the text where there is
/// none.
pub proof fn law_text_ends_in_front_of_a_character(a: Seq<char>, c: char, b: Seq<char>)
    requires
        !a.contains(c),
    ensures
        before_char(a, c) == a,
        before_char(a + seq![c] + b, c) == a,
{
    assert forall|j: int| 0 <= j < a.len() implies a[j] != c by {
        assert(a.contains(a[j]));
    }
    lemma_before_char(a, c, a.len() as int);
    assert(a.subrange(0, a.len() as int) =~= a);
    let s = a + seq![c] + b;
    lemma_before_char(s, c, a.len() as int);
    assert(s.subrange(0, a.len() as int) =~= a);
}

/// The text behind a mark is what follows its first place.
pub proof fn law_text_follows_the_first_mark(hay: Seq<char>, needle: Seq<char>, k: int)
    requires
        0 <= k <= hay.len() - needle.len(),
        hay.subrange(k, k + needle.len()) == needle,
        forall|j: int|
            0 <= j < k ==> #[trigger] hay.subrange(j, j + needle.len()) != needle,
    ensures
        behind_first(hay, needle) == Some(hay.subrange(k + needle.len(), hay.len() as int)),
{
    assert forall|j: int| 0 <= j < k implies !#[trigger] occurs_at(hay, needle, j) by {
        assert(hay.subrange(j, j + needle.len()) != needle);
    }
    assert(occurs_at(hay, needle, k));
    lemma_index_from(hay, needle, 0, k);
}

/// Stripping takes a character off an end, however often it stands there, and nothing else: the rest
/// does not start, or end, with it.
pub proof fn law_stripping_takes_one_character_off(s: Seq<char>, c: char)
    ensures
        ({
            let r = strip_start(s, c);
            &&& r.len() <= s.len() && r == s.subrange(s.len() - r.len(), s.len() as int)
            &&& forall|i: int| 0 <= i < s.len() - r.len() ==> #[trigger] s[i] == c
            &&& r.len() > 0 ==> r[0] != c
        }),
        ({
            let r = strip_end(s, c);
            &&& r.len() <= s.len() && r == s.subrange(0, r.len() as int)
            &&& forall|i: int| r.len() <= i < s.len() ==> #[trigger] s[i] == c
            &&& r.len() > 0 ==> r.last() != c
        }),
{
    lemma_stripped_start(s, c);
    lemma_stripped_end(s, c);
}

proof fn lemma_stripped_start(s: Seq<char>, c: char)
    ensures
        ({
            let r = strip_start(s, c);
            &&& r.len() <= s.len() && r == s.subrange(s.len() - r.len(), s.len() as int)
            &&& forall|i: int| 0 <= i < s.len() - r.len() ==> #[trigger] s[i] == c
            &&& r.len() > 0 ==> r[0] != c
        }),
    decreases s.len(),
{
    let r = strip_start(s, c);
    if s.len() > 0 && s[0] == c {
        let t = s.subrange(1, s.len() as int);
        lemma_stripped_start(t, c);
        assert(t.subrange(t.len() - r.len(), t.len() as int) =~= s.subrange(
            s.len() - r.len(),
            s.len() as int,
        ));
        assert forall|i: int| 0 <= i < s.len() - r.len() implies #[trigger] s[i] == c by {
            if i > 0 {
                assert(t[i - 1] == c);
            }
        }
    } else {
        assert(s.subrange(0, s.len() as int) =~= s);
    }
}

proof fn lemma_stripped_end(s: Seq<char>, c: char)
    ensures
        ({
            let r = strip_end(s, c);
            &&& r.len() <= s.len() && r == s.subrange(0, r.len() as int)
            &&& forall|i: int| r.len() <= i < s.len() ==> #[trigger] s[i] == c
            &&& r.len() > 0 ==> r.last() != c
        }),
    decreases s.len(),
{
    let r = strip_end(s, c);
    if s.len() > 0 && s.last() == c {
        let t = s.drop_last();
        lemma_stripped_end(t, c);
        assert(t.subrange(0, r.len() as int) =~= s.subrange(0, r.len() as int));
        assert forall|i: int| r.len() <= i < s.len() implies #[trigger] s[i] == c by {
            if i < s.len() - 1 {
                assert(t[i] == c);
            }
        }
    } else {
        assert(s.subrange(0, s.len() as int) =~= s);
    }
}

/// Which characters are white space: twenty-five of them, by their numbers.
pub proof fn law_which_characters_are_white_space(c: char)
    ensures
        white_space(c) <==> seq![
            9int, 10, 11, 12, 13, 32, 133, 160, 5760, 8192, 8193, 8194, 8195, 8196, 8197, 8198,
            8199, 8200, 8201, 8202, 8232, 8233, 8239, 8287, 12288,
        ].contains(c as int),
{
    let all = seq![
        9int, 10, 11, 12, 13, 32, 133, 160, 5760, 8192, 8193, 8194, 8195, 8196, 8197, 8198, 8199,
        8200, 8201, 8202, 8232, 8233, 8239, 8287, 12288,
    ];
    let u = c as int;
    if white_space(c) {
        if 9 <= u <= 13 {
            assert(all[u - 9] == u);
        } else if 8192 <= u <= 8202 {
            assert(all[u - 8183] == u);
        } else {
            assert(all[5] == 32 && all[6] == 133 && all[7] == 160 && all[8] == 5760 && all[20]
                == 8232 && all[21] == 8233 && all[22] == 8239 && all[23] == 8287 && all[24]
                == 12288);
        }
    }
}

/// A negative number is its amount with a minus in front, and any other is written without a sign.
pub proof fn law_signs_of_numbers(n: nat)
    requires
        n > 0,
    ensures
        signed_decimal(n as int) == decimal(n),
        signed_decimal(-(n as int)) == seq!['-'] + decimal(n),
        signed_decimal(0) == decimal(0),
{
}

} // verus!
