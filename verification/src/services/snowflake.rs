//! Discord's identifiers: a millisecond timestamp above 22 bits of counters.

use crate::text::{decimal, decimal_text, parse_decimal, parse_u64};
use vstd::prelude::*;
use vstd::std_specs::convert::FromSpec;

verus! {

/// The start of Discord's clock, in milliseconds since 1970.
pub const DISCORD_EPOCH_MS: u64 = 1_420_070_400_000;

/// The smallest plausible identifier, of seventeen digits: that of Discord's launch on the third
/// of June 2015, which is `(1_433_289_600_000 - DISCORD_EPOCH_MS) << 22`.
pub const MIN_SNOWFLAKE: u64 = 55_445_343_436_800_000;

/// The largest plausible identifier, of the year 2100.
pub const MAX_SNOWFLAKE: u64 = 2_682_288_000_000 << 22;

/// A Discord identifier.
#[derive(Debug, Clone, Copy, PartialEq, Eq, Hash, PartialOrd, Ord, Structural)]
pub struct Snowflake(u64);

impl Snowflake {
    /// The number that the identifier is.
    pub closed spec fn id(&self) -> u64 {
        self.0
    }

    /// Wraps a number, without a check.
    pub fn new(value: u64) -> (s: Self)
        ensures
            s.id() == value,
    {
        Snowflake(value)
    }

    /// The number.
    pub fn get(self) -> (v: u64)
        ensures
            v == self.id(),
    {
        self.0
    }

    /// Whether the identifier is plausible: its time lies between Discord's launch and the year
    /// 2100.
    pub fn is_valid(self) -> (r: bool)
        ensures
            r == plausible(self.id()),
    {
        assert(MAX_SNOWFLAKE == 11_250_331_287_552_000_000) by (bit_vector);
        self.0 >= MIN_SNOWFLAKE && self.0 <= MAX_SNOWFLAKE
    }

    /// The time that the identifier carries, in milliseconds since 1970.
    pub fn timestamp_ms(self) -> (t: u64)
        ensures
            t == time_of(self.id()),
    {
        let v: u64 = self.0;
        assert(v >> 22 == v / 0x40_0000) by (bit_vector);
        (v >> 22) + DISCORD_EPOCH_MS
    }

    /// Reads an identifier from decimal notation.
    pub fn parse(s: &str) -> (r: Option<Self>)
        ensures
            r is Some <==> parse_decimal(s@, u64::MAX as nat) is Some,
            r is Some ==> Some((r->0).id() as nat) == parse_decimal(s@, u64::MAX as nat),
    {
        match parse_u64(s) {
            Some(v) => Some(Snowflake(v)),
            None => None,
        }
    }

    /// Reads an identifier from a signed number, which must not be negative.
    pub fn from_signed(v: i64) -> (r: Option<Self>)
        ensures
            r is Some <==> v >= 0,
            r is Some ==> (r->0).id() == v,
    {
        if v < 0 {
            None
        } else {
            Some(Snowflake(v as u64))
        }
    }

    /// The identifier in decimal notation.
    pub fn text(&self) -> (s: String)
        ensures
            s@ == decimal(self.id() as nat),
    {
        decimal_text(self.0)
    }
}

/// The number lies between the smallest and the largest plausible identifier.
pub open spec fn plausible(v: u64) -> bool {
    55_445_343_436_800_000 <= v <= 2_682_288_000_000 * 0x40_0000
}

/// The time of an identifier, in milliseconds since 1970.
pub open spec fn time_of(v: u64) -> int {
    v / 0x40_0000 + 1_420_070_400_000
}

impl core::ops::Deref for Snowflake {
    type Target = u64;

    fn deref(&self) -> (r: &u64)
        ensures
            *r == self.id(),
    {
        &self.0
    }
}

impl Default for Snowflake {
    fn default() -> (r: Self)
        ensures
            r.id() == 0,
    {
        Snowflake(0)
    }
}

impl From<u64> for Snowflake {
    fn from(v: u64) -> Self {
        Snowflake(v)
    }
}

impl vstd::std_specs::convert::FromSpecImpl<u64> for Snowflake {
    open spec fn obeys_from_spec() -> bool {
        true
    }

    closed spec fn from_spec(v: u64) -> Self {
        Snowflake(v)
    }
}

impl From<Snowflake> for u64 {
    fn from(s: Snowflake) -> u64 {
        s.0
    }
}

impl vstd::std_specs::convert::FromSpecImpl<Snowflake> for u64 {
    open spec fn obeys_from_spec() -> bool {
        true
    }

    open spec fn from_spec(s: Snowflake) -> u64 {
        s.id()
    }
}

/// A plausible identifier has at least seventeen digits, and its time lies not before Discord's
/// launch and before the end of the year 2100. No identifier from before the launch is plausible.
pub proof fn law_plausible_identifiers(v: u64)
    ensures
        plausible(v) ==> v >= 10_000_000_000_000_000,
        plausible(v) ==> 1_433_289_600_000 <= time_of(v) < 4_133_980_800_000,
        time_of(v) < 1_433_289_600_000 ==> !plausible(v),
{
}

/// The smallest plausible identifier is the first of the day of Discord's launch.
pub proof fn law_the_smallest_identifier_is_of_the_launch()
    ensures
        MIN_SNOWFLAKE == (1_433_289_600_000 - DISCORD_EPOCH_MS) * 0x40_0000,
        time_of(MIN_SNOWFLAKE) == 1_433_289_600_000,
{
}

/// A number that is turned into an identifier and back is unchanged.
pub proof fn law_conversion_keeps_the_number(v: u64)
    ensures
        <Snowflake as FromSpec<u64>>::obeys_from_spec(),
        <Snowflake as FromSpec<u64>>::from_spec(v).id() == v,
        <u64 as FromSpec<Snowflake>>::obeys_from_spec(),
        <u64 as FromSpec<Snowflake>>::from_spec(<Snowflake as FromSpec<u64>>::from_spec(v)) == v,
{
}

/// Identifiers made later are larger: a larger identifier does not carry an earlier time.
pub proof fn law_time_follows_the_order(a: u64, b: u64)
    requires
        a <= b,
    ensures
        time_of(a) <= time_of(b),
{
}

/// Reading the decimal notation of an identifier gives the identifier back.
pub proof fn law_text_round_trip(v: u64)
    ensures
        parse_decimal(decimal(v as nat), u64::MAX as nat) == Some(v as nat),
{
    crate::text::lemma_parse_undoes_decimal(v as nat, u64::MAX as nat);
}

/// The time of an identifier is the millisecond that it was made in, and an identifier is plausible
/// where that is not before the launch and where every smaller one is from before the last day of
/// 2099.
pub proof fn law_which_identifiers_are_plausible(v: u64)
    ensures
        0 <= v + 1_420_070_400_000 * 0x40_0000 - time_of(v) * 0x40_0000 < 0x40_0000,
        plausible(v) <==> v > 0 && time_of(v) >= 1_433_289_600_000 && time_of((v - 1) as u64)
            < 4_102_358_400_000,
{
}

} // verus!
