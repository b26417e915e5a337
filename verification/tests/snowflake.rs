use sipcord_bridge::services::snowflake::{Snowflake, DISCORD_EPOCH_MS};

#[test]
fn zero_is_invalid() {
    assert!(!Snowflake::new(0).is_valid());
}

#[test]
fn too_short_is_invalid() {
    assert!(!Snowflake::new(123_456_789).is_valid());
    assert!(!Snowflake::new(1_000_000_000_000_000).is_valid());
}

#[test]
fn real_snowflakes_are_valid() {
    assert!(Snowflake::new(80_351_110_224_678_912).is_valid());
    assert!(Snowflake::new(1_098_765_432_101_234_567).is_valid());
}

#[test]
fn timestamp_decodes() {
    let s = Snowflake::new(80_351_110_224_678_912);
    assert!(s.timestamp_ms() > DISCORD_EPOCH_MS);
    let year_2016 = 1_451_606_400_000u64;
    assert!(s.timestamp_ms() < year_2016);
    assert_eq!(s.timestamp_ms(), 1_439_227_597_529);
}

#[test]
fn deref_to_u64() {
    let s = Snowflake::new(80_351_110_224_678_912);
    let v: u64 = *s;
    assert_eq!(v, 80_351_110_224_678_912);
}

#[test]
fn the_bounds_are_plausible() {
    let min = Snowflake::new(55_445_343_436_800_000);
    assert!(min.is_valid());
    assert_eq!(min.timestamp_ms(), 1_433_289_600_000);
    assert!(!Snowflake::new(55_445_343_436_799_999).is_valid());
    assert!(!Snowflake::new(30_000_000_000_000_000).is_valid());
    let max: u64 = 2_682_288_000_000 << 22;
    assert!(Snowflake::new(max).is_valid());
    assert!(!Snowflake::new(max + 1).is_valid());
}

#[test]
fn conversion_keeps_the_number() {
    for v in [0, 7, u64::MAX] {
        assert_eq!(u64::from(Snowflake::from(v)), v);
    }
}

#[test]
fn decimal_notation_is_read_and_written() {
    let s = Snowflake::parse("80351110224678912").unwrap();
    assert_eq!(s.get(), 80_351_110_224_678_912);
    assert_eq!(s.text(), "80351110224678912");
    assert_eq!(Snowflake::parse("+7").unwrap().get(), 7);
    assert!(Snowflake::parse("").is_none());
    assert!(Snowflake::parse("+").is_none());
    assert!(Snowflake::parse("-1").is_none());
    assert!(Snowflake::parse("12a").is_none());
    assert_eq!(Snowflake::parse("18446744073709551615").unwrap().get(), u64::MAX);
    assert!(Snowflake::parse("18446744073709551616").is_none());
    assert!(Snowflake::parse("99999999999999999999999").is_none());
    assert_eq!(Snowflake::parse("000").unwrap().get(), 0);
}

#[test]
fn conversions() {
    let s: Snowflake = 5u64.into();
    let v: u64 = s.into();
    assert_eq!(v, 5);
    assert_eq!(Snowflake::default().get(), 0);
    assert_eq!(Snowflake::from_signed(-1), None);
    assert_eq!(Snowflake::from_signed(9), Some(Snowflake::new(9)));
    assert_eq!(format!("{:?}", Snowflake::new(9)), "Snowflake(9)");
}
