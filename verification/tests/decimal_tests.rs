use clformat::decimal::Decimal;

fn collect(mut d: Decimal) -> String {
    let mut s = String::new();
    while let Some(c) = d.next() {
        s.push(c);
    }
    s
}

#[test]
fn prints_commas() {
    let decimal = Decimal::new(0, ' ', ',', 3, true, false, 420);
    assert_eq!("420".to_string(), collect(decimal));

    let decimal = Decimal::new(0, ' ', ',', 3, true, false, 4200);
    assert_eq!("4,200".to_string(), collect(decimal));

    let decimal = Decimal::new(0, ' ', ',', 3, true, false, 42000);
    assert_eq!("42,000".to_string(), collect(decimal));

    let decimal = Decimal::new(0, ' ', ',', 3, true, false, 4_200_000);
    assert_eq!("4,200,000".to_string(), collect(decimal));

    let decimal = Decimal::new(0, ' ', ',', 3, true, false, -4_200_000);
    assert_eq!("-4,200,000".to_string(), collect(decimal));
}

#[test]
fn prints_alternative_separators() {
    let decimal = Decimal::new(0, ' ', '_', 3, true, false, 4200);
    assert_eq!("4_200".to_string(), collect(decimal));

    let decimal = Decimal::new(0, ' ', '_', 2, true, false, 42000);
    assert_eq!("4_20_00".to_string(), collect(decimal));

    let decimal = Decimal::new(0, ' ', '_', 4, true, false, 4_200_000);
    assert_eq!("420_0000".to_string(), collect(decimal));
}

#[test]
fn pads() {
    let decimal = Decimal::new(2, ' ', ',', 3, true, false, 420);
    assert_eq!("420".to_string(), collect(decimal));

    let decimal = Decimal::new(5, ' ', ',', 3, true, false, 420);
    assert_eq!("  420".to_string(), collect(decimal));

    let decimal = Decimal::new(5, ' ', ',', 3, true, false, -420);
    assert_eq!(" -420".to_string(), collect(decimal));

    let decimal = Decimal::new(8, '-', ',', 3, true, false, 420);
    assert_eq!("-----420".to_string(), collect(decimal));

    let decimal = Decimal::new(8, '-', ',', 3, true, false, 4200);
    assert_eq!("---4,200".to_string(), collect(decimal));
}

#[test]
fn sign() {
    let decimal = Decimal::new(2, ' ', ',', 3, true, true, 420);
    assert_eq!("+420".to_string(), collect(decimal));

    // Print the negative sign even if print sign is false
    let decimal = Decimal::new(2, ' ', ',', 3, true, false, -420);
    assert_eq!("-420".to_string(), collect(decimal));

    let decimal = Decimal::new(2, ' ', ',', 3, true, true, -420);
    assert_eq!("-420".to_string(), collect(decimal));
}

#[test]
fn renders_zero_and_wide_types() {
    let decimal = Decimal::new(0, ' ', ',', 3, false, false, 0);
    assert_eq!("0".to_string(), collect(decimal));

    let decimal = Decimal::new(0, ' ', ',', 3, true, false, 1234567890123456789u64);
    assert_eq!("1,234,567,890,123,456,789".to_string(), collect(decimal));

    let decimal = Decimal::new(0, ' ', ',', 3, false, false, i64::MIN);
    assert_eq!("-9223372036854775808".to_string(), collect(decimal));
}

#[test]
fn interval_of_zero_disables_grouping() {
    let decimal = Decimal::new(0, ' ', ',', 0, true, false, 1234);
    assert_eq!("1234".to_string(), collect(decimal));
}

#[test]
fn exhausted_decimal_stays_empty() {
    let mut decimal = Decimal::new(0, ' ', ',', 3, false, false, 7);
    assert_eq!(Some('7'), decimal.next());
    assert_eq!(None, decimal.next());
    assert_eq!(None, decimal.next());
}
