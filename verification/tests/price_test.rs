use table_orders::price::Price;

#[test]
fn test_from_string() {
    let price = Price::from_string("345".to_string());
    assert_eq!("345", price.to_string());
}

#[test]
fn test_to_string() {
    let price = Price::from_string("345".to_string());
    assert_eq!("345", price.to_string());
}

#[test]
fn price_test_test_add() {
    let mut price = Price::from_string("345".to_string());
    price.add(Price::from_string("123".to_string()));
    assert_eq!("468", price.to_string());
}

#[test]
fn test_deduct() {
    let mut price = Price::from_string("345".to_string());
    price.deduct(Price::from_string("123".to_string()));
    assert_eq!("222", price.to_string());
}

#[test]
fn test_zero_round_trip() {
    assert_eq!("0", Price::from_string("0".to_string()).to_string());
}

#[test]
fn test_large_round_trip() {
    let digits = "18446744073709551615".to_string();
    assert_eq!("18446744073709551615", Price::from_string(digits).to_string());
}

#[test]
fn test_unparsable_counts_as_zero() {
    assert_eq!("0", Price::from_string("34.5".to_string()).to_string());
    assert_eq!("0", Price::from_string(String::new()).to_string());
    assert_eq!("0", Price::from_string("18446744073709551616".to_string()).to_string());
}

#[test]
fn test_default_is_zero() {
    let price: Price = Default::default();
    assert_eq!("0", price.to_string());
    assert_eq!(0, price.cents());
}
