use reconcile::money::amount_eq;
use reconcile::numeric::is_a_number;

#[test]
fn accepts_plain_and_signed_integers() {
    assert!(is_a_number(String::from("0")).is_ok());
    assert!(is_a_number(String::from("123")).is_ok());
    assert!(is_a_number(String::from("-42")).is_ok());
    assert!(is_a_number(String::from("+7")).is_ok());
    assert!(is_a_number(String::from("9223372036854775807")).is_ok());
    assert!(is_a_number(String::from("-9223372036854775808")).is_ok());
}

#[test]
fn rejects_non_numbers_and_overflow() {
    assert!(is_a_number(String::from("")).is_err());
    assert!(is_a_number(String::from("-")).is_err());
    assert!(is_a_number(String::from("+")).is_err());
    assert!(is_a_number(String::from("12a")).is_err());
    assert!(is_a_number(String::from(" 12")).is_err());
    assert!(is_a_number(String::from("1.5")).is_err());
    assert!(is_a_number(String::from("9223372036854775808")).is_err());
    assert!(is_a_number(String::from("-9223372036854775809")).is_err());
    assert!(is_a_number(String::from("99999999999999999999999")).is_err());
}

#[test]
fn rejection_message_names_the_value() {
    match is_a_number(String::from("abc")) {
        Err(m) => assert_eq!(m, "Value 'abc' is not a number!"),
        Ok(()) => panic!("'abc' must be rejected"),
    }
}

#[test]
fn exact_rational_amount_equality() {
    assert!(amount_eq(150, 1, 15000));
    assert!(amount_eq(15000, 100, 15000));
    assert!(amount_eq(51, 2, 2550));
    assert!(!amount_eq(51, 2, 2549));
    assert!(amount_eq(-51, 2, -2550));
    assert!(!amount_eq(1, 3, 33));
}
