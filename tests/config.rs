use unpacking::config::app_address;

#[test]
fn app_address_defaults() {
    assert_eq!(app_address(None, None), "localhost:3000")
}

#[test]
fn app_address_from_env() {
    assert_eq!(app_address(Some("piggy.bank".to_string()), Some("1234".to_string())), "piggy.bank:1234")
}
