use chattery::config::{u16_string, Config};

#[test]
fn default_config_values() {
    let config = Config::default();
    assert_eq!(config.get_max_clients(), 4);
    assert_eq!(config.get_acceptable_buffer(), 256);
    assert_eq!(config.get_address(), "127.0.0.1:2424");
}

#[test]
fn custom_config_address() {
    let config = Config::new(String::from("0.0.0.0"), 8080, 16, 1024);
    assert_eq!(config.get_address(), "0.0.0.0:8080");
    assert_eq!(config.get_max_clients(), 16);
    assert_eq!(config.get_acceptable_buffer(), 1024);
}

#[test]
fn u16_decimal_text() {
    assert_eq!(u16_string(0), "0");
    assert_eq!(u16_string(9), "9");
    assert_eq!(u16_string(10), "10");
    assert_eq!(u16_string(2424), "2424");
    assert_eq!(u16_string(65535), "65535");
}

#[test]
fn port_zero_address() {
    let config = Config::new(String::from("localhost"), 0, 1, 1);
    assert_eq!(config.get_address(), "localhost:0");
}
