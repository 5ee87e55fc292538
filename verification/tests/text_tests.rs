use spa_pq::text::{allow_element, ipv4_string, set_name, u64_dec};

#[test]
fn decimal_rendering() {
    assert_eq!(u64_dec(0), "0");
    assert_eq!(u64_dec(9), "9");
    assert_eq!(u64_dec(45), "45");
    assert_eq!(u64_dec(62201), "62201");
    assert_eq!(u64_dec(u64::MAX), "18446744073709551615");
}

#[test]
fn dotted_quad_rendering() {
    assert_eq!(ipv4_string(0x01020304), "1.2.3.4");
    assert_eq!(ipv4_string(0x7f000001), "127.0.0.1");
    assert_eq!(ipv4_string(0), "0.0.0.0");
    assert_eq!(ipv4_string(u32::MAX), "255.255.255.255");
}

#[test]
fn set_named_after_chain() {
    assert_eq!(set_name("wg_spa_allow"), "wg_spa_allow_set");
}

#[test]
fn allow_element_expression() {
    assert_eq!(allow_element(0x01020304, 45), "{ 1.2.3.4 timeout 45s }");
}
