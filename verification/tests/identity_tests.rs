use limitless::identity::{
    fake_computer_name, fake_machine_guid, hex_of_text, macro_plan, random_mac, spoofed_mac,
    spoofed_volume_serial,
};

#[test]
fn macro_file_with_credentials_and_flag() {
    let plan = macro_plan("oyuncu\nşifre\n  FALSE \n");
    assert_eq!(plan.credentials, Some(("oyuncu".to_string(), "şifre".to_string())));
    assert!(!plan.spoofer_active);
}

#[test]
fn macro_file_defaults() {
    let plan = macro_plan("oyuncu\r\nşifre\r\n");
    assert_eq!(plan.credentials, Some(("oyuncu".to_string(), "şifre".to_string())));
    assert!(plan.spoofer_active);
    let plan = macro_plan("yalnız\n");
    assert_eq!(plan.credentials, None);
    assert!(plan.spoofer_active);
    let plan = macro_plan("u\np\ntrue");
    assert!(plan.spoofer_active);
    let plan = macro_plan("u\np\nfalsey");
    assert!(plan.spoofer_active);
}

#[test]
fn mac_is_local_and_unicast() {
    assert_eq!(spoofed_mac([0x01, 2, 3, 4, 5, 6]), [0x02, 2, 3, 4, 5, 6]);
    assert_eq!(spoofed_mac([0xFF, 0, 0, 0, 0, 0xAB]), [0xFE, 0, 0, 0, 0, 0xAB]);
    let m = random_mac().unwrap();
    assert_eq!(m[0] & 0x03, 0x02);
}

#[test]
fn substitute_names() {
    let mac = [0x0A, 0xF3, 1, 2, 3, 4];
    assert_eq!(fake_machine_guid(mac), "fake-0AF3");
    assert_eq!(fake_computer_name(mac), "PC-0AF3");
    assert_eq!(fake_machine_guid(mac), format!("fake-{:02X}{:02X}", mac[0], mac[1]));
}

#[test]
fn volume_serial_is_masked() {
    let mac = [0x12, 0x34, 0, 0, 0, 0];
    assert_eq!(spoofed_volume_serial(0xDEAD_BEEF, mac), 0xDEAD_BEEF ^ 0x3412);
    assert_eq!(spoofed_volume_serial(spoofed_volume_serial(7, mac), mac), 7);
}

#[test]
fn credentials_in_hex() {
    assert_eq!(hex_of_text("Ab1"), "416231");
    assert_eq!(hex_of_text("ş"), "c59f");
    assert_eq!(hex_of_text(""), "");
}
