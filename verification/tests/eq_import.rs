use temper::eq_import::dest_name;

#[test]
fn calibrated_rename() {
    assert_eq!(dest_name("living-room.calibrated.conf").as_deref(), Some("living-room.conf"));
    assert_eq!(dest_name("readme.md"), None);
    assert_eq!(dest_name("plain.conf"), None);
}

#[test]
fn a_bare_suffix_becomes_a_bare_conf() {
    assert_eq!(dest_name(".calibrated.conf").as_deref(), Some(".conf"));
}
