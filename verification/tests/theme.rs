use windash::theme::theme_from_reg_output;

#[test]
fn registry_output_light_and_dark() {
    let light = "\r\nHKEY_CURRENT_USER\\Software\\Microsoft\\Windows\\CurrentVersion\\Themes\\Personalize\r\n    AppsUseLightTheme    REG_DWORD    0x1\r\n\r\n";
    assert_eq!(theme_from_reg_output(light), "light");
    let dark = "    AppsUseLightTheme    REG_DWORD    0x0\r\n";
    assert_eq!(theme_from_reg_output(dark), "dark");
}

#[test]
fn registry_output_edge_cases() {
    assert_eq!(theme_from_reg_output(""), "dark");
    assert_eq!(theme_from_reg_output("no value here"), "dark");
    assert_eq!(theme_from_reg_output("0x"), "dark");
    assert_eq!(theme_from_reg_output("0x   \n"), "dark");
    assert_eq!(theme_from_reg_output("0xff"), "light");
    assert_eq!(theme_from_reg_output("0x +A"), "light");
    assert_eq!(theme_from_reg_output("0x+"), "dark");
    assert_eq!(theme_from_reg_output("0xzz"), "dark");
    assert_eq!(theme_from_reg_output("0xFFFFFFFF"), "light");
    assert_eq!(theme_from_reg_output("0x100000000"), "dark");
    assert_eq!(theme_from_reg_output("0x00000000000001"), "light");
    assert_eq!(theme_from_reg_output("x 0x0 0x1"), "dark");
}
