use pi_natives::system_info::{
    disk_usage, distro_from_os_release, macos_marketing_name, os_distro, parse_key_value,
    pick_root_disk, strip_quotes, value_for, SystemInfo,
};

fn pair(k: &str, v: &str) -> (String, String) {
    (k.to_string(), v.to_string())
}

#[test]
fn key_value_lines_are_parsed() {
    let content = "NAME=\"Ubuntu\"\n# comment\n\nVERSION = 22.04 \nEMPTY=\nNOEQ\n A=b=c \r\n=v\n";
    assert_eq!(
        parse_key_value(content),
        vec![pair("NAME", "\"Ubuntu\""), pair("VERSION", "22.04"), pair("A", "b=c")]
    );
    assert_eq!(parse_key_value(""), Vec::<(String, String)>::new());
    assert_eq!(parse_key_value("K=last line without newline"), vec![pair("K", "last line without newline")]);
}

#[test]
fn later_key_wins() {
    let parsed = parse_key_value("K=1\nJ=x\nK=2\n");
    assert_eq!(value_for(&parsed, &"K".to_string()), Some("2".to_string()));
    assert_eq!(value_for(&parsed, &"J".to_string()), Some("x".to_string()));
    assert_eq!(value_for(&parsed, &"Z".to_string()), None);
}

#[test]
fn quotes_are_stripped_from_both_ends() {
    assert_eq!(strip_quotes("\"\"abc\""), "abc");
    assert_eq!(strip_quotes("a\"b"), "a\"b");
    assert_eq!(strip_quotes(""), "");
    assert_eq!(strip_quotes("\"\"\""), "");
    assert_eq!(strip_quotes(" \"x\" "), " \"x\" ");
}

#[test]
fn pretty_name_is_preferred() {
    let content = "NAME=\"Ubuntu\"\nVERSION=\"22.04\"\nPRETTY_NAME=\"Ubuntu 22.04.3 LTS\"\n";
    assert_eq!(distro_from_os_release(content), Some("Ubuntu 22.04.3 LTS".to_string()));
}

#[test]
fn name_and_version_are_joined() {
    let content = "NAME=\"Fedora Linux\"\nVERSION=\"39 (Workstation Edition)\"\n";
    assert_eq!(
        distro_from_os_release(content),
        Some("Fedora Linux 39 (Workstation Edition)".to_string())
    );
    assert_eq!(distro_from_os_release("NAME=\"\"\nVERSION=\"7\"\n"), Some("7".to_string()));
}

#[test]
fn name_or_version_alone() {
    assert_eq!(distro_from_os_release("NAME=Arch\n"), Some("Arch".to_string()));
    assert_eq!(distro_from_os_release("VERSION=\"12\"\n"), Some("12".to_string()));
    assert_eq!(distro_from_os_release("ID=debian\n"), None);
    assert_eq!(distro_from_os_release(""), None);
}

#[test]
fn marketing_names_by_major_version() {
    assert_eq!(macos_marketing_name("15.3.1"), Some("Sequoia"));
    assert_eq!(macos_marketing_name("26"), Some("Tahoe"));
    assert_eq!(macos_marketing_name("14.0"), Some("Sonoma"));
    assert_eq!(macos_marketing_name("13.6"), Some("Ventura"));
    assert_eq!(macos_marketing_name("12.7"), Some("Monterey"));
    assert_eq!(macos_marketing_name("11.2"), Some("Big Sur"));
    assert_eq!(macos_marketing_name("10.15.7"), None);
    assert_eq!(macos_marketing_name("abc"), None);
    assert_eq!(macos_marketing_name(""), None);
    assert_eq!(macos_marketing_name("-15.1"), None);
}

#[test]
fn os_distro_picks_and_decorates() {
    assert_eq!(
        os_distro(Some("macOS 15.3".to_string()), Some("Darwin".to_string()), Some("Sequoia")),
        Some("macOS 15.3 Sequoia".to_string())
    );
    assert_eq!(os_distro(None, Some("Windows".to_string()), None), Some("Windows".to_string()));
    assert_eq!(os_distro(Some("  ".to_string()), Some("x".to_string()), None), None);
    assert_eq!(os_distro(None, None, Some("Sonoma")), None);
}

#[test]
fn system_info_holds_optional_fields() {
    let info = SystemInfo { distro: Some("Arch".to_string()), kernel: None, cpu: None, disk: None };
    assert_eq!(info.distro.as_deref(), Some("Arch"));
    assert!(info.kernel.is_none());
}

#[test]
fn disk_usage_saturates_and_skips_empty_disks() {
    assert_eq!(disk_usage(0, 5), None);
    assert_eq!(disk_usage(100, 30), Some((70, 100)));
    assert_eq!(disk_usage(100, 130), Some((0, 100)));
    assert_eq!(disk_usage(u64::MAX, 0), Some((u64::MAX, u64::MAX)));
}

#[test]
fn root_disk_is_preferred_else_first() {
    assert_eq!(pick_root_disk(&vec![false, true, true]), Some(1));
    assert_eq!(pick_root_disk(&vec![false, false]), Some(0));
    assert_eq!(pick_root_disk(&Vec::new()), None);
}
