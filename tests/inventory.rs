use adb_app_manager::bridge::BridgeCommand;
use adb_app_manager::manager::{filter_folded, parse_package_names, removal_outcome, ADBAppManager, RemovalOutcome};
use adb_app_manager::order::{lex_le_chars, sort_by_keys, sort_folded};
use adb_app_manager::text::{
    chars_of, contains_chars, first_word_chars, split_lines, strip_prefix_chars, trim_chars,
};

fn strings(v: &[&str]) -> Vec<String> {
    v.iter().map(|s| s.to_string()).collect()
}

fn chars(s: &str) -> Vec<char> {
    s.chars().collect()
}

#[test]
fn connected_device_is_described_and_triggers_refresh() {
    let mut m = ADBAppManager::new();
    let id = m
        .check_device_connection("List of devices attached\nemulator-5554\tdevice\n")
        .expect("a device is connected");
    assert_eq!(id, "emulator-5554");
    let d = m.record_device(id, "Pixel 5\n");
    assert_eq!(d.model, "Pixel 5");
    assert_eq!(d.id, "emulator-5554");
    let stored = m.device().as_ref().expect("device recorded");
    assert_eq!(stored.model, "Pixel 5");
    assert_eq!(stored.id, "emulator-5554");
    let apps = m.list_installed_apps("package:com.b\npackage:com.A\n");
    assert_eq!(apps, strings(&["com.A", "com.b"]));
    assert_eq!(m.apps(), &apps);
}

#[test]
fn empty_device_line_means_no_device() {
    let mut m = ADBAppManager::new();
    m.list_installed_apps("package:com.x\n");
    let id = m.record_device("old".to_string(), "Old\n");
    assert_eq!(id.id, "old");
    assert_eq!(m.check_device_connection("List of devices attached\n\n"), None);
    assert!(m.device().is_none());
    assert_eq!(m.apps(), &strings(&["com.x"]));
}

#[test]
fn header_alone_means_no_device() {
    let mut m = ADBAppManager::new();
    assert_eq!(m.check_device_connection("List of devices attached\n"), None);
    assert_eq!(m.check_device_connection(""), None);
}

#[test]
fn unauthorized_device_is_not_connected() {
    let mut m = ADBAppManager::new();
    assert_eq!(
        m.check_device_connection("List of devices attached\r\nR58M12345\tunauthorized\r\n"),
        None
    );
}

#[test]
fn device_line_with_carriage_returns() {
    let mut m = ADBAppManager::new();
    let id = m.check_device_connection("List of devices attached\r\n  R58M12345 device\r\n");
    assert_eq!(id, Some("R58M12345".to_string()));
}

#[test]
fn refresh_sorts_case_insensitively_keeping_text() {
    let mut m = ADBAppManager::new();
    let apps = m.list_installed_apps("package:com.b\npackage:com.A\n");
    assert_eq!(apps, strings(&["com.A", "com.b"]));
}

#[test]
fn refresh_is_stable_on_ties() {
    let mut m = ADBAppManager::new();
    let apps = m.list_installed_apps("package:B.app\npackage:a.x\npackage:b.APP\npackage:A.X\n");
    assert_eq!(apps, strings(&["a.x", "A.X", "B.app", "b.APP"]));
}

#[test]
fn refresh_replaces_the_inventory() {
    let mut m = ADBAppManager::new();
    m.list_installed_apps("package:one\npackage:two\n");
    let apps = m.list_installed_apps("package:three\n");
    assert_eq!(apps, strings(&["three"]));
    assert_eq!(m.apps(), &strings(&["three"]));
}

#[test]
fn refresh_after_removal_does_not_bring_the_package_back() {
    let mut m = ADBAppManager::new();
    m.list_installed_apps("package:com.a\npackage:com.gone\npackage:com.z\n");
    assert!(matches!(removal_outcome("Success\n"), RemovalOutcome::Removed));
    let apps = m.list_installed_apps("package:com.a\npackage:com.z\n");
    assert!(!apps.contains(&"com.gone".to_string()));
    assert_eq!(apps, strings(&["com.a", "com.z"]));
}

#[test]
fn empty_listing_gives_empty_inventory() {
    let mut m = ADBAppManager::new();
    assert!(m.list_installed_apps("").is_empty());
    assert!(m.apps().is_empty());
}

#[test]
fn uninstall_success_and_failure() {
    assert!(matches!(removal_outcome("Success\n"), RemovalOutcome::Removed));
    match removal_outcome("Failure [DELETE_FAILED]") {
        RemovalOutcome::Failed(text) => assert_eq!(text, "Failure [DELETE_FAILED]"),
        RemovalOutcome::Removed => panic!("reported as removed"),
    }
}

#[test]
fn uninstall_marker_is_case_sensitive() {
    assert!(matches!(removal_outcome("success"), RemovalOutcome::Failed(_)));
    assert!(matches!(removal_outcome(""), RemovalOutcome::Failed(_)));
}

#[test]
fn filter_is_case_insensitive_and_ordered() {
    let mut m = ADBAppManager::new();
    m.list_installed_apps("package:org.Mozilla.firefox\npackage:com.android.chrome\npackage:com.MOZ.tool\n");
    assert_eq!(m.filter_apps("moz"), strings(&["com.MOZ.tool", "org.Mozilla.firefox"]));
    assert_eq!(m.filter_apps("CHROME"), strings(&["com.android.chrome"]));
    assert!(m.filter_apps("absent").is_empty());
    assert_eq!(m.apps().len(), 3);
}

#[test]
fn empty_filter_keeps_everything() {
    let mut m = ADBAppManager::new();
    let apps = m.list_installed_apps("package:b\npackage:a\n");
    assert_eq!(m.filter_apps(""), apps);
}

#[test]
fn filter_on_empty_inventory() {
    let m = ADBAppManager::new();
    assert!(m.filter_apps("x").is_empty());
    assert!(m.device().is_none());
}

#[test]
fn package_marker_is_stripped_from_the_front() {
    assert_eq!(
        parse_package_names("package:a\r\npackage:b.package:c\nplain\n\npackage:"),
        strings(&["a", "b.package:c", "plain", "", ""])
    );
}

#[test]
fn command_arguments() {
    assert_eq!(BridgeCommand::ListDevices.args(), strings(&["devices"]));
    assert_eq!(
        BridgeCommand::ReadModel.args(),
        strings(&["shell", "getprop", "ro.product.model"])
    );
    assert_eq!(
        BridgeCommand::ListPackages.args(),
        strings(&["shell", "pm", "list", "packages"])
    );
    assert_eq!(
        BridgeCommand::Uninstall("com.x".to_string()).args(),
        strings(&["shell", "pm", "uninstall", "--user", "0", "com.x"])
    );
}

#[test]
fn lines_follow_str_lines() {
    for text in ["", "a", "a\n", "a\r\nb", "a\n\nb\r", "\n", "x\r\n\r\n", "\r"] {
        let expected: Vec<Vec<char>> = text.lines().map(chars).collect();
        assert_eq!(split_lines(&chars(text)), expected);
    }
}

#[test]
fn trim_and_first_word() {
    assert_eq!(trim_chars(&chars(" \tPixel 5\r\n")), "Pixel 5");
    assert_eq!(trim_chars(&chars("\u{3000}x\u{a0}")), "x");
    assert_eq!(trim_chars(&chars("   ")), "");
    assert_eq!(first_word_chars(&chars("  emulator-5554\tdevice")), "emulator-5554");
    assert_eq!(first_word_chars(&chars(" \t ")), "");
}

#[test]
fn substring_and_removal() {
    assert!(contains_chars(&chars("emulator\tdevice"), &chars("device")));
    assert!(!contains_chars(&chars("dev"), &chars("device")));
    assert!(contains_chars(&chars("abc"), &chars("")));
    assert_eq!(strip_prefix_chars(&chars("XXbXc"), &chars("X")), "XbXc");
    assert_eq!(strip_prefix_chars(&chars("bX"), &chars("X")), "bX");
    assert_eq!(strip_prefix_chars(&chars("X"), &chars("XY")), "X");
    assert_eq!(strip_prefix_chars(&chars("abc"), &chars("")), "abc");
}

#[test]
fn lexicographic_order_by_code_point() {
    assert!(lex_le_chars(&chars("ab"), &chars("abc")));
    assert!(!lex_le_chars(&chars("b"), &chars("abc")));
    assert!(lex_le_chars(&chars("B"), &chars("a")));
    assert!(lex_le_chars(&chars(""), &chars("")));
}

#[test]
fn sort_folds_non_ascii_case() {
    let sorted = sort_folded(strings(&["Éclair", "zeta", "éa", "Alpha"]));
    assert_eq!(sorted, strings(&["Alpha", "zeta", "éa", "Éclair"]));
    assert_eq!(chars_of("xy"), vec!['x', 'y']);
}

#[test]
fn default_manager_is_empty() {
    let m = ADBAppManager::default();
    assert!(m.apps().is_empty());
    assert!(m.device().is_none());
}

#[test]
fn inner_marker_does_not_bring_a_removed_package_back() {
    let mut m = ADBAppManager::new();
    let apps = m.list_installed_apps("package:package:x\npackage:com.package:y\n");
    assert_eq!(apps, strings(&["com.package:y", "package:x"]));
    assert!(!apps.contains(&"x".to_string()));
}

#[test]
fn sort_by_given_keys_is_stable() {
    let items = strings(&["p", "q", "r", "s"]);
    let keys = vec![chars("b"), chars("a"), chars("b"), chars("a")];
    assert_eq!(sort_by_keys(items, &keys), strings(&["q", "s", "p", "r"]));
}

#[test]
fn filter_by_given_folded_forms() {
    let apps = strings(&["One", "Two", "Three"]);
    let folded = vec![chars("one"), chars("two"), chars("three")];
    assert_eq!(filter_folded(&apps, &folded, &chars("t")), strings(&["Two", "Three"]));
    assert_eq!(filter_folded(&apps, &folded, &chars("T")), Vec::<String>::new());
    assert_eq!(filter_folded(&apps, &folded, &chars("")), apps);
}
