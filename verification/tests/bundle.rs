use touchhle::bundle::{bundle_from_plist_bytes, os_version_unsupported, Bundle, PlistValue};
use touchhle::window::DeviceFamily;

fn s(v: &str) -> PlistValue {
    PlistValue::String(v.to_string())
}

fn bundle(entries: Vec<(&str, PlistValue)>) -> Bundle {
    Bundle::new(
        "/User/Applications/ABC/Game.app".to_string(),
        entries.into_iter().map(|(k, v)| (k.to_string(), v)).collect(),
    )
}

#[test]
fn identifier_version_and_names() {
    let b = bundle(vec![
        ("CFBundleIdentifier", s("com.example.game")),
        ("CFBundleVersion", s("1.2")),
        ("CFBundleName", s("Game")),
        ("CFBundleDisplayName", s("My Game")),
    ]);
    assert_eq!(b.bundle_identifier(), "com.example.game");
    assert_eq!(b.bundle_version(), "1.2");
    assert_eq!(b.canonical_bundle_name(), Some("Game"));
    assert_eq!(b.display_name(), "My Game");
    assert_eq!(b.minimum_os_version(), None);
    assert_eq!(b.bundle_name(), "Game");
    assert_eq!(b.bundle_path(), "/User/Applications/ABC/Game.app");
}

#[test]
fn display_name_defaults_to_empty() {
    let b = bundle(vec![]);
    assert_eq!(b.display_name(), "");
    assert!(!b.status_bar_hidden());
    assert!(b.bundle_localizations().is_empty());
}

#[test]
fn fake_bundle_is_empty() {
    let b = Bundle::new_fake_bundle();
    assert_eq!(b.bundle_path(), "");
    assert_eq!(b.canonical_bundle_name(), None);
    assert_eq!(b.device_family_array(), vec![DeviceFamily::iPhone]);
}

#[test]
fn executable_and_icon_paths() {
    let b = bundle(vec![("CFBundleExecutable", s("Game")), ("CFBundleIconFile", s("Icon-57"))]);
    assert_eq!(b.executable_path(), "/User/Applications/ABC/Game.app/Game");
    assert_eq!(b.icon_path(), "/User/Applications/ABC/Game.app/Icon-57.png");
    let b = bundle(vec![("CFBundleIconFile", s("App.PNG"))]);
    assert_eq!(b.icon_path(), "/User/Applications/ABC/Game.app/App.PNG");
    let b = bundle(vec![]);
    assert_eq!(b.icon_path(), "/User/Applications/ABC/Game.app/Icon.png");
}

#[test]
fn icon_sheen_follows_prerendered_flag() {
    assert!(bundle(vec![]).icon_gets_sheen());
    assert!(!bundle(vec![("UIPrerenderedIcon", PlistValue::Boolean(true))]).icon_gets_sheen());
    assert!(!bundle(vec![("UIPrerenderedIcon", s("YES"))]).icon_gets_sheen());
    assert!(bundle(vec![("UIPrerenderedIcon", s("NO"))]).icon_gets_sheen());
    assert!(bundle(vec![("UIPrerenderedIcon", PlistValue::Boolean(false))]).icon_gets_sheen());
}

#[test]
fn status_bar_hidden_reads_boolean() {
    assert!(bundle(vec![("UIStatusBarHidden", PlistValue::Boolean(true))]).status_bar_hidden());
    assert!(!bundle(vec![("UIStatusBarHidden", s("YES"))]).status_bar_hidden());
}

#[test]
fn main_nib_prefers_ipad_variant_on_ipad() {
    let b = bundle(vec![("NSMainNibFile", s("MainWindow")), ("NSMainNibFile~ipad", s("MainWindow-iPad"))]);
    assert_eq!(b.main_nib_filename(Some(DeviceFamily::iPad)), Some("MainWindow-iPad"));
    assert_eq!(b.main_nib_filename(Some(DeviceFamily::iPhone)), Some("MainWindow"));
    assert_eq!(b.main_nib_filename(None), Some("MainWindow"));
    assert_eq!(bundle(vec![]).main_nib_filename(Some(DeviceFamily::iPad)), None);
}

#[test]
fn launch_image_takes_first_existing_candidate() {
    let b = bundle(vec![]);
    let exists = |p: &str| p.ends_with("/Default@2x.png") || p.ends_with("/Default.png");
    assert_eq!(b.launch_image_path(&exists, DeviceFamily::iPhone5), "/User/Applications/ABC/Game.app/Default@2x.png");
    let only_ipad = |p: &str| p.ends_with("~ipad.png");
    assert_eq!(b.launch_image_path(&only_ipad, DeviceFamily::iPad), "/User/Applications/ABC/Game.app/Default@2x~ipad.png");
    let custom = bundle(vec![("UILaunchImageFile", s("Splash"))]);
    let splash = |p: &str| p.ends_with("/Splash.png");
    assert_eq!(custom.launch_image_path(&splash, DeviceFamily::iPhone), "/User/Applications/ABC/Game.app/Splash.png");
    let none = |_: &str| false;
    assert_eq!(custom.launch_image_path(&none, DeviceFamily::iPhone), "/User/Applications/ABC/Game.app/Default.png");
}

#[test]
fn required_capabilities_from_dictionary_or_array() {
    let b = bundle(vec![(
        "UIRequiredDeviceCapabilities",
        PlistValue::Dictionary(vec![
            ("armv7".to_string(), PlistValue::Boolean(true)),
            ("opengles-2".to_string(), PlistValue::Boolean(true)),
        ]),
    )]);
    assert_eq!(b.required_device_capabilities(), vec!["armv7", "opengles-2"]);
    let b = bundle(vec![(
        "UIRequiredDeviceCapabilities",
        PlistValue::Array(vec![s("wifi"), PlistValue::Integer(3), s("gps")]),
    )]);
    assert_eq!(b.required_device_capabilities(), vec!["wifi", "gps"]);
    assert!(bundle(vec![("UIRequiredDeviceCapabilities", PlistValue::Boolean(true))])
        .required_device_capabilities()
        .is_empty());
    assert!(bundle(vec![]).required_device_capabilities().is_empty());
}

#[test]
fn orientations_from_array_string_or_fallbacks() {
    let b = bundle(vec![(
        "UISupportedInterfaceOrientations",
        PlistValue::Array(vec![s("UIInterfaceOrientationLandscapeLeft"), PlistValue::Integer(1)]),
    )]);
    assert_eq!(
        b.supported_interface_orientations(),
        vec!["UIInterfaceOrientationLandscapeLeft", "UIInterfaceOrientationPortrait"]
    );
    let b = bundle(vec![("UISupportedInterfaceOrientations", s("A,B,"))]);
    assert_eq!(b.supported_interface_orientations(), vec!["A", "B", ""]);
    let b = bundle(vec![("UISupportedInterfaceOrientations", PlistValue::Boolean(true))]);
    assert_eq!(b.supported_interface_orientations(), vec!["UIInterfaceOrientationPortrait"]);
    let b = bundle(vec![("UIInterfaceOrientation", s("UIInterfaceOrientationLandscapeRight"))]);
    assert_eq!(b.supported_interface_orientations(), vec!["UIInterfaceOrientationLandscapeRight"]);
    assert_eq!(bundle(vec![]).supported_interface_orientations(), vec!["UIInterfaceOrientationPortrait"]);
}

#[test]
fn device_families_from_integers() {
    let b = bundle(vec![(
        "UIDeviceFamily",
        PlistValue::Array(vec![PlistValue::Integer(1), PlistValue::Integer(2), PlistValue::Integer(3), s("1")]),
    )]);
    assert_eq!(b.device_family_array(), vec![DeviceFamily::iPhone, DeviceFamily::iPad]);
    let b = bundle(vec![("UIDeviceFamily", PlistValue::Array(vec![]))]);
    assert!(b.device_family_array().is_empty());
    let b = bundle(vec![("UIDeviceFamily", PlistValue::Integer(2))]);
    assert_eq!(b.device_family_array(), vec![DeviceFamily::iPhone]);
}

#[test]
fn localizations_returns_array_items() {
    let b = bundle(vec![("CFBundleLocalizations", PlistValue::Array(vec![s("en"), s("fr")]))]);
    assert_eq!(b.bundle_localizations().len(), 2);
}

#[test]
fn os_versions_above_six_are_unsupported() {
    assert!(!os_version_unsupported("4.0"));
    assert!(!os_version_unsupported("6.0"));
    assert!(!os_version_unsupported("6.0.1"));
    assert!(!os_version_unsupported("5.1.1"));
    assert!(os_version_unsupported("6.1"));
    assert!(os_version_unsupported("7.0"));
    assert!(os_version_unsupported("10.3.2"));
    assert!(os_version_unsupported("+6.1"));
}

fn xml_plist(body: &str) -> Vec<u8> {
    format!(
        "<?xml version=\"1.0\" encoding=\"UTF-8\"?>\n<plist version=\"1.0\">\n{}\n</plist>\n",
        body
    )
    .into_bytes()
}

#[test]
fn bundle_from_plist_named_after_bundle_name() {
    let bytes = xml_plist(
        "<dict><key>CFBundleIdentifier</key><string>com.example.game</string>\
         <key>CFBundleName</key><string>Game</string></dict>",
    );
    let b = bundle_from_plist_bytes(&bytes, "Folder", "/User/Applications/ABC").unwrap();
    assert_eq!(b.bundle_path(), "/User/Applications/ABC/Game.app");
    assert_eq!(b.bundle_identifier(), "com.example.game");
}

#[test]
fn bundle_from_plist_named_after_directory() {
    let bytes = xml_plist("<dict><key>CFBundleIdentifier</key><string>com.example.game</string></dict>");
    let b = bundle_from_plist_bytes(&bytes, "Folder", "/Apps").unwrap();
    assert_eq!(b.bundle_path(), "/Apps/Folder.app");
}

#[test]
fn bundle_from_plist_errors() {
    assert!(bundle_from_plist_bytes(b"not a plist", "F", "/Apps").is_err());
    assert!(bundle_from_plist_bytes(&xml_plist("<array><string>x</string></array>"), "F", "/Apps").is_err());
    assert!(bundle_from_plist_bytes(&xml_plist("<dict><key>CFBundleName</key><string>G</string></dict>"), "F", "/Apps").is_err());
    assert!(bundle_from_plist_bytes(
        &xml_plist("<dict><key>CFBundleIdentifier</key><string>a</string><key>CFBundleVersion</key><integer>3</integer></dict>"),
        "F",
        "/Apps"
    )
    .is_err());
}
