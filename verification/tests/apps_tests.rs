use iconview::apps::{
    exe_friendly_name, get_open_with_apps, is_uwp, open_with_app_command, resolve_app_path,
    system32_path, trusted_apps, uwp_label, AppProbe,
};
use iconview::codec::rasterize_bitmap;

fn probe(id: &str) -> AppProbe {
    AppProbe {
        identifier: id.to_string(),
        user_path: None,
        machine_path: None,
        windir: None,
        system_fallback_exists: false,
        resource_strings: Vec::new(),
        icon: None,
    }
}

#[test]
fn trusted_apps_list_is_fixed() {
    let apps = trusted_apps();
    assert_eq!(apps.len(), 27);
    assert_eq!(apps[0], "mspaint.exe");
    assert_eq!(apps[26], "msedge.exe");
    assert!(apps.contains(&"chrome.exe"));
}

#[test]
fn resolve_unknown_app_returns_nothing() {
    // no registry value in either scope, no system-directory fallback
    assert_eq!(resolve_app_path("notarealapp.exe", None, None, None, false), None);
    // even with a system directory, a missing file yields nothing
    assert_eq!(
        resolve_app_path("notarealapp.exe", None, None, Some("C:\\Windows".to_string()), false),
        None
    );
}

#[test]
fn resolve_prefers_user_scope() {
    let r = resolve_app_path(
        "gimp.exe",
        Some("C:\\user\\gimp.exe".to_string()),
        Some("C:\\machine\\gimp.exe".to_string()),
        Some("C:\\Windows".to_string()),
        true,
    );
    assert_eq!(r, Some("C:\\user\\gimp.exe".to_string()));
}

#[test]
fn resolve_falls_back_to_machine_scope() {
    let r = resolve_app_path(
        "gimp.exe",
        None,
        Some("C:\\machine\\gimp.exe".to_string()),
        Some("C:\\Windows".to_string()),
        true,
    );
    assert_eq!(r, Some("C:\\machine\\gimp.exe".to_string()));
}

#[test]
fn resolve_falls_back_to_system_directory() {
    let r = resolve_app_path("mspaint.exe", None, None, Some("C:\\Windows".to_string()), true);
    assert_eq!(r, Some("C:\\Windows\\System32\\mspaint.exe".to_string()));
}

#[test]
fn system32_path_joins_components() {
    assert_eq!(
        system32_path(&"C:\\Windows".to_string(), "cmd.exe"),
        "C:\\Windows\\System32\\cmd.exe"
    );
}

#[test]
fn uwp_identifiers_are_recognized() {
    assert!(is_uwp("Microsoft.Windows.Photos_8wekyb3d8bbwe!App"));
    assert!(!is_uwp("mspaint.exe"));
    // the marker alone is not enough when the classic suffix is present
    assert!(!is_uwp("odd!name.exe"));
}

#[test]
fn uwp_labels_use_overrides_then_prefix() {
    assert_eq!(uwp_label("Microsoft.Windows.Photos_8wekyb3d8bbwe!App"), "Photos");
    assert_eq!(uwp_label("Microsoft.Paint_8wekyb3d8bbwe!App"), "Paint");
    assert_eq!(uwp_label("Some.Package_abc!Entry"), "Some.Package_abc");
}

#[test]
fn uwp_label_never_empty() {
    // an identifier that starts with the separator would give an empty
    // prefix; the label falls back to the identifier itself
    assert_eq!(uwp_label("!App"), "!App");
}

#[test]
fn friendly_name_falls_back_to_path_for_empty_base_name() {
    let strings: Vec<String> = Vec::new();
    assert_eq!(exe_friendly_name("C:\\dir\\", &strings), "C:\\dir\\");
}

#[test]
fn catalog_label_falls_back_to_identifier_without_suffix() {
    // the registry value resolves to an empty path and no resource strings
    // exist, so name derivation yields nothing; the label falls back to the
    // identifier with its ".exe" suffix removed, never the empty string
    let mut p = probe("gimp.exe");
    p.user_path = Some(String::new());
    let out = get_open_with_apps(vec![p]);
    assert_eq!(out.len(), 1);
    assert_eq!(out[0].0, "gimp.exe");
    assert_eq!(out[0].1, "gimp");

    // stripping that would leave nothing keeps the identifier whole
    let mut q = probe(".exe");
    q.user_path = Some(String::new());
    let out = get_open_with_apps(vec![q]);
    assert_eq!(out.len(), 1);
    assert_eq!(out[0].1, ".exe");
}

#[test]
fn override_label_beats_resource_strings() {
    // the version resource claims another name, the override still wins
    let strings = vec!["Definitely Not Paint".to_string()];
    assert_eq!(exe_friendly_name("C:\\Windows\\System32\\mspaint.exe", &strings), "Paint");
    assert_eq!(exe_friendly_name("C:\\x\\MSPAINT.EXE", &strings), "Paint");
    assert_eq!(exe_friendly_name("photos.exe", &strings), "Photos");
}

#[test]
fn friendly_name_takes_first_nonempty_trimmed_resource_string() {
    let strings = vec![
        "\0\0".to_string(),
        "GNU Image Manipulation Program\0".to_string(),
        "Backup Name".to_string(),
    ];
    assert_eq!(
        exe_friendly_name("C:\\Program Files\\GIMP\\gimp.exe", &strings),
        "GNU Image Manipulation Program"
    );
}

#[test]
fn friendly_name_falls_back_to_stem() {
    let strings: Vec<String> = Vec::new();
    assert_eq!(exe_friendly_name("C:\\tools\\i_view64.exe", &strings), "i_view64");
    let empties = vec!["".to_string(), "\0".to_string()];
    assert_eq!(exe_friendly_name("C:\\tools\\nomacs.exe", &empties), "nomacs");
}

#[test]
fn catalog_omits_unresolved_identifiers() {
    // no registry data and no fallback anywhere: only the packaged app stays
    let ps = vec![
        probe("notarealapp.exe"),
        probe("Microsoft.Paint_8wekyb3d8bbwe!App"),
        probe("alsonotreal.exe"),
    ];
    let out = get_open_with_apps(ps);
    assert_eq!(out.len(), 1);
    assert_eq!(out[0].0, "Microsoft.Paint_8wekyb3d8bbwe!App");
    assert_eq!(out[0].1, "Paint");
    assert_eq!(out[0].2, None);
}

#[test]
fn catalog_preserves_order_and_never_grows() {
    let mut resolved = probe("gimp.exe");
    resolved.user_path = Some("C:\\gimp\\gimp.exe".to_string());
    resolved.resource_strings = vec!["GIMP\0".to_string()];
    resolved.icon = Some(vec![1, 2, 3]);
    let ps = vec![
        probe("Microsoft.Windows.Photos_8wekyb3d8bbwe!App"),
        probe("missing.exe"),
        resolved,
        probe("Another.Package!Entry"),
    ];
    let out = get_open_with_apps(ps);
    assert_eq!(out.len(), 3);
    assert_eq!(out[0].0, "Microsoft.Windows.Photos_8wekyb3d8bbwe!App");
    assert_eq!(out[1].0, "gimp.exe");
    assert_eq!(out[1].1, "GIMP");
    assert_eq!(out[1].2, Some(vec![1, 2, 3]));
    assert_eq!(out[2].0, "Another.Package!Entry");
    assert_eq!(out[2].1, "Another.Package");
}

#[test]
fn catalog_of_unresolvable_probes_is_empty() {
    let ps = vec![probe("notarealapp.exe")];
    let out = get_open_with_apps(ps);
    assert!(out.is_empty());
}

#[test]
fn launch_command_for_packaged_app() {
    let r = open_with_app_command(
        &"Microsoft.Paint_8wekyb3d8bbwe!App".to_string(),
        &"C:\\pics\\a.png".to_string(),
        None,
    )
    .unwrap();
    assert_eq!(r.0, "explorer");
    assert_eq!(r.1, vec!["shell:AppsFolder\\Microsoft.Paint_8wekyb3d8bbwe!App".to_string()]);
}

#[test]
fn launch_command_for_classic_app() {
    let r = open_with_app_command(
        &"gimp.exe".to_string(),
        &"C:\\pics\\a.png".to_string(),
        Some("C:\\gimp\\gimp.exe".to_string()),
    )
    .unwrap();
    assert_eq!(r.0, "C:\\gimp\\gimp.exe");
    assert_eq!(r.1, vec!["C:\\pics\\a.png".to_string()]);
}

#[test]
fn launch_command_unresolved_classic_app_is_an_error() {
    let e = open_with_app_command(
        &"gone.exe".to_string(),
        &"C:\\pics\\a.png".to_string(),
        None,
    )
    .unwrap_err();
    assert_eq!(e, "Executable not found: gone.exe");
}

#[test]
fn rasterize_bitmap_encodes_valid_buffer() {
    let pixels = vec![255u8; 2 * 2 * 4];
    let out = rasterize_bitmap(2, 2, &pixels).unwrap();
    assert_eq!(&out[0..8], &[0x89u8, 0x50, 0x4E, 0x47, 0x0D, 0x0A, 0x1A, 0x0A]);
    let round = image::load_from_memory(&out).unwrap().to_rgba8();
    assert_eq!(round.width(), 2);
    assert_eq!(round.height(), 2);
    assert_eq!(round.into_raw(), pixels);
}

#[test]
fn rasterize_bitmap_rejects_mismatched_buffer() {
    // 2x2 needs 16 bytes; 15 is malformed and yields nothing
    let pixels = vec![255u8; 15];
    assert_eq!(rasterize_bitmap(2, 2, &pixels), None);
}
