use iconview::info::{
    exif_fields, filter_image_paths, image_index, is_image_file, load_image_metadata,
    renamed_path, to_unix,
};
use iconview::text::{base_name, dir_prefix, stem_of, trim_nuls};

#[test]
fn to_unix_substitutes_zero() {
    assert_eq!(to_unix(Some(1700000000)), 1700000000);
    assert_eq!(to_unix(None), 0);
}

#[test]
fn exif_fields_map_known_tags() {
    let entries = vec![
        ("DateTimeOriginal".to_string(), "2021:05:01 10:00:00".to_string()),
        ("Model".to_string(), "Camera X".to_string()),
        ("FNumber".to_string(), "f/2.8".to_string()),
        ("ExposureTime".to_string(), "1/200".to_string()),
        ("ISOSpeedRatings".to_string(), "100".to_string()),
        ("FocalLength".to_string(), "50 mm".to_string()),
        ("Flash".to_string(), "Off".to_string()),
        ("ColorSpace".to_string(), "sRGB".to_string()),
        ("SomethingElse".to_string(), "ignored".to_string()),
    ];
    let f = exif_fields(&entries);
    assert_eq!(f.date_taken.as_deref(), Some("2021:05:01 10:00:00"));
    assert_eq!(f.camera.as_deref(), Some("Camera X"));
    assert_eq!(f.aperture.as_deref(), Some("f/2.8"));
    assert_eq!(f.shutter.as_deref(), Some("1/200"));
    assert_eq!(f.iso.as_deref(), Some("100"));
    assert_eq!(f.focal.as_deref(), Some("50 mm"));
    assert_eq!(f.flash.as_deref(), Some("Off"));
    assert_eq!(f.color_profile.as_deref(), Some("sRGB"));
}

#[test]
fn exif_fields_last_entry_wins_and_absent_stays_none() {
    let entries = vec![
        ("Model".to_string(), "First".to_string()),
        ("Model".to_string(), "Second".to_string()),
    ];
    let f = exif_fields(&entries);
    assert_eq!(f.camera.as_deref(), Some("Second"));
    assert_eq!(f.date_taken, None);
    assert_eq!(f.flash, None);
}

#[test]
fn metadata_record_is_assembled_from_parts() {
    let entries = vec![("Model".to_string(), "Camera X".to_string())];
    let info = load_image_metadata(
        "C:\\pics\\holiday\\beach.jpg".to_string(),
        "Jpeg".to_string(),
        640,
        480,
        123456,
        "Rgb8".to_string(),
        24,
        false,
        Some(1700000000),
        None,
        &entries,
    );
    assert_eq!(info.file_name, "beach.jpg");
    assert_eq!(info.full_path, "C:\\pics\\holiday\\beach.jpg");
    assert_eq!(info.format, "Jpeg");
    assert_eq!(info.width, 640);
    assert_eq!(info.height, 480);
    assert_eq!(info.file_size, 123456);
    assert_eq!(info.color_mode, "Rgb8");
    assert_eq!(info.bit_depth, 24);
    assert!(!info.alpha);
    assert_eq!(info.created, 1700000000);
    assert_eq!(info.modified, 0);
    assert_eq!(info.camera.as_deref(), Some("Camera X"));
    assert_eq!(info.date_taken, None);
}

#[test]
fn image_paths_are_filtered_case_insensitively_in_order() {
    let paths = vec![
        "/pics/a.JPG".to_string(),
        "/pics/readme.txt".to_string(),
        "/pics/b.png".to_string(),
        "/pics/noextension".to_string(),
        "/pics/c.WebP".to_string(),
        "/pics/archive.tar.gz".to_string(),
        "/pics/d.jfif".to_string(),
    ];
    let out = filter_image_paths(paths);
    assert_eq!(
        out,
        vec![
            "/pics/a.JPG".to_string(),
            "/pics/b.png".to_string(),
            "/pics/c.WebP".to_string(),
            "/pics/d.jfif".to_string(),
        ]
    );
}

#[test]
fn image_file_test_looks_at_the_extension_only() {
    assert!(is_image_file("C:\\x\\y.ico"));
    assert!(is_image_file("a.TIFF"));
    assert!(!is_image_file("a.exe"));
    assert!(!is_image_file("jpg"));
    assert!(!is_image_file("trailingdot."));
}

#[test]
fn image_index_finds_current_or_defaults_to_zero() {
    let paths = vec!["a.png".to_string(), "b.png".to_string(), "c.png".to_string()];
    assert_eq!(image_index(&paths, &"b.png".to_string()), 1);
    assert_eq!(image_index(&paths, &"zzz.png".to_string()), 0);
    let empty: Vec<String> = Vec::new();
    assert_eq!(image_index(&empty, &"a.png".to_string()), 0);
}

#[test]
fn renamed_path_keeps_directory_and_extension() {
    assert_eq!(renamed_path("C:\\pics\\a.jpg", "b").unwrap(), "C:\\pics\\b.jpg");
    // the new name's own extension is replaced by the old one
    assert_eq!(renamed_path("C:\\pics\\a.jpg", "b.png").unwrap(), "C:\\pics\\b.jpg");
    // no old extension: the new name is taken as given
    assert_eq!(renamed_path("/data/oldname", "newname").unwrap(), "/data/newname");
    // a bare file name stays bare
    assert_eq!(renamed_path("a.gif", "b").unwrap(), "b.gif");
}

#[test]
fn renamed_path_rejects_empty_source() {
    assert_eq!(renamed_path("", "b").unwrap_err(), "Invalid path");
}

#[test]
fn path_helpers_split_names() {
    assert_eq!(base_name("C:\\a\\b\\c.txt"), "c.txt");
    assert_eq!(base_name("/x/y/z"), "z");
    assert_eq!(base_name("plain"), "plain");
    assert_eq!(dir_prefix("C:\\a\\b\\c.txt"), "C:\\a\\b\\");
    assert_eq!(dir_prefix("plain"), "");
    assert_eq!(stem_of("archive.tar.gz"), "archive.tar");
    assert_eq!(stem_of("noext"), "noext");
    assert_eq!(stem_of(".hidden"), ".hidden");
    assert_eq!(trim_nuls("abc\0\0"), "abc");
    assert_eq!(trim_nuls("\0\0"), "");
    assert_eq!(trim_nuls("abc"), "abc");
}
