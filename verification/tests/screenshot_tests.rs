use heart_portal::screenshot::{
    default_screenshot_path, display_path, parse_png_dimensions, parse_region, powershell_capture_script,
    powershell_single_quoted, CaptureRegion,
};

#[test]
fn parses_full_region() {
    assert!(matches!(parse_region("full").unwrap(), CaptureRegion::Full));
}

#[test]
fn parses_rect_region() {
    let region = parse_region("10,20,300,400").unwrap();
    assert!(matches!(
        region,
        CaptureRegion::Rect { x: 10, y: 20, width: 300, height: 400 }
    ));
}

#[test]
fn rejects_window_region() {
    assert!(parse_region("window").is_err());
}

#[test]
fn rejects_non_positive_rect() {
    assert!(parse_region("0,0,0,10").is_err());
    assert!(parse_region("1,2,3").is_err());
}

#[test]
fn parses_png_dimensions() {
    let mut bytes = vec![0; 24];
    bytes[..8].copy_from_slice(b"\x89PNG\r\n\x1a\n");
    bytes[12..16].copy_from_slice(b"IHDR");
    bytes[16..20].copy_from_slice(&640u32.to_be_bytes());
    bytes[20..24].copy_from_slice(&480u32.to_be_bytes());
    assert_eq!(parse_png_dimensions(&bytes), Some((640, 480)));
}

#[test]
fn rejects_short_or_foreign_png_headers() {
    assert_eq!(parse_png_dimensions(&[0u8; 10]), None);
    let mut bytes = vec![0; 24];
    bytes[..8].copy_from_slice(b"\x89PNG\r\n\x1a\n");
    bytes[12..16].copy_from_slice(b"IDAT");
    assert_eq!(parse_png_dimensions(&bytes), None);
}

#[test]
fn powershell_quotes_paths() {
    assert_eq!(
        powershell_single_quoted(r"C:\Users\Being's\shot.png"),
        r"'C:\Users\Being''s\shot.png'"
    );
}

#[test]
fn windows_rect_script_contains_region_and_png_save() {
    let script = powershell_capture_script(
        r"C:\tmp\shot.png",
        &CaptureRegion::Rect { x: 10, y: 20, width: 300, height: 400 },
    );
    assert!(script.contains("CopyFromScreen(10, 20, 0, 0"));
    assert!(script.contains("System.Drawing.Size(300, 400)"));
    assert!(script.contains("[System.Drawing.Imaging.ImageFormat]::Png"));
}

#[test]
fn default_path_names_the_millisecond() {
    let p = default_screenshot_path(1234);
    assert!(p.contains("1234"));
}

#[test]
fn saved_paths_are_shown_relative_to_the_workspace() {
    assert_eq!(display_path("/w/.screenshots/a.png", "/w", None), ".screenshots/a.png");
    assert_eq!(display_path("/w", "/w", None), ".");
    assert_eq!(display_path("/real/w/a.png", "/w", Some("/real/w")), "a.png");
    assert_eq!(display_path("/elsewhere/a.png", "/w", Some("/real/w")), "/elsewhere/a.png");
    assert_eq!(display_path("/w2/a.png", "/w", None), "/w2/a.png");
}
