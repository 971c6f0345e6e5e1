use codex_linux::screenshot::{
    capture_error_message, capture_failure_message, capture_from_png, file_uri_to_path, percent_decode, png_dimensions, portal_request_path,
    request_token, screenshot_capture, temp_png_file_name, unique_suffix, CaptureError, PngError,
    UriError,
};
use std::path::PathBuf;

fn sample_png(width: u32, height: u32) -> Vec<u8> {
    let mut png = Vec::new();
    png.extend_from_slice(b"\x89PNG\r\n\x1a\n");
    png.extend_from_slice(&13_u32.to_be_bytes());
    png.extend_from_slice(b"IHDR");
    png.extend_from_slice(&width.to_be_bytes());
    png.extend_from_slice(&height.to_be_bytes());
    png.extend_from_slice(&[8, 6, 0, 0, 0]);
    png
}

#[test]
fn decodes_file_uri_percent_escapes() {
    assert_eq!(
        PathBuf::from(file_uri_to_path("file:///tmp/Codex%20Screenshot.png").unwrap()),
        PathBuf::from("/tmp/Codex Screenshot.png")
    );
}

#[test]
fn request_token_is_portal_safe() {
    let nanos = std::time::SystemTime::now()
        .duration_since(std::time::UNIX_EPOCH)
        .map(|duration| duration.as_nanos())
        .unwrap_or_default();
    let token = request_token(&unique_suffix(31337, nanos));
    assert!(token.starts_with("codex_"));
    assert!(token.chars().all(|c| c.is_ascii_alphanumeric() || c == '_'));
}

#[test]
fn reads_png_dimensions_from_ihdr() {
    let png = sample_png(3840, 1080);
    assert_eq!(png_dimensions(&png).unwrap(), (3840, 1080));
}

#[test]
fn request_token_replaces_every_dash() {
    assert_eq!(request_token("12-34-56"), "codex_12_34_56");
    assert_eq!(request_token(""), "codex_");
}

#[test]
fn png_dimensions_rejects_short_input() {
    let png = sample_png(3840, 1080);
    assert_eq!(png_dimensions(&png[..23]), Err(PngError::NotPng));
    assert_eq!(png_dimensions(&[]), Err(PngError::NotPng));
}

#[test]
fn png_dimensions_rejects_wrong_signature_or_chunk() {
    let mut png = sample_png(10, 10);
    png[1] = b'J';
    assert_eq!(png_dimensions(&png), Err(PngError::NotPng));
    let mut png = sample_png(10, 10);
    png[12..16].copy_from_slice(b"IDAT");
    assert_eq!(png_dimensions(&png), Err(PngError::NotPng));
}

#[test]
fn png_dimensions_rejects_zero_size() {
    let png = sample_png(0, 1080);
    assert_eq!(
        png_dimensions(&png),
        Err(PngError::InvalidDimensions { width: 0, height: 1080 })
    );
    let png = sample_png(7, 0);
    assert_eq!(
        png_dimensions(&png),
        Err(PngError::InvalidDimensions { width: 7, height: 0 })
    );
}

#[test]
fn png_dimensions_reads_big_endian() {
    let png = sample_png(0x0102_0304, 0xFFFF_FFFF);
    assert_eq!(png_dimensions(&png), Ok((0x0102_0304, 0xFFFF_FFFF)));
}

#[test]
fn file_uri_refuses_other_schemes() {
    assert_eq!(
        file_uri_to_path("https://example.com/a.png"),
        Err(UriError::Unsupported { uri: "https://example.com/a.png".to_string() })
    );
    assert_eq!(
        file_uri_to_path("file:/tmp/a.png"),
        Err(UriError::Unsupported { uri: "file:/tmp/a.png".to_string() })
    );
}

#[test]
fn percent_decode_edge_cases() {
    assert_eq!(percent_decode("a%2Fb"), "a/b");
    assert_eq!(percent_decode("a%2fb"), "a/b");
    assert_eq!(percent_decode("%+9x"), "\t".to_string() + "x");
    assert_eq!(percent_decode("100%"), "100%");
    assert_eq!(percent_decode("%4"), "%4");
    assert_eq!(percent_decode("%zz"), "%zz");
    assert_eq!(percent_decode("%C3%A9t%C3%A9"), "été");
    assert_eq!(percent_decode("%FF"), "\u{FFFD}");
    assert_eq!(percent_decode("plain"), "plain");
}

#[test]
fn portal_request_path_sanitizes_unique_name() {
    assert_eq!(
        portal_request_path(":1.234", "codex_1_2"),
        "/org/freedesktop/portal/desktop/request/1_234/codex_1_2"
    );
    assert_eq!(
        portal_request_path("::a.b.c", "t"),
        "/org/freedesktop/portal/desktop/request/a_b_c/t"
    );
}

#[test]
fn temp_png_file_name_format() {
    assert_eq!(
        temp_png_file_name("gnome-shell", "42-99"),
        "codex-computer-use-gnome-shell-42-99.png"
    );
}

#[test]
fn capture_from_png_embeds_base64_data_url() {
    let png = sample_png(3840, 1080);
    let capture = capture_from_png(&png, "gnome-shell").unwrap();
    assert_eq!(capture.mime_type, "image/png");
    assert_eq!(
        capture.data_url,
        "data:image/png;base64,iVBORw0KGgoAAAANSUhEUgAADwAAAAQ4CAYAAAA="
    );
    assert_eq!(capture.source, "gnome-shell");
    assert_eq!((capture.width, capture.height), (3840, 1080));
}

#[test]
fn capture_from_png_refuses_empty_and_invalid_files() {
    assert_eq!(capture_from_png(&[], "x").unwrap_err(), CaptureError::EmptyFile);
    assert_eq!(
        capture_from_png(b"not a png", "x").unwrap_err(),
        CaptureError::Png(PngError::NotPng)
    );
    let png = sample_png(0, 0);
    assert_eq!(
        capture_from_png(&png, "x").unwrap_err(),
        CaptureError::Png(PngError::InvalidDimensions { width: 0, height: 0 })
    );
}

#[test]
fn screenshot_capture_builds_record() {
    let c = screenshot_capture("QUJD", "xdg-desktop-portal", 1, 2);
    assert_eq!(c.data_url, "data:image/png;base64,QUJD");
    assert_eq!(c.source, "xdg-desktop-portal");
    assert_eq!((c.width, c.height), (1, 2));
}

#[test]
fn unique_suffix_is_pid_dash_nanos() {
    assert_eq!(unique_suffix(4242, 1_713_456_789_123_456_789), "4242-1713456789123456789");
    assert_eq!(unique_suffix(0, 0), "0-0");
    assert_eq!(unique_suffix(u32::MAX, u128::MAX), format!("{}-{}", u32::MAX, u128::MAX));
}

#[test]
fn capture_messages() {
    assert_eq!(
        capture_error_message(CaptureError::EmptyFile, "/tmp/a.png"),
        "screenshot file was empty: /tmp/a.png"
    );
    assert_eq!(
        capture_error_message(CaptureError::Png(PngError::NotPng), "/tmp/a.png"),
        "screenshot file was not a valid PNG"
    );
    assert_eq!(
        capture_error_message(
            CaptureError::Png(PngError::InvalidDimensions { width: 0, height: 1080 }),
            "/tmp/a.png"
        ),
        "screenshot PNG had invalid dimensions 0x1080"
    );
    assert_eq!(
        capture_failure_message("no shell", "denied"),
        "GNOME Shell screenshot failed: no shell; XDG portal screenshot failed: denied"
    );
}
