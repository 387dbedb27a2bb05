use secure_send::ui::FileExistsChoice;
use secure_send::util::{
    format_bytes, is_interrupted, numbered_name, resolve_destination, sanitize_filename, DestinationAction,
    DestinationPhase,
};

#[test]
fn formats_bytes() {
    assert_eq!(format_bytes(0), "0 B");
    assert_eq!(format_bytes(512), "512 B");
    assert_eq!(format_bytes(1536), "1.5 KB");
    assert_eq!(format_bytes(5 * 1024 * 1024), "5.0 MB");
}

#[test]
fn sanitizes_paths() {
    assert_eq!(sanitize_filename("../../etc/passwd"), "passwd");
    assert_eq!(sanitize_filename("a/b/c.txt"), "c.txt");
    assert_eq!(sanitize_filename(r"C:\Windows\x.dll"), "x.dll");
    assert_eq!(sanitize_filename("   "), "received.bin");
    assert_eq!(sanitize_filename(".."), "received.bin");
}

/// The floating-point formatting the byte counts are meant to reproduce.
fn format_bytes_with_floats(bytes: u64) -> String {
    const UNITS: &[&str] = &["B", "KB", "MB", "GB", "TB"];
    let mut value = bytes as f64;
    let mut unit = 0;
    while value >= 1024.0 && unit < UNITS.len() - 1 {
        value /= 1024.0;
        unit += 1;
    }
    if unit == 0 {
        format!("{bytes} {}", UNITS[0])
    } else {
        format!("{value:.1} {}", UNITS[unit])
    }
}

#[test]
fn format_bytes_units_and_rounding() {
    assert_eq!(format_bytes(1023), "1023 B");
    assert_eq!(format_bytes(1024), "1.0 KB");
    // 1.25 KB: a tie, rounded to even.
    assert_eq!(format_bytes(1280), "1.2 KB");
    // 1.75 KB: a tie, rounded to even.
    assert_eq!(format_bytes(1792), "1.8 KB");
    assert_eq!(format_bytes(1024 * 1024 - 1), "1024.0 KB");
    assert_eq!(format_bytes(1024 * 1024 * 1024), "1.0 GB");
    assert_eq!(format_bytes(1u64 << 40), "1.0 TB");
    assert_eq!(format_bytes(u64::MAX), "16777216.0 TB");
}

#[test]
fn format_bytes_matches_float_formatting() {
    let mut samples: Vec<u64> = vec![0, 1, 1000, 1023, 1024, 1025, 1126, 1127, 1280, 10239, 10240, 123456789];
    for shift in 0..64 {
        let p = 1u64 << shift;
        samples.push(p);
        samples.push(p - 1);
        samples.push(p.wrapping_add(p / 3));
        samples.push(p.wrapping_mul(5) / 4);
    }
    let mut x: u64 = 0x9e37_79b9_7f4a_7c15;
    for _ in 0..2000 {
        x ^= x << 13;
        x ^= x >> 7;
        x ^= x << 17;
        samples.push(x >> (x % 64));
    }
    samples.push(u64::MAX);
    samples.push(u64::MAX - 1);
    samples.push((1u64 << 53) + 1);
    for b in samples {
        assert_eq!(format_bytes(b), format_bytes_with_floats(b), "bytes = {b}");
    }
}

#[test]
fn sanitize_trims_whitespace_then_dots() {
    assert_eq!(sanitize_filename("  .hidden.  "), "hidden");
    assert_eq!(sanitize_filename("dir/ report.pdf "), "report.pdf");
    assert_eq!(sanitize_filename("name/"), "received.bin");
    assert_eq!(sanitize_filename(""), "received.bin");
    assert_eq!(sanitize_filename("..."), "received.bin");
    assert_eq!(sanitize_filename("a\\b/c\\d"), "d");
    assert_eq!(sanitize_filename("\u{3000}x\u{a0}"), "x");
    assert_eq!(sanitize_filename(". a"), " a");
}

#[test]
fn sanitized_names_are_bare() {
    for name in ["../x", "/", "\\", "a/..", "./.", "x/./", " / ", "ok.txt"] {
        let s = sanitize_filename(name);
        assert!(!s.is_empty());
        assert!(!s.contains('/') && !s.contains('\\'));
        assert!(s != "." && s != "..");
    }
}

#[test]
fn interrupts_are_recognised_in_the_chain() {
    let chain = vec!["failed to read".to_string(), "Interrupted".to_string()];
    assert!(is_interrupted(&chain));
    assert!(is_interrupted(&["Cancelled".to_string()]));
    assert!(!is_interrupted(&["interrupted".to_string(), "Cancelled!".to_string()]));
    assert!(!is_interrupted(&[]));
}

#[test]
fn numbered_names_keep_the_extension() {
    assert_eq!(numbered_name("photo.jpg", 1), "photo (1).jpg");
    assert_eq!(numbered_name("archive.tar.gz", 2), "archive.tar (2).gz");
    assert_eq!(numbered_name("README", 3), "README (3)");
    assert_eq!(numbered_name(".bashrc", 4), ".bashrc (4)");
    assert_eq!(numbered_name("x.", 10), "x (10).");
}

fn name_of(action: &DestinationAction) -> Option<&str> {
    match action {
        DestinationAction::CheckExists(n) | DestinationAction::AskUser(n) | DestinationAction::Use(n) => Some(n),
        DestinationAction::Cancel => None,
    }
}

#[test]
fn destination_free_name_is_used() {
    let (mut resolver, first) = resolve_destination("../notes.txt");
    assert!(matches!(first, DestinationAction::CheckExists(ref n) if n == "notes.txt"));
    let next = resolver.on_exists(false);
    assert!(matches!(next, DestinationAction::Use(ref n) if n == "notes.txt"));
    assert_eq!(resolver.phase(), DestinationPhase::Finished);
}

#[test]
fn destination_rename_takes_first_free_number() {
    let (mut resolver, _) = resolve_destination("notes.txt");
    let ask = resolver.on_exists(true);
    assert!(matches!(ask, DestinationAction::AskUser(ref n) if n == "notes.txt"));
    let c1 = resolver.on_choice(FileExistsChoice::Rename);
    assert_eq!(name_of(&c1), Some("notes (1).txt"));
    assert!(matches!(c1, DestinationAction::CheckExists(_)));
    let c2 = resolver.on_exists(true);
    assert!(matches!(c2, DestinationAction::CheckExists(ref n) if n == "notes (2).txt"));
    let done = resolver.on_exists(false);
    assert!(matches!(done, DestinationAction::Use(ref n) if n == "notes (2).txt"));
}

#[test]
fn destination_overwrite_and_cancel() {
    let (mut a, _) = resolve_destination("x.bin");
    a.on_exists(true);
    assert!(matches!(a.on_choice(FileExistsChoice::Overwrite), DestinationAction::Use(ref n) if n == "x.bin"));
    let (mut b, _) = resolve_destination("x.bin");
    b.on_exists(true);
    assert!(matches!(b.on_choice(FileExistsChoice::Cancel), DestinationAction::Cancel));
    assert_eq!(b.phase(), DestinationPhase::Finished);
}
