use rwinscp::app::{
    breadcrumbs, ellipsize, fits_terminal, human_size, join_path, parent_path, relative_time_secs, Direction,
    TransferRecord, TransferState,
};
use rwinscp::history::{detail_line_at, format_duration};

fn float_human_size(bytes: u64) -> String {
    const UNITS: [&str; 5] = ["B", "KB", "MB", "GB", "TB"];
    let mut size = bytes as f64;
    let mut unit = 0;
    while size >= 1024.0 && unit < UNITS.len() - 1 {
        size /= 1024.0;
        unit += 1;
    }
    if unit == 0 {
        format!("{bytes} B")
    } else {
        format!("{size:.1} {}", UNITS[unit])
    }
}

#[test]
fn human_sizes() {
    assert_eq!(human_size(0), "0 B");
    assert_eq!(human_size(1023), "1023 B");
    assert_eq!(human_size(1024), "1.0 KB");
    assert_eq!(human_size(1536), "1.5 KB");
    assert_eq!(human_size(1_048_576), "1.0 MB");
    assert_eq!(human_size(u64::MAX), "16777216.0 TB");
}

#[test]
fn human_sizes_round_as_floats_do() {
    let mut samples: Vec<u64> = vec![1280, 1126, 1127, 1_310_720, 5_368_709_120, 1 << 53];
    samples.push((1 << 53) + 1);
    samples.push((1 << 60) + 12345);
    samples.push(u64::MAX - 1);
    let mut x: u64 = 1;
    for _ in 0..2000 {
        x = x.wrapping_mul(6364136223846793005).wrapping_add(1442695040888963407);
        samples.push(x >> (x % 64));
        samples.push(1024 + (x % 200_000));
    }
    for n in samples {
        assert_eq!(human_size(n), float_human_size(n), "bytes = {n}");
    }
}

#[test]
fn joining_paths() {
    assert_eq!(join_path("/", "docs"), "/docs");
    assert_eq!(join_path("", "/docs"), "/docs");
    assert_eq!(join_path("/home/me/", "//notes.txt"), "/home/me/notes.txt");
    assert_eq!(join_path("rel", "x"), "rel/x");
}

#[test]
fn parents_of_paths() {
    assert_eq!(parent_path("/home/me/notes.txt"), "/home/me");
    assert_eq!(parent_path("/home/"), "/");
    assert_eq!(parent_path("/"), "/");
    assert_eq!(parent_path("file"), "/");
    assert_eq!(parent_path("a/b//"), "a");
}

#[test]
fn parent_undoes_join() {
    for dir in ["/", "", "/a", "/a/b/", "rel", "x//y"] {
        let joined = join_path(dir, "name");
        let expected = {
            let d = dir.trim_end_matches('/');
            if d.is_empty() { "/".to_owned() } else { d.to_owned() }
        };
        assert_eq!(parent_path(&joined), expected, "dir = {dir:?}");
    }
}

#[test]
fn relative_times() {
    assert_eq!(relative_time_secs(0), "just now");
    assert_eq!(relative_time_secs(59), "just now");
    assert_eq!(relative_time_secs(60), "1m ago");
    assert_eq!(relative_time_secs(3599), "59m ago");
    assert_eq!(relative_time_secs(3600), "1h ago");
    assert_eq!(relative_time_secs(86_399), "23h ago");
    assert_eq!(relative_time_secs(86_400 * 3), "3d ago");
}

#[test]
fn ellipsizing() {
    assert_eq!(ellipsize("short", 10), "short");
    assert_eq!(ellipsize("exactly", 7), "exactly");
    assert_eq!(ellipsize("longer text", 5), "long\u{2026}");
    assert_eq!(ellipsize("abc", 0), "\u{2026}");
    assert_eq!(ellipsize("h\u{e9}llo w\u{f6}rld", 4), "h\u{e9}l\u{2026}");
}

#[test]
fn durations() {
    assert_eq!(format_duration(0), "0s");
    assert_eq!(format_duration(59), "59s");
    assert_eq!(format_duration(61), "1m 01s");
    assert_eq!(format_duration(3599), "59m 59s");
    assert_eq!(format_duration(3600), "1h 00m");
    assert_eq!(format_duration(7 * 3600 + 5 * 60 + 9), "7h 05m");
}

fn record(bytes: u64, total: Option<u64>, state: TransferState) -> TransferRecord {
    TransferRecord {
        label: "/f".to_owned(),
        host: "srv".to_owned(),
        direction: Direction::Download,
        bytes,
        total,
        state,
        at: std::time::Instant::now(),
    }
}

#[test]
fn time_left_at_the_average_rate() {
    let r = record(100, Some(1000), TransferState::Running);
    assert_eq!(r.eta_after(1_000_000_000), Some(9));
    assert_eq!(r.eta_after(1_500_000_000), Some(14));
    assert_eq!(r.eta_after(0), None);
    assert_eq!(record(0, Some(10), TransferState::Running).eta_after(5), None);
    assert_eq!(record(10, Some(10), TransferState::Running).eta_after(5), None);
    assert_eq!(record(10, None, TransferState::Running).eta_after(5), None);
    assert_eq!(record(1, Some(11), TransferState::Done).eta_after(5), None);
    assert_eq!(record(1, Some(u64::MAX), TransferState::Running).eta_after(u64::MAX), Some(u64::MAX));
    assert_eq!(Direction::Upload.label(), "up");
    assert_eq!(Direction::Download.label(), "down");
}

#[test]
fn history_detail_lines() {
    let r = record(2048, Some(4096), TransferState::Running);
    assert_eq!(
        detail_line_at(&r, 2_000_000_000, 2),
        "srv \u{b7} down \u{b7} 2.0 KB / 4.0 KB \u{b7} 1.0 KB/s \u{b7} 2s left"
    );
    let r = record(0, None, TransferState::Running);
    assert_eq!(detail_line_at(&r, 2_000_000_000, 2), "srv \u{b7} down \u{b7} 0 B");
    let r = record(5, None, TransferState::Done);
    assert_eq!(detail_line_at(&r, 0, 120), "srv \u{b7} down \u{b7} 5 B \u{b7} 2m ago");
}

#[test]
fn going_up_from_an_opened_entry_returns_to_its_directory() {
    for dir in ["/home/me", "/", "", "/srv"] {
        let joined = join_path(dir, "photos");
        let expected = if dir.is_empty() || dir == "/" { "/" } else { dir };
        assert_eq!(parent_path(&joined), expected);
    }
}

#[test]
fn terminal_fit_follows_character_boundaries() {
    assert!(fits_terminal("abc", "def"));
    let wide = "\u{e9}".repeat(60_001);
    assert!(fits_terminal(&wide, ""));
    assert!(!fits_terminal(&wide, "a"));
    assert!(fits_terminal(&wide, "ab"));
}

#[test]
fn breadcrumbs_open_each_directory_along_the_path() {
    let crumbs = breadcrumbs("/home//user/docs/");
    assert_eq!(
        crumbs,
        vec![
            ("home".to_string(), "/home".to_string()),
            ("user".to_string(), "/home/user".to_string()),
            ("docs".to_string(), "/home/user/docs".to_string()),
        ]
    );
    assert!(breadcrumbs("/").is_empty());
    assert!(breadcrumbs("").is_empty());
    assert_eq!(breadcrumbs("tmp"), vec![("tmp".to_string(), "/tmp".to_string())]);
}
