use countdown::format::format_remaining;
use countdown::render::Printer;
use countdown::span::Span;

fn text(secs: u64, millis: u32, mark: usize) -> (String, usize) {
    format_remaining(&Span::new(secs, millis * 1_000_000), mark)
}

#[test]
fn zero_is_zero_seconds() {
    assert_eq!(text(0, 0, 0), ("0s".to_string(), 0));
}

#[test]
fn one_week_shows_every_unit() {
    assert_eq!(text(604_800, 0, 0).0, "1w 0d 0h 0m 0s");
}

#[test]
fn units_start_at_largest_nonzero() {
    assert_eq!(text(59, 0, 0).0, "59s");
    assert_eq!(text(60, 0, 0).0, "1m 0s");
    assert_eq!(text(3723, 0, 0).0, "1h 2m 3s");
    assert_eq!(text(86_400 + 5, 0, 0).0, "1d 0h 0m 5s");
    assert_eq!(text(2 * 604_800 + 6 * 86_400 + 23 * 3600 + 59 * 60 + 59, 0, 0).0, "2w 6d 23h 59m 59s");
}

#[test]
fn fraction_drops_trailing_zeros() {
    assert_eq!(text(1, 500, 0), ("1.5s".to_string(), 1));
    assert_eq!(text(1, 50, 0), ("1.05s".to_string(), 2));
    assert_eq!(text(1, 1, 0), ("1.001s".to_string(), 3));
    assert_eq!(text(0, 120, 0), ("0.12s".to_string(), 2));
}

#[test]
fn fraction_keeps_digits_of_the_mark() {
    assert_eq!(text(2, 0, 3), ("2.000s".to_string(), 3));
    assert_eq!(text(2, 500, 2), ("2.50s".to_string(), 2));
    assert_eq!(text(2, 0, 1), ("2.0s".to_string(), 1));
    assert_eq!(text(2, 0, 7), ("2.000s".to_string(), 7));
}

#[test]
fn sub_millisecond_part_is_dropped() {
    assert_eq!(format_remaining(&Span::new(4, 999_999), 0).0, "4s");
    assert_eq!(format_remaining(&Span::new(4, 1_999_999), 0).0, "4.001s");
}

#[test]
fn largest_span_formats() {
    let (t, _) = format_remaining(&Span::new(u64::MAX, 999_999_999), 0);
    assert!(t.starts_with("30500568904943w "));
    assert!(t.ends_with(".999s"));
}

#[test]
fn one_s_and_no_outer_space() {
    for secs in [0u64, 1, 59, 60, 3599, 3600, 86_399, 86_400, 604_800, 1_000_000_000] {
        for millis in [0u32, 1, 10, 100, 999] {
            for mark in [0usize, 1, 2, 3] {
                let (t, _) = text(secs, millis, mark);
                assert_eq!(t.matches('s').count(), 1, "{}", t);
                assert!(t.ends_with('s'));
                assert_eq!(t.trim(), t);
            }
        }
    }
}

#[test]
fn different_millis_give_different_text() {
    for mark in [0usize, 1, 2, 3] {
        let mut seen = std::collections::HashSet::new();
        for ms in 0u64..5000 {
            let (t, _) = text(ms / 1000, (ms % 1000) as u32, mark);
            assert!(seen.insert(t));
        }
    }
}

#[test]
fn same_input_same_text() {
    let d = Span::new(90_061, 250_000_000);
    assert_eq!(format_remaining(&d, 1), format_remaining(&d, 1));
    assert_eq!(format_remaining(&d, 1).0, "1d 1h 1m 1.25s");
}

#[test]
fn decimals_never_shrink_over_a_run() {
    let mut p = Printer::new();
    let mut lines = Vec::new();
    for (s, ms) in [(1u64, 500u32), (1, 250), (1, 0), (0, 500), (0, 0)] {
        lines.push(p.render(&Span::new(s, ms * 1_000_000)));
    }
    assert_eq!(
        lines,
        vec!["\r1.5s", "\r1.25s", "\r1.00s", "\r0.50s", "\r0.00s"]
    );
    assert_eq!(p.max_decimals, 2);
}

#[test]
fn shorter_line_is_padded() {
    let mut p = Printer { prev_line: 10, max_decimals: 0 };
    let line = p.render(&Span::new(1, 500_000_000));
    assert_eq!(line, "\r1.5s      ");
    assert_eq!(p.prev_line, 4);
}

#[test]
fn overwrite_pads_and_records_length() {
    let mut p = Printer { prev_line: 10, max_decimals: 2 };
    let line = p.overwrite(&vec!['a', 'b', 'c', 'd']);
    assert_eq!(line, "\rabcd      ");
    assert_eq!(p.prev_line, 4);
    assert_eq!(p.max_decimals, 2);
    let line = p.overwrite(&vec!['x', 'y', 'z', 'w', 'v']);
    assert_eq!(line, "\rxyzwv");
    assert_eq!(p.prev_line, 5);
}
