use heightmap::text::trim;
use heightmap::units::{fmt_bricks_flats, parse_bricks_flats};

#[test]
fn brickadia_height_bricks_flats_round_trip() {
    // Format: bricks + flats, suppressing zero parts.
    assert_eq!(fmt_bricks_flats(7), "2b 1f");
    assert_eq!(fmt_bricks_flats(3), "1b");
    assert_eq!(fmt_bricks_flats(2), "2f");
    assert_eq!(fmt_bricks_flats(0), "0f");
    // Parse: spaced, space-LESS, single units, bare flats, and rejects junk.
    assert_eq!(parse_bricks_flats("2b 1f"), Some(7));
    assert_eq!(parse_bricks_flats("2b1f"), Some(7), "space-less compound must parse");
    assert_eq!(parse_bricks_flats("1b"), Some(3));
    assert_eq!(parse_bricks_flats("2f"), Some(2));
    assert_eq!(parse_bricks_flats("5"), Some(5));
    assert_eq!(parse_bricks_flats("garbage"), None);
    assert_eq!(parse_bricks_flats("3 b"), None, "number then space then unit is junk");
    // Round-trip through format isn't required, but parse∘fmt preserves count.
    assert_eq!(parse_bricks_flats(&fmt_bricks_flats(7)), Some(7));

    // Signed (the Stamp peak digs craters): the sign prints ONCE over the
    // whole magnitude and round-trips through parse, so a negative peak typed
    // or dragged shows and reads back the same brick stack.
    assert_eq!(fmt_bricks_flats(-7), "-2b 1f");
    assert_eq!(fmt_bricks_flats(-3), "-1b");
    assert_eq!(fmt_bricks_flats(-2), "-2f");
    assert_eq!(parse_bricks_flats("-2b 1f"), Some(-7), "leading - negates the whole");
    assert_eq!(parse_bricks_flats("-5"), Some(-5), "bare negative flats");
    assert_eq!(parse_bricks_flats(&fmt_bricks_flats(-7)), Some(-7), "negative round-trip");
    assert_eq!(parse_bricks_flats("-"), None, "a lone minus is junk");
}

#[test]
fn extreme_heights_round_trip() {
    for n in [i64::MIN, i64::MIN + 1, -1, 0, 1, 999_999, i64::MAX] {
        assert_eq!(parse_bricks_flats(&fmt_bricks_flats(n)), Some(n));
    }
}

#[test]
fn junk_heights_are_refused() {
    for text in ["", "b", "1b 2", "1f 2b", "1b  2f", "1b f", "--1", "1.5b", "99999999999999999999"] {
        assert_eq!(parse_bricks_flats(text), None, "{text}");
    }
}

#[test]
fn white_space_is_trimmed_at_both_ends() {
    assert_eq!(trim("  two words \t\n"), "two words");
    assert_eq!(trim("\u{3000}\u{A0}x\u{2003}"), "x");
    assert_eq!(trim(" \r\n "), "");
    assert_eq!(trim("\u{200B}x"), "\u{200B}x", "a zero-width space is no white space");
    for n in 0..=0xFFFFu32 {
        if let Some(c) = char::from_u32(n) {
            let text: String = [c, 'x', c].iter().collect();
            assert_eq!(trim(&text), text.trim(), "code point {n:#x}");
        }
    }
}
