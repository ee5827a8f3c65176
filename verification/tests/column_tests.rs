use airprowl::subghz::{freq_to_band, SweepPos};
use airprowl::util::fixed_width;

#[test]
fn columns_are_cut_or_padded_to_their_cells() {
    assert_eq!(fixed_width("abc", 5), "abc  ");
    assert_eq!(fixed_width("abcdef", 4), "abcd");
    assert_eq!(fixed_width("", 3), "   ");
    assert_eq!(fixed_width("abc", 0), "");
}

#[test]
fn wide_glyphs_take_two_cells() {
    // Three double-width characters in five cells: two fit, one space pads.
    assert_eq!(fixed_width("日本語", 5), "日本 ");
    assert_eq!(fixed_width("日本語", 6), "日本語");
    assert_eq!(fixed_width("a📡b", 3), "a📡");
    // Control characters take no cells.
    assert_eq!(fixed_width("a\tb", 3), "a\tb ");
}

#[test]
fn every_swept_frequency_is_named_after_its_band() {
    let labels = ["315 MHz", "433 MHz", "868 MHz", "915 MHz"];
    let mut p = SweepPos::start();
    let mut seen = 0;
    loop {
        assert_eq!(freq_to_band(p.freq_hz), labels[p.range]);
        p.advance();
        seen += 1;
        if p.range == 0 && p.freq_hz == 312_000_000 {
            break;
        }
    }
    // 31 + 51 + 21 + 53 frequencies in the four ranges.
    assert_eq!(seen, 156);
}
