use laundry_machine_mqtt::segments::seven_segment_to_number;

fn glyph(code: u32) -> Vec<bool> {
    (0..7).map(|i| (code >> i) & 1 == 1).collect()
}

#[test]
fn standard_glyphs_show_their_digits() {
    let t = true;
    let f = false;
    assert_eq!(seven_segment_to_number(&[t, t, t, t, t, t, f]), Some(0));
    assert_eq!(seven_segment_to_number(&[f, t, t, f, f, f, f]), Some(1));
    assert_eq!(seven_segment_to_number(&[t, t, f, t, t, f, t]), Some(2));
    assert_eq!(seven_segment_to_number(&[t, t, t, t, f, f, t]), Some(3));
    assert_eq!(seven_segment_to_number(&[f, t, t, f, f, t, t]), Some(4));
    assert_eq!(seven_segment_to_number(&[t, f, t, t, f, t, t]), Some(5));
    assert_eq!(seven_segment_to_number(&[t, f, t, t, t, t, t]), Some(6));
    assert_eq!(seven_segment_to_number(&[t, t, t, f, f, f, f]), Some(7));
    assert_eq!(seven_segment_to_number(&[t, t, t, t, t, t, t]), Some(8));
    assert_eq!(seven_segment_to_number(&[t, t, t, t, f, t, t]), Some(9));
}

#[test]
fn blank_glyph_shows_zero() {
    assert_eq!(seven_segment_to_number(&[false; 7]), Some(0));
}

#[test]
fn single_top_segment_shows_nothing() {
    let t = true;
    let f = false;
    assert_eq!(seven_segment_to_number(&[t, f, f, f, f, f, f]), None);
}

#[test]
fn runs_of_other_lengths_show_nothing() {
    assert_eq!(seven_segment_to_number(&[]), None);
    assert_eq!(seven_segment_to_number(&[false; 6]), None);
    assert_eq!(seven_segment_to_number(&[false; 8]), None);
    assert_eq!(seven_segment_to_number(&[true; 14]), None);
}

#[test]
fn eleven_of_the_128_glyphs_show_a_digit() {
    let known: Vec<u32> = (0..128)
        .filter(|&code| seven_segment_to_number(&glyph(code)).is_some())
        .collect();
    assert_eq!(known, vec![0, 6, 7, 63, 79, 91, 102, 109, 111, 125, 127]);
    assert_eq!(128 - known.len(), 117);
}

#[test]
fn zero_has_two_glyphs_and_every_other_digit_one() {
    for digit in 0..10 {
        let count = (0..128)
            .filter(|&code| seven_segment_to_number(&glyph(code)) == Some(digit))
            .count();
        assert_eq!(count, if digit == 0 { 2 } else { 1 });
    }
}

#[test]
fn no_glyph_shows_a_number_above_nine() {
    for code in 0..128 {
        if let Some(digit) = seven_segment_to_number(&glyph(code)) {
            assert!((0..=9).contains(&digit));
        }
    }
}
