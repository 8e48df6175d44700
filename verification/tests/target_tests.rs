use seam_carver::target::is_space_char;
use seam_carver::{parse_target_width, seams_to_remove, CarveError};

fn by_std(line: &str, current_width: usize) -> Option<usize> {
    match line.trim().parse::<u128>() {
        Ok(t) if 0 < t && t < current_width as u128 => Some(t as usize),
        _ => None,
    }
}

#[test]
fn seams_to_remove_is_the_difference_of_the_widths() {
    assert_eq!(seams_to_remove(10, 7), Ok(3));
    assert_eq!(seams_to_remove(10, 9), Ok(1));
    assert_eq!(seams_to_remove(10, 1), Ok(9));
    assert_eq!(seams_to_remove(2, 1), Ok(1));
    assert_eq!(seams_to_remove(usize::MAX, 1), Ok(usize::MAX - 1));
}

#[test]
fn seams_to_remove_rejects_a_target_that_is_not_smaller() {
    assert_eq!(seams_to_remove(10, 10), Err(CarveError::InvalidTarget));
    assert_eq!(seams_to_remove(10, 11), Err(CarveError::InvalidTarget));
    assert_eq!(seams_to_remove(10, usize::MAX), Err(CarveError::InvalidTarget));
}

#[test]
fn seams_to_remove_rejects_target_zero() {
    assert_eq!(seams_to_remove(10, 0), Err(CarveError::InvalidTarget));
    assert_eq!(seams_to_remove(0, 0), Err(CarveError::InvalidTarget));
}

#[test]
fn seams_to_remove_has_no_target_for_a_single_column() {
    assert_eq!(seams_to_remove(1, 0), Err(CarveError::InvalidTarget));
    assert_eq!(seams_to_remove(1, 1), Err(CarveError::InvalidTarget));
    assert_eq!(seams_to_remove(1, 2), Err(CarveError::InvalidTarget));
}

#[test]
fn parse_reads_a_plain_number() {
    assert_eq!(parse_target_width("300", 640), Ok(300));
    assert_eq!(parse_target_width("1", 640), Ok(1));
    assert_eq!(parse_target_width("639", 640), Ok(639));
    assert_eq!(parse_target_width("7", 8), Ok(7));
}

#[test]
fn parse_ignores_white_space_around_the_number() {
    assert_eq!(parse_target_width("300\n", 640), Ok(300));
    assert_eq!(parse_target_width("300\r\n", 640), Ok(300));
    assert_eq!(parse_target_width("  \t300  ", 640), Ok(300));
    assert_eq!(parse_target_width("\u{a0}300\u{3000}", 640), Ok(300));
    assert_eq!(parse_target_width("\u{2003}12\u{85}\u{2028}", 640), Ok(12));
}

#[test]
fn parse_takes_a_plus_sign_and_leading_zeros() {
    assert_eq!(parse_target_width("+300", 640), Ok(300));
    assert_eq!(parse_target_width(" +5\n", 640), Ok(5));
    assert_eq!(parse_target_width("007", 640), Ok(7));
    assert_eq!(parse_target_width("+000000000000000000000000000000000012", 640), Ok(12));
}

#[test]
fn parse_rejects_what_is_not_a_number() {
    for line in [
        "", " ", "\n", "abc", "12a", "a12", "1 2", "1.5", "1e3", "-5", "+", "+ 5", "++5", "5+",
        "1_000", "0x10", "١٢", "１２", "12\u{200b}", "\u{feff}12",
    ] {
        assert_eq!(parse_target_width(line, 640), Err(CarveError::InvalidTarget), "{:?}", line);
    }
}

#[test]
fn parse_rejects_zero() {
    assert_eq!(parse_target_width("0", 640), Err(CarveError::InvalidTarget));
    assert_eq!(parse_target_width("000", 640), Err(CarveError::InvalidTarget));
    assert_eq!(parse_target_width("+0\n", 640), Err(CarveError::InvalidTarget));
}

#[test]
fn parse_rejects_a_number_that_is_not_smaller() {
    assert_eq!(parse_target_width("640", 640), Err(CarveError::InvalidTarget));
    assert_eq!(parse_target_width("641", 640), Err(CarveError::InvalidTarget));
    assert_eq!(parse_target_width("6400", 640), Err(CarveError::InvalidTarget));
    assert_eq!(parse_target_width("1", 1), Err(CarveError::InvalidTarget));
    assert_eq!(parse_target_width("1", 0), Err(CarveError::InvalidTarget));
}

#[test]
fn parse_rejects_numbers_beyond_the_machine() {
    let huge = "340282366920938463463374607431768211456000";
    assert_eq!(parse_target_width(huge, usize::MAX), Err(CarveError::InvalidTarget));
    let max = usize::MAX.to_string();
    assert_eq!(parse_target_width(&max, usize::MAX), Err(CarveError::InvalidTarget));
    let below = (usize::MAX - 1).to_string();
    assert_eq!(parse_target_width(&below, usize::MAX), Ok(usize::MAX - 1));
}

#[test]
fn parse_agrees_with_trim_and_parse_of_std() {
    let pieces = ["", " ", "\n", "+", "-", "0", "1", "9", "12", "a", "\u{a0}", "\t", "63", "64"];
    for a in pieces {
        for b in pieces {
            for c in pieces {
                let line = format!("{}{}{}", a, b, c);
                assert_eq!(parse_target_width(&line, 64).ok(), by_std(&line, 64), "{:?}", line);
            }
        }
    }
}

#[test]
fn white_space_is_what_std_calls_white_space() {
    for code in 0u32..0x11000 {
        if let Some(c) = char::from_u32(code) {
            assert_eq!(is_space_char(c), c.is_whitespace(), "U+{:04X}", code);
        }
    }
}
