//! The library's functions compared, over many inputs, with plain
//! implementations written directly against std.

use rinha_api::date::is_date_valid;
use rinha_api::query::url_decode;

fn reference_date(date: &str) -> bool {
    if date.len() != 10 || date.as_bytes()[4] != b'-' || date.as_bytes()[7] != b'-' {
        return false;
    }
    let y: i32 = match date[0..4].parse() {
        Ok(v) => v,
        _ => return false,
    };
    let m: u32 = match date[5..7].parse() {
        Ok(v) => v,
        _ => return false,
    };
    let d: u32 = match date[8..10].parse() {
        Ok(v) => v,
        _ => return false,
    };
    if y < 1800 || y > 9999 || m < 1 || m > 12 || d < 1 || d > 31 {
        return false;
    }
    if m == 2 {
        let leap = (y % 4 == 0 && y % 100 != 0) || y % 400 == 0;
        return if leap { d <= 29 } else { d <= 28 };
    }
    if matches!(m, 4 | 6 | 9 | 11) {
        return d <= 30;
    }
    true
}

fn reference_decode(s: &str) -> String {
    let mut out = String::with_capacity(s.len());
    let mut chars = s.bytes();
    while let Some(b) = chars.next() {
        if b == b'%' {
            let hi = chars.next().and_then(|c| (c as char).to_digit(16)).unwrap_or(0);
            let lo = chars.next().and_then(|c| (c as char).to_digit(16)).unwrap_or(0);
            out.push((hi as u8 * 16 + lo as u8) as char);
        } else if b == b'+' {
            out.push(' ');
        } else {
            out.push(b as char);
        }
    }
    out
}

#[test]
fn dates_agree_with_reference() {
    let years = ["1799", "1800", "1900", "2000", "2023", "2024", "9999", "+999", "-999", "0000", "19x0"];
    let months = ["00", "01", "02", "04", "06", "09", "11", "12", "13", "+2", "-2", "1a"];
    let days = ["00", "01", "28", "29", "30", "31", "32", "+9", "-1", "x1"];
    for y in years {
        for m in months {
            for d in days {
                let text = format!("{}-{}-{}", y, m, d);
                assert_eq!(is_date_valid(&text), reference_date(&text), "{}", text);
            }
        }
    }
}

#[test]
fn decoding_agrees_with_reference() {
    let parts = ["", "a", "+", "%", "%4", "%41", "%4g", "%g4", "%%", "é", "%e9", "%FF", "z"];
    for a in parts {
        for b in parts {
            for c in parts {
                let text = format!("{}{}{}", a, b, c);
                assert_eq!(url_decode(&text), reference_decode(&text), "{:?}", text);
            }
        }
    }
}
