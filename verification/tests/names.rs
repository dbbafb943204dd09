use manga_tui_core::double::{chapter_number_cmp, number_bits};
use manga_tui_core::formats::{extension, is_supported_archive, is_supported_image_name, LocalChapterFormat};
use manga_tui_core::natural::natural_cmp;
use manga_tui_core::numbering::{
    all_numbers, chapter_number_from_title, chapter_numbers_from_path, first_number, looks_like_volume_path,
    number_after_volume, title_from_path, volume_number_from_title,
};
use manga_tui_core::path::LocalPath;
use manga_tui_core::size::human_bytes;
use std::cmp::Ordering;

#[test]
fn natural_sort_orders_numbered_files() {
    let mut files = ["10.jpg", "2.jpg", "1.jpg"];
    files.sort_by(|a, b| natural_cmp(a, b));

    assert_eq!(["1.jpg", "2.jpg", "10.jpg"], files);
}

#[test]
fn natural_order_ignores_case_and_leading_zeros() {
    assert_eq!(Ordering::Equal, natural_cmp("Page 007", "page 7"));
    assert_eq!(Ordering::Less, natural_cmp("a9", "A10"));
    assert_eq!(Ordering::Greater, natural_cmp("b1", "a2"));
    assert_eq!(Ordering::Less, natural_cmp("chapter", "chapter 1"));
}

#[test]
fn parses_volume_and_chapter_numbers_from_names() {
    assert_eq!(Some("2".to_string()), volume_number_from_title("Vol. 2 Chapter 10"));
    assert_eq!(Some("10".to_string()), chapter_number_from_title("Vol. 2 Chapter 10"));

    let parsed = chapter_numbers_from_path(&LocalPath::new("Volume 03 - 012.cbz"), 1, None);

    assert_eq!(Some("03".to_string()), parsed.volume);
    assert_eq!("012", parsed.chapter);
    assert!(!looks_like_volume_path(&LocalPath::new("Volcano Arc")));
}

#[test]
fn volumes_are_recognized_by_their_names() {
    assert!(looks_like_volume_path(&LocalPath::new("/l/Vol 2")));
    assert!(looks_like_volume_path(&LocalPath::new("/l/v03")));
    assert!(looks_like_volume_path(&LocalPath::new("/l/vol.4")));
    assert!(looks_like_volume_path(&LocalPath::new("/l/The_Volume_1")));
    assert!(!looks_like_volume_path(&LocalPath::new("/l/Chapter 1")));
}

#[test]
fn numbers_are_found_in_text() {
    assert_eq!(Some("12.5".to_string()), first_number("ch 12.5 (v2)"));
    assert_eq!(None, first_number("none"));
    assert_eq!(vec!["12.5".to_string(), "2".to_string()], all_numbers("ch 12.5 (v2)"));
    assert_eq!(Some("7".to_string()), number_after_volume("3 - 7", &Some("3".to_string())));
}

#[test]
fn fallback_number_is_used_where_a_name_holds_none() {
    let parsed = chapter_numbers_from_path(&LocalPath::new("/l/Prologue"), 4, Some("1".to_string()));

    assert_eq!("4", parsed.chapter);
    assert_eq!(Some("1".to_string()), parsed.volume);
}

#[test]
fn titles_have_spaces_for_underscores_and_hyphens() {
    assert_eq!("One Shot", title_from_path(&LocalPath::new("/l/One Shot")));
    assert_eq!("Local Manga", title_from_path(&LocalPath::new("/")));
}

#[test]
fn extensions_are_compared_in_lower_case() {
    assert_eq!(Some("cbz".to_string()), extension(&LocalPath::new("/l/A.CBZ")));
    assert_eq!(None, extension(&LocalPath::new("/l/.cbz")));
    assert!(is_supported_archive(&LocalPath::new("/l/A.Epub")));
    assert!(!is_supported_archive(&LocalPath::new("/l/A.pdf")));
    assert!(is_supported_image_name("a/b.AVIF"));
    assert!(!is_supported_image_name("a/b.svg"));
    assert_eq!(
        LocalChapterFormat::Cbr,
        LocalChapterFormat::try_from_path(&LocalPath::new("/l/x.rar")).unwrap()
    );
    assert_eq!(
        "Unsupported local archive: /l/x.7z",
        LocalChapterFormat::try_from_path(&LocalPath::new("/l/x.7z")).unwrap_err().message()
    );
}

#[test]
fn number_bits_are_those_of_doubles() {
    for text in [
        "0", "1", "1.0", "007", "10.", "2.5", "0.1", "0.3", "123456789.987654321", "9007199254740993",
        "4.9406564584124654417656879286822137e0", "0.000000000000000000000000000000000000000000000000001",
        "179769313486231580793728971405303415079934132710037826936173778980444968292764750946649017977587207",
        "2.2250738585072011", "1.7976931348623157",
    ] {
        assert_eq!(text.parse::<f64>().ok().map(f64::to_bits), number_bits(text), "{text}");
    }
    for text in [
        "inf", "-inf", "+Infinity", "INFINITY", "infinit", "nan", "NaN", "-nan", "+nan", "nano", "1e5", "1E5",
        "-1", "+2", "-0", "--1", "+-1", "1e", "e5", "1e+", "1e-3", "1e+3", ".5", "5.", ".", "-.5e2", "1.5e-7x", " 1",
        "abc", "none", "1_0", "0x10", "1e400", "-1e400", "1e-400", "-1e-400", "0e999999999999999999999999999999",
        "1e999999999999999999999999999999", "1e-999999999999999999999999999999", "123e-2", "1e22", "1e23",
        "4.9e-324", "2.4e-324", "2.5e-324", "1.7976931348623157e308", "1.7976931348623159e308", "12345678901234567890e-10",
        "٣",
    ] {
        assert_eq!(text.parse::<f64>().ok().map(f64::to_bits), number_bits(text), "{text}");
    }
    let long = format!("{}e-500", "7".repeat(600));
    assert_eq!(long.parse::<f64>().ok().map(f64::to_bits), number_bits(&long));
    let tiny = format!("0.{}3e450", "0".repeat(460));
    assert_eq!(tiny.parse::<f64>().ok().map(f64::to_bits), number_bits(&tiny));
    let large = "9".repeat(400);
    assert_eq!(Some(f64::INFINITY.to_bits()), number_bits(&large));
    let small = format!("0.{}1", "0".repeat(330));
    assert_eq!(small.parse::<f64>().ok().map(f64::to_bits), number_bits(&small));
    let subnormal = format!("0.{}17", "0".repeat(318));
    assert_eq!(subnormal.parse::<f64>().ok().map(f64::to_bits), number_bits(&subnormal));
    assert_eq!(None, number_bits("1.2.3"));
    assert_eq!(None, number_bits(""));
}

#[test]
fn chapter_numbers_are_compared_as_doubles() {
    assert_eq!(Ordering::Less, chapter_number_cmp("9", "10"));
    assert_eq!(Ordering::Equal, chapter_number_cmp("01", "1.0"));
    assert_eq!(Ordering::Equal, chapter_number_cmp("none", "0"));
    assert_eq!(Ordering::Less, chapter_number_cmp("1.2.3", "1"));
    assert_eq!(Ordering::Equal, chapter_number_cmp("9007199254740993", "9007199254740992"));
    let texts = ["-nan", "-inf", "-2", "-0", "0", "abc", "none", "1", "03", "3", "9", "10", "10.5", "1e5", "inf", "NaN"];
    for a in texts {
        for b in texts {
            let expected = a.parse::<f64>().unwrap_or(0.0).total_cmp(&b.parse::<f64>().unwrap_or(0.0));
            assert_eq!(expected, chapter_number_cmp(a, b), "{a} {b}");
            assert_eq!(expected, chapter_number_cmp(b, a).reverse(), "{a} {b}");
        }
    }
}

#[test]
fn formats_bytes() {
    assert_eq!("512 B", human_bytes(512));
    assert_eq!("2.0 KiB", human_bytes(2048));
}

#[test]
fn sizes_are_rounded_as_doubles_are_printed() {
    fn expected(bytes: u64) -> String {
        const UNITS: [&str; 5] = ["B", "KiB", "MiB", "GiB", "TiB"];
        let mut size = bytes as f64;
        let mut unit = 0;
        while size >= 1024.0 && unit < UNITS.len() - 1 {
            size /= 1024.0;
            unit += 1;
        }
        if unit == 0 { format!("{} {}", bytes, UNITS[unit]) } else { format!("{size:.1} {}", UNITS[unit]) }
    }
    for bytes in [
        0, 1, 1023, 1024, 1075, 1076, 1280, 1792, 1048575, 1048576, 1572864, 1073741823, 1099511627775,
        1099511627776, 9007199254740993, 18014398509481985, u64::MAX, u64::MAX - 1023, u64::MAX / 3,
    ] {
        assert_eq!(expected(bytes), human_bytes(bytes));
    }
}
