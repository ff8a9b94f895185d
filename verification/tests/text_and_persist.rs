use jc3vrs::gfx::Tag;
use jc3vrs::persist::{handle_text, parse_handle};
use jc3vrs::tags::tag_inventory;
use jc3vrs::text::{char_is_whitespace, sorted_unique_nonempty};

fn std_handle(text: &str) -> Option<u64> {
    u64::from_str_radix(text.trim().trim_start_matches("0x"), 16)
        .ok()
        .filter(|&v| v != 0)
}

#[test]
fn whitespace_matches_std_for_every_char() {
    for code in 0u32..=0x10FFFF {
        if let Some(c) = char::from_u32(code) {
            assert_eq!(char_is_whitespace(c), c.is_whitespace(), "char {code:#x}");
        }
    }
}

#[test]
fn handles_are_stored_as_prefixed_lowercase_hex() {
    assert_eq!(handle_text(0), "0x0");
    assert_eq!(handle_text(0x1234_abcd), "0x1234abcd");
    assert_eq!(handle_text(u64::MAX), "0xffffffffffffffff");
    assert_eq!(handle_text(0xABC), format!("{:#x}", 0xABCu64));
}

#[test]
fn stored_handles_read_back() {
    for raw in [1u64, 0xf, 0x10, 0xdead_beef, 1 << 63, u64::MAX] {
        assert_eq!(parse_handle(&handle_text(raw)), Some(raw));
    }
    assert_eq!(parse_handle(&handle_text(0)), None);
}

#[test]
fn handle_text_is_read_as_std_reads_it() {
    let inputs = [
        "",
        "0",
        "0x",
        "0x0",
        "  0x1f \n",
        "0x0x1f",
        "+ff",
        "0x+ff",
        "++ff",
        "0XFF",
        "FFff",
        "zz",
        "1 2",
        "ffffffffffffffff",
        "10000000000000000",
        "0000000000000000000001",
        "\u{3000}0xa\u{2028}",
        "-1",
    ];
    for text in inputs {
        assert_eq!(parse_handle(text), std_handle(text), "input {text:?}");
    }
}

#[test]
fn tag_inventory_counts_and_sums_per_code() {
    let tags = vec![
        Tag { code: 9, data: vec![1, 2, 3] },
        Tag { code: 1, data: vec![] },
        Tag { code: 9, data: vec![4] },
        Tag { code: 0, data: vec![] },
        Tag { code: 82, data: vec![0; 10] },
    ];
    let rows = tag_inventory(&tags);
    let got: Vec<(u16, usize, usize)> =
        rows.iter().map(|r| (r.code, r.count, r.total_size)).collect();
    assert_eq!(got, vec![(0, 1, 0), (1, 1, 0), (9, 2, 4), (82, 1, 10)]);
    assert!(tag_inventory(&Vec::new()).is_empty());
}

#[test]
fn names_are_sorted_deduplicated_and_nonempty() {
    let names: Vec<String> = ["b", "", "a", "b", "B", "a"].iter().map(|s| s.to_string()).collect();
    assert_eq!(sorted_unique_nonempty(&names), vec!["B", "a", "b"]);
}
