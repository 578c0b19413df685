use gpucr::text::{append_decimal, append_hex_alternate, append_signed_decimal};

fn decimal(n: u64) -> String {
    let mut s = String::new();
    append_decimal(&mut s, n);
    s
}

#[test]
fn decimal_matches_format() {
    for n in [0u64, 7, 10, 1234, 4096, u64::MAX] {
        assert_eq!(decimal(n), format!("{n}"));
    }
}

#[test]
fn decimal_appends_after_existing_text() {
    let mut s = String::from("pid ");
    append_decimal(&mut s, 42);
    assert_eq!(s, "pid 42");
}

#[test]
fn signed_decimal_matches_format() {
    for n in [0i64, -1, 42, -42, i64::MIN, i64::MAX] {
        let mut s = String::new();
        append_signed_decimal(&mut s, n);
        assert_eq!(s, format!("{n}"));
    }
}

#[test]
fn hex_alternate_matches_format() {
    for n in [0u64, 1, 15, 16, 255, 0x7f00_0000_1000, u64::MAX] {
        let mut s = String::new();
        append_hex_alternate(&mut s, n);
        assert_eq!(s, format!("{n:#x}"));
    }
}
