use plate_prep::text::{decimal, rank_bytes, rank_text, text_eq, Rank};

#[test]
fn bytes_are_ranked_lexicographically() {
    assert_eq!(rank_bytes(b"", b""), Rank::Same);
    assert_eq!(rank_bytes(b"", b"a"), Rank::Before);
    assert_eq!(rank_bytes(b"a", b""), Rank::After);
    assert_eq!(rank_bytes(b"ab", b"abc"), Rank::Before);
    assert_eq!(rank_bytes(b"abd", b"abc"), Rank::After);
    assert_eq!(rank_bytes(b"b", b"abc"), Rank::After);
    assert_eq!(rank_bytes(&[0xff], &[0x00, 0xff]), Rank::After);
    assert_eq!(rank_bytes(b"same", b"same"), Rank::Same);
}

#[test]
fn text_is_ranked_as_the_standard_library_orders_it() {
    let words = ["", "a", "A", "ab", "b", "é", "e", "z", "日本", "10", "9", "a b"];
    for a in words {
        for b in words {
            let expected = match a.cmp(b) {
                std::cmp::Ordering::Less => Rank::Before,
                std::cmp::Ordering::Equal => Rank::Same,
                std::cmp::Ordering::Greater => Rank::After,
            };
            assert_eq!(rank_text(a, b), expected);
            assert_eq!(text_eq(a, b), a == b);
        }
    }
}

#[test]
fn numbers_are_written_in_decimal() {
    assert_eq!(decimal(0), "0");
    assert_eq!(decimal(7), "7");
    assert_eq!(decimal(10), "10");
    assert_eq!(decimal(1234567890), "1234567890");
    assert_eq!(decimal(usize::MAX), usize::MAX.to_string());
}
