use wager_exchange::arith::scale;
use wager_exchange::context::{
    assert_deposit, assert_min_one_near, assert_one_yocto, deduct_storage_cost, refund_deposit,
    Context, ONE_NEAR,
};
use wager_exchange::ident::{is_valid_id, ID_LEN};
use wager_exchange::seqs::{contains_string, page_bounds, page_of};
use wager_exchange::text::{contains_text, decimal_text};

#[test]
fn identifier_of_twenty_one_letters_is_valid() {
    assert_eq!(ID_LEN, 21);
    assert!(is_valid_id(b"abcdefghijklmnopqrstu"));
    assert!(is_valid_id(b"ABCDEFGHIJ0123456789_"));
    assert!(is_valid_id(b"V1StGXR8_Z5jdHi6B-myT"));
}

#[test]
fn identifier_of_wrong_length_is_invalid() {
    assert!(!is_valid_id(b""));
    assert!(!is_valid_id(b"abcdefghijklmnopqrst"));
    assert!(!is_valid_id(b"abcdefghijklmnopqrstuv"));
    let long = vec![b'a'; 21 + 256];
    assert!(!is_valid_id(&long));
}

#[test]
fn identifier_with_a_foreign_byte_anywhere_is_invalid() {
    assert!(!is_valid_id(b"abcdefghijklmnopqrst!"));
    assert!(!is_valid_id(b"!bcdefghijklmnopqrstu"));
    assert!(!is_valid_id(b"abcdefghij lmnopqrstu"));
    assert!(!is_valid_id(b"abcdefghij.lmnopqrstu"));
    assert!(!is_valid_id("abcdefghijklmnopqrs\u{e9}".as_bytes()));
}

#[test]
fn identifier_alphabet_has_exact_edges() {
    for byte in 0u8..=255 {
        let mut id = *b"aaaaaaaaaaaaaaaaaaaaa";
        id[7] = byte;
        let expected = byte.is_ascii_alphanumeric() || byte == b'_' || byte == b'-';
        assert_eq!(is_valid_id(&id), expected, "byte {}", byte);
    }
}

#[test]
fn scale_rounds_down() {
    assert_eq!(scale(100, 45, 100), 45);
    assert_eq!(scale(99, 45, 100), 44);
    assert_eq!(scale(1, 45, 100), 0);
    assert_eq!(scale(0, 45, 100), 0);
    assert_eq!(scale(7, 1, 3), 2);
    assert_eq!(scale(7, 3, 3), 7);
}

#[test]
fn scale_survives_a_product_beyond_128_bits() {
    assert_eq!(scale(u128::MAX, 45, 100), 153_127_065_114_422_308_558_518_573_344_295_695_154);
    assert_eq!(scale(u128::MAX, u32::MAX, u32::MAX), u128::MAX);
    assert_eq!(scale(u128::MAX / 2, 2, 1), u128::MAX - 1);
}

#[test]
fn decimal_text_writes_numerals() {
    assert_eq!(decimal_text(0), "0");
    assert_eq!(decimal_text(7), "7");
    assert_eq!(decimal_text(10), "10");
    assert_eq!(decimal_text(1_663_982_099_301), "1663982099301");
    assert_eq!(decimal_text(u64::MAX), "18446744073709551615");
}

#[test]
fn contains_text_finds_runs_of_characters() {
    let hay = "settle bet V1StGXR8_Z5jdHi6B-myT now".to_string();
    assert!(contains_text(&hay, &"V1StGXR8_Z5jdHi6B-myT".to_string()));
    assert!(contains_text(&hay, &"settle".to_string()));
    assert!(contains_text(&hay, &"now".to_string()));
    assert!(contains_text(&hay, &"".to_string()));
    assert!(contains_text(&"".to_string(), &"".to_string()));
    assert!(!contains_text(&hay, &"V1StGXR8_Z5jdHi6B-myU".to_string()));
    assert!(!contains_text(&"ab".to_string(), &"abc".to_string()));
    assert!(!contains_text(&"".to_string(), &"a".to_string()));
    assert!(contains_text(&"na\u{ef}ve caf\u{e9}".to_string(), &"caf\u{e9}".to_string()));
    assert!(!contains_text(&"aab".to_string(), &"aba".to_string()));
    assert!(contains_text(&"aaab".to_string(), &"aab".to_string()));
}

#[test]
fn contains_string_compares_whole_strings() {
    let list = vec!["alpha".to_string(), "beta".to_string()];
    assert!(contains_string(&list, &"beta".to_string()));
    assert!(!contains_string(&list, &"bet".to_string()));
    assert!(!contains_string(&Vec::new(), &"beta".to_string()));
}

#[test]
fn deposit_checks_have_exact_bounds() {
    assert!(assert_one_yocto(1));
    assert!(!assert_one_yocto(0));
    assert!(!assert_one_yocto(2));
    assert!(assert_min_one_near(ONE_NEAR));
    assert!(assert_min_one_near(ONE_NEAR + 1));
    assert!(!assert_min_one_near(ONE_NEAR - 1));
    assert!(assert_deposit(5, 5));
    assert!(assert_deposit(4, 5));
    assert!(!assert_deposit(6, 5));
}

#[test]
fn storage_cost_is_deducted_from_the_deposit() {
    assert_eq!(deduct_storage_cost(10, 3, 100), Some(70));
    assert_eq!(deduct_storage_cost(10, 10, 100), Some(0));
    assert_eq!(deduct_storage_cost(10, 11, 100), None);
    assert_eq!(deduct_storage_cost(0, u128::MAX, 0), Some(0));
    assert_eq!(deduct_storage_cost(2, u128::MAX, u128::MAX), None);
}

#[test]
fn refund_is_sent_only_above_one_unit() {
    assert_eq!(refund_deposit(10, 3, 100), Some(Some(70)));
    assert_eq!(refund_deposit(10, 3, 32), Some(Some(2)));
    assert_eq!(refund_deposit(10, 3, 31), Some(None));
    assert_eq!(refund_deposit(10, 3, 30), Some(None));
    assert_eq!(refund_deposit(10, 3, 29), None);
}

#[test]
fn page_bounds_clip_to_the_list() {
    assert_eq!(page_bounds(10, 0, 50), (0, 10));
    assert_eq!(page_bounds(10, 3, 4), (3, 7));
    assert_eq!(page_bounds(10, 8, 4), (8, 10));
    assert_eq!(page_bounds(10, 10, 4), (10, 10));
    assert_eq!(page_bounds(10, u128::MAX, u64::MAX), (10, 10));
    assert_eq!(page_bounds(10, 1u128 << 64, 5), (10, 10));
    assert_eq!(page_bounds(10, 2, 0), (2, 2));
    assert_eq!(page_of(&vec![5, 6, 7, 8], 1, 2), vec![6, 7]);
}

#[test]
fn context_time_is_timestamp_plus_height() {
    let ctx = Context {
        current_account_id: "a".to_string(),
        predecessor_account_id: "b".to_string(),
        signer_account_id: "c".to_string(),
        attached_deposit: 0,
        block_timestamp: 1_000,
        block_height: 24,
        epoch_height: 3,
        storage_byte_cost: 0,
    };
    assert_eq!(ctx.timestamp(), 1_024);
}
