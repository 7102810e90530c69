use hudi_core::numeral::{count_text, decimal_text, push_hex};
use hudi_core::order::{compare_bytes, compare_text, row_order, Relation};
use hudi_core::text::{chars_of, same_text, split_text};

#[test]
fn texts_compare_by_bytes() {
    assert_eq!(compare_text("a", "b"), Relation::Less);
    assert_eq!(compare_text("b", "a"), Relation::Greater);
    assert_eq!(compare_text("a", "a"), Relation::Equal);
    assert_eq!(compare_text("a", "ab"), Relation::Less);
    assert_eq!(compare_text("z", "é"), Relation::Less);
    assert_eq!(compare_bytes(&[1, 2], &[1]), Relation::Greater);
    assert_eq!(compare_bytes(&[], &[]), Relation::Equal);
}

#[test]
fn rows_keep_their_order_where_equal() {
    let rows = vec![vec![2], vec![1], vec![2], vec![], vec![1, 0]];
    assert_eq!(row_order(&rows, false), vec![3, 1, 4, 0, 2]);
    assert_eq!(row_order(&rows, true), vec![0, 2, 4, 1, 3]);
    assert!(row_order(&vec![], true).is_empty());
}

#[test]
fn descending_order_is_the_ascending_one_from_behind() {
    let rows = vec![vec![2], vec![1], vec![2], vec![], vec![1]];
    let up = row_order(&rows, false);
    let down = row_order(&rows, true);
    assert_eq!(up, vec![3, 1, 4, 0, 2]);
    assert_eq!(down, vec![0, 2, 1, 4, 3]);
    for i in 0..rows.len() {
        assert_eq!(rows[down[i]], rows[up[rows.len() - 1 - i]]);
    }
}

#[test]
fn texts_are_split_and_read() {
    assert_eq!(split_text("a,b,,c", ','), vec!["a", "b", "", "c"]);
    assert_eq!(split_text("", ','), vec![""]);
    assert_eq!(chars_of("aé"), vec!['a', 'é']);
    assert!(same_text("é", "é"));
    assert!(!same_text("é", "e"));
}

#[test]
fn numerals() {
    assert_eq!(decimal_text(0), "0");
    assert_eq!(decimal_text(-1050), "-1050");
    assert_eq!(decimal_text(i64::MIN), "-9223372036854775808");
    assert_eq!(decimal_text(i64::MAX), "9223372036854775807");
    assert_eq!(count_text(1200), "1200");
    let mut hex = String::from("0x");
    push_hex(&mut hex, 0xabc, 4);
    assert_eq!(hex, "0x0abc");
    push_hex(&mut hex, 0xabc, 2);
    assert_eq!(hex, "0x0abcbc");
}
