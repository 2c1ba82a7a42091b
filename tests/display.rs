use fibonacci_sequence::display::{
    format_sequence, get_spiral_description, label_font_size, sequence_sum,
};
use fibonacci_sequence::text::decimal_string;

#[test]
fn formats_a_sequence() {
    assert_eq!(format_sequence(&[0, 1, 1, 2]), "F(0) = 0, F(1) = 1, F(2) = 1, F(3) = 2");
    assert_eq!(format_sequence(&[]), "");
    assert_eq!(format_sequence(&[0]), "F(0) = 0");
}

#[test]
fn writes_decimals() {
    assert_eq!(decimal_string(0), "0");
    assert_eq!(decimal_string(6765), "6765");
    assert_eq!(decimal_string(u64::MAX), "18446744073709551615");
}

#[test]
fn describes_the_spiral() {
    assert_eq!(
        get_spiral_description(10),
        "The Fibonacci spiral is created by drawing quarter-circle arcs connecting the \
         opposite corners of squares in the Fibonacci tiling. For n = 10, the spiral \
         contains 11 rectangles, with the largest rectangle having a Fibonacci number \
         of F(10) = 55."
    );
}

#[test]
fn picks_label_sizes_from_the_ladder() {
    assert_eq!(label_font_size(25, 100), 10);
    assert_eq!(label_font_size(26, 100), 12);
    assert_eq!(label_font_size(100, 40), 12);
    assert_eq!(label_font_size(41, 41), 14);
    assert_eq!(label_font_size(61, 70), 16);
    assert_eq!(label_font_size(81, 81), 20);
}

#[test]
fn sums_the_terms() {
    assert_eq!(sequence_sum(&[0, 1, 1, 2, 3, 5]), Some(12));
    assert_eq!(sequence_sum(&[]), Some(0));
    assert_eq!(sequence_sum(&[u64::MAX, 1]), None);
}
