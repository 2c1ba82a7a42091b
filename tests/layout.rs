use fibonacci_sequence::layout::{
    calculate_spiral_rectangles, spiral_unit, FibonacciRectangle, Viewport,
};

fn view() -> Viewport {
    Viewport { x: 0, y: 0, width: 600, height: 400 }
}

fn rect(x: i64, y: i64, width: i64, height: i64, value: u64, index: usize) -> FibonacciRectangle {
    FibonacciRectangle { x, y, width, height, value, index }
}

fn bounds(rs: &[FibonacciRectangle]) -> (i64, i64, i64, i64) {
    let min_x = rs.iter().map(|r| r.x).min().unwrap();
    let min_y = rs.iter().map(|r| r.y).min().unwrap();
    let max_x = rs.iter().map(|r| r.x + r.width).max().unwrap();
    let max_y = rs.iter().map(|r| r.y + r.height).max().unwrap();
    (min_x, min_y, max_x, max_y)
}

#[test]
fn short_sequences_give_no_rectangles() {
    assert!(calculate_spiral_rectangles(&view(), &[]).is_empty());
    assert!(calculate_spiral_rectangles(&view(), &[0]).is_empty());
    assert!(calculate_spiral_rectangles(&view(), &[0, 1]).is_empty());
}

#[test]
fn six_terms_in_a_wide_view() {
    let rs = calculate_spiral_rectangles(&view(), &[0, 1, 1, 2, 3, 5]);
    assert_eq!(rs.len(), 6);
    for (i, r) in rs.iter().enumerate() {
        assert!(r.width > 0 && r.height > 0);
        assert_eq!(r.index, i);
    }
    let (min_x, min_y, max_x, max_y) = bounds(&rs);
    assert!((min_x + max_x - 600).abs() <= 2);
    assert!((min_y + max_y - 400).abs() <= 2);
}

#[test]
fn six_terms_exact_geometry() {
    let rs = calculate_spiral_rectangles(&view(), &[0, 1, 1, 2, 3, 5]);
    assert_eq!(
        rs,
        vec![
            rect(241, 194, 42, 42, 1, 0),
            rect(283, 194, 42, 42, 1, 1),
            rect(241, 236, 84, 42, 1, 2),
            rect(182, 194, 59, 84, 2, 3),
            rect(182, 122, 143, 72, 3, 4),
            rect(325, 122, 93, 156, 5, 5),
        ]
    );
}

#[test]
fn layout_is_repeatable() {
    let seq = [0, 1, 1, 2, 3, 5, 8, 13];
    assert_eq!(
        calculate_spiral_rectangles(&view(), &seq),
        calculate_spiral_rectangles(&view(), &seq)
    );
}

#[test]
fn only_twelve_terms_are_drawn() {
    let seq: Vec<u64> = fibonacci_sequence::fibonacci::generate_sequence_iterative(25);
    let rs = calculate_spiral_rectangles(&view(), &seq);
    assert_eq!(rs.len(), 12);
    assert_eq!(rs[11].value, 89);
    let (min_x, min_y, max_x, max_y) = bounds(&rs);
    assert!((min_x + max_x - 600).abs() <= 1);
    assert!((min_y + max_y - 400).abs() <= 1);
}

#[test]
fn centres_in_an_offset_view() {
    let v = Viewport { x: -30, y: 17, width: 301, height: 99 };
    let rs = calculate_spiral_rectangles(&v, &[0, 1, 1, 2, 3]);
    let (min_x, min_y, max_x, max_y) = bounds(&rs);
    assert!((min_x + max_x - (2 * -30 + 301)).abs() <= 1);
    assert!((min_y + max_y - (2 * 17 + 99)).abs() <= 1);
}

#[test]
fn scale_is_clamped() {
    assert_eq!(spiral_unit(&view(), &[0, 1, 1, 2, 3, 5]), 35);
    assert_eq!(spiral_unit(&view(), &[0, 0, 0]), 35);
    let big = fibonacci_sequence::fibonacci::generate_sequence_iterative(25);
    assert_eq!(spiral_unit(&view(), &big), 20);
    let wide = Viewport { x: 0, y: 0, width: 20000, height: 20000 };
    assert_eq!(spiral_unit(&wide, &big), 30);
    let mid = Viewport { x: 0, y: 0, width: 600, height: 600 };
    assert_eq!(spiral_unit(&mid, &[0, 1, 1, 2, 3, 5, 8, 13, 21, 34, 55, 89, 144]), 20);
    let roomy = Viewport { x: 0, y: 0, width: 1000, height: 1000 };
    assert_eq!(spiral_unit(&roomy, &[0, 1, 1, 2, 3, 5, 8, 13, 21, 34, 55, 89, 144]), 34);
}
