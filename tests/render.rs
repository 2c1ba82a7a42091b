use fibonacci_sequence::app::AppInfo;
use fibonacci_sequence::layout::FibonacciRectangle;
use fibonacci_sequence::layout::Viewport;
use fibonacci_sequence::render::{
    grid_lines, label_anchors, label_fits, rectangle_color, title_background, title_position,
    title_text, LabelAnchors, PixelRect, Rgb, PALETTE_SIZE,
};

fn square(side: i64) -> FibonacciRectangle {
    FibonacciRectangle { x: 0, y: 0, width: side, height: side, value: 1, index: 0 }
}

#[test]
fn colours_cycle_through_the_palette() {
    assert_eq!(PALETTE_SIZE, 8);
    assert_eq!(rectangle_color(0), Rgb { r: 255, g: 255, b: 200 });
    assert_eq!(rectangle_color(7), Rgb { r: 255, g: 185, b: 60 });
    assert_eq!(rectangle_color(8), rectangle_color(0));
    assert_eq!(rectangle_color(11), Rgb { r: 255, g: 225, b: 140 });
}

#[test]
fn labels_need_a_margin() {
    assert!(label_fits(10, 10, &square(15)));
    assert!(!label_fits(11, 10, &square(15)));
    assert!(!label_fits(10, 11, &square(15)));
    assert!(!label_fits(0, 0, &square(4)));
}

#[test]
fn grid_lines_cover_the_span() {
    assert_eq!(grid_lines(0, 30, 10), vec![0, 10, 20, 30]);
    assert_eq!(grid_lines(5, 29, 10), vec![5, 15, 25]);
    assert_eq!(grid_lines(5, 4, 10), Vec::<i64>::new());
    assert_eq!(grid_lines(i64::MAX - 1, i64::MAX, 5), vec![i64::MAX - 1]);
}

#[test]
fn application_metadata() {
    let info = AppInfo::default();
    assert_eq!(info.name, "Fibonacci Spiral Generator");
    assert_eq!(info.version, "0.1.0");
    assert_eq!(info.author, "Fibonacci Enthusiast");
}

#[test]
fn labels_sit_at_the_centre_with_a_shadow() {
    let r = FibonacciRectangle { x: 10, y: -20, width: 41, height: 30, value: 5, index: 5 };
    assert_eq!(
        label_anchors(&r),
        LabelAnchors { x: 30, y: -5, shadow_x: 31, shadow_y: -4 }
    );
}

#[test]
fn title_text_and_box() {
    assert_eq!(title_text(12), "Fibonacci Spiral (n = 12)");
    let v = Viewport { x: 100, y: 50, width: 600, height: 400 };
    assert_eq!(title_position(&v), (115, 65));
    assert_eq!(
        title_background(&v, 180, 20),
        PixelRect { x: 110, y: 63, width: 190, height: 24 }
    );
}
