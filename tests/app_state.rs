use fibonacci_sequence::app::FibonacciApp;

#[test]
fn test_app_creation() {
    let app = FibonacciApp::new();
    assert_eq!(app.get_current_n(), 0);
    assert!(app.get_sequence().is_empty());
    assert!(!app.has_results());
}

#[test]
fn test_app_reset() {
    let mut app = FibonacciApp::new();
    app.input_text = "10".to_string();
    app.calculate_fibonacci();

    assert!(app.has_results());

    app.reset();
    assert!(!app.has_results());
    assert!(app.input_text.is_empty());
}

#[test]
fn calculation_shows_the_term_and_keeps_the_sequence() {
    let mut app = FibonacciApp::new();
    app.input_text = " 6 ".to_string();
    app.calculate_fibonacci();
    assert_eq!(app.get_result_text(), "F(6) = 8");
    assert_eq!(app.get_current_n(), 6);
    assert_eq!(app.get_sequence(), &[0, 1, 1, 2, 3, 5, 8]);
}

#[test]
fn failed_calculation_clears_the_sequence() {
    let mut app = FibonacciApp::new();
    app.input_text = "7".to_string();
    app.calculate_fibonacci();
    app.input_text = "30".to_string();
    app.calculate_fibonacci();
    assert_eq!(app.get_result_text(), "Number 30 is too large! Please enter 0-25");
    assert_eq!(app.get_current_n(), 0);
    assert!(app.get_sequence().is_empty());
    assert!(!app.has_results());
}

#[test]
fn index_zero_has_no_results_to_show() {
    let mut app = FibonacciApp::new();
    app.input_text = "0".to_string();
    app.calculate_fibonacci();
    assert_eq!(app.get_result_text(), "F(0) = 0");
    assert_eq!(app.get_sequence(), &[0]);
    assert!(!app.has_results());
}

#[test]
fn input_can_be_set_through_the_setter() {
    let mut app = FibonacciApp::new();
    app.set_input_text("3".to_string());
    assert_eq!(app.input_text, "3");
    app.calculate_fibonacci();
    assert_eq!(app.get_result_text(), "F(3) = 2");
}
