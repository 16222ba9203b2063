use mandelbrot::{is_continuous_color_function, variable_to_assign, variable_to_update, Variable};

#[test]
fn update_names() {
    assert_eq!(variable_to_update(&"s".to_string()), Some(Variable::Scale));
    assert_eq!(variable_to_update(&"x".to_string()), Some(Variable::CenterX));
    assert_eq!(variable_to_update(&"y".to_string()), Some(Variable::CenterY));
    assert_eq!(variable_to_update(&"i".to_string()), Some(Variable::MaxIterations));
    assert_eq!(variable_to_update(&"z".to_string()), Some(Variable::ZoomScale));
    assert_eq!(variable_to_update(&"c".to_string()), None);
    assert_eq!(variable_to_update(&"ss".to_string()), None);
    assert_eq!(variable_to_update(&"".to_string()), None);
}

#[test]
fn assign_names() {
    assert_eq!(variable_to_assign(&"c".to_string()), Some(Variable::ColorFunction));
    assert_eq!(variable_to_assign(&"s".to_string()), Some(Variable::Scale));
    assert_eq!(variable_to_assign(&"z".to_string()), Some(Variable::ZoomScale));
    assert_eq!(variable_to_assign(&"q".to_string()), None);
}

#[test]
fn continuous_color_functions() {
    for id in [4, 5, 6] {
        assert!(is_continuous_color_function(id));
    }
    for id in [-1, 0, 1, 2, 3, 7, i32::MAX, i32::MIN] {
        assert!(!is_continuous_color_function(id));
    }
}
