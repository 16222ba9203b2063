use mandelbrot::{filter_spaces, subdivide_commands, subdivide_commands_accepts, Action, Command};

fn s(text: &str) -> String {
    text.to_string()
}

fn assign(name: &str, value: &str) -> Command {
    Command::Assign { variable_name: s(name), value: s(value) }
}

fn update(name: &str, value: &str, action: Action) -> Command {
    Command::Update { variable_name: s(name), value: s(value), action }
}

#[test]
fn assign_splits_at_first_equals() {
    assert_eq!(Command::from(&s("s=2.5")), assign("s", "2.5"));
    assert_eq!(Command::from(&s("x=1=2")), assign("x", "1=2"));
    assert_eq!(Command::from(&s("name=")), assign("name", ""));
}

#[test]
fn update_reads_operator_before_equals() {
    assert_eq!(Command::from(&s("s*=2")), update("s", "2", Action::Multiply));
    assert_eq!(Command::from(&s("s/=2")), update("s", "2", Action::Divide));
    assert_eq!(Command::from(&s("x+=0.5")), update("x", "0.5", Action::Add));
    assert_eq!(Command::from(&s("y-=-1")), update("y", "-1", Action::Subtract));
    assert_eq!(Command::from(&s("+=3")), update("", "3", Action::Add));
}

#[test]
fn keywords_and_invalid() {
    assert_eq!(Command::from(&s("export")), Command::Export);
    assert_eq!(Command::from(&s("zoom")), Command::ToggleZoom);
    assert_eq!(Command::from(&s("reloadshader")), Command::ReloadShader);
    assert_eq!(Command::from(&s("Export")), Command::Invalid);
    assert_eq!(Command::from(&s("zoo")), Command::Invalid);
    assert_eq!(Command::from(&s("")), Command::Invalid);
}

#[test]
fn value_may_hold_any_character() {
    assert_eq!(Command::from(&s("n=é")), assign("n", "é"));
}

#[test]
fn accepts_matches_the_parser_domain() {
    assert!(Command::accepts(&s("s=2")));
    assert!(Command::accepts(&s("")));
    assert!(Command::accepts(&s("n=é")));
    assert!(!Command::accepts(&s("=2")));
    assert!(!Command::accepts(&s("é=2")));
    assert!(!Command::accepts(&s("é")));
}

#[test]
fn filter_spaces_removes_only_spaces() {
    assert_eq!(filter_spaces(" s *= 2 "), "s*=2");
    assert_eq!(filter_spaces("a\tb"), "a\tb");
    assert_eq!(filter_spaces(""), "");
    assert_eq!(filter_spaces("   "), "");
}

#[test]
fn filter_spaces_twice_is_once() {
    let once = filter_spaces(" a b  c ");
    assert_eq!(filter_spaces(&once), once);
    assert!(!once.contains(' '));
}

#[test]
fn subdivide_splits_at_commas() {
    let line = s("s=2, x*=3 ,zoom");
    assert!(subdivide_commands_accepts(&line));
    let commands = subdivide_commands(&line);
    assert_eq!(
        commands,
        vec![
            (s("s=2"), assign("s", "2")),
            (s("x*=3"), update("x", "3", Action::Multiply)),
            (s("zoom"), Command::ToggleZoom),
        ]
    );
}

#[test]
fn subdivide_stops_at_comment() {
    let line = s("export # s=1, x=2");
    let commands = subdivide_commands(&line);
    assert_eq!(commands, vec![(s("export"), Command::Export)]);
    assert_eq!(subdivide_commands(&s("export")), commands);
}

#[test]
fn subdivide_keeps_empty_pieces() {
    assert_eq!(subdivide_commands(&s("")), vec![(s(""), Command::Invalid)]);
    assert_eq!(
        subdivide_commands(&s("zoom,")),
        vec![(s("zoom"), Command::ToggleZoom), (s(""), Command::Invalid)]
    );
    assert_eq!(subdivide_commands(&s("#")), vec![(s(""), Command::Invalid)]);
}

#[test]
fn subdivide_count_is_commas_plus_one() {
    let line = s("a,b,,c");
    assert_eq!(subdivide_commands(&line).len(), 4);
}

#[test]
fn subdivide_accepts_rejects_panicking_lines() {
    assert!(!subdivide_commands_accepts(&s("s=1, =2")));
    assert!(!subdivide_commands_accepts(&s(" = 2")));
    assert!(!subdivide_commands_accepts(&s("é")));
    assert!(subdivide_commands_accepts(&s("s=1 # é")));
    assert!(subdivide_commands_accepts(&s("n=1,m=2")));
}

#[test]
fn written_assignment_reads_back() {
    let line = format!("x={},y={},s={},i={},c={}", 0.25, -1.5, 2.0, 2000.0, 4);
    let commands = subdivide_commands(&line);
    let names: Vec<&str> = vec!["x", "y", "s", "i", "c"];
    let values: Vec<String> = vec![s("0.25"), s("-1.5"), s("2"), s("2000"), s("4")];
    assert_eq!(commands.len(), 5);
    for k in 0..5 {
        assert_eq!(commands[k].1, assign(names[k], &values[k]));
    }
}

#[test]
fn apply_each_action() {
    let mut t: i32 = 12;
    Action::Multiply.apply(&mut t, 3);
    assert_eq!(t, 36);
    Action::Divide.apply(&mut t, 4);
    assert_eq!(t, 9);
    Action::Add.apply(&mut t, -10);
    assert_eq!(t, -1);
    Action::Subtract.apply(&mut t, 5);
    assert_eq!(t, -6);
    Action::Divide.apply(&mut t, 4);
    assert_eq!(t, -1);
}

#[test]
fn apply_on_floats() {
    let mut scale: f64 = 2.0;
    Action::Multiply.apply(&mut scale, 0.5);
    assert_eq!(scale, 1.0);
    Action::Divide.apply(&mut scale, 4.0);
    assert_eq!(scale, 0.25);
    let mut iterations: f32 = 2000.0;
    Action::Subtract.apply(&mut iterations, 500.0);
    assert_eq!(iterations, 1500.0);
}

#[test]
fn apply_then_inverse_restores() {
    let mut t: i64 = -7;
    Action::Add.apply(&mut t, 100);
    Action::Subtract.apply(&mut t, 100);
    assert_eq!(t, -7);
    Action::Multiply.apply(&mut t, -3);
    Action::Divide.apply(&mut t, -3);
    assert_eq!(t, -7);
}
