use lsystem::{
    Action, ActionTable, BuildError, Error, LSystem, Match, Point, Rule, Scalar, Turtle, TurtleOp,
};

fn scalar(v: f64) -> Scalar {
    Scalar { bits: v.to_bits() }
}

fn value(s: Scalar) -> f64 {
    f64::from_bits(s.bits)
}

fn point(x: f64, y: f64) -> Point {
    Point { x: scalar(x), y: scalar(y) }
}

#[test]
fn test_failed_match() {
    let rule = Rule::new("A".to_owned(), "B".to_owned());
    let m = rule.matches("BBC");
    assert!(m.is_none());
}

#[test]
fn test_successful_match() {
    let rule = Rule::new("A".to_owned(), "B".to_owned());
    let m = rule.matches("ABC");
    assert!(m.is_some());
    assert_eq!(m.unwrap(), Match::new(1, "B"));
}

#[test]
fn test_match_accessors() {
    let rule = Rule::new("AB".to_owned(), "CD".to_owned());
    let m = rule.matches("ABX").unwrap();
    assert_eq!(m.match_len(), 2);
    assert_eq!(m.rewrite(), "CD");
}

#[test]
fn test_match_multibyte() {
    let rule = Rule::new("λ".to_owned(), "λλ".to_owned());
    assert!(rule.matches("λx").is_some());
    assert_eq!(rule.matches("λx").unwrap().match_len(), 1);
    assert!(rule.matches("xλ").is_none());
    assert!(rule.matches("").is_none());
}

fn simple_system(seed: &str, rules: Vec<Rule>) -> LSystem {
    let mut b = LSystem::builder();
    b.alphabet(vec!['A', 'B', 'C']);
    b.seed(seed);
    b.rules(rules);
    b.build().unwrap()
}

#[test]
fn test_step_no_match_leaves_state() {
    let mut sys = simple_system("BBC", vec![Rule::new("A".to_owned(), "B".to_owned())]);
    sys.step().unwrap();
    assert_eq!(sys.state(), "BBC");
}

#[test]
fn test_step_rewrites_match() {
    let mut sys = simple_system("ABC", vec![Rule::new("A".to_owned(), "B".to_owned())]);
    sys.step().unwrap();
    assert_eq!(sys.state(), "BBC");
}

#[test]
fn test_step_empty_rules_is_identity() {
    let mut sys = simple_system("CABAC", vec![]);
    sys.step().unwrap();
    assert_eq!(sys.state(), "CABAC");
    sys.step().unwrap();
    assert_eq!(sys.state(), "CABAC");
}

#[test]
fn test_step_empty_state() {
    let mut sys = simple_system("", vec![Rule::new("A".to_owned(), "B".to_owned())]);
    sys.step().unwrap();
    assert_eq!(sys.state(), "");
}

#[test]
fn test_step_first_match_wins() {
    // Both rules could match "AB"; the earlier one in declaration order wins,
    // even though the later pattern is longer.
    let mut sys = simple_system(
        "AB",
        vec![
            Rule::new("A".to_owned(), "C".to_owned()),
            Rule::new("AB".to_owned(), "X".to_owned()),
        ],
    );
    sys.step().unwrap();
    assert_eq!(sys.state(), "CB");
}

#[test]
fn test_step_multi_char_pattern_at_end() {
    let mut sys = simple_system("CAB", vec![Rule::new("AB".to_owned(), "C".to_owned())]);
    sys.step().unwrap();
    assert_eq!(sys.state(), "CC");
}

#[test]
fn test_step_deterministic_runs() {
    let rules1 = vec![Rule::new("A".to_owned(), "AB".to_owned())];
    let rules2 = vec![Rule::new("A".to_owned(), "AB".to_owned())];
    let mut sys1 = simple_system("A", rules1);
    let mut sys2 = simple_system("A", rules2);
    for _ in 0..6 {
        sys1.step().unwrap();
        sys2.step().unwrap();
        assert_eq!(sys1.state(), sys2.state());
    }
}

#[test]
fn test_step_multibyte_state() {
    let mut b = LSystem::builder();
    b.alphabet(vec!['α', 'λ', 'β']);
    b.seed("αλβ");
    b.rules(vec![Rule::new("λ".to_owned(), "λλ".to_owned())]);
    let mut sys = b.build().unwrap();
    sys.step().unwrap();
    assert_eq!(sys.state(), "αλλβ");
    sys.step().unwrap();
    assert_eq!(sys.state(), "αλλλλβ");
}

#[test]
fn test_builder_no_alphabet() {
    let mut b = LSystem::builder();
    b.seed("A");
    match b.build() {
        Err(e) => assert_eq!(e, BuildError::NoAlphabet),
        Ok(_) => panic!("build succeeded without an alphabet"),
    }
}

#[test]
fn test_builder_no_seed() {
    let mut b = LSystem::builder();
    b.alphabet(vec!['A']);
    match b.build() {
        Err(e) => assert_eq!(e, BuildError::NoAxiom),
        Ok(_) => panic!("build succeeded without a seed"),
    }
}

#[test]
fn test_build_error_messages() {
    assert_eq!(BuildError::NoAlphabet.message(), "no alphabet was supplied");
    assert_eq!(BuildError::NoAxiom.message(), "no seed was supplied");
}

#[test]
fn test_terminal_shortcircuit_same_output() {
    // 'B' and 'C' head no rule, so they are terminals and the engine may skip
    // the rule scan there; the output must equal a full scan's output.
    let mut sys = simple_system(
        "BACBA",
        vec![Rule::new("A".to_owned(), "BC".to_owned())],
    );
    sys.step().unwrap();
    assert_eq!(sys.state(), "BBCCBBC");
}

#[test]
fn test_action_table_lookup_and_shadowing() {
    let table = ActionTable::new(vec![
        ('F', Action::Forward(scalar(1.0))),
        ('+', Action::Rotate(scalar(0.5))),
        ('F', Action::Forward(scalar(2.0))),
    ]);
    match table.get('F') {
        Some(Action::Forward(d)) => assert_eq!(value(d), 2.0),
        _ => panic!("expected the later Forward binding"),
    }
    match table.get('+') {
        Some(Action::Rotate(a)) => assert_eq!(value(a), 0.5),
        _ => panic!("expected the Rotate binding"),
    }
    assert!(table.get('X').is_none());
}

#[test]
fn test_turtle_advance_emits_segments_in_order() {
    let mut turtle = Turtle::new();
    turtle.set_position(point(1.0, 2.0));
    turtle.advance_to(point(3.0, 4.0));
    turtle.advance_to(point(5.0, 6.0));
    let segs = turtle.segments();
    assert_eq!(segs.len(), 2);
    assert_eq!(segs[0].start, point(1.0, 2.0));
    assert_eq!(segs[0].end, point(3.0, 4.0));
    assert_eq!(segs[1].start, point(3.0, 4.0));
    assert_eq!(segs[1].end, point(5.0, 6.0));
}

#[test]
fn test_turtle_stack_discipline() {
    let mut turtle = Turtle::new();
    turtle.set_position(point(1.0, 1.0));
    turtle.set_orientation(scalar(0.25));
    turtle.stack_push();
    turtle.advance_to(point(9.0, 9.0));
    turtle.set_orientation(scalar(3.0));
    turtle.stack_push();
    turtle.advance_to(point(7.0, 7.0));
    turtle.stack_pop().unwrap();
    turtle.stack_pop().unwrap();
    assert_eq!(turtle.position(), point(1.0, 1.0));
    assert_eq!(value(turtle.orientation()), 0.25);
}

#[test]
fn test_turtle_pop_empty_fails() {
    let mut turtle = Turtle::new();
    assert_eq!(turtle.stack_pop(), Err(Error::PopEmptyStack));
    // One push allows exactly one pop; the next pop fails again.
    turtle.stack_push();
    assert_eq!(turtle.stack_pop(), Ok(()));
    assert_eq!(turtle.stack_pop(), Err(Error::PopEmptyStack));
}

#[test]
fn test_turtle_run_balanced_and_unbalanced() {
    let mut turtle = Turtle::new();
    turtle.set_position(point(0.0, 0.0));
    let ops = vec![
        TurtleOp::Push,
        TurtleOp::MoveTo(point(10.0, 0.0)),
        TurtleOp::TurnTo(scalar(1.0)),
        TurtleOp::Pop,
    ];
    assert_eq!(turtle.run(&ops), Ok(()));
    assert_eq!(turtle.position(), point(0.0, 0.0));
    assert_eq!(value(turtle.orientation()), 0.0);
    assert_eq!(turtle.segments().len(), 1);

    let unbalanced = vec![TurtleOp::Push, TurtleOp::Pop, TurtleOp::Pop];
    assert_eq!(turtle.run(&unbalanced), Err(Error::PopEmptyStack));
}

#[test]
fn test_forward_then_backward_restores_position() {
    // The renderer computes motion targets with f64 trigonometry; moving a
    // distance and then the same distance back must return the pen to its
    // prior position (within floating-point tolerance) and leave the
    // orientation untouched.
    let mut turtle = Turtle::new();
    turtle.set_position(point(12.5, -3.75));
    turtle.set_orientation(scalar(0.6));
    let d = 20.0_f64;
    let o = value(turtle.orientation());
    let (x0, y0) = (value(turtle.position().x), value(turtle.position().y));
    turtle.advance_to(point(x0 + o.cos() * d, y0 + o.sin() * d));
    let (x1, y1) = (value(turtle.position().x), value(turtle.position().y));
    let o1 = value(turtle.orientation());
    turtle.advance_to(point(x1 + o1.cos() * (-d), y1 + o1.sin() * (-d)));
    assert_eq!(value(turtle.orientation()), 0.6);
    assert!((value(turtle.position().x) - x0).abs() < 1e-9);
    assert!((value(turtle.position().y) - y0).abs() < 1e-9);
}

fn sierpinski() -> LSystem {
    let angle = 2.0 * std::f64::consts::PI / 3.0;
    let mut b = LSystem::builder();
    b.alphabet(vec!['F', 'G', '+', '-']);
    b.seed("F-G-G");
    b.rules(vec![
        Rule::new("F".to_owned(), "F-G+F+G-F".to_owned()),
        Rule::new("G".to_owned(), "GG".to_owned()),
    ]);
    b.actions(vec![
        ('F', Action::Forward(scalar(20.0))),
        ('G', Action::Forward(scalar(20.0))),
        ('+', Action::Rotate(scalar(-angle))),
        ('-', Action::Rotate(scalar(angle))),
    ]);
    b.build().unwrap()
}

#[test]
fn test_sierpinski_one_step() {
    let mut sys = sierpinski();
    sys.step().unwrap();
    assert_eq!(sys.state(), "F-G+F+G-F-GG-GG");
}

#[test]
fn test_sierpinski_five_steps_turtle_pass() {
    let mut sys = sierpinski();
    for _ in 0..5 {
        sys.step().unwrap();
    }
    let state: String = sys.state().to_owned();
    let drawn = state.chars().filter(|c| *c == 'F' || *c == 'G').count();
    let mut turtle = Turtle::new();
    turtle.set_position(point(0.0, 0.0));
    let (sx, sy) = (0.0_f64, 0.0_f64);
    for c in state.chars() {
        match sys.actions().get(c) {
            Some(Action::Forward(d)) => {
                let o = value(turtle.orientation());
                let x = value(turtle.position().x) + o.cos() * value(d);
                let y = value(turtle.position().y) + o.sin() * value(d);
                assert_eq!(turtle.apply_op(TurtleOp::MoveTo(point(x, y))), Ok(()));
            }
            Some(Action::Backwards(d)) => {
                let o = value(turtle.orientation());
                let x = value(turtle.position().x) - o.cos() * value(d);
                let y = value(turtle.position().y) - o.sin() * value(d);
                assert_eq!(turtle.apply_op(TurtleOp::MoveTo(point(x, y))), Ok(()));
            }
            Some(Action::Rotate(a)) => {
                let o = value(turtle.orientation()) + value(a);
                assert_eq!(turtle.apply_op(TurtleOp::TurnTo(scalar(o))), Ok(()));
            }
            Some(Action::StackPush) => {
                assert_eq!(turtle.apply_op(TurtleOp::Push), Ok(()));
            }
            Some(Action::StackPop) => {
                assert_eq!(turtle.apply_op(TurtleOp::Pop), Ok(()));
            }
            None => {}
        }
    }
    // One segment per drawing symbol, and the pass closes back on its start.
    assert_eq!(turtle.segments().len(), drawn);
    assert!((value(turtle.position().x) - sx).abs() < 1e-6);
    assert!((value(turtle.position().y) - sy).abs() < 1e-6);
}
