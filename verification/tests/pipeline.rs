use mathcli::fold::fold_plan;
use mathcli::fold::Op;
use mathcli::interpret::InputHandler;
use mathcli::reducer::Reducer;

/// Drive the reducer over `lines` and finish the fold with machine floats,
/// the way the binary around the library does.
fn run(
    op: Op,
    ignore: usize,
    silent: bool,
    seeded: bool,
    lines: &[&str],
) -> (Option<f32>, Option<String>) {
    let identity = op.identity_literal();
    let handler = InputHandler::new(ignore, silent, identity.clone());
    let mut reducer = Reducer::new(handler);
    for line in lines {
        if !reducer.push_line(line) {
            break;
        }
    }
    let failure = reducer.failure.clone();
    match fold_plan(seeded, identity, reducer.values) {
        None => (None, failure),
        Some((seed, rest)) => {
            let mut acc: f32 = seed.parse().unwrap();
            for v in &rest {
                let x: f32 = v.parse().unwrap();
                acc = match op {
                    Op::Add => acc + x,
                    Op::Sub => acc - x,
                    Op::Mul => acc * x,
                    Op::Div => acc / x,
                };
            }
            (Some(acc), failure)
        },
    }
}

#[test]
fn test_add_round_trip() {
    assert_eq!((Some(9.0), None), run(Op::Add, 0, false, false, &["5", "4", ""]));
}

#[test]
fn test_sub_round_trip() {
    assert_eq!((Some(4.0), None), run(Op::Sub, 0, false, false, &["6", "2", ""]));
}

#[test]
fn test_mul_round_trip() {
    assert_eq!((Some(6.0), None), run(Op::Mul, 0, false, false, &["2", "3", ""]));
}

#[test]
fn test_div_round_trip() {
    let (result, failure) = run(Op::Div, 0, false, false, &["7", "3", ""]);
    assert_eq!(None, failure);
    assert!((result.unwrap() - 2.3333333).abs() < 1e-6);
}

#[test]
fn test_idempotent_runs() {
    let lines = ["  5 ", "x", "4", ""];
    let first = run(Op::Add, 1, true, false, &lines);
    let second = run(Op::Add, 1, true, false, &lines);
    assert_eq!(first, second);
    assert_eq!(
        format!("{}", first.0.unwrap()),
        format!("{}", second.0.unwrap())
    );
}

#[test]
fn test_seeded_empty_yields_identity() {
    assert_eq!((Some(0.0), None), run(Op::Add, 0, false, true, &[""]));
    assert_eq!((Some(0.0), None), run(Op::Sub, 0, false, true, &[]));
    assert_eq!((Some(1.0), None), run(Op::Mul, 0, false, true, &[""]));
    assert_eq!((Some(1.0), None), run(Op::Div, 0, false, true, &[]));
}

#[test]
fn test_seeded_all_skipped_yields_identity() {
    // every line is within the ignored prefix, so only identities are folded
    assert_eq!((Some(0.0), None), run(Op::Add, 3, false, true, &["x", "y", "z"]));
    assert_eq!((Some(1.0), None), run(Op::Mul, 3, false, true, &["x", "y", "z"]));
}

#[test]
fn test_unseeded_empty_is_fatal() {
    assert_eq!((None, None), run(Op::Add, 0, false, false, &[""]));
    assert_eq!((None, None), run(Op::Mul, 0, false, false, &[]));
}

#[test]
fn test_scenario_ignore_two_unseeded_add() {
    // the two ignored lines contribute the identity, not a missing seed
    assert_eq!((Some(3.0), None), run(Op::Add, 2, false, false, &["x", "y", "3.0"]));
}

#[test]
fn test_silent_substitutes_identity() {
    assert_eq!((Some(12.0), None), run(Op::Add, 0, true, false, &["5", "x", "7", ""]));
}

#[test]
fn test_failure_truncates_fold() {
    let (result, failure) = run(Op::Add, 0, false, false, &["5", "4", "x", "9"]);
    assert_eq!(Some("Failed to parse x at line 3".to_string()), failure);
    assert_eq!(Some(9.0), result);
}

#[test]
fn test_stopped_reducer_consumes_nothing_more() {
    let handler = InputHandler::new(0, false, "0".to_string());
    let mut reducer = Reducer::new(handler);
    assert!(reducer.push_line("1"));
    assert!(!reducer.push_line("   "));
    assert!(!reducer.push_line("2"));
    assert_eq!(vec!["1".to_string()], reducer.values);
    assert_eq!(None, reducer.failure);
}

#[test]
fn test_identity_literals() {
    assert_eq!("0", Op::Add.identity_literal());
    assert_eq!("0", Op::Sub.identity_literal());
    assert_eq!("1", Op::Mul.identity_literal());
    assert_eq!("1", Op::Div.identity_literal());
}

#[test]
fn test_fold_plan_unseeded_takes_first_as_seed() {
    let values = vec!["5".to_string(), "4".to_string(), "3".to_string()];
    let (seed, rest) = fold_plan(false, "0".to_string(), values).unwrap();
    assert_eq!("5", seed);
    assert_eq!(vec!["4".to_string(), "3".to_string()], rest);
}
