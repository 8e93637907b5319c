use autobox::state::{globhole, VariableState, VariableStateConstraint};

fn lit(s: &str) -> VariableState {
    VariableState::value(s.to_string())
}

fn segments(state: &VariableState) -> Vec<String> {
    state
        .constraints
        .iter()
        .map(|c| match c {
            VariableStateConstraint::Hole => "<hole>".to_string(),
            VariableStateConstraint::Value(v) => format!("'{}'", v),
        })
        .collect()
}

#[test]
fn concatenation_leaves_no_hole_at_the_seam() {
    let ab = lit("a").concat(&lit("b"));
    assert_eq!(globhole(&ab), "ab");
    assert_eq!(ab.constraints.len(), 2);
}

#[test]
fn hole_renders_as_star() {
    assert_eq!(globhole(&VariableState::hole()), "*");
}

#[test]
fn literal_renders_as_itself() {
    assert_eq!(globhole(&lit("x")), "x");
}

#[test]
fn empty_renders_as_empty_text() {
    assert_eq!(globhole(&VariableState::empty()), "");
    assert_eq!(VariableState::empty().constraints.len(), 0);
}

#[test]
fn rendering_mixes_literals_and_holes() {
    let s = lit("/home/").concat(&VariableState::hole()).concat(&lit("/.cfg"));
    assert_eq!(globhole(&s), "/home/*/.cfg");
}

#[test]
fn optimize_joins_adjacent_literals() {
    let s = lit("a")
        .concat(&lit("b"))
        .concat(&VariableState::hole())
        .concat(&lit("c"))
        .concat(&lit("d"))
        .concat(&lit("e"));
    let o = s.optimize();
    assert_eq!(segments(&o), vec!["'ab'", "<hole>", "'cde'"]);
    assert_eq!(globhole(&o), globhole(&s));
}

#[test]
fn optimize_keeps_adjacent_holes() {
    let s = VariableState::hole().concat(&VariableState::hole());
    assert_eq!(segments(&s.optimize()), vec!["<hole>", "<hole>"]);
}

#[test]
fn optimize_is_idempotent() {
    let s = lit("x")
        .concat(&VariableState::hole())
        .concat(&lit("y"))
        .concat(&lit("z"))
        .concat(&VariableState::hole());
    let once = s.optimize();
    let twice = once.optimize();
    assert_eq!(segments(&once), segments(&twice));
    assert_eq!(segments(&once), vec!["'x'", "<hole>", "'yz'", "<hole>"]);
}

#[test]
fn optimize_of_empty_is_empty() {
    assert_eq!(VariableState::empty().optimize().constraints.len(), 0);
}

#[test]
fn clone_keeps_segments() {
    let s = lit("p").concat(&VariableState::hole());
    assert_eq!(segments(&s.clone()), segments(&s));
}
