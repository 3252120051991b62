use calculator::error::Error;

fn anchor_offsets(text: &str) -> Result<Vec<usize>, (Error, usize, usize)> {
    calculator::anchors(text.as_bytes()).map_err(|error| {
        (error.node, error.span.0, error.span.1)
    })
}

#[test]
fn anchors_mark_value_units() {
    assert_eq!(anchor_offsets("1 + 2"), Ok(vec![0, 4]));
    assert_eq!(anchor_offsets("sin 1"), Ok(vec![0, 4]));
    assert_eq!(anchor_offsets("12 * 34 + 5"), Ok(vec![0, 5, 10]));
    // A bracketed group is one unit, anchored at its first inner unit.
    assert_eq!(anchor_offsets("(1 + 2) * 3"), Ok(vec![1, 10]));
    // A grouping marker bundles trailing units into one.
    assert_eq!(anchor_offsets("1 + 2;"), Ok(vec![0]));
}

#[test]
fn anchors_surface_errors() {
    // The same error a full evaluation would give, usable on every
    // keystroke of an unfinished line.
    assert_eq!(anchor_offsets("1 +"), Err((Error::ExpectedValued, 3, 4)));
    assert_eq!(anchor_offsets("(1"), Err((Error::MismatchedBracket, 2, 3)));
    assert_eq!(anchor_offsets("1 $"), Err((Error::ExpectedOperator, 2, 3)));
}
