use calculator::context::Context;
use calculator::error::Error;

#[test]
fn push_value_assigns_increasing_keys() {
    let mut context = Context::new();
    assert_eq!(context.push_value(1.0f64.to_bits()), 0);
    assert_eq!(context.push_value(2.0f64.to_bits()), 1);
    assert_eq!(context.push_value(3.0f64.to_bits()), 2);
}

#[test]
fn variable_lookup_by_key() {
    let mut context = Context::new();
    for index in 0..20 {
        context.push_value((index as f64 * 0.5).to_bits());
    }
    assert_eq!(context.variable(b"0"), Ok(0.0f64.to_bits()));
    assert_eq!(context.variable(b"9"), Ok(4.5f64.to_bits()));
    assert_eq!(context.variable(b"a"), Ok(5.0f64.to_bits()));
    assert_eq!(context.variable(b"13"), Ok(9.5f64.to_bits()));
    assert_eq!(
        context.variable(b"14"),
        Err(Error::UndefinedVariable(b"14".to_vec()))
    );
    // Uppercase and padded forms are not the canonical key.
    assert_eq!(
        context.variable(b"A"),
        Err(Error::UndefinedVariable(b"A".to_vec()))
    );
    assert_eq!(
        context.variable(b"0a"),
        Err(Error::UndefinedVariable(b"0a".to_vec()))
    );
    assert_eq!(
        context.variable(b"name"),
        Err(Error::UndefinedVariable(b"name".to_vec()))
    );
}

#[test]
fn variable_lookup_by_offset() {
    let mut context = Context::new();
    context.push_value(10.0f64.to_bits());
    context.push_value(20.0f64.to_bits());
    assert_eq!(context.variable(b""), Ok(20.0f64.to_bits()));
    assert_eq!(context.variable(b"$"), Ok(10.0f64.to_bits()));
    assert_eq!(context.variable(b"$$"), Err(Error::InvalidEvaluationOffset));
    let empty = Context::new();
    assert_eq!(empty.variable(b""), Err(Error::InvalidEvaluationOffset));
}

#[test]
fn history_recall() {
    let mut context = Context::new();
    assert_eq!(context.history(), None);
    context.push_history(String::from("1 + 1"));
    context.push_history(String::from("2 + 2"));
    // Offset zero recalls nothing; one is the most recent entry.
    assert_eq!(context.history(), None);
    context.history_offset = 1;
    assert_eq!(context.history(), Some(String::from("2 + 2")));
    context.history_offset = 2;
    assert_eq!(context.history(), Some(String::from("1 + 1")));
    context.history_offset = 3;
    assert_eq!(context.history(), None);
    // A new entry resets the cursor.
    context.push_history(String::from("3 + 3"));
    assert_eq!(context.history_offset, 0);
    assert_eq!(context.history(), None);
}
