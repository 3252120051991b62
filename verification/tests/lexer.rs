use calculator::error::Error;
use calculator::item::{AngleUnit, Constant, Function, Trigonometric};
use calculator::lexer::Lexer;
use calculator::token::{Numeric, Operator, Token};

fn tokens(text: &str) -> Result<Vec<Token>, Error> {
    let mut lexer = Lexer::new(text.as_bytes());
    let mut collected = Vec::new();
    while let Some(item) = lexer.next() {
        match item {
            Ok(token) => collected.push(token.node),
            Err(error) => return Err(error.node),
        }
    }
    Ok(collected)
}

fn spanned_tokens(text: &str) -> Vec<(Token, usize, usize)> {
    let mut lexer = Lexer::new(text.as_bytes());
    let mut collected = Vec::new();
    while let Some(item) = lexer.next() {
        let token = item.unwrap();
        collected.push((token.node, token.span.0, token.span.1));
    }
    collected
}

#[test]
fn test_tokenize() {
    let string = "(1 + 2) / 3 * -54; ;";
    assert_eq!(
        tokens(string).unwrap(),
        vec![
            Token::ParenthesisOpen,
            Token::Terminal(Numeric::Decimal),
            Token::Operator(Operator::Add),
            Token::Terminal(Numeric::Decimal),
            Token::ParenthesisClose,
            Token::Operator(Operator::Divide),
            Token::Terminal(Numeric::Decimal),
            Token::Operator(Operator::Multiply),
            Token::Operator(Operator::Minus),
            Token::Terminal(Numeric::Decimal),
            Token::Coalesce(1),
            Token::Coalesce(1),
        ]
    );
}

#[test]
fn test_numerical_format() {
    let string = "10 + -10.0 0x0a 0b1010 0o12 + -1e1";
    assert_eq!(
        tokens(string).unwrap(),
        vec![
            Token::Terminal(Numeric::Decimal),
            Token::Operator(Operator::Add),
            Token::Operator(Operator::Minus),
            Token::Terminal(Numeric::Decimal),
            Token::Terminal(Numeric::Integer(10)),
            Token::Terminal(Numeric::Integer(10)),
            Token::Terminal(Numeric::Integer(10)),
            Token::Operator(Operator::Add),
            Token::Operator(Operator::Minus),
            Token::Terminal(Numeric::Decimal),
        ]
    );
    // The decimal literals all denote ten as well; their spans point at
    // the exact bytes a driver would parse.
    for (token, start, end) in spanned_tokens(string) {
        if token == Token::Terminal(Numeric::Decimal) {
            assert_eq!(string[start..end].parse::<f64>().unwrap(), 10.0);
        }
    }
}

#[test]
fn test_identifier() {
    let string = "$ $0 $$ $identifier";
    assert_eq!(
        tokens(string).unwrap(),
        vec![
            Token::Variable(b"".to_vec()),
            Token::Variable(b"0".to_vec()),
            Token::Variable(b"$".to_vec()),
            Token::Variable(b"identifier".to_vec()),
        ]
    );
}

#[test]
fn keywords_and_primes() {
    assert_eq!(
        tokens("sin cos' atan abs sqrt cbrt ln log2 log10 e pi").unwrap(),
        vec![
            Token::Function(Function::Trigonometric(Trigonometric::Sine, AngleUnit::Radians)),
            Token::Function(Function::Trigonometric(Trigonometric::Cosine, AngleUnit::Degrees)),
            Token::Function(Function::Trigonometric(
                Trigonometric::InverseTangent,
                AngleUnit::Radians
            )),
            Token::Function(Function::AbsoluteValue),
            Token::Function(Function::SquareRoot),
            Token::Function(Function::CubeRoot),
            Token::Function(Function::NaturalLogarithm),
            Token::Function(Function::BinaryLogarithm),
            Token::Function(Function::DecimalLogarithm),
            Token::Constant(Constant::E),
            Token::Constant(Constant::Pi),
        ]
    );
    // The prime extends the token's span by one byte.
    let primed = spanned_tokens("sin'");
    assert_eq!(
        primed,
        vec![(
            Token::Function(Function::Trigonometric(Trigonometric::Sine, AngleUnit::Degrees)),
            0,
            4
        )]
    );
}

#[test]
fn lexical_errors() {
    assert_eq!(tokens("foo"), Err(Error::InvalidItem));
    assert_eq!(tokens("0x"), Err(Error::InvalidTerminal));
    assert_eq!(tokens("1.2.3"), Err(Error::InvalidTerminal));
    assert_eq!(tokens("1E"), Err(Error::InvalidTerminal));
    assert_eq!(tokens("&"), Err(Error::InvalidCharacter('&')));
}
