use lex::scanner::Scanner;
use lex::value::LoxNumber;

/// Lox numbers as double-precision floats, printed as Rust prints an `f64`.
#[derive(Clone, Copy, Debug)]
struct F64(f64);

impl LoxNumber for F64 {
    fn from_literal(text: &str) -> Self {
        F64(text.parse().unwrap())
    }
    fn from_timestamp(seconds: u64, nanos: u32) -> Self {
        F64(seconds as f64 + nanos as f64 / 1e9)
    }
    fn plus(self, other: Self) -> Self {
        F64(self.0 + other.0)
    }
    fn minus(self, other: Self) -> Self {
        F64(self.0 - other.0)
    }
    fn times(self, other: Self) -> Self {
        F64(self.0 * other.0)
    }
    fn divided_by(self, other: Self) -> Self {
        F64(self.0 / other.0)
    }
    fn negated(self) -> Self {
        F64(-self.0)
    }
    fn less(self, other: Self) -> bool {
        self.0 < other.0
    }
    fn less_equal(self, other: Self) -> bool {
        self.0 <= other.0
    }
    fn greater(self, other: Self) -> bool {
        self.0 > other.0
    }
    fn greater_equal(self, other: Self) -> bool {
        self.0 >= other.0
    }
    fn equals(self, other: Self) -> bool {
        self.0 == other.0
    }
    fn to_text(self) -> String {
        format!("{}", self.0)
    }
    fn debug_text(self) -> String {
        format!("{:?}", self.0)
    }
}

/// The script `test_files/scanner/positive.lex`.
const POSITIVE: &str = "var var1 = 6.43;
var counter = 0;
while (counter <= var1) {
    print (\"still smaller\");
    counter = counter + 1;
}
";

/// The script `test_files/scanner/unexpected_character.lex`.
const UNEXPECTED_CHARACTER: &str = "var x = 5 @ 3;\n";

/// The script `test_files/scanner/unterminated_string.lex`.
const UNTERMINATED_STRING: &str = "\"this string never ends";

fn scan_token_strings(source: &str) -> Vec<String> {
    let scanner = Scanner::new(source);

    scanner
        .scan_tokens()
        .unwrap()
        .iter()
        .map(|token| token.to_string::<F64>())
        .collect()
}

#[test]
fn test_positive_case() {
    let source = POSITIVE;

    let actual_tokens = scan_token_strings(source);
    let expected_tokens = vec![
        "Var var None".to_string(),
        "Identifier var1 None".to_string(),
        "Equal = None".to_string(),
        "Number 6.43 Some(Number(6.43))".to_string(),
        "Semicolon ; None".to_string(),
        "Var var None".to_string(),
        "Identifier counter None".to_string(),
        "Equal = None".to_string(),
        "Number 0 Some(Number(0.0))".to_string(),
        "Semicolon ; None".to_string(),
        "While while None".to_string(),
        "LeftParen ( None".to_string(),
        "Identifier counter None".to_string(),
        "LessEqual <= None".to_string(),
        "Identifier var1 None".to_string(),
        "RightParen ) None".to_string(),
        "LeftBrace { None".to_string(),
        "Print print None".to_string(),
        "LeftParen ( None".to_string(),
        "String \"still smaller\" Some(String(\"still smaller\"))".to_string(),
        "RightParen ) None".to_string(),
        "Semicolon ; None".to_string(),
        "Identifier counter None".to_string(),
        "Equal = None".to_string(),
        "Identifier counter None".to_string(),
        "Plus + None".to_string(),
        "Number 1 Some(Number(1.0))".to_string(),
        "Semicolon ; None".to_string(),
        "RightBrace } None".to_string(),
        "Eof  None".to_string(),
    ];

    assert_eq!(expected_tokens, actual_tokens);
}

#[test]
fn test_unexpected_character() {
    let source = UNEXPECTED_CHARACTER;
    let scanner = Scanner::new(source);

    let error = match scanner.scan_tokens() {
        Ok(_) => panic!("expected scanner error for unexpected character"),
        Err(error) => error,
    };

    assert_eq!("Unexpected character at line 1", error.message::<F64>());
}

#[test]
fn test_unterminated_string() {
    let source = UNTERMINATED_STRING;
    let scanner = Scanner::new(source);

    let error = match scanner.scan_tokens() {
        Ok(_) => panic!("expected scanner error for unterminated string"),
        Err(error) => error,
    };

    assert_eq!("Unterminated String 1", error.message::<F64>());
}
