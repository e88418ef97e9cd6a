use eql_normalize::{normalize, Entry, Error, FloatWrapper, Kind, Pos, Token, Value, Variable};
use eql_normalize::scan::scan_vars;
use eql_normalize::serialize::serialize_tokens;
use eql_normalize::quoting::unquote_string;

fn pos() -> Pos {
    Pos { line: 1, column: 1, offset: 0 }
}

fn tok(kind: Kind, text: &str) -> Token {
    Token { kind, value: text.to_string(), start: pos(), end: pos() }
}

fn args(s: &str) -> Vec<Token> {
    s.split(' ').map(|w| tok(Kind::Argument, w)).collect()
}

fn select_1_plus_1() -> Vec<Token> {
    vec![
        tok(Kind::Keyword, "SELECT"),
        tok(Kind::IntConst, "1"),
        tok(Kind::Add, "+"),
        tok(Kind::IntConst, "1"),
    ]
}

fn norm(tokens: Vec<Token>) -> Entry {
    normalize(tokens, pos()).unwrap()
}

#[test]
fn none() {
    assert_eq!(scan_vars(&select_1_plus_1()).unwrap(), (false, 0));
}

#[test]
fn numeric() {
    assert_eq!(scan_vars(&args("$0 $1 $2")).unwrap(), (false, 3));
    assert_eq!(scan_vars(&args("$2 $3 $2")).unwrap(), (false, 4));
    assert_eq!(scan_vars(&args("$0 $0 $0")).unwrap(), (false, 1));
    assert_eq!(scan_vars(&args("$10 $100")).unwrap(), (false, 101));
}

#[test]
fn named() {
    assert_eq!(scan_vars(&args("$a")).unwrap(), (true, 1));
    assert_eq!(scan_vars(&args("$b $c $d")).unwrap(), (true, 3));
    assert_eq!(scan_vars(&args("$b $c $b")).unwrap(), (true, 2));
    assert_eq!(scan_vars(&args("$a $b $b $a $c $xx")).unwrap(), (true, 4));
}

#[test]
fn mixed() {
    assert_eq!(scan_vars(&args("$a $0")), None);
    assert_eq!(scan_vars(&args("$0 $a")), None);
    assert_eq!(scan_vars(&args("$b $c $100")), None);
    assert_eq!(scan_vars(&args("$10 $xx $yy")), None);
}

#[test]
fn scan_index_at_machine_limit() {
    // the next free slot after usize::MAX cannot be represented
    assert_eq!(scan_vars(&args("$18446744073709551615")), None);
    // one past it no longer parses as an index, so it is a name
    assert_eq!(scan_vars(&args("$18446744073709551616")).unwrap(), (true, 1));
}

#[test]
fn scheme_free_dedup() {
    let e = norm(select_1_plus_1());
    assert_eq!(e.variables, vec![Variable { value: Value::Int(1) }]);
    assert_eq!(e.named_args, false);
    assert_eq!(e.first_arg, Some(0));
    assert_eq!(e.key, "SELECT(<__std__::int64>$0)+(<__std__::int64>$0)");
    assert_eq!(e.end_pos, pos());
}

#[test]
fn rewritten_key_is_stable() {
    let e = norm(select_1_plus_1());
    let again = norm(e.tokens.clone());
    assert_eq!(again.key, e.key);
    assert_eq!(again.variables, vec![]);
}

#[test]
fn dedup_two_sevens() {
    let e = norm(vec![
        tok(Kind::Keyword, "SELECT"),
        tok(Kind::IntConst, "7"),
        tok(Kind::Add, "+"),
        tok(Kind::IntConst, "7"),
    ]);
    assert_eq!(e.variables, vec![Variable { value: Value::Int(7) }]);
    assert_eq!(e.key, "SELECT(<__std__::int64>$0)+(<__std__::int64>$0)");
}

#[test]
fn distinct_ints_get_distinct_variables() {
    let e = norm(vec![
        tok(Kind::Keyword, "SELECT"),
        tok(Kind::IntConst, "2"),
        tok(Kind::Add, "+"),
        tok(Kind::IntConst, "3"),
    ]);
    assert_eq!(
        e.variables,
        vec![Variable { value: Value::Int(2) }, Variable { value: Value::Int(3) }]
    );
    assert_eq!(e.key, "SELECT(<__std__::int64>$0)+(<__std__::int64>$1)");
}

#[test]
fn tuple_access_excluded() {
    let e = norm(vec![
        tok(Kind::Keyword, "SELECT"),
        tok(Kind::Ident, "x"),
        tok(Kind::Dot, "."),
        tok(Kind::IntConst, "1"),
    ]);
    assert_eq!(e.variables, vec![]);
    assert_eq!(e.first_arg, None);
    assert_eq!(e.key, "SELECT x.1");
}

#[test]
fn limit_one_excluded() {
    let e = norm(vec![
        tok(Kind::Keyword, "SELECT"),
        tok(Kind::IntConst, "1"),
        tok(Kind::Keyword, "LIMIT"),
        tok(Kind::IntConst, "1"),
    ]);
    assert_eq!(e.variables, vec![Variable { value: Value::Int(1) }]);
    assert_eq!(e.key, "SELECT(<__std__::int64>$0)LIMIT 1");
}

#[test]
fn limit_two_not_excluded() {
    let e = norm(vec![
        tok(Kind::Keyword, "SELECT"),
        tok(Kind::IntConst, "1"),
        tok(Kind::Keyword, "limit"),
        tok(Kind::IntConst, "2"),
    ]);
    assert_eq!(
        e.variables,
        vec![Variable { value: Value::Int(1) }, Variable { value: Value::Int(2) }]
    );
}

#[test]
fn min_magnitude_excluded() {
    let e = norm(vec![
        tok(Kind::Keyword, "SELECT"),
        tok(Kind::Sub, "-"),
        tok(Kind::IntConst, "9223372036854775808"),
    ]);
    assert_eq!(e.variables, vec![]);
    assert_eq!(e.key, "SELECT-9223372036854775808");
}

#[test]
fn admin_guard_create() {
    let e = norm(vec![
        tok(Kind::Keyword, "create"),
        tok(Kind::Ident, "Foo"),
        tok(Kind::IntConst, "7"),
    ]);
    assert_eq!(e.variables, vec![]);
    assert_eq!(e.named_args, false);
    assert_eq!(e.first_arg, None);
    assert_eq!(e.key, "create Foo 7");
    assert_eq!(e.tokens.len(), 3);
}

#[test]
fn admin_guard_alter_mid_query() {
    let e = norm(vec![
        tok(Kind::Keyword, "SELECT"),
        tok(Kind::IntConst, "7"),
        tok(Kind::Keyword, "Alter"),
    ]);
    assert_eq!(e.variables, vec![]);
    assert_eq!(e.key, "SELECT 7 Alter");
}

#[test]
fn named_scheme_extraction() {
    let e = norm(vec![
        tok(Kind::Keyword, "SELECT"),
        tok(Kind::Argument, "$a"),
        tok(Kind::Add, "+"),
        tok(Kind::IntConst, "7"),
    ]);
    assert_eq!(e.named_args, true);
    assert_eq!(e.first_arg, Some(1));
    assert_eq!(e.variables, vec![Variable { value: Value::Int(7) }]);
    assert_eq!(e.key, "SELECT$a+(<__std__::int64>$__edb_arg_1)");
}

#[test]
fn positional_scheme_extraction() {
    let e = norm(vec![
        tok(Kind::Keyword, "SELECT"),
        tok(Kind::Argument, "$0"),
        tok(Kind::Add, "+"),
        tok(Kind::IntConst, "7"),
    ]);
    assert_eq!(e.named_args, false);
    assert_eq!(e.first_arg, Some(1));
    assert_eq!(e.variables, vec![Variable { value: Value::Int(7) }]);
    assert_eq!(e.key, "SELECT$0+(<__std__::int64>$1)");
}

#[test]
fn mixed_scheme_no_extraction() {
    let e = norm(vec![
        tok(Kind::Argument, "$a"),
        tok(Kind::Argument, "$0"),
        tok(Kind::IntConst, "7"),
    ]);
    assert_eq!(e.variables, vec![]);
    assert_eq!(e.first_arg, None);
    assert_eq!(e.named_args, false);
    assert_eq!(e.tokens.len(), 3);
    assert_eq!(e.tokens[2].value, "7");
}

#[test]
fn int_separators_removed() {
    let e = norm(vec![tok(Kind::Keyword, "SELECT"), tok(Kind::IntConst, "1_000")]);
    assert_eq!(e.variables, vec![Variable { value: Value::Int(1000) }]);
}

#[test]
fn int_overflow_is_tokenizer_error() {
    let r = normalize(
        vec![tok(Kind::Keyword, "SELECT"), tok(Kind::IntConst, "99999999999999999999")],
        pos(),
    );
    assert_eq!(r, Err(Error::Tokenizer("can't parse integer".to_string(), pos())));
}

#[test]
fn int_max_still_extracted() {
    let e = norm(vec![tok(Kind::Keyword, "SELECT"), tok(Kind::IntConst, "9223372036854775807")]);
    assert_eq!(e.variables, vec![Variable { value: Value::Int(i64::MAX) }]);
}

#[test]
fn float_extraction_by_bit_pattern() {
    let e = norm(vec![
        tok(Kind::Keyword, "SELECT"),
        tok(Kind::FloatConst, "1.5"),
        tok(Kind::Add, "+"),
        tok(Kind::FloatConst, "1.50"),
    ]);
    assert_eq!(
        e.variables,
        vec![Variable { value: Value::Float(FloatWrapper((1.5f64).to_bits())) }]
    );
    assert_eq!(e.key, "SELECT(<__std__::float64>$0)+(<__std__::float64>$0)");
}

#[test]
fn float_out_of_range_error() {
    let r = normalize(vec![tok(Kind::Keyword, "SELECT"), tok(Kind::FloatConst, "1e999")], pos());
    assert_eq!(
        r,
        Err(Error::Tokenizer("number is out of range for std::float64".to_string(), pos()))
    );
}

#[test]
fn float_huge_exponent_rejected() {
    let r = normalize(vec![tok(Kind::FloatConst, "1e9223372036854775807")], pos());
    assert_eq!(
        r,
        Err(Error::Tokenizer("number is out of range for std::float64".to_string(), pos()))
    );
}

#[test]
fn float_unparsable_error() {
    let r = normalize(vec![tok(Kind::FloatConst, "zz")], pos());
    assert_eq!(r, Err(Error::Tokenizer("can't parse std::float64".to_string(), pos())));
}

#[test]
fn bigint_extraction_canonical_digits() {
    let e = norm(vec![tok(Kind::Keyword, "SELECT"), tok(Kind::BigIntConst, "12e2n")]);
    assert_eq!(e.variables, vec![Variable { value: Value::BigInt("1200".to_string()) }]);
    assert_eq!(e.key, "SELECT(<__std__::bigint>$0)");
}

#[test]
fn bigint_dedup_across_spellings() {
    let e = norm(vec![
        tok(Kind::Keyword, "SELECT"),
        tok(Kind::BigIntConst, "123n"),
        tok(Kind::Add, "+"),
        tok(Kind::BigIntConst, "1_2_3n"),
    ]);
    assert_eq!(e.variables, vec![Variable { value: Value::BigInt("123".to_string()) }]);
}

#[test]
fn bigint_not_integral_is_assertion_error() {
    let r = normalize(vec![tok(Kind::BigIntConst, "1.5n")], pos());
    assert_eq!(r, Err(Error::Assertion("number is not integer".to_string(), pos())));
}

#[test]
fn bigint_huge_exponent_rejected() {
    let r = normalize(vec![tok(Kind::BigIntConst, "1e9223372036854775808n")], pos());
    assert_eq!(r, Err(Error::Tokenizer("can't parse bigint".to_string(), pos())));
    let r = normalize(vec![tok(Kind::BigIntConst, "1e-9223372036854775807n")], pos());
    assert_eq!(r, Err(Error::Tokenizer("can't parse bigint".to_string(), pos())));
}

#[test]
fn decimal_huge_exponent_rejected() {
    let r = normalize(vec![tok(Kind::DecimalConst, "1000e9223372036854775806n")], pos());
    assert_eq!(r, Err(Error::Tokenizer("can't parse decimal".to_string(), pos())));
}

#[test]
fn bigint_unparsable_error() {
    let r = normalize(vec![tok(Kind::BigIntConst, "zzn")], pos());
    assert_eq!(r, Err(Error::Tokenizer("can't parse bigint".to_string(), pos())));
}

#[test]
fn decimal_extraction_and_dedup() {
    let e = norm(vec![
        tok(Kind::Keyword, "SELECT"),
        tok(Kind::DecimalConst, "1.5n"),
        tok(Kind::Add, "+"),
        tok(Kind::DecimalConst, "1.50n"),
    ]);
    assert_eq!(e.variables, vec![Variable { value: Value::Decimal("1.5e0".to_string()) }]);
    assert_eq!(e.key, "SELECT(<__std__::decimal>$0)+(<__std__::decimal>$0)");
}

#[test]
fn decimal_unparsable_error() {
    let r = normalize(vec![tok(Kind::DecimalConst, "zzn")], pos());
    assert_eq!(r, Err(Error::Tokenizer("can't parse decimal".to_string(), pos())));
}

#[test]
fn string_extraction_with_escapes() {
    let e = norm(vec![tok(Kind::Keyword, "SELECT"), tok(Kind::Str, "'a\\nb'")]);
    assert_eq!(e.variables, vec![Variable { value: Value::Str("a\nb".to_string()) }]);
    assert_eq!(e.key, "SELECT(<__std__::str>$0)");
}

#[test]
fn string_dedup_across_quoting_forms() {
    // an ordinary and a raw literal of the same contents are one value
    let e = norm(vec![
        tok(Kind::Keyword, "SELECT"),
        tok(Kind::Str, "'ab'"),
        tok(Kind::Add, "+"),
        tok(Kind::Str, "r\"ab\""),
    ]);
    assert_eq!(e.variables, vec![Variable { value: Value::Str("ab".to_string()) }]);
}

#[test]
fn string_unquote_failure_error() {
    let r = normalize(vec![tok(Kind::Str, "abc")], pos());
    assert_eq!(r, Err(Error::Tokenizer("can't unquote string".to_string(), pos())));
}

#[test]
fn unquote_forms() {
    assert_eq!(unquote_string("'ab'"), Some("ab".to_string()));
    assert_eq!(unquote_string("\"ab\""), Some("ab".to_string()));
    assert_eq!(unquote_string("r'a\\nb'"), Some("a\\nb".to_string()));
    assert_eq!(unquote_string("'a\\x41b'"), Some("aAb".to_string()));
    assert_eq!(unquote_string("'\\u00e9'"), Some("\u{e9}".to_string()));
    assert_eq!(unquote_string("'\\U0001F600'"), Some("\u{1F600}".to_string()));
    assert_eq!(unquote_string("'a\\tb\\rc\\\\d\\'e'"), Some("a\tb\rc\\d'e".to_string()));
    assert_eq!(unquote_string("'a\\bz\\fq'"), Some("a\u{0008}z\u{000C}q".to_string()));
}

#[test]
fn unquote_rejects_malformed() {
    assert_eq!(unquote_string("abc"), None);
    assert_eq!(unquote_string("'ab"), None);
    assert_eq!(unquote_string("'a\\qb'"), None);
    assert_eq!(unquote_string("'a\\xFF'"), None);
    assert_eq!(unquote_string("'\\ud800'"), None);
    assert_eq!(unquote_string("'a\\'"), None);
    assert_eq!(unquote_string(""), None);
}

#[test]
fn serializer_spacing_rules() {
    assert_eq!(
        serialize_tokens(&vec![tok(Kind::Ident, "a"), tok(Kind::Add, "+"), tok(Kind::Ident, "b")]),
        "a+b"
    );
    assert_eq!(serialize_tokens(&vec![tok(Kind::Ident, "a"), tok(Kind::Ident, "b")]), "a b");
    assert_eq!(serialize_tokens(&vec![tok(Kind::Ident, "a"), tok(Kind::Argument, "$x")]), "a$x");
    assert_eq!(serialize_tokens(&vec![]), "");
}

#[test]
fn empty_query() {
    let e = norm(vec![]);
    assert_eq!(e.key, "");
    assert_eq!(e.variables, vec![]);
    assert_eq!(e.named_args, false);
    assert_eq!(e.first_arg, None);
}
