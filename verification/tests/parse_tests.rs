use clformat::directive::{Alignment, Directive};
use clformat::errors::{CondIssue, ParamIssue, ParseError};
use clformat::params::Param;
use clformat::parse::{literal, params, parse_format_string};

#[test]
fn parses_literal() {
    let chars: Vec<char> = "zork".chars().collect();
    let (d, j) = literal(&chars, 0).unwrap();
    assert_eq!(Directive::Literal("zork".to_string()), d);
    assert_eq!(4, j);

    let chars: Vec<char> = "zork~A".chars().collect();
    let (d, j) = literal(&chars, 0).unwrap();
    assert_eq!(Directive::Literal("zork".to_string()), d);
    assert_eq!(4, j);
}

#[test]
fn parses_params() {
    let chars: Vec<char> = "42a".chars().collect();
    let (ps, j) = params(&chars, 0).unwrap();
    assert_eq!(vec![Param::Num(42)], ps.parsed);
    assert_eq!(2, j);

    let chars: Vec<char> = "42,' a".chars().collect();
    let (ps, j) = params(&chars, 0).unwrap();
    assert_eq!(vec![Param::Num(42), Param::Char(' ')], ps.parsed);
    assert_eq!(5, j);

    let chars: Vec<char> = "42,' ,234a".chars().collect();
    let (ps, j) = params(&chars, 0).unwrap();
    assert_eq!(
        vec![Param::Num(42), Param::Char(' '), Param::Num(234)],
        ps.parsed
    );
    assert_eq!(9, j);
}

#[test]
fn parse_params() {
    let chars: Vec<char> = "3,2,3".chars().collect();
    let (ps, _) = params(&chars, 0).unwrap();
    assert_eq!(vec![Param::Num(3), Param::Num(2), Param::Num(3)], ps.parsed);
}

#[test]
fn parse_missing_params() {
    let chars: Vec<char> = "3,,3".chars().collect();
    let (ps, _) = params(&chars, 0).unwrap();
    assert_eq!(
        vec![Param::Num(3), Param::Missing, Param::Num(3)],
        ps.parsed
    );

    let chars: Vec<char> = ",9,3".chars().collect();
    let (ps, _) = params(&chars, 0).unwrap();
    assert_eq!(
        vec![Param::Missing, Param::Num(9), Param::Num(3)],
        ps.parsed
    );

    let chars: Vec<char> = ",,3".chars().collect();
    let (ps, _) = params(&chars, 0).unwrap();
    assert_eq!(
        vec![Param::Missing, Param::Missing, Param::Num(3)],
        ps.parsed
    );
}

#[test]
fn parses() {
    let format_string = "Hello, ~A! Value: ~D~%";
    let parsed = parse_format_string(format_string).unwrap();

    assert_eq!(
        vec![
            Directive::Literal("Hello, ".to_string()),
            Directive::TildeA,
            Directive::Literal("! Value: ".to_string()),
            Directive::Decimal {
                min_columns: 0,
                pad_char: ' ',
                comma_char: ',',
                comma_interval: 3,
                print_commas: false,
                print_sign: false,
            },
            Directive::Newline
        ],
        parsed
    );
}

#[test]
fn parses_iteration() {
    let format_string = "Hello, ~{~Anork~A~}~%";
    let parsed = parse_format_string(format_string).unwrap();

    assert_eq!(
        vec![
            Directive::Literal("Hello, ".to_string()),
            Directive::Iteration(vec![
                Directive::TildeA,
                Directive::Literal("nork".to_string()),
                Directive::TildeA,
            ]),
            Directive::Newline
        ],
        parsed
    );
}

#[test]
fn parses_alignment() {
    let format_string = "zork ~10<~A~>~%";
    let parsed = parse_format_string(format_string).unwrap();

    assert_eq!(
        vec![
            Directive::Literal("zork ".to_string()),
            Directive::Align {
                inner: vec![Directive::TildeA],
                min_columns: 10,
                col_inc: 0,
                min_pad: 0,
                pad_char: ' ',
                direction: Alignment::Left,
            },
            Directive::Newline,
        ],
        parsed
    );
}

#[test]
fn parses_right_alignment() {
    let format_string = "zork ~10:<~A~>~%";
    let parsed = parse_format_string(format_string).unwrap();

    assert_eq!(
        vec![
            Directive::Literal("zork ".to_string()),
            Directive::Align {
                inner: vec![Directive::TildeA],
                min_columns: 10,
                col_inc: 0,
                min_pad: 0,
                pad_char: ' ',
                direction: Alignment::Right,
            },
            Directive::Newline,
        ],
        parsed
    );
}

#[test]
fn parses_centre_alignment() {
    let format_string = "zork ~10:@<~A~>~%";
    let parsed = parse_format_string(format_string).unwrap();

    assert_eq!(
        vec![
            Directive::Literal("zork ".to_string()),
            Directive::Align {
                inner: vec![Directive::TildeA],
                min_columns: 10,
                col_inc: 0,
                min_pad: 0,
                pad_char: ' ',
                direction: Alignment::Centre,
            },
            Directive::Newline,
        ],
        parsed
    );
}

#[test]
fn parse_conditional() {
    let format_string = "~[zork~;zoggle~;zoog~]";
    let parsed = parse_format_string(format_string).unwrap();
    assert_eq!(
        vec![Directive::Conditional {
            boolean: false,
            consumes: false,
            default: None,
            choices: vec![
                vec![Directive::Literal("zork".to_string())],
                vec![Directive::Literal("zoggle".to_string())],
                vec![Directive::Literal("zoog".to_string())],
            ]
        }],
        parsed
    );
}

#[test]
fn parse_conditional_with_default() {
    let format_string = "~[zork~;zoggle~:;zoog~]";
    let parsed = parse_format_string(format_string).unwrap();
    assert_eq!(
        vec![Directive::Conditional {
            boolean: false,
            consumes: false,
            choices: vec![
                vec![Directive::Literal("zork".to_string())],
                vec![Directive::Literal("zoggle".to_string())],
            ],
            default: Some(vec![Directive::Literal("zoog".to_string())]),
        }],
        parsed
    );
}

#[test]
fn errors_on_invalid_directive() {
    let parsed = parse_format_string("Ook, ~z");
    assert_eq!(Err(ParseError::InvalidDirective('Z')), parsed);
}

#[test]
fn errors_on_break_outside_loop() {
    let parsed = parse_format_string("Oook ~^ ~{~A}");
    assert_eq!(Err(ParseError::BreakOutsideLoop), parsed);
}

#[test]
fn errors_on_break_in_alignment_outside_loop() {
    let parsed = parse_format_string("~<~^~>");
    assert_eq!(Err(ParseError::BreakOutsideLoop), parsed);
}

#[test]
fn break_inside_conditional_inside_loop_is_fine() {
    assert!(parse_format_string("~{~[x~^y~]~}").is_ok());
}

#[test]
fn errors_on_unterminated_directive() {
    assert_eq!(
        Err(ParseError::UnterminatedDirective),
        parse_format_string("abc~")
    );
    assert_eq!(
        Err(ParseError::UnterminatedDirective),
        parse_format_string("~3,")
    );
}

#[test]
fn errors_on_boolean_conditional_arity() {
    assert_eq!(
        Err(ParseError::MalformedConditional(CondIssue::BooleanArity)),
        parse_format_string("~:[only~]")
    );
}

#[test]
fn errors_on_default_not_last() {
    assert_eq!(
        Err(ParseError::MalformedConditional(CondIssue::DefaultNotLast)),
        parse_format_string("~[a~:;b~;c~]")
    );
}

#[test]
fn errors_on_char_param_in_number_slot() {
    assert_eq!(
        Err(ParseError::BadParameter(ParamIssue::ExpectedNumber)),
        parse_format_string("~'aD")
    );
}

#[test]
fn errors_on_number_param_in_char_slot() {
    assert_eq!(
        Err(ParseError::BadParameter(ParamIssue::ExpectedCharacter)),
        parse_format_string("~1,2D")
    );
}

#[test]
fn errors_on_unsupported_float_param() {
    assert_eq!(
        Err(ParseError::BadParameter(ParamIssue::Unsupported)),
        parse_format_string("~1,2,3F")
    );
}

#[test]
fn errors_on_oversized_param() {
    assert_eq!(
        Err(ParseError::BadParameter(ParamIssue::TooLarge)),
        parse_format_string("~99999999999999999999D")
    );
}

#[test]
fn unterminated_brackets_are_tolerated() {
    assert_eq!(
        vec![Directive::Iteration(vec![Directive::TildeA])],
        parse_format_string("~{~A").unwrap()
    );
    assert_eq!(
        vec![Directive::Align {
            inner: vec![Directive::TildeA],
            min_columns: 0,
            col_inc: 0,
            min_pad: 0,
            pad_char: ' ',
            direction: Alignment::Left,
        }],
        parse_format_string("~<~A").unwrap()
    );
}

#[test]
fn parsing_twice_yields_equal_trees() {
    let control = "~{~A~^, ~}~10,'_:D~13:@<~A~>~:[a~;b~]";
    let first = parse_format_string(control).unwrap();
    let second = parse_format_string(control).unwrap();
    assert_eq!(first, second);
}

#[test]
fn invalid_directive_letter_is_uppercased() {
    assert_eq!(
        Err(ParseError::InvalidDirective('Z')),
        parse_format_string("~Z")
    );
    assert_eq!(
        Err(ParseError::InvalidDirective('Z')),
        parse_format_string("~z")
    );
}
