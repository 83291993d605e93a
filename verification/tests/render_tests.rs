use clformat::errors::{CondIssue, ParseError, RenderError};
use clformat::parse::parse_format_string;
use clformat::render::{render_into, render_to_string};
use clformat::value::Value;

fn render_str(control: &str, args: Vec<Value>) -> String {
    let dirs = parse_format_string(control).unwrap();
    render_to_string(&dirs, &args).unwrap()
}

fn render_err(control: &str, args: Vec<Value>) -> RenderError {
    let dirs = parse_format_string(control).unwrap();
    render_to_string(&dirs, &args).unwrap_err()
}

fn text(s: &str) -> Value {
    Value::Str(s.to_string())
}

#[test]
fn it_works() {
    let dr = "Dr Ponk";
    let x = render_str("Hello, ~A", vec![text(dr)]);

    assert_eq!("Hello, Dr Ponk", x);
}

#[test]
fn writer() {
    let mut write_to_me = String::new();
    let dr = "Dr Nork";
    let dirs = parse_format_string("Hey, ~A").unwrap();
    render_into(&dirs, &vec![text(dr)], &mut write_to_me).unwrap();

    assert_eq!("Hey, Dr Nork", write_to_me);
}

#[test]
fn smoke_stdout() {
    let dr = "Dr Ponk";
    println!("{}", render_str("~%Hello, ~A~%", vec![text(dr)]));
}

#[test]
fn iteration() {
    let x = Value::List(vec![text("ook"), text("onk"), text("nork"), text("nonk")]);
    let x = render_str("~{~A~^, ~}", vec![x]);

    assert_eq!("ook, onk, nork, nonk", x);
}

#[test]
fn skip_iteration() {
    let x = Value::List(vec![text("ook"), text("onk"), text("nork"), text("nonk")]);
    let x = render_str("~{~A~*~^, ~}", vec![x]);

    assert_eq!("ook, nork", x);
}

#[test]
fn decimals() {
    let num = 4200;
    assert_eq!("4200", render_str("~D", vec![Value::Int(num)]));
    assert_eq!("4,200", render_str("~:D", vec![Value::Int(num)]));

    let num = -4200;
    assert_eq!("-4,200", render_str("~:D", vec![Value::Int(num)]));
    assert_eq!("____-4,200", render_str("~10,'_:D", vec![Value::Int(num)]));

    let num = 4200;
    assert_eq!("4200", render_str("~D", vec![Value::Int(num)]));
    assert_eq!("4,200", render_str("~:D", vec![Value::Int(num)]));
}

#[test]
fn floats() {
    let num = std::f64::consts::PI;
    assert_eq!(
        "3.14",
        render_str("~,2F", vec![Value::Real(format!("{}", num))])
    );
    assert_eq!(
        " 3.142",
        render_str("~6,3F", vec![Value::Real(format!("{}", num))])
    );
    assert_eq!(
        "--3.141593",
        render_str("~10,6,,,,'-F", vec![Value::Real(format!("{}", num))])
    );

    let num = 3.5;
    assert_eq!(
        "3.50",
        render_str("~,2F", vec![Value::Real(format!("{}", num))])
    );
}

#[test]
fn alignment() {
    let t = "zogwobble";
    assert_eq!("  zogwobble  ", render_str("~13:@<~A~>", vec![text(t)]));
    assert_eq!("zogwobble----", render_str("~13,0,0,'-<~A~>", vec![text(t)]));
    assert_eq!(
        "zogwobble----",
        render_str("~13,0,0,'-@<~A~>", vec![text(t)])
    );
    assert_eq!(
        "----zogwobble",
        render_str("~13,0,0,'-:<~A~>", vec![text(t)])
    );
    assert_eq!(
        "--zogwobble--",
        render_str("~13,0,0,'-:@<~A~>", vec![text(t)])
    );
}

#[derive(Debug)]
struct Nork;

fn nork_value() -> Value {
    Value::Custom {
        display: format!("{:?}", Nork),
        debug: format!("{:?}", Nork),
    }
}

#[test]
fn alignment_debug() {
    // Output and align a debug output of a struct and a string.
    let t = "wobble";
    assert_eq!(
        "  Norkwobble  ",
        render_str("~14:@<~S~A~>", vec![nork_value(), text(t)])
    );
    assert_eq!(
        "Norkwobble----",
        render_str("~14,0,0,'-<~S~A~>", vec![nork_value(), text(t)])
    );
    assert_eq!(
        "Norkwobble----",
        render_str("~14,0,0,'-@<~S~A~>", vec![nork_value(), text(t)])
    );
    assert_eq!(
        "----Norkwobble",
        render_str("~14,0,0,'-:<~S~A~>", vec![nork_value(), text(t)])
    );
    assert_eq!(
        "--Norkwobble--",
        render_str("~14,0,0,'-:@<~S~A~>", vec![nork_value(), text(t)])
    );
}

#[test]
fn conditional() {
    let x = 2;
    assert_eq!(
        "nork",
        render_str("~[zork~;plork~;nork~:;gork~]", vec![Value::Int(x)])
    );

    let x = 0;
    assert_eq!(
        "zork",
        render_str("~[zork~;plork~;nork~:;gork~]", vec![Value::Int(x)])
    );

    let x = 100;
    assert_eq!(
        "gork",
        render_str("~[zork~;plork~;nork~:;gork~]", vec![Value::Int(x)])
    );
}

#[test]
fn conditional_consumes() {
    let x = 2;
    assert_eq!(
        "norkdork",
        render_str(
            "~[zork~;plork~;nork~:;gork~]~A",
            vec![Value::Int(x), text("dork")]
        )
    );

    // A consuming conditional must have exactly one choice and no
    // default; this control string is rejected at parse time.
    assert_eq!(
        Err(ParseError::MalformedConditional(CondIssue::ConsumingArity)),
        parse_format_string("~@[zork~;plork~;nork~:;gork~]~A~A")
    );
}

#[test]
fn consuming_conditional() {
    assert_eq!(
        "yes told",
        render_str("~@[yes ~]~A", vec![Value::Int(2), text("told")])
    );
    assert_eq!(
        "told",
        render_str("~@[yes ~]~A", vec![Value::Bool(false), text("told")])
    );
}

#[test]
fn boolean_conditional() {
    let x = true;
    assert_eq!("zoggle", render_str("~:[nork~;zoggle~]", vec![Value::Bool(x)]));

    let x = false;
    assert_eq!("nork", render_str("~:[nork~;zoggle~]", vec![Value::Bool(x)]));
}

#[test]
fn plain_text_renders_as_itself() {
    let s = "no directives at all, just text.";
    assert_eq!(s, render_str(s, vec![]));
    assert_eq!("", render_str("", vec![]));
}

#[test]
fn rendering_twice_yields_identical_text() {
    let dirs = parse_format_string("~{~A~^, ~}: ~10,'_:D").unwrap();
    let args = vec![
        Value::List(vec![text("ook"), text("onk")]),
        Value::Int(-4200),
    ];
    let first = render_to_string(&dirs, &args).unwrap();
    let second = render_to_string(&dirs, &args).unwrap();
    assert_eq!(first, second);
}

#[test]
fn missing_argument_is_reported() {
    assert_eq!(RenderError::MissingArgument, render_err("~A", vec![]));
    assert_eq!(
        RenderError::MissingArgument,
        render_err("~{~A~A~}", vec![Value::List(vec![text("a")])])
    );
}

#[test]
fn type_mismatch_is_reported() {
    assert_eq!(RenderError::TypeMismatch, render_err("~D", vec![text("x")]));
    assert_eq!(
        RenderError::TypeMismatch,
        render_err("~{~A~}", vec![Value::Int(3)])
    );
    assert_eq!(
        RenderError::TypeMismatch,
        render_err("~:[a~;b~]", vec![Value::Int(1)])
    );
    assert_eq!(
        RenderError::TypeMismatch,
        render_err("~,2F", vec![Value::Real("wobble".to_string())])
    );
}

#[test]
fn partial_text_stays_on_failure() {
    let dirs = parse_format_string("before:~A~D").unwrap();
    let mut out = String::from(">> ");
    let r = render_into(&dirs, &vec![text("x"), text("y")], &mut out);
    assert_eq!(Err(RenderError::TypeMismatch), r);
    assert!(out.starts_with(">> "));
}

#[test]
fn fixed_point_carries_over() {
    assert_eq!(
        "10.0",
        render_str("~,1F", vec![Value::Real("9.99".to_string())])
    );
    assert_eq!(
        "-0.1",
        render_str("~,1F", vec![Value::Real("-0.05".to_string())])
    );
    assert_eq!(
        "5.00",
        render_str("~,2F", vec![Value::Int(5)])
    );
    assert_eq!("7", render_str("~F", vec![Value::Real("7".to_string())]));
}

#[test]
fn centre_split_leaves_remainder_after() {
    assert_eq!(" a  ", render_str("~4:@<~A~>", vec![text("a")]));
}

#[test]
fn iteration_over_empty_list() {
    assert_eq!("", render_str("~{~A~^, ~}", vec![Value::List(vec![])]));
}

#[test]
fn display_forms_of_values() {
    assert_eq!("true", render_str("~A", vec![Value::Bool(true)]));
    assert_eq!("-17", render_str("~A", vec![Value::Int(-17)]));
    assert_eq!("\"ook\"", render_str("~S", vec![text("ook")]));
    assert_eq!(
        "[1, 2]",
        render_str("~A", vec![Value::List(vec![Value::Int(1), Value::Int(2)])])
    );
}

#[test]
fn nested_iteration() {
    let inner1 = Value::List(vec![Value::Int(1), Value::Int(2)]);
    let inner2 = Value::List(vec![Value::Int(3)]);
    assert_eq!(
        "(12)(3)",
        render_str("~{(~{~A~})~}", vec![Value::List(vec![inner1, inner2])])
    );
}

#[test]
fn iteration_body_that_consumes_nothing_runs_once() {
    let x = Value::List(vec![text("a"), text("b")]);
    assert_eq!("x", render_str("~{x~}", vec![x]));
}

#[test]
fn alignment_measures_without_consuming() {
    assert_eq!(
        "ab   cd",
        render_str("~5<~A~>~A", vec![text("ab"), text("cd")])
    );
}
