use lirays_scada::parser::{clone_name, parse_repeated_name};
use winnow::{ascii::dec_uint, combinator::opt, error::ContextError, Parser};

/// The same grammar written with winnow combinators, to compare against.
fn winnow_repeated_name(input: &mut &str) -> (Option<usize>, Option<usize>, Option<usize>) {
    let mut start = None;
    let mut end = None;
    let mut step = None;
    if let Some(idx) = input.rfind('[') {
        let slice_part = &input[idx..];
        let mut slice_input = slice_part;
        let mut parser = (
            "[",
            opt(dec_uint::<_, usize, ContextError>),
            ":",
            opt(dec_uint::<_, usize, ContextError>),
            opt((":", opt(dec_uint::<_, usize, ContextError>))),
            "]",
        );
        if let Ok((_, s, _, e, step_part, _)) = parser.parse_next(&mut slice_input) {
            if slice_input.is_empty() {
                start = s;
                end = e;
                step = step_part.and_then(|(_, st)| st);
                *input = &input[..idx];
            }
        }
    }
    (start, end, step)
}

#[test]
fn test_parse_repeated_name() {
    let mut input = "flat-string";
    assert_eq!(parse_repeated_name(&mut input), (None, None, None));
    assert_eq!(input, "flat-string");

    let mut input = "some-string[:10]";
    assert_eq!(parse_repeated_name(&mut input), (None, Some(10), None));
    assert_eq!(input, "some-string");

    let mut input = "some-string[24:10]";
    assert_eq!(parse_repeated_name(&mut input), (Some(24), Some(10), None));
    assert_eq!(input, "some-string");

    let mut input = "some-string[:10:2]";
    assert_eq!(parse_repeated_name(&mut input), (None, Some(10), Some(2)));
    assert_eq!(input, "some-string");

    let mut input = "some-string[2:10:2]";
    assert_eq!(parse_repeated_name(&mut input), (Some(2), Some(10), Some(2)));
    assert_eq!(input, "some-string");

    let mut input = "some-string[2:]";
    assert_eq!(parse_repeated_name(&mut input), (Some(2), None, None));
    assert_eq!(input, "some-string");

    let mut input = "some-string[2::3]";
    assert_eq!(parse_repeated_name(&mut input), (Some(2), None, Some(3)));
    assert_eq!(input, "some-string");

    let mut input = "some-string[:]";
    assert_eq!(parse_repeated_name(&mut input), (None, None, None));
    assert_eq!(input, "some-string");

    let mut input = "some-string[::]";
    assert_eq!(parse_repeated_name(&mut input), (None, None, None));
    assert_eq!(input, "some-string");

    let mut input = "some-string[10]";
    assert_eq!(parse_repeated_name(&mut input), (None, None, None));
    assert_eq!(input, "some-string[10]");

    let mut input = "some-string[a:b]";
    assert_eq!(parse_repeated_name(&mut input), (None, None, None));
    assert_eq!(input, "some-string[a:b]");

    let mut input = "some-string[10:5]";
    assert_eq!(parse_repeated_name(&mut input), (Some(10), Some(5), None));
    assert_eq!(input, "some-string");

    let mut input = "some-string[10:15:10]";
    assert_eq!(parse_repeated_name(&mut input), (Some(10), Some(15), Some(10)));
    assert_eq!(input, "some-string");

    let mut input = "some-string[2::2]";
    assert_eq!(parse_repeated_name(&mut input), (Some(2), None, Some(2)));
    assert_eq!(input, "some-string");
}

#[test]
fn test_clone_name() {
    assert_eq!(clone_name("var", None, None, None), vec!["var".to_string()]);
    assert_eq!(
        clone_name("var", None, Some(3), None),
        vec!["var_1".to_string(), "var_2".to_string(), "var_3".to_string()]
    );
    assert_eq!(
        clone_name("var", Some(0), Some(2), None),
        vec!["var_0".to_string(), "var_1".to_string(), "var_2".to_string()]
    );
    assert_eq!(
        clone_name("var", Some(2), Some(8), Some(3)),
        vec!["var_2".to_string(), "var_5".to_string(), "var_8".to_string()]
    );
    assert_eq!(clone_name("var", Some(5), Some(2), None), Vec::<String>::new());
    assert_eq!(clone_name("var", Some(2), Some(5), Some(10)), vec!["var_2".to_string()]);
    assert_eq!(clone_name("var", Some(2), None, Some(10)), vec!["var".to_string()]);
    assert_eq!(clone_name("var", Some(10), Some(5), Some(1)), Vec::<String>::new());
    assert_eq!(clone_name("var", Some(1), Some(5), Some(0)), vec!["var".to_string()]);
}

#[test]
fn parse_repeated_name_agrees_with_winnow() {
    let cases = [
        "", "[", "]", "[:]", "a[1:2]", "a[01:2]", "a[0:2]", "a[00:2]", "a[1:2:]", "a[1:2:3:4]",
        "a[1:2]x", "a[1:2][3:4]", "a[x][3:4]", "a[3:4][x]", "a[[1:2]", "a[ 1:2]", "a[1 :2]",
        "a[+1:2]", "a[-1:2]", "a[18446744073709551615:1]", "a[18446744073709551616:1]",
        "a[99999999999999999999999:1]", "a[:0]", "a[:007]", "é[1:2]", "[1:2]", "x[:]y[:]",
        "a[1:2:0]", "a[1::]", "a[::5]",
    ];
    for case in cases {
        let mut ours = case;
        let mut theirs = case;
        let r1 = parse_repeated_name(&mut ours);
        let r2 = winnow_repeated_name(&mut theirs);
        assert_eq!(r1, r2, "result for {case:?}");
        assert_eq!(ours, theirs, "rest for {case:?}");
    }
}

#[test]
fn parse_then_clone_expands_range() {
    let mut name = "pump[1:7:3]";
    let (start, stop, step) = parse_repeated_name(&mut name);
    assert_eq!(name, "pump");
    assert_eq!(
        clone_name(name, start, stop, step),
        vec!["pump_1".to_string(), "pump_4".to_string(), "pump_7".to_string()]
    );
}

#[test]
fn clone_name_numbers_in_decimal() {
    assert_eq!(
        clone_name("v", Some(98), Some(101), None),
        vec!["v_98".to_string(), "v_99".to_string(), "v_100".to_string(), "v_101".to_string()]
    );
    assert_eq!(clone_name("v", Some(usize::MAX - 1), Some(usize::MAX - 1), Some(1)).len(), 1);
}
