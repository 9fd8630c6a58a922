use shaper2d::notation::{parse_polygon, render, PolygonSpec};

fn spec(n: usize, k: usize) -> PolygonSpec {
    PolygonSpec { n, k }
}

#[test]
fn parses_order_alone() {
    assert_eq!(parse_polygon("5"), Ok(spec(5, 1)));
    assert_eq!(parse_polygon("12"), Ok(spec(12, 1)));
}

#[test]
fn parses_order_and_step() {
    assert_eq!(parse_polygon("7/2"), Ok(spec(7, 2)));
    assert_eq!(parse_polygon("5/2"), Ok(spec(5, 2)));
    assert_eq!(parse_polygon("7/3"), Ok(spec(7, 3)));
    assert_eq!(parse_polygon("12/5"), Ok(spec(12, 5)));
}

#[test]
fn second_slash_is_the_error_position() {
    assert_eq!(parse_polygon("5//"), Err(2));
    assert_eq!(parse_polygon("5/2/"), Err(3));
    assert_eq!(parse_polygon("5/2/3"), Err(3));
    assert_eq!(parse_polygon("12/34/56/78"), Err(5));
    assert_eq!(parse_polygon("//"), Err(1));
}

#[test]
fn many_slashes_win_over_bad_numbers() {
    assert_eq!(parse_polygon("x//"), Err(2));
    assert_eq!(parse_polygon("x/y/z"), Err(3));
}

#[test]
fn bad_step_is_reported_behind_the_slash() {
    assert_eq!(parse_polygon("5/x"), Err(2));
    assert_eq!(parse_polygon("5/"), Err(2));
    assert_eq!(parse_polygon("123/4x"), Err(4));
    assert_eq!(parse_polygon("123/"), Err(4));
}

#[test]
fn bad_order_is_reported_at_the_start() {
    assert_eq!(parse_polygon("x"), Err(0));
    assert_eq!(parse_polygon(""), Err(0));
    assert_eq!(parse_polygon("5x"), Err(0));
    assert_eq!(parse_polygon("/5"), Err(0));
    assert_eq!(parse_polygon("/"), Err(0));
    assert_eq!(parse_polygon("x/5"), Err(0));
    assert_eq!(parse_polygon("x/y"), Err(0));
    assert_eq!(parse_polygon(" 5"), Err(0));
    assert_eq!(parse_polygon("5 "), Err(0));
}

#[test]
fn signs_are_no_digits() {
    assert_eq!(parse_polygon("+5"), Err(0));
    assert_eq!(parse_polygon("-5"), Err(0));
    assert_eq!(parse_polygon("5/+2"), Err(2));
}

#[test]
fn zero_and_leading_zeros_are_numbers() {
    assert_eq!(parse_polygon("0"), Ok(spec(0, 1)));
    assert_eq!(parse_polygon("007"), Ok(spec(7, 1)));
    assert_eq!(parse_polygon("5/0"), Ok(spec(5, 0)));
    assert_eq!(parse_polygon("0/0"), Ok(spec(0, 0)));
    assert_eq!(parse_polygon("010/03"), Ok(spec(10, 3)));
}

#[test]
fn largest_number_parses_and_the_next_does_not() {
    let max = format!("{}", usize::MAX);
    assert_eq!(parse_polygon(&max), Ok(spec(usize::MAX, 1)));
    assert_eq!(parse_polygon(&format!("{}/{}", max, max)), Ok(spec(usize::MAX, usize::MAX)));
    let too_long = format!("{}0", max);
    assert_eq!(parse_polygon(&too_long), Err(0));
    assert_eq!(parse_polygon(&format!("7/{}", too_long)), Err(2));
    let mut digits: Vec<char> = max.chars().collect();
    let last = digits.len() - 1;
    digits[last] = '6';
    let next: String = digits.into_iter().collect();
    assert_eq!(parse_polygon(&next), Err(0));
    assert_eq!(parse_polygon("99999999999999999999999999999999999999999999"), Err(0));
}

#[test]
fn positions_count_characters() {
    assert_eq!(parse_polygon("\u{e9}"), Err(0));
    assert_eq!(parse_polygon("5/\u{e9}"), Err(2));
    assert_eq!(parse_polygon("\u{e9}\u{e9}/\u{e9}"), Err(0));
    assert_eq!(parse_polygon("\u{e9}\u{e9}/1/"), Err(4));
    assert_eq!(parse_polygon("\u{661}"), Err(0));
}

#[test]
fn renders_without_divisor_when_step_is_one() {
    assert_eq!(render(&spec(5, 1)), "5");
    assert_eq!(render(&spec(12, 1)), "12");
    assert_eq!(render(&spec(0, 1)), "0");
}

#[test]
fn renders_with_divisor_otherwise() {
    assert_eq!(render(&spec(5, 2)), "5/2");
    assert_eq!(render(&spec(7, 3)), "7/3");
    assert_eq!(render(&spec(5, 0)), "5/0");
    assert_eq!(render(&spec(1000, 10)), "1000/10");
    assert_eq!(render(&spec(0, 0)), "0/0");
}

#[test]
fn renders_every_digit() {
    assert_eq!(render(&spec(1234567890, 9876543210)), "1234567890/9876543210");
    assert_eq!(render(&spec(usize::MAX, usize::MAX)), format!("{}/{}", usize::MAX, usize::MAX));
}

#[test]
fn to_string_is_the_canonical_notation() {
    assert_eq!(spec(5, 2).to_string(), "5/2");
    assert_eq!(spec(9, 1).to_string(), "9");
}

#[test]
fn parse_undoes_render() {
    let orders: [usize; 8] = [0, 1, 2, 5, 9, 10, 4294967295, usize::MAX];
    let steps: [usize; 8] = [0, 1, 2, 3, 10, 99, 100, usize::MAX];
    for n in orders {
        for k in steps {
            let text = render(&spec(n, k));
            assert_eq!(parse_polygon(&text), Ok(spec(n, k)));
            assert_eq!(text.contains('/'), k != 1);
        }
    }
}

#[test]
fn render_of_parsed_canonical_text_is_that_text() {
    for text in ["5", "5/2", "0", "12/0", "100/7"] {
        let parsed = parse_polygon(text).unwrap();
        assert_eq!(render(&parsed), text);
    }
    assert_eq!(render(&parse_polygon("5/1").unwrap()), "5");
    assert_eq!(render(&parse_polygon("05/02").unwrap()), "5/2");
}
