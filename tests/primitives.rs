use chemparse::text::{
    blank_line, not_space, read_f64, read_usize,
    read_line, read_many_lines, read_until_eol, read_usize_many, read_f64_many, signed_digit,
    unsigned_digit, xyz_array, double, ParseError,
};

fn num(t: &str) -> f64 {
    t.parse::<f64>().unwrap()
}

#[test]
fn test_parser_signed_digit() {
    let (_, x) = signed_digit("12\n").expect("parser: signed_digit 12");
    assert_eq!(12, x);

    let (_, x) = signed_digit("+12\n").expect("parser: signed_digit +12");
    assert_eq!(12, x);

    let (_, x) = signed_digit("-12\n").expect("parser: signed_digit -12");
    assert_eq!(-12, x);
}

#[test]
fn test_parser_xyz_array() {
    let (_, x) = xyz_array("-11.4286  1.7645  0.0000 ").unwrap();
    assert_eq!(num(&x[2]), 0.0);

    let (_, x) = xyz_array("-11.4286  1.7645  0.0000\n").unwrap();
    assert_eq!(num(&x[2]), 0.0);

    let (_, x) = xyz_array("-11.4286\t1.7E-5  0.0000 \n").unwrap();
    assert_eq!(num(&x[2]), 0.0);
}

#[test]
fn test_parser_usize_many() {
    let (_, ns) = read_usize_many(" 11 2 3 4 5 \r\n").expect("parser: count_many");
    assert_eq!(5, ns.len());
}

#[test]
fn test_parser_f64_many() {
    let line = "1.2  3.4 -5.7 0.2 \n";
    let (_r, fs) = read_f64_many(line).expect("f64 parser");
    assert_eq!(4, fs.len());
}

#[test]
fn test_parser_read_until_eol() {
    let _x = read_until_eol("this is the end\nok\n").expect("parser: read_until_eol");
    let _x = read_until_eol("\n").expect("parser: read_until_eol empty line");

    let (rest, line) = read_line("this is the end\r\nok\r\n").expect("parser: read_until_eol");
    assert_eq!("this is the end", line);
    assert_eq!("ok\r\n", rest);

    let (rest, line) = read_line("\n\n").expect("parser: read_line empty line");
    assert_eq!("", line);
    assert_eq!("\n", rest);
}

#[test]
fn test_parser_read_many_lines() {
    let txt = "12
test
C -11.4286  1.7645  0.0000
C -10.0949  0.9945  0.0000
C -10.0949 -0.5455  0.0000
C -11.4286 -1.3155  0.0000
";
    let (_, lines) = read_many_lines(txt, 3).expect("read_many_lines");
    assert_eq!(3, lines.len());
}

#[test]
fn unsigned_digit_value_and_rest() {
    let (rest, v) = unsigned_digit("0042 x").unwrap();
    assert_eq!(42, v);
    assert_eq!(" x", rest);
}

#[test]
fn unsigned_digit_overflow_is_error() {
    assert_eq!(Err(ParseError::Error), unsigned_digit("99999999999999999999999 ").map(|x| x.1));
}

#[test]
fn token_at_end_is_incomplete() {
    assert_eq!(Err(ParseError::Incomplete), unsigned_digit("123").map(|x| x.1));
    assert_eq!(Err(ParseError::Incomplete), read_line("no newline").map(|x| x.1));
}

#[test]
fn double_keeps_text() {
    let (rest, t) = double("1.7E-5 ").unwrap();
    assert_eq!("1.7E-5", t);
    assert_eq!(" ", rest);
    assert_eq!(Err(ParseError::Error), double("abc ").map(|x| x.1));
}

#[test]
fn signed_digit_limits() {
    let (_, x) = signed_digit("-9223372036854775808 ").unwrap();
    assert_eq!(isize::MIN, x);
    assert_eq!(Err(ParseError::Error), signed_digit("9223372036854775808 ").map(|x| x.1));
}

#[test]
fn single_value_lines() {
    let (rest, v) = read_usize("  42 \nnext").unwrap();
    assert_eq!((42, "next"), (v, rest));
    assert_eq!(Err(ParseError::Error), read_usize("4 2\n").map(|x| x.1));
    let (_, t) = read_f64(" -1.5e3\r\n").unwrap();
    assert_eq!(-1500.0, t.parse::<f64>().unwrap());
    let (rest, _) = blank_line(" \t\nC").unwrap();
    assert_eq!("C", rest);
    assert_eq!(Err(ParseError::Error), blank_line(" x\n").map(|x| x.0));
    let (rest, t) = not_space("abc def").unwrap();
    assert_eq!(("abc", " def"), (t, rest));
}
