use mandelbrot::parse::{parse_pair, split_at_sep};

#[test]
fn test_parse_pair() {
    assert_eq!(parse_pair::<i32>("", ','), None);
    assert_eq!(parse_pair::<i32>("10,", ','), None);
    assert_eq!(parse_pair::<i32>(",10", ','), None);
    assert_eq!(parse_pair::<i32>("10,20", ','), Some((10, 20)));
    assert_eq!(parse_pair::<i32>("10,20xy", ','), None);
    assert_eq!(parse_pair::<f64>("0.5x", 'x'), None);
    assert_eq!(parse_pair::<f64>("0.5x1.5", 'x'), Some((0.5, 1.5)));
}

#[test]
fn test_parse_pair_dimensions() {
    assert_eq!(parse_pair::<usize>("1000x750", 'x'), Some((1000, 750)));
    assert_eq!(parse_pair::<usize>("1000", 'x'), None);
}

#[test]
fn test_split_at_sep_found() {
    assert_eq!(split_at_sep("10,20", ','), Some(("10", "20")));
    assert_eq!(split_at_sep(",x", ','), Some(("", "x")));
    assert_eq!(split_at_sep("ab,", ','), Some(("ab", "")));
}

#[test]
fn test_split_at_sep_takes_first_occurrence() {
    assert_eq!(split_at_sep("a,b,c", ','), Some(("a", "b,c")));
}

#[test]
fn test_split_at_sep_absent() {
    assert_eq!(split_at_sep("abc", ','), None);
    assert_eq!(split_at_sep("", ','), None);
}

#[test]
fn test_parse_pair_negative_components() {
    assert_eq!(parse_pair::<f64>("-1.20,0.35", ','), Some((-1.20, 0.35)));
    assert_eq!(parse_pair::<i32>("-3,-4", ','), Some((-3, -4)));
}
