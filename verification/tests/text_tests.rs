use vivrt::ply_header::parse_prop_type;
use vivrt::scalar::PropType;
use vivrt::text::{parse_usize, split_whitespace, trim_chars};

fn chars(s: &str) -> Vec<char> {
    s.chars().collect()
}

#[test]
fn trim_like_str() {
    for s in ["  a b \n", "\u{3000}x\u{a0}", "", "   ", "abc", "\t\r\nq\u{2028}"] {
        assert_eq!(trim_chars(&chars(s)), chars(s.trim()));
    }
}

#[test]
fn split_like_str() {
    for s in ["a  b\tc", "  lead", "trail  ", "", "one", "x\u{85}y\u{200a}z"] {
        let got: Vec<String> = split_whitespace(&chars(s)).iter().map(|w| w.iter().collect()).collect();
        let want: Vec<String> = s.split_whitespace().map(String::from).collect();
        assert_eq!(got, want);
    }
}

#[test]
fn parse_usize_like_str() {
    for s in ["0", "42", "+7", "+", "-1", "", "12a", "18446744073709551615", "18446744073709551616", "007", "٣"] {
        assert_eq!(parse_usize(&chars(s)), s.parse::<usize>().ok(), "{s}");
    }
}

#[test]
fn prop_type_names() {
    assert_eq!(parse_prop_type(&chars("float32")), PropType::Float);
    assert_eq!(parse_prop_type(&chars("float64")), PropType::Double);
    assert_eq!(parse_prop_type(&chars("uint8")), PropType::Uchar);
    assert_eq!(parse_prop_type(&chars("int")), PropType::Int);
    assert_eq!(parse_prop_type(&chars("uint32")), PropType::UInt);
    assert_eq!(parse_prop_type(&chars("int16")), PropType::Short);
    assert_eq!(parse_prop_type(&chars("ushort")), PropType::UShort);
    assert_eq!(parse_prop_type(&chars("char")), PropType::Float);
}
