use yew_router::route::Route;
use yew_router::switch::{build_route_from_switch, AllowMissing, LeadingSlash, Permissive, Switch};

fn route(text: &str) -> Route<u8> {
    Route { route: text.to_string(), state: Some(7) }
}

#[test]
fn isize_build_route() {
    let mut route = "/".to_string();
    let mut _state: Option<String> = None;
    _state = _state.or((-432isize).build_route_section(&mut route));
    assert_eq!(route, "/-432".to_string());
}

#[test]
fn can_get_string_from_empty_str() {
    let (s, _state) = String::from_route_part::<()>(Route {
        route: "".to_string(),
        state: None,
    });
    assert_eq!(s, Some("".to_string()))
}

#[test]
fn can_get_option_string_from_empty_str() {
    let (s, _state): (Option<Permissive<String>>, Option<()>) =
        Permissive::from_route_part(Route {
            route: "".to_string(),
            state: None,
        });
    assert_eq!(s, Some(Permissive(Some("".to_string()))))
}

#[test]
fn string_is_read_as_it_is_and_keeps_the_state() {
    assert_eq!(String::from_route_part(route("a/b")), (Some("a/b".to_string()), Some(7)));
    assert_eq!(String::switch(route("lorem")), Some("lorem".to_string()));
    let mut out = "x".to_string();
    assert_eq!("lorem".to_string().build_route_section::<u8>(&mut out), None);
    assert_eq!(out, "xlorem");
}

#[test]
fn numbers_are_read_from_decimal_texts() {
    assert_eq!(usize::from_route_part(route("22")), (Some(22), Some(7)));
    assert_eq!(usize::switch(route("+22")), Some(22));
    assert_eq!(usize::switch(route("0022")), Some(22));
    assert_eq!(usize::switch(route("-22")), None);
    assert_eq!(usize::switch(route("-0")), None);
    assert_eq!(usize::switch(route("")), None);
    assert_eq!(usize::switch(route("+")), None);
    assert_eq!(usize::switch(route("2 2")), None);
    assert_eq!(usize::switch(route("22x")), None);
    assert_eq!(isize::switch(route("-432")), Some(-432));
    assert_eq!(isize::switch(route("-")), None);
    assert_eq!(isize::switch(route("--1")), None);
    assert_eq!(isize::switch(route("+-1")), None);
    assert_eq!(i32::switch(route("-0")), Some(0));
    assert_eq!(i32::from_route_part(route("x")), (None, Some(7)));
}

#[test]
fn numbers_out_of_range_are_not_read() {
    assert_eq!(u32::switch(route("4294967295")), Some(u32::MAX));
    assert_eq!(u32::switch(route("4294967296")), None);
    assert_eq!(i32::switch(route("-2147483648")), Some(i32::MIN));
    assert_eq!(i32::switch(route("-2147483649")), None);
    assert_eq!(i32::switch(route("2147483648")), None);
    assert_eq!(u64::switch(route("18446744073709551615")), Some(u64::MAX));
    assert_eq!(u64::switch(route("18446744073709551616")), None);
    assert_eq!(i64::switch(route("-9223372036854775808")), Some(i64::MIN));
    assert_eq!(i64::switch(route("9223372036854775808")), None);
    assert_eq!(
        u64::switch(route("999999999999999999999999999999999999999999999999")),
        None
    );
    assert_eq!(isize::switch(route(&isize::MAX.to_string())), Some(isize::MAX));
    assert_eq!(isize::switch(route(&isize::MIN.to_string())), Some(isize::MIN));
}

#[test]
fn numbers_are_written_in_decimal_digits() {
    let mut out = String::new();
    assert_eq!(0usize.build_route_section::<u8>(&mut out), None);
    assert_eq!(out, "0");
    let mut out = String::new();
    1234567890u64.build_route_section::<u8>(&mut out);
    assert_eq!(out, "1234567890");
    let mut out = String::new();
    i64::MIN.build_route_section::<u8>(&mut out);
    assert_eq!(out, "-9223372036854775808");
    let mut out = String::new();
    u64::MAX.build_route_section::<u8>(&mut out);
    assert_eq!(out, "18446744073709551615");
    let mut out = String::new();
    (-7i32).build_route_section::<u8>(&mut out);
    u32::MAX.build_route_section::<u8>(&mut out);
    assert_eq!(out, "-74294967295");
    let mut out = String::new();
    10isize.build_route_section::<u8>(&mut out);
    assert_eq!(out, "10");
}

#[test]
fn leading_slash_is_needed_and_taken() {
    assert_eq!(
        LeadingSlash::<usize>::from_route_part(route("/12")),
        (Some(LeadingSlash(12)), Some(7))
    );
    assert_eq!(LeadingSlash::<usize>::from_route_part(route("12")), (None, None));
    assert_eq!(LeadingSlash::<usize>::from_route_part(route("")), (None, None));
    assert_eq!(LeadingSlash::<usize>::from_route_part(route("/x")), (None, Some(7)));
    assert_eq!(
        LeadingSlash::<String>::switch(route("//a")),
        Some(LeadingSlash("/a".to_string()))
    );
    let mut out = "x".to_string();
    assert_eq!(LeadingSlash(12usize).build_route_section::<u8>(&mut out), None);
    assert_eq!(out, "x/12");
}

#[test]
fn permissive_reads_what_is_no_value_as_absent() {
    assert_eq!(
        Permissive::<usize>::from_route_part(route("12")),
        (Some(Permissive(Some(12))), Some(7))
    );
    assert_eq!(
        Permissive::<usize>::from_route_part(route("x")),
        (Some(Permissive(None)), None)
    );
    assert_eq!(Permissive::<usize>::key_not_available(), Some(Permissive(None)));
    assert_eq!(usize::key_not_available(), None);
    assert_eq!(String::key_not_available(), None);
    let mut out = "x".to_string();
    Permissive(Some(5usize)).build_route_section::<u8>(&mut out);
    Permissive::<usize>(None).build_route_section::<u8>(&mut out);
    assert_eq!(out, "x5");
}

#[test]
fn allow_missing_reads_absence_only_at_a_boundary() {
    assert_eq!(
        AllowMissing::<usize>::from_route_part(route("12")),
        (Some(AllowMissing(Some(12))), Some(7))
    );
    for text in ["", "/x", "?a=b", "&c", "#top"] {
        assert_eq!(
            AllowMissing::<usize>::from_route_part(route(text)),
            (Some(AllowMissing(None)), Some(7)),
            "{}",
            text
        );
    }
    assert_eq!(AllowMissing::<usize>::from_route_part(route("x")), (None, None));
    assert_eq!(AllowMissing::<usize>::key_not_available(), None);
    let mut out = "x".to_string();
    AllowMissing(Some(5usize)).build_route_section::<u8>(&mut out);
    AllowMissing::<usize>(None).build_route_section::<u8>(&mut out);
    assert_eq!(out, "x5");
}

#[test]
fn wrappers_nest() {
    assert_eq!(
        Permissive::<LeadingSlash<i32>>::from_route_part(route("/-3")),
        (Some(Permissive(Some(LeadingSlash(-3)))), Some(7))
    );
    assert_eq!(
        LeadingSlash::<Permissive<i32>>::from_route_part(route("/x")),
        (Some(LeadingSlash(Permissive(None))), None)
    );
}

#[test]
fn route_is_built_from_a_switch() {
    let built: Route<u8> = build_route_from_switch(LeadingSlash(-432isize));
    assert_eq!(built, Route { route: "/-432".to_string(), state: None });
    let built: Route<u8> = Route::from(LeadingSlash("a".to_string()));
    assert_eq!(built.route, "/a");
    assert_eq!(built.state, None);
    let built: Route<()> = build_route_from_switch(Permissive::<String>(None));
    assert_eq!(built.route, "");
}

#[test]
fn small_numbers_are_read_within_their_range() {
    assert_eq!(u8::switch(route("255")), Some(255));
    assert_eq!(u8::switch(route("256")), None);
    assert_eq!(i8::switch(route("-128")), Some(-128));
    assert_eq!(i8::switch(route("-129")), None);
    assert_eq!(i8::switch(route("128")), None);
    assert_eq!(u16::switch(route("65535")), Some(65535));
    assert_eq!(u16::switch(route("65536")), None);
    assert_eq!(i16::switch(route("+32767")), Some(32767));
    assert_eq!(i16::switch(route("-32769")), None);
    let mut out = String::new();
    200u8.build_route_section::<u8>(&mut out);
    (-128i8).build_route_section::<u8>(&mut out);
    65535u16.build_route_section::<u8>(&mut out);
    (-1i16).build_route_section::<u8>(&mut out);
    assert_eq!(out, "200-12865535-1");
}

#[test]
fn bool_is_read_from_its_two_words() {
    assert_eq!(bool::from_route_part(route("true")), (Some(true), Some(7)));
    assert_eq!(bool::from_route_part(route("false")), (Some(false), Some(7)));
    for text in ["", "True", "TRUE", "1", "0", "truee", "tru", "fals", "falsee", "yes"] {
        assert_eq!(bool::from_route_part(route(text)), (None, Some(7)), "{}", text);
    }
    let mut out = "/".to_string();
    true.build_route_section::<u8>(&mut out);
    false.build_route_section::<u8>(&mut out);
    assert_eq!(out, "/truefalse");
}

#[test]
fn char_is_read_from_a_text_of_one() {
    assert_eq!(char::from_route_part(route("a")), (Some('a'), Some(7)));
    assert_eq!(char::from_route_part(route("\u{4e2d}")), (Some('\u{4e2d}'), Some(7)));
    assert_eq!(char::from_route_part(route("")), (None, Some(7)));
    assert_eq!(char::from_route_part(route("ab")), (None, Some(7)));
    let mut out = "/".to_string();
    'x'.build_route_section::<u8>(&mut out);
    '\u{e9}'.build_route_section::<u8>(&mut out);
    assert_eq!(out, "/x\u{e9}");
}

#[test]
fn reading_agrees_with_the_standard_parsers() {
    let texts = [
        "", "0", "-0", "+0", "00", "7", "-7", "+7", "007", "-007", "+-7", "-+7", "++7", " 7",
        "7 ", "7a", "a7", "0x7", "1_000", "127", "128", "-128", "-129", "255", "256", "32767",
        "32768", "-32768", "-32769", "65535", "65536", "2147483647", "2147483648", "-2147483648",
        "-2147483649", "4294967295", "4294967296", "9223372036854775807", "9223372036854775808",
        "-9223372036854775808", "-9223372036854775809", "18446744073709551615",
        "18446744073709551616", "340282366920938463463374607431768211455",
        "340282366920938463463374607431768211456", "\u{663}", "true", "false", "t", "-", "+",
    ];
    for text in texts {
        assert_eq!(u8::switch(route(text)), text.parse::<u8>().ok(), "u8 {}", text);
        assert_eq!(i8::switch(route(text)), text.parse::<i8>().ok(), "i8 {}", text);
        assert_eq!(u16::switch(route(text)), text.parse::<u16>().ok(), "u16 {}", text);
        assert_eq!(i16::switch(route(text)), text.parse::<i16>().ok(), "i16 {}", text);
        assert_eq!(u32::switch(route(text)), text.parse::<u32>().ok(), "u32 {}", text);
        assert_eq!(i32::switch(route(text)), text.parse::<i32>().ok(), "i32 {}", text);
        assert_eq!(u64::switch(route(text)), text.parse::<u64>().ok(), "u64 {}", text);
        assert_eq!(i64::switch(route(text)), text.parse::<i64>().ok(), "i64 {}", text);
        assert_eq!(usize::switch(route(text)), text.parse::<usize>().ok(), "usize {}", text);
        assert_eq!(isize::switch(route(text)), text.parse::<isize>().ok(), "isize {}", text);
        assert_eq!(bool::switch(route(text)), text.parse::<bool>().ok(), "bool {}", text);
        assert_eq!(char::switch(route(text)), text.parse::<char>().ok(), "char {}", text);
    }
}

#[test]
fn writing_agrees_with_the_standard_display() {
    for v in [0i64, 1, -1, 9, 10, -10, 99, 100, 12345, -12345, i64::MAX, i64::MIN] {
        let mut out = String::new();
        v.build_route_section::<u8>(&mut out);
        assert_eq!(out, v.to_string());
    }
    for v in [0u64, 9, 10, 11, 1000000, u64::MAX] {
        let mut out = String::new();
        v.build_route_section::<u8>(&mut out);
        assert_eq!(out, v.to_string());
    }
}
