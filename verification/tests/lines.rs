use copar::case::{pascal_to_macro_case, pascal_to_snake_case, to_pascal_case, to_snake_case};
use copar::parser::{
    get_delimited_content, parse_record, parse_record_args, remove_timestamp, split_lines,
    LineParsingError,
};
use copar::text::{chars_of, split_text, string_of};

fn chars(s: &str) -> Vec<char> {
    s.chars().collect()
}

fn text(v: &Vec<char>) -> String {
    v.iter().collect()
}

fn classify(line: &str) -> (String, Result<char, LineParsingError>) {
    let (content, class) = get_delimited_content(&chars(line));
    (text(&content), class)
}

#[test]
fn texts_go_to_characters_and_back() {
    assert_eq!(chars_of("héllo"), chars("héllo"));
    assert_eq!(string_of(&chars("héllo")), "héllo");
    assert_eq!(string_of(&Vec::new()), "");
}

#[test]
fn a_text_is_cut_at_each_separator() {
    let pieces = |s: &str| -> Vec<String> {
        split_text(&chars(s), ',').iter().map(text).collect()
    };
    assert_eq!(pieces("a,b,,c"), vec!["a", "b", "", "c"]);
    assert_eq!(pieces(""), vec![""]);
    assert_eq!(pieces(","), vec!["", ""]);
    assert_eq!(pieces("abc"), vec!["abc"]);
}

#[test]
fn lines_end_at_line_feeds() {
    let lines = |s: &str| -> Vec<String> { split_lines(&chars(s)).iter().map(text).collect() };
    assert_eq!(lines("a\nb\r\nc"), vec!["a", "b", "c"]);
    assert_eq!(lines("a\n\nb\n"), vec!["a", "", "b"]);
    assert_eq!(lines(""), Vec::<String>::new());
    assert_eq!(lines("\n"), vec![""]);
    assert_eq!(lines("a\r"), vec!["a\r"]);
    assert_eq!(lines("a\r\r\n"), vec!["a\r"]);
    for sample in ["a\nb\r\nc", "a\n\nb\n", "", "\n", "x\r\n\r\ny", "no feed"].iter() {
        let expected: Vec<String> = sample.lines().map(|l| l.to_string()).collect();
        assert_eq!(lines(sample), expected, "{:?}", sample);
    }
}

#[test]
fn the_time_stamp_ends_at_the_first_bracket_and_space() {
    let strip = |s: &str| text(&remove_timestamp(&chars(s)));
    assert_eq!(strip("[   62.996337] #< seq <#"), "#< seq <#");
    assert_eq!(strip("[a] [b] rest"), "[b] rest");
    assert_eq!(strip("[no end"), "[no end");
    assert_eq!(strip("[x]y"), "[x]y");
    assert_eq!(strip("plain [x] text"), "plain [x] text");
    assert_eq!(strip("[x] "), "");
    assert_eq!(strip(""), "");
}

#[test]
fn the_markers_of_a_line_are_read() {
    assert_eq!(classify("#= Cmd a: u8(1) =#"), ("Cmd a: u8(1)".to_string(), Ok('=')));
    assert_eq!(classify("#< seq <#"), ("seq".to_string(), Ok('<')));
    assert_eq!(classify("#> seq >#"), ("seq".to_string(), Ok('>')));
    assert_eq!(classify("#[ R [#"), ("R".to_string(), Ok('[')));
    assert_eq!(classify("#] R ]#"), ("R".to_string(), Ok(']')));
    assert_eq!(classify("#- R a: u8(1) -#"), ("R a: u8(1)".to_string(), Ok('-')));
    assert_eq!(classify("#= =#"), ("".to_string(), Ok('=')));
    assert_eq!(
        classify("#= Cmd a: u8(1)"),
        ("Cmd a: u8(1)".to_string(), Err(LineParsingError::MissingEndDelimiter('=')))
    );
    assert_eq!(classify("#="), ("".to_string(), Err(LineParsingError::MissingEndDelimiter('='))));
    assert_eq!(
        classify("a: u8(1) =#"),
        ("a: u8(1)".to_string(), Err(LineParsingError::MissingBeginDelimiter('=')))
    );
    assert_eq!(classify("=#"), ("".to_string(), Err(LineParsingError::MissingBeginDelimiter('='))));
    assert_eq!(
        classify("#= Cmd ]#"),
        ("Cmd".to_string(), Err(LineParsingError::UnmatchingRecordDelimiters('=', ']')))
    );
    assert_eq!(
        classify("#= Cmd -# a: u8(1) =#"),
        (
            "Cmd -# a: u8(1)".to_string(),
            Err(LineParsingError::MultipleRecordDelimiters("-#".to_string()))
        )
    );
}

#[test]
fn a_line_without_a_marker_is_noise() {
    for line in
        ["just noise", "", "#x y x#", "#== a ==#", "a#= b =#c", "# = a = #", "##", "#a b a#"].iter()
    {
        assert_eq!(classify(line), (line.to_string(), Err(LineParsingError::UnparsableLine)));
    }
}

#[test]
fn a_buffer_is_a_name_and_pairs_of_tokens() {
    let record = parse_record(&chars("Cmd a: u8(1) b: x8(0x10)")).unwrap().unwrap();
    assert_eq!(record.name(), "Cmd");
    assert_eq!(record.args().len(), 2);
    let bare = parse_record(&chars("Cmd")).unwrap().unwrap();
    assert_eq!(bare.name(), "Cmd");
    assert!(bare.args().is_empty());
    assert_eq!(
        parse_record(&chars("Cmd a:")).unwrap(),
        Err(LineParsingError::UncompleteRecordArg)
    );
    assert_eq!(parse_record(&chars("Cmd ")).unwrap(), Err(LineParsingError::UncompleteRecordArg));
    assert_eq!(
        parse_record_args(&chars("a: u8(1)  b: u8(2)")).unwrap(),
        Err(LineParsingError::UncompleteRecordArg)
    );
    assert!(parse_record_args(&chars("a: u8(1) b: what(2)")).is_none());
    assert!(parse_record_args(&chars("a: u8(x) b: what(2)")).unwrap().is_err());
}

#[test]
fn names_change_case() {
    assert_eq!(to_snake_case("ReadEfuse"), "read_efuse");
    assert_eq!(to_snake_case("read-Efuse-cnt"), "read_efuse_cnt");
    assert_eq!(to_snake_case("HTTPServer"), "httpserver");
    assert_eq!(to_snake_case("aB"), "a_b");
    assert_eq!(to_snake_case("App\u{130}x"), "app_i\u{307}x");
    assert_eq!(to_snake_case(""), "");
    assert_eq!(pascal_to_snake_case("ReadEfuse"), "read_efuse");
    assert_eq!(pascal_to_snake_case("Cmd52"), "cmd52");
    assert_eq!(pascal_to_snake_case("ABc"), "a_bc");
    assert_eq!(pascal_to_macro_case("ReadEfuse"), "READ_EFUSE");
    assert_eq!(pascal_to_macro_case("Cmd52"), "CMD52");
    assert_eq!(pascal_to_macro_case("x"), "X");
    assert_eq!(to_pascal_case("read_efuse_cnt"), "ReadEfuseCnt");
    assert_eq!(to_pascal_case("__a__b_"), "AB");
    assert_eq!(to_pascal_case("\u{df}x_y"), "SSxY");
    assert_eq!(to_pascal_case(""), "");
}
