use blog_builder::hlf_parser::{
match_str, match_type, match_type_begin, match_type_end, parse, HlfType, Symbol, HLF,
};
use blog_builder::text::to_chars;

#[test]
fn test_match_str() {
    assert!(match_str(&to_chars("a"), 0, &to_chars("a")).is_some());
    assert!(match_str(&to_chars("aaa"), 0, &to_chars("aaa")).is_some());
    assert!(match_str(&to_chars("Hello😁world Yeah!"), 0, &to_chars("Hello😁world")).is_some());
    assert!(match_str(&to_chars("😁world Yeah!"), 0, &to_chars("😁world")).is_some());
    assert!(match_str(&to_chars("a😁world Yeah!"), 0, &to_chars("😁world")).is_none());
    assert!(match_str(&to_chars("😁worl😁world Yeah!"), 0, &to_chars("😁world")).is_none());
    assert!(match_str(&to_chars("world"), 0, &to_chars("worldemm")).is_none());
    assert!(match_str(&to_chars("world"), 0, &to_chars("aworld")).is_none());
}

#[test]
fn test_match_type_begin() {
    assert!(match_type_begin(&to_chars("<!--"), 0).is_some());
    assert!(match_type_begin(&to_chars("<!----"), 0).is_some());
    assert!(match_type_begin(&to_chars("<!-"), 0).is_none());
    assert!(match_type_begin(&to_chars("<!-<!--"), 0).is_none());
    assert!(match_type_begin(&to_chars("😒<!--"), 0).is_none());
}

#[test]
fn test_match_type_end() {
    assert!(match_type_end(&to_chars("-->"), 0).is_some());
    assert!(match_type_end(&to_chars("-->--"), 0).is_some());
    assert!(match_type_end(&to_chars("--->"), 0).is_none());
    assert!(match_type_end(&to_chars("<!-->"), 0).is_none());
    assert!(match_type_end(&to_chars("<!----"), 0).is_none());
    assert!(match_type_end(&to_chars("<!--"), 0).is_none());
}

#[test]
fn test_match_type() {
    let (_, typ) = match_type(&to_chars("<!--symbol-->"), 0).unwrap();
    assert_eq!(HlfType::Symbol, typ);
    let (_, typ) = match_type(&to_chars("<!--content-->"), 0).unwrap();
    assert_eq!(HlfType::Content, typ);
    if let None = match_type(&to_chars("<!--hahaha-->"), 0) {
        assert!(true);
    } else {
        assert!(false);
    }
}

#[test]
fn test_parse_basic() {
    let input = "<!--symbol-->a<!--symbol--><!--content-->b<!--content-->";
    let result = parse(input).unwrap();
    assert_eq!(result.len(), 1);
    let result: &HLF = &result[0];
    assert_eq!(result.lhs, String::from("a"));
    assert_eq!(result.rhs, vec![Symbol::T(String::from("b"))]);
}

#[test]
fn test_parse_discrete_symbol() {
    let input = "<!--symbol-->this is the symbol<!--symbol--><!--content-->this is the content<!--content-->";
    let result = parse(input).unwrap();
    assert_eq!(result.len(), 1);
    let result: &HLF = &result[0];
    assert_eq!(result.lhs, String::from("this is the symbol"));
    assert_eq!(
        result.rhs,
        vec![Symbol::T(String::from("this is the content"))]
    );
}

#[test]
fn test_parse_symbol_type_trim() {
    // test if can be trimmed
    let input = "<!-- symbol -->this is the symbol<!-- symbol --><!-- content -->this is the content<!-- content -->";
    let result = parse(input).unwrap();
    assert_eq!(result.len(), 1);
    let result: &HLF = &result[0];
    assert_eq!(result.lhs, String::from("this is the symbol"));
    assert_eq!(
        result.rhs,
        vec![Symbol::T(String::from("this is the content"))]
    );
}

#[test]
fn test_parse_symbol_name_trim_content_not_trim() {
    let input = "<!--symbol-->     symbol_name_with_padding     <!--symbol--><!--content--> content with padding <!--content-->";
    let result = parse(input).unwrap();
    assert_eq!(result.len(), 1);
    let result: &HLF = &result[0];
    assert_eq!(result.lhs, String::from("symbol_name_with_padding"));
    assert_eq!(
        result.rhs,
        vec![Symbol::T(String::from(" content with padding "))]
    );
}

#[test]
fn test_parse_symbol_name_is_conmment() {
    let input = "<!--symbol-->     <!--this is a comment--> <!--symbol--><!--content--> content with padding <!--content-->";
    let symbol = "<!--this is a comment-->";
    let result = parse(input).unwrap();
    assert_eq!(result[0].lhs, symbol.to_string());
}

#[test]
fn test_parse_dirty() {
    let input = "
        emmm 
        hah hsdfa
        <!--symbol-->     symbol_name_with_padding     <!--symbol-->
        <!--content-->
        a little content with padding 
        :w
        tesst 
        helloworld
        <!--content-->
        emmm
        <!--symbol-->     symbol_name_with_padding     <!--symbol-->
        <!--content-->
        a little content with padding 
        :w
        tesst 
        helloworld
        <!--content-->
        emm
        ";
    let symbol = "symbol_name_with_padding";
    let content = "
        a little content with padding 
        :w
        tesst 
        helloworld
        ";
    let result = parse(input).unwrap();
    assert_eq!(result.len(), 2);

    assert_eq!(result[0].rhs.len(), 1);
    assert_eq!(result[1].rhs.len(), 1);

    assert_eq!(result[0].lhs, symbol.to_string());
    assert_eq!(result[1].lhs, symbol.to_string());
    assert_eq!(result[0].rhs[0], Symbol::T(content.to_string()));
    assert_eq!(result[1].rhs[0], Symbol::T(content.to_string()));
}

#[test]
fn test_parse_symbol_in_content() {
    let input = "
        <!--symbol--> this is the symbol <!--symbol-->
        <!--content-->
        symbol front guard
            <!--symbol-->
                symbol in content
            <!--symbol-->
        symbol back guard
        <!--content-->
        ";
    let result = parse(input).unwrap();
    assert_eq!(result.len(), 1);
    let result = &result[0];
    assert_eq!(result.rhs.len(), 3);
}

#[test]
#[should_panic]
fn test_parse_no_content() {
    let input = "<!--symbol--> the symbol <!--symbol-->";
    parse(input).unwrap();
}

