use vobject::escape_chars;
use vobject::fold_line;
use vobject::parse_component;
use vobject::parser::Parser;
use vobject::unescape_chars;
use vobject::VObjectError;

#[test]
fn parser_test_unfold1() {
    let mut p = Parser { input: "ab\r\n c".chars().collect(), pos: 2 };
    assert_eq!(p.consume_char(), Some('c'));
    assert_eq!(p.pos, 6);
}

#[test]
fn lib_test_unfold1() {
    let mut p = Parser { input: "ab\r\n c".chars().collect(), pos: 2 };
    assert_eq!(p.consume_char(), Some('c'));
    assert_eq!(p.pos, 6);
}

#[test]
fn parser_test_unfold2() {
    let mut p = Parser { input: "ab\n\tc\nx".chars().collect(), pos: 2 };
    assert_eq!(p.consume_char(), Some('c'));
    assert_eq!(p.consume_char(), Some('\n'));
    assert_eq!(p.consume_char(), Some('x'));
}

#[test]
fn lib_test_unfold2() {
    let mut p = Parser { input: "ab\n\tc\nx".chars().collect(), pos: 2 };
    assert_eq!(p.consume_char(), Some('c'));
    assert_eq!(p.consume_char(), Some('\n'));
    assert_eq!(p.consume_char(), Some('x'));
}

#[test]
fn parser_test_consume_while() {
    let mut p = Parser { input: "af\n oo:bar".chars().collect(), pos: 1 };
    assert_eq!(p.consume_while(|x| x != ':'), "foo");
    assert_eq!(p.consume_char(), Some(':'));
    assert_eq!(p.consume_while(|x| x != '\n'), "bar");
}

#[test]
fn lib_test_consume_while() {
    let mut p = Parser { input: "af\n oo:bar".chars().collect(), pos: 1 };
    assert_eq!(p.consume_while(|x| x != ':'), "foo");
    assert_eq!(p.consume_char(), Some(':'));
    assert_eq!(p.consume_while(|x| x != '\n'), "bar");
}

#[test]
fn parser_test_consume_while2() {
    let mut p = Parser { input: "af\n oo\n\t:bar".chars().collect(), pos: 1 };
    assert_eq!(p.consume_while(|x| x != ':'), "foo");
    assert_eq!(p.consume_char(), Some(':'));
    assert_eq!(p.consume_while(|x| x != '\n'), "bar");
}

#[test]
fn lib_test_consume_while2() {
    let mut p = Parser { input: "af\n oo\n\t:bar".chars().collect(), pos: 1 };
    assert_eq!(p.consume_while(|x| x != ':'), "foo");
    assert_eq!(p.consume_char(), Some(':'));
    assert_eq!(p.consume_while(|x| x != '\n'), "bar");
}

#[test]
fn parser_test_consume_while3() {
    let mut p = Parser { input: "af\n oo:\n bar".chars().collect(), pos: 1 };
    assert_eq!(p.consume_while(|x| x != ':'), "foo");
    assert_eq!(p.consume_char(), Some(':'));
    assert_eq!(p.consume_while(|x| x != '\n'), "bar");
}

#[test]
fn lib_test_consume_while3() {
    let mut p = Parser { input: "af\n oo:\n bar".chars().collect(), pos: 1 };
    assert_eq!(p.consume_while(|x| x != ':'), "foo");
    assert_eq!(p.consume_char(), Some(':'));
    assert_eq!(p.consume_while(|x| x != '\n'), "bar");
}

#[test]
fn parser_test_consume_only_char() {
    let mut p = Parser { input: "\n \"bar".chars().collect(), pos: 0 };
    assert!(p.consume_only_char('"'));
    assert_eq!(p.pos, 3);
    assert!(!p.consume_only_char('"'));
    assert_eq!(p.pos, 3);
    assert!(p.consume_only_char('b'));
    assert_eq!(p.pos, 4);
}

#[test]
fn lib_test_consume_only_char() {
    let mut p = Parser { input: "\n \"bar".chars().collect(), pos: 0 };
    assert!(p.consume_only_char('"'));
    assert_eq!(p.pos, 3);
    assert!(!p.consume_only_char('"'));
    assert_eq!(p.pos, 3);
    assert!(p.consume_only_char('b'));
    assert_eq!(p.pos, 4);
}

// Mismatched nesting must terminate with a parse error, never loop: the
// termination itself is proved, so no watchdog thread is needed here.
#[test]
fn parser_mismatched_begin_end_tags_returns_error() {
    let mut p = Parser { input: "BEGIN:a\nBEGIN:b\nEND:a".chars().collect(), pos: 0 };
    assert!(p.consume_component().is_err());
}

#[test]
fn lib_mismatched_begin_end_tags_returns_error() {
    let mut p = Parser { input: "BEGIN:a\nBEGIN:b\nEND:a".chars().collect(), pos: 0 };
    assert!(p.consume_component().is_err());
}

#[test]
fn test_fold() {
    let line = "This should be multiple lines and fold on char boundaries. 毎害止\
                加食下組多地将写館来局必第。東証細再記得玲祉込吉宣会法授";
    let expected = "This should be multiple lines and fold on char boundaries. 毎害止\
                    加食\r\n 下組多地将写館来局必第。東証細再記得玲祉込吉宣会法\r\n 授";
    assert_eq!(expected, fold_line(line));
    assert_eq!("ab", fold_line("ab"));
}

#[test]
fn fold_chunks_stay_under_the_byte_limit() {
    let line = "x".repeat(400);
    let folded = fold_line(&line);
    for part in folded.split("\r\n ") {
        assert!(part.len() <= 75);
    }
    assert_eq!(folded.replace("\r\n ", ""), line);
}

#[test]
fn fold_unfold_with_multibyte_text() {
    let line = "計画微接今購本意周名見恵焼雪団。".repeat(8);
    let folded = fold_line(&line);
    for part in folded.split("\r\n ") {
        assert!(part.len() <= 75);
    }
    assert_eq!(folded.replace("\r\n ", ""), line);
}

#[test]
fn escape_has_exact_output() {
    assert_eq!(escape_chars("a;b,c\\d\ne"), "a\\;b\\,c\\\\d\\ne");
    assert_eq!(escape_chars("x\r\ny"), "x\\ny");
}

#[test]
fn unescape_has_exact_output() {
    assert_eq!(unescape_chars("a\\;b\\,c\\\\d\\ne"), "a;b,c\\d\ne");
    assert_eq!(unescape_chars("x\r\ny"), "x\ny");
}

#[test]
fn escape_unescape_round_trip() {
    let samples = ["", "plain text", "semi;colon", "comma,separated", "back\\slash", "multi\nline", "all;of,it\\to\ngether"];
    for s in samples {
        assert_eq!(unescape_chars(&escape_chars(s)), s);
    }
}

// The escaping scheme is lossy by design on a literal `\N`: escaping turns
// it into a real newline, which unescapes to the two characters `\n`.
#[test]
fn escape_unescape_known_boundary_cases() {
    assert_eq!(escape_chars("\\N"), "\\n");
    assert_eq!(unescape_chars(&escape_chars("a\\Nb")), "a\nb");
    // a literal backslash before an `n`, and a CRLF, are not reproduced either
    assert_eq!(unescape_chars(&escape_chars("a\\nb")), "a\\\nb");
    assert_eq!(unescape_chars(&escape_chars("a\r\nb")), "a\nb");
}

#[test]
fn trailing_data_is_an_error() {
    let r = parse_component("BEGIN:VCARD\nEND:VCARD\nleftover");
    assert!(matches!(r, Err(VObjectError::Parser(_))));
}

#[test]
fn missing_begin_is_an_error() {
    let r = parse_component("FN:Erika\nEND:VCARD\n");
    assert!(matches!(r, Err(VObjectError::Parser(_))));
    let e = match parse_component("FN:Erika\n") {
        Err(VObjectError::Parser(e)) => e,
        _ => panic!("expected a parse error"),
    };
    assert_eq!(e.into_string(), "Expected BEGIN tag.");
}

#[test]
fn mismatched_end_reports_both_tags() {
    let e = match parse_component("BEGIN:VCARD\nEND:VCALENDAR\n") {
        Err(VObjectError::Parser(e)) => e,
        _ => panic!("expected a parse error"),
    };
    assert_eq!(e.into_string(), "Mismatched tags: BEGIN:VCARD vs END:VCALENDAR");
}

// Property names may use any Unicode letters and digits, through the
// classifier the parser relies on.
#[test]
fn unicode_property_names_parse() {
    let c = parse_component("BEGIN:V\nÜBER:alles\nEND:V\n").unwrap();
    assert_eq!(c.get_only("ÜBER").unwrap().raw_value, "alles");
    assert!(parse_component("BEGIN:V\n\u{1F600}:x\nEND:V\n").is_err());
}
