use cargo_eventflow::model::pattern::{NatsPattern, ParseError, Segment};

fn p(s: &str) -> NatsPattern {
    NatsPattern::parse(s).expect(s)
}

fn lit(s: &str) -> Segment {
    Segment::Literal(s.to_string())
}

#[test]
fn text_of_dots_alone_is_empty() {
    assert_eq!(NatsPattern::parse("."), Err(ParseError::Empty));
    assert_eq!(NatsPattern::parse("..."), Err(ParseError::Empty));
    assert_eq!(NatsPattern::parse("..a"), Err(ParseError::EmptySegment(0)));
    assert_eq!(NatsPattern::parse("a.."), Err(ParseError::EmptySegment(1)));
}

#[test]
fn first_fault_from_the_left_is_reported() {
    assert_eq!(NatsPattern::parse(">.a b"), Err(ParseError::GtNotAtTail(0)));
    assert_eq!(
        NatsPattern::parse("a b.>.c"),
        Err(ParseError::IllegalCharInToken {
            position: 0,
            token: "a b".to_string()
        })
    );
    assert_eq!(
        NatsPattern::parse("a.b>"),
        Err(ParseError::IllegalCharInToken {
            position: 1,
            token: "b>".to_string()
        })
    );
    assert_eq!(
        NatsPattern::parse("a.\u{7f}"),
        Err(ParseError::IllegalCharInToken {
            position: 1,
            token: "\u{7f}".to_string()
        })
    );
}

#[test]
fn every_visible_character_but_dot_and_wildcards_is_legal() {
    for c in '!'..='~' {
        let ok = NatsPattern::parse(&format!("x{c}y")).is_ok();
        assert_eq!(ok, c != '*' && c != '>', "{c:?}");
    }
    for c in ['\0', '\t', '\n', ' ', '\u{1f}', '\u{80}'] {
        assert!(NatsPattern::parse(&format!("x{c}y")).is_err(), "{c:?}");
    }
}

#[test]
fn segments_build_the_pattern_that_parses_from_their_text() {
    let built = NatsPattern::from_segments(vec![lit("a"), Segment::Star, Segment::Gt]).unwrap();
    assert_eq!(built.as_str(), "a.*.>");
    assert_eq!(built.to_string(), "a.*.>");
    assert_eq!(built, p("a.*.>"));
    assert!(built.same_as(&p("a.*.>")));
    assert!(!built.same_as(&p("a.>")));
}

#[test]
fn segments_with_an_empty_literal_are_rejected() {
    assert_eq!(
        NatsPattern::from_segments(vec![lit("a"), lit("")]),
        Err(ParseError::IllegalCharInToken {
            position: 1,
            token: String::new()
        })
    );
    assert_eq!(
        NatsPattern::from_segments(vec![lit("*")]),
        Err(ParseError::IllegalCharInToken {
            position: 0,
            token: "*".to_string()
        })
    );
}

#[test]
fn parse_error_messages() {
    assert_eq!(ParseError::Empty.to_string(), "empty pattern");
    assert_eq!(
        ParseError::EmptySegment(12).to_string(),
        "empty segment at position 12"
    );
    assert_eq!(
        ParseError::GtNotAtTail(0).to_string(),
        "`>` (tail wildcard) must appear last; found at position 0"
    );
    assert_eq!(
        ParseError::IllegalCharInToken {
            position: 3,
            token: "a\"\n\u{e7}".to_string()
        }
        .to_string(),
        "illegal character in literal token at position 3: \"a\\\"\\n\u{e7}\""
    );
}

#[test]
fn cover_goes_down_and_not_up() {
    assert!(p("a.*").covers(&p("a.b")));
    assert!(!p("a.b").covers(&p("a.*")));
    assert!(p("a.>").covers(&p("a.*.c")));
    assert!(!p("a.*.c").covers(&p("a.>")));
    assert!(!p("a.>").covers(&p("a")));
    assert!(!p("a.*").covers(&p("a.>")));
    assert!(p(">").covers(&p("*.>")));
    assert!(!p("*.>").covers(&p(">")));
}

#[test]
fn cover_is_transitive_on_a_chain() {
    let chain = ["a.b.c", "a.*.c", "a.*.*", "a.>", ">"];
    for (i, narrow) in chain.iter().enumerate() {
        for wide in &chain[i..] {
            assert!(p(wide).covers(&p(narrow)), "{wide} covers {narrow}");
            assert!(p(wide).overlaps(&p(narrow)), "{wide} overlaps {narrow}");
        }
    }
}

#[test]
fn mutual_cover_means_equal() {
    let all = ["a", "*", ">", "a.*", "a.>", "a.*.>", "*.>", "*.b"];
    for x in all {
        for y in all {
            if p(x).covers(&p(y)) && p(y).covers(&p(x)) {
                assert_eq!(x, y);
            }
        }
    }
}

#[test]
fn different_heads_do_not_overlap() {
    assert!(!p("a.>").overlaps(&p("b.>")));
    assert!(!p("a").overlaps(&p("b")));
    assert!(p("*.x").overlaps(&p("a.*")));
}

#[test]
fn cover_keeps_overlap() {
    let narrow = p("a.b.*");
    let wide = p("a.>");
    let other = p("*.b.c");
    assert!(narrow.overlaps(&other));
    assert!(wide.covers(&narrow));
    assert!(wide.overlaps(&other));
}

#[test]
fn order_is_that_of_the_surface_form() {
    let mut all = vec![p("b"), p("a.>"), p("a.*"), p("a"), p("a-b"), p("A")];
    all.sort();
    let texts: Vec<_> = all.iter().map(|x| x.as_str()).collect();
    assert_eq!(texts, vec!["A", "a", "a-b", "a.*", "a.>", "b"]);
    assert!(p("a.*") < p("a.>"));
    assert!(p("a.>") < p("a.a"));
}
