use cargo_eventflow::model::pattern::{NatsPattern, ParseError, Segment};

fn p(s: &str) -> NatsPattern {
    NatsPattern::parse(s).expect(s)
}


#[test]
fn parse_literal() {
    let pat = p("foo.bar.baz");
    assert_eq!(pat.segments().len(), 3);
    assert_eq!(pat.as_str(), "foo.bar.baz");
}

#[test]
fn parse_star() {
    let pat = p("foo.*.baz");
    assert_eq!(pat.segments()[1], Segment::Star);
}

#[test]
fn parse_gt_at_tail() {
    let pat = p("foo.>");
    assert_eq!(pat.segments().last(), Some(&Segment::Gt));
}

#[test]
fn parse_bare_gt() {
    let pat = p(">");
    assert_eq!(pat.segments(), &[Segment::Gt]);
}

#[test]
fn parse_rejects_empty() {
    assert_eq!(NatsPattern::parse(""), Err(ParseError::Empty));
}

#[test]
fn parse_rejects_empty_segment() {
    assert!(matches!(
        NatsPattern::parse("foo..bar"),
        Err(ParseError::EmptySegment(1))
    ));
    assert!(matches!(
        NatsPattern::parse(".foo"),
        Err(ParseError::EmptySegment(0))
    ));
    assert!(matches!(
        NatsPattern::parse("foo."),
        Err(ParseError::EmptySegment(1))
    ));
}

#[test]
fn parse_rejects_gt_not_at_tail() {
    assert!(matches!(
        NatsPattern::parse("foo.>.bar"),
        Err(ParseError::GtNotAtTail(1))
    ));
}

#[test]
fn parse_rejects_whitespace_in_token() {
    assert!(matches!(
        NatsPattern::parse("foo bar.baz"),
        Err(ParseError::IllegalCharInToken { position: 0, .. })
    ));
}

#[test]
fn parse_rejects_non_ascii_in_token() {
    assert!(matches!(
        NatsPattern::parse("market.klines.btç.1m"),
        Err(ParseError::IllegalCharInToken { position: 2, .. })
    ));
}

#[test]
fn parse_accepts_star_prefix_literal_unchanged() {
    assert!(matches!(
        NatsPattern::parse("foo.*x.bar"),
        Err(ParseError::IllegalCharInToken { position: 1, .. })
    ));
}


#[test]
fn from_segments_validates_gt_at_tail() {
    let bad = vec![
        Segment::Literal("foo".into()),
        Segment::Gt,
        Segment::Literal("bar".into()),
    ];
    assert!(matches!(
        NatsPattern::from_segments(bad),
        Err(ParseError::GtNotAtTail(1))
    ));
}

#[test]
fn from_segments_validates_literal_chars() {
    let bad = vec![Segment::Literal("foo.bar".into())];
    assert!(matches!(
        NatsPattern::from_segments(bad),
        Err(ParseError::IllegalCharInToken { position: 0, .. })
    ));
}

#[test]
fn from_segments_rejects_empty() {
    assert_eq!(NatsPattern::from_segments(vec![]), Err(ParseError::Empty));
}


#[test]
fn display_round_trips_for_all_fixtures() {
    let fixtures = &[
        "foo",
        "foo.bar",
        "foo.bar.baz",
        "foo.*",
        "foo.*.baz",
        "foo.>",
        ">",
        "market.klines.binance.spot.*.*",
        "service.deploy.*.commands",
        "a.b.c.d.e.f.g.h.i.j",
    ];
    for s in fixtures {
        let pat = p(s);
        assert_eq!(pat.to_string(), *s, "Display round-trip broke for {s:?}");
        let reparsed = NatsPattern::parse(&pat.to_string()).unwrap();
        assert_eq!(reparsed, pat, "reparse differs for {s:?}");
    }
}


#[test]
fn ord_matches_string_byte_order() {
    let mut as_strings: Vec<String> = vec![
        "foo.*".into(),
        "foo.>".into(),
        "foo.a".into(),
        "foo.bar".into(),
        "foo.baz".into(),
        "*.bar".into(),
        ">.alpha".into(),
    ];
    as_strings.retain(|s| NatsPattern::parse(s).is_ok());
    as_strings.sort();

    let mut as_pats: Vec<NatsPattern> = as_strings.iter().map(|s| p(s)).collect();
    as_pats.sort();

    let from_pats: Vec<String> = as_pats.iter().map(NatsPattern::to_string).collect();
    assert_eq!(
        as_strings, from_pats,
        "NatsPattern: Ord disagrees with String: Ord on canonical form"
    );
}


#[test]
fn overlaps_lit_vs_star() {
    assert!(p("foo.bar").overlaps(&p("foo.*")));
    assert!(p("foo.*").overlaps(&p("foo.bar")));
}

#[test]
fn overlaps_lit_vs_gt() {
    assert!(p("foo.bar.baz").overlaps(&p("foo.>")));
    assert!(p("foo.>").overlaps(&p("foo.bar.baz")));
}

#[test]
fn overlaps_star_cross_position() {
    assert!(p("foo.*.baz").overlaps(&p("foo.bar.*")));
}

#[test]
fn overlaps_gt_vs_star_prefix() {
    assert!(p("foo.>").overlaps(&p("*.bar.baz")));
}

#[test]
fn overlaps_no_overlap_when_literals_differ() {
    assert!(!p("foo.bar").overlaps(&p("foo.baz")));
    assert!(!p("foo.*.baz").overlaps(&p("foo.*.qux")));
}

#[test]
fn overlaps_no_overlap_when_heads_differ() {
    assert!(!p("foo.*").overlaps(&p("bar.*")));
}

#[test]
fn overlaps_anti_overlap_positional_literal() {
    assert!(!p("foo.*.baz").overlaps(&p("foo.x.qux")));
}

#[test]
fn overlaps_self_is_reflexive() {
    for s in &["foo.bar", "foo.*", "foo.>", "*.bar.>", ">", "a.b.c"] {
        let pat = p(s);
        assert!(pat.overlaps(&pat), "{s} should overlap with itself");
    }
}

#[test]
fn overlaps_is_symmetric_property_test() {
    let patterns = [
        "foo",
        "foo.bar",
        "foo.*",
        "foo.>",
        "*",
        "*.bar",
        "foo.bar.baz",
        "foo.*.baz",
        "foo.bar.*",
        "*.bar.*",
        "*.*.baz",
        "foo.*.*",
        "a.b.c",
        ">",
        "foo.>",
    ];
    for a_s in &patterns {
        for b_s in &patterns {
            let a = p(a_s);
            let b = p(b_s);
            assert_eq!(
                a.overlaps(&b),
                b.overlaps(&a),
                "overlaps not symmetric for ({a_s}, {b_s})"
            );
        }
    }
}

#[test]
fn overlaps_gt_requires_one_or_more() {
    assert!(!p("foo.>").overlaps(&p("foo")));
    assert!(!p("foo").overlaps(&p("foo.>")));
}

#[test]
fn overlaps_transitive_non_closure() {
    let a = p("foo.bar.baz");
    let b = p("foo.*.baz");
    let c = p("foo.qux.baz");
    assert!(a.overlaps(&b));
    assert!(c.overlaps(&b));
    assert!(!a.overlaps(&c));
}

#[test]
fn overlaps_deep_no_backtrack() {
    let stars = p("*.*.*.*.*.*.*.*.*.*");
    let literals = p("a.b.c.d.e.f.g.h.i.j");
    assert!(stars.overlaps(&literals));
}


#[test]
fn covers_star_over_literal() {
    assert!(p("foo.*").covers(&p("foo.bar")));
    assert!(!p("foo.bar").covers(&p("foo.*")));
}

#[test]
fn covers_gt_over_anything() {
    assert!(p("foo.>").covers(&p("foo.bar.baz.qux")));
    assert!(p(">").covers(&p("anything.at.all")));
}

#[test]
fn covers_does_not_emit_when_only_overlap() {
    assert!(!p("foo.*.baz").covers(&p("foo.bar.*")));
    assert!(!p("foo.bar.*").covers(&p("foo.*.baz")));
    assert!(p("foo.*.baz").overlaps(&p("foo.bar.*")));
}

#[test]
fn covers_self() {
    for s in &["foo.bar", "foo.*", "foo.>", ">"] {
        let pat = p(s);
        assert!(pat.covers(&pat));
    }
}

#[test]
fn covers_implies_overlaps() {
    let pairs = [
        ("foo.*", "foo.bar"),
        ("foo.>", "foo.bar.baz"),
        (">", "x.y.z"),
        ("foo.*.*", "foo.bar.baz"),
    ];
    for (a_s, b_s) in &pairs {
        let a = p(a_s);
        let b = p(b_s);
        assert!(a.covers(&b), "{a_s} should cover {b_s}");
        assert!(
            a.overlaps(&b),
            "if {a_s} covers {b_s}, they must overlap too"
        );
    }
}


#[test]
fn from_str_works() {
    let pat: NatsPattern = "foo.bar".parse().unwrap();
    assert_eq!(pat.as_str(), "foo.bar");
}
