use blueprint::grammar::{ParseError, ParseErrorKind};
use blueprint::markup::{Heading, Paragraph, Section, Span, SpanType, Tag, TagCategory};
use blueprint::parse;

fn span(category: SpanType, text: &str) -> Span {
    Span {
        category,
        text: text.to_string(),
    }
}

#[test]
fn decorated_spans_match_their_delimiters() {
    assert_eq!(parse::span("*a*"), Ok(span(SpanType::Bold, "a")));
    assert_eq!(parse::span("/a/"), Ok(span(SpanType::Italic, "a")));
    assert_eq!(parse::span("~a~"), Ok(span(SpanType::Strikethrough, "a")));
    assert_eq!(
        parse::span("*a/"),
        Err(ParseError {
            kind: ParseErrorKind::MismatchedDelimiters,
            offset: 0
        })
    );
}

#[test]
fn mismatched_delimiters_fail_a_document() {
    assert_eq!(
        parse::blueprint("# h\nx *a~ y", "d"),
        Err(ParseError {
            kind: ParseErrorKind::MismatchedDelimiters,
            offset: 6
        })
    );
}

#[test]
fn separator_with_other_cell_count_is_an_error() {
    assert_eq!(
        parse::body("h|h|h\n-|-\na|b|c"),
        Err(ParseError {
            kind: ParseErrorKind::SeparatorMismatch,
            offset: 6
        })
    );
}

#[test]
fn body_row_with_other_cell_count_is_an_error() {
    assert_eq!(
        parse::body("h|h\n-|-\na|b|c"),
        Err(ParseError {
            kind: ParseErrorKind::SeparatorMismatch,
            offset: 8
        })
    );
}

#[test]
fn table_without_heading() {
    let text = "a|b\nc|d";
    match parse::body(text) {
        Ok(pars) => {
            assert_eq!(pars.len(), 1);
            match &pars[0] {
                Paragraph::Table(t) => {
                    assert!(t.heading.is_empty());
                    assert_eq!(t.body.len(), 2);
                    assert_eq!(t.body[1][0], vec![span(SpanType::Raw, "c")]);
                }
                _ => panic!("not a table"),
            }
        }
        Err(e) => panic!("{:?}", e),
    }
}

#[test]
fn skipped_rank_fails_the_document() {
    assert_eq!(
        parse::blueprint("# a\n### b", "d"),
        Err(ParseError {
            kind: ParseErrorKind::WrongRank,
            offset: 4
        })
    );
}

#[test]
fn text_before_any_heading_is_incomplete() {
    assert_eq!(
        parse::blueprint("plain text", "d"),
        Err(ParseError {
            kind: ParseErrorKind::IncompleteParse,
            offset: 0
        })
    );
}

#[test]
fn trailing_text_is_incomplete() {
    assert_eq!(
        parse::span("a\nb"),
        Err(ParseError {
            kind: ParseErrorKind::IncompleteParse,
            offset: 1
        })
    );
}

#[test]
fn heading_line_round_trip() {
    let bp = parse::blueprint("# a [b]\n## c", "").unwrap();
    let top = &bp.root.subsections[0];
    assert_eq!(top.heading.rank, 1);
    assert_eq!(
        top.heading.tags,
        vec![Tag {
            category: TagCategory::Simple,
            name: "b".to_string()
        }]
    );
    assert_eq!(top.heading.text, "a");
    assert_eq!(top.subsections.len(), 1);
    assert_eq!(top.subsections[0].heading.rank, 2);
    assert!(top.subsections[0].heading.tags.is_empty());
    assert_eq!(top.subsections[0].heading.text, "c");

    let line = top.heading.to_line();
    assert_eq!(line, "# a [b]");
    assert_eq!(parse::heading(&line, 1), Ok(top.heading.clone()));
    let line = top.subsections[0].heading.to_line();
    assert_eq!(line, "## c");
    assert_eq!(parse::heading(&line, 2), Ok(top.subsections[0].heading.clone()));
}

#[test]
fn heading_line_writes_sigils() {
    let h = Heading {
        rank: 2,
        tags: vec![
            Tag {
                category: TagCategory::Requires,
                name: "r".to_string(),
            },
            Tag {
                category: TagCategory::Satisfies,
                name: "s".to_string(),
            },
        ],
        text: "t u".to_string(),
    };
    assert_eq!(h.to_line(), "## t u [?r,=s]");
    assert_eq!(parse::heading(&h.to_line(), 2), Ok(h));
}

#[test]
fn tag_categories_come_from_sigils() {
    assert_eq!(
        parse::tags("[?a,=b,c]"),
        Ok(vec![
            Tag {
                category: TagCategory::Requires,
                name: "a".to_string()
            },
            Tag {
                category: TagCategory::Satisfies,
                name: "b".to_string()
            },
            Tag {
                category: TagCategory::Simple,
                name: "c".to_string()
            },
        ])
    );
    assert_eq!(parse::tags("[]"), Ok(vec![]));
}

#[test]
fn nested_sections_are_one_rank_deeper() {
    let bp = parse::blueprint("# a\nx\n## b\n### c\n## d\n# e", "n").unwrap();
    fn check(s: &Section, rank: usize) {
        assert_eq!(s.heading.rank, rank);
        for sub in &s.subsections {
            check(sub, rank + 1);
        }
    }
    assert_eq!(bp.name, "n");
    assert_eq!(bp.root.subsections.len(), 2);
    for s in &bp.root.subsections {
        check(s, 1);
    }
    assert_eq!(bp.root.subsections[0].subsections.len(), 2);
    assert_eq!(
        bp.root.subsections[0].body,
        vec![Paragraph::Spans(vec![span(SpanType::Raw, "x")])]
    );
}

#[test]
fn heading_of_wrong_rank_is_refused() {
    assert!(parse::heading("## a", 1).is_err());
    assert!(parse::section("## a", 1).is_err());
    assert_eq!(parse::heading("## a", 2).map(|h| h.rank), Ok(2));
}
