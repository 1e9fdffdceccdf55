use blueprint::markup::{Blueprint, Heading, Paragraph, Section, Span, SpanType, Table, Tag};
use blueprint::parse;

#[test]
fn markup_blueprint() {
    let text = "# a [b]\n## c";
    let bp = Blueprint {
        name: String::new(),
        root: Section::new_root(vec![Section {
            heading: Heading {
                rank: 1,
                tags: vec![Tag {
                    name: String::from("b"),
                    ..Default::default()
                }],
                text: String::from("a"),
            },
            body: vec![],
            subsections: vec![Section {
                heading: Heading {
                    rank: 2,
                    tags: vec![],
                    text: String::from("c"),
                },
                body: vec![],
                ..Default::default()
            }],
        }]),
    };
    assert_eq!(parse::blueprint(text, ""), Ok(bp));

    let text = "# a \n## b\n";
    let bp = Blueprint {
        name: String::from(""),
        root: Section::new_root(vec![Section {
            heading: Heading {
                rank: 1,
                tags: vec![],
                text: String::from("a"),
            },
            body: vec![],
            subsections: vec![Section {
                heading: Heading {
                    rank: 2,
                    tags: vec![],
                    text: String::from("b"),
                },
                body: vec![],
                ..Default::default()
            }],
        }]),
    };
    assert_eq!(parse::blueprint(text, ""), Ok(bp));
}

#[test]
fn markup_section() {
    let text = "# a [b]\nc \n\n*d*";
    let sec = Section {
        heading: Heading {
            rank: 1,
            tags: vec![Tag {
                name: String::from("b"),
                ..Default::default()
            }],
            text: String::from("a"),
        },
        body: vec![
            Paragraph::Spans(vec![Span {
                category: SpanType::Raw,
                text: String::from("c"),
            }]),
            Paragraph::Spans(vec![Span {
                category: SpanType::Bold,
                text: String::from("d"),
            }]),
        ],
        subsections: Default::default(),
    };
    let bp = Blueprint {
        name: String::new(),
        root: Section::new_root(vec![sec.clone()]),
    };
    assert_eq!(parse::section(text, 1), Ok(sec));
    assert_eq!(parse::blueprint(text, ""), Ok(bp));
}

fn raw(text: &str) -> Span {
    Span {
        category: SpanType::Raw,
        text: text.to_string(),
    }
}

#[test]
fn table() {
    let text = "h|h\n-|-\na|b\nc|d";
    let par = Paragraph::Table(Table {
        heading: vec![vec![raw("h")], vec![raw("h")]],
        body: vec![
            vec![vec![raw("a")], vec![raw("b")]],
            vec![vec![raw("c")], vec![raw("d")]],
        ],
    });
    assert_eq!(parse::body(text), Ok(vec![par]));
}

#[test]
fn markup_body() {
    let par1 = vec![Span {
        category: SpanType::Raw,
        text: String::from(" a"),
    }];
    let par2 = vec![Span {
        category: SpanType::Bold,
        text: String::from(" b "),
    }];
    let text = &format!("{}\n\n*{}*", par1[0].text, par2[0].text);
    assert_eq!(
        parse::body(text),
        Ok(vec![Paragraph::Spans(par1), Paragraph::Spans(par2)])
    );
}

#[test]
fn markup_heading() {
    let heading1 = Heading {
        rank: 1,
        text: String::from("a"),
        ..Default::default()
    };
    let heading1_text = &format!("#{}", heading1.text);
    let heading2 = Heading {
        rank: 2,
        text: String::from("a"),
        ..Default::default()
    };
    let heading2_text = &format!("##{}", heading2.text);
    let tag = Tag {
        name: String::from("b"),
        ..Default::default()
    };
    let tagged = Heading {
        rank: 1,
        tags: vec![tag.clone()],
        text: String::from("a"),
    };
    let tagged_text = &format!("# {} [{}]", tagged.text, tag.name);

    assert_eq!(parse::heading(heading1_text, 1), Ok(heading1));
    assert!(parse::heading(heading2_text, 1).is_err());
    assert_eq!(parse::heading(tagged_text, 1), Ok(tagged));
}

#[test]
fn markup_span() {
    let span = Span {
        category: SpanType::Raw,
        text: String::from("a"),
    };
    let bold_span = Span {
        category: SpanType::Bold,
        text: String::from("a"),
    };
    let bold_span_text = &format!("*{}*", bold_span.text);

    assert_eq!(parse::span(&span.text), Ok(span.clone()));
    assert_eq!(parse::span(bold_span_text), Ok(bold_span.clone()));
}

#[test]
fn markup_tag() {
    let tag = Tag {
        name: String::from("a"),
        ..Default::default()
    };
    let long_tag = Tag {
        name: String::from("this is a tag"),
        ..Default::default()
    };

    assert_eq!(parse::tags(&format!("[{}]", tag.name)), Ok(vec![tag.clone()]));
    assert_eq!(
        parse::tags(&format!("[{}]", long_tag.name)),
        Ok(vec![long_tag.clone()])
    );
}
