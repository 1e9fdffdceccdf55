use blueprint::bp;
use blueprint::bp::{Blueprint, Heading, Paragraph, Section, Span, SpanType, Tag};

#[test]
fn bp_blueprint() {
    let text = "# a [b]\n## c";
    let bp = Blueprint {
        sections: vec![
            Section {
                heading: Heading {
                    rank: 1,
                    tags: vec![Tag {
                        name: String::from("b"),
                    }],
                    text: String::from("a"),
                },
                body: vec![],
            },
            Section {
                heading: Heading {
                    rank: 2,
                    tags: vec![],
                    text: String::from("c"),
                },
                body: vec![],
            },
        ],
    };

    assert_eq!(bp::blueprint(text), Ok(bp));
}

#[test]
fn bp_section() {
    let text = "# a [b]\nc \n\n*d*";
    let sec = Section {
        heading: Heading {
            rank: 1,
            tags: vec![Tag {
                name: String::from("b"),
            }],
            text: String::from("a"),
        },
        body: vec![
            Paragraph {
                spans: vec![Span {
                    category: SpanType::Raw,
                    text: String::from("c "),
                }],
            },
            Paragraph {
                spans: vec![Span {
                    category: SpanType::Bold,
                    text: String::from("d"),
                }],
            },
        ],
    };
    let bp = Blueprint {
        sections: vec![sec.clone()],
    };
    assert_eq!(bp::section(text), Ok(sec));
    assert_eq!(bp::blueprint(text), Ok(bp));
}

#[test]
fn bp_body() {
    let par1 = Paragraph {
        spans: vec![Span {
            category: SpanType::Raw,
            text: String::from(" a"),
        }],
    };
    let par2 = Paragraph {
        spans: vec![Span {
            category: SpanType::Bold,
            text: String::from(" b "),
        }],
    };
    let text = &format!("{}\n\n*{}*", par1.spans[0].text, par2.spans[0].text);
    assert_eq!(bp::body(text), Ok(vec![par1, par2]));
}

#[test]
fn bp_heading() {
    let heading1 = Heading {
        rank: 1,
        tags: vec![],
        text: String::from("a"),
    };
    let heading1_text = &format!("#{}", heading1.text);
    let heading2 = Heading {
        rank: 2,
        tags: vec![],
        text: String::from("a"),
    };
    let heading2_text = &format!("##{}", heading2.text);
    let tag = Tag {
        name: String::from("b"),
    };
    let tagged = Heading {
        rank: 1,
        tags: vec![tag.clone()],
        text: String::from("a"),
    };
    let tagged_text = &format!("# {} [{}]", tagged.text, tag.name);

    assert_eq!(bp::heading(heading1_text), Ok(heading1));
    assert_eq!(bp::heading(heading2_text), Ok(heading2));
    assert!(!bp::heading("_a\na").is_ok());
    assert_eq!(bp::heading(tagged_text), Ok(tagged));
}

#[test]
fn bp_span() {
    let span = Span {
        category: SpanType::Raw,
        text: String::from("a"),
    };
    let bold_span = Span {
        category: SpanType::Bold,
        text: String::from("a"),
    };
    let bold_span_text = &format!("*{}*", bold_span.text);

    assert_eq!(bp::span(&span.text), Ok(span.clone()));
    assert_eq!(bp::span(bold_span_text), Ok(bold_span.clone()));
}

#[test]
fn bp_tag() {
    let tag = Tag {
        name: String::from("a"),
    };
    let long_tag = Tag {
        name: String::from("this is a tag"),
    };

    assert_eq!(bp::tags("?"), Ok(vec![Tag::default()]));
    assert_eq!(bp::tags(&format!("{}", tag.name)), Ok(vec![tag.clone()]));
    assert_eq!(
        bp::tags(&format!("{}", long_tag.name)),
        Ok(vec![long_tag.clone()])
    );
    assert_eq!(
        bp::tags(&format!("{},{}", tag.name, tag.name)),
        Ok(vec![tag.clone(), tag.clone()])
    );
    assert_eq!(
        bp::tags(&format!(" {} , {} \n", tag.name, long_tag.name)),
        Ok(vec![tag.clone(), long_tag.clone()])
    );
}
