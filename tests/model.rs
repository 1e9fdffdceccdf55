use blueprint::markup::{Blueprint, Section, Tag, TagCategory};
use blueprint::model::{owner_of, sort_documents, Model};
use blueprint::parse;
use blueprint::template::Page;

fn doc(name: &str, text: &str) -> Blueprint {
    parse::blueprint(text, name).unwrap()
}

#[test]
fn later_document_wins_a_requirement() {
    let a = doc("A", "# from a [?foo]");
    let b = doc("B", "# from b [?foo,=bar]");
    let m = Model::new(vec![b.clone(), a.clone()]);
    assert_eq!(m.requirements.len(), 1);
    assert_eq!(m.requirements[0].name, "foo");
    assert_eq!(m.requirements[0].content, b.root.subsections[0]);
    assert_eq!(
        m.requirements[0].satisfies,
        vec![Tag {
            category: TagCategory::Satisfies,
            name: "bar".to_string()
        }]
    );
    assert_eq!(m.duplicates.len(), 1);
    assert_eq!(m.duplicates[0].content, a.root.subsections[0]);
}

#[test]
fn requirements_of_nested_sections_keep_their_subtree() {
    let d = doc("d", "# top\n## inner [?r1, ?r2]\n### leaf\n# other [?r3]");
    let m = Model::new(vec![d.clone()]);
    let names: Vec<&str> = m.requirements.iter().map(|r| r.name.as_str()).collect();
    assert_eq!(names, vec!["r1", "r3"]);
    assert_eq!(m.requirements[0].content, d.root.subsections[0].subsections[0]);
    assert_eq!(m.requirements[0].content.subsections.len(), 1);
    assert!(m.duplicates.is_empty());
}

#[test]
fn ownership_tag_moves_a_section() {
    let x = doc("X", "# owned [@teamA]\n# loose");
    let m = Model::new(vec![x.clone()]);
    let names: Vec<&str> = m.pages.iter().map(|p| p.name.as_str()).collect();
    assert_eq!(names, vec!["teamA", "_free_"]);
    assert_eq!(m.pages[0].root.subsections, vec![x.root.subsections[0].clone()]);
    assert_eq!(m.pages[1].root.subsections, vec![x.root.subsections[1].clone()]);
    assert!(m.pages.iter().all(|p| p.name != "X"));
}

#[test]
fn pages_gather_sections_across_documents() {
    let a = doc("a", "# one [@t]\n## child");
    let b = doc("b", "# two [@u]\n# three [@t]");
    let m = Model::new(vec![b.clone(), a.clone()]);
    assert_eq!(m.pages.len(), 2);
    assert_eq!(m.pages[0].name, "t");
    assert_eq!(
        m.pages[0].root.subsections,
        vec![a.root.subsections[0].clone(), b.root.subsections[1].clone()]
    );
    assert_eq!(m.pages[0].root.subsections[0].subsections.len(), 1);
    assert_eq!(m.pages[1].name, "u");
}

#[test]
fn last_ownership_tag_wins() {
    let s = &doc("d", "# s [@a,x,@b,?c]").root.subsections[0];
    assert_eq!(owner_of(s), "b");
    let t = &doc("d", "# s [x,?@a, @b]").root.subsections[0];
    assert_eq!(owner_of(t), "_free_");
}

#[test]
fn documents_are_sorted_by_name() {
    let docs = vec![doc("b", ""), doc("a2", ""), doc("a", ""), doc("b", "# second")];
    let sorted = sort_documents(docs);
    let names: Vec<&str> = sorted.iter().map(|d| d.name.as_str()).collect();
    assert_eq!(names, vec!["a", "a2", "b", "b"]);
    assert!(sorted[2].root.subsections.is_empty());
    assert_eq!(sorted[3].root.subsections.len(), 1);
}

#[test]
fn tag_file_names() {
    let t = |category, name: &str| Tag {
        category,
        name: name.to_string(),
    };
    assert_eq!(t(TagCategory::Simple, "x").file_name(), "tag_x.html");
    assert_eq!(t(TagCategory::Requires, "x").file_name(), "req_x.html");
    assert_eq!(t(TagCategory::Satisfies, "y").file_name(), "req_y.html");
}

#[test]
fn find_tags_by_category() {
    let s = &doc("d", "# s [a,?b,=c,?d]").root.subsections[0];
    let names: Vec<&str> = s
        .find_tags(TagCategory::Requires)
        .iter()
        .map(|t| t.name.as_str())
        .collect();
    assert_eq!(names, vec!["b", "d"]);
    assert_eq!(s.find_tags(TagCategory::Satisfies).len(), 1);
    assert_eq!(s.find_tags(TagCategory::Simple)[0].name, "a");
}

#[test]
fn titles() {
    let d = doc("d", "# first title\n# second");
    assert_eq!(d.title(), Some("first title".to_string()));
    assert_eq!(d.root.subsections[1].title(), "second");
    assert_eq!(doc("e", "").title(), None);
    let root = Section::new_root(vec![]);
    assert_eq!(root.heading.rank, 0);
    assert!(root.body.is_empty());
}

#[test]
fn pages_for_the_renderer() {
    let d = doc("d", "# first");
    let p = Page::of_blueprint(&d);
    assert_eq!(p.file, "page_d.html");
    assert_eq!(p.title, "first");
    assert_eq!(p.content, d);
    let e = doc("e", "");
    assert_eq!(Page::of_blueprint(&e).title, "Untitled");

    let m = Model::new(vec![doc("r", "# needs [?q]")]);
    let p = Page::of_requirement(&m.requirements[0]);
    assert_eq!(p.file, "req_q.html");
    assert_eq!(p.title, "needs");
    assert_eq!(p.content.name, "q");
    assert_eq!(p.content.root.subsections, vec![m.requirements[0].content.clone()]);
}
