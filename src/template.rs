//! What the renderer receives: one page per output file.
use vstd::prelude::*;
use crate::markup::{Section, Blueprint, BlueprintView, SectionView, empty_heading, blueprint_title};
use crate::model::{Requirement, RequirementView};

verus! {

/// A page to render: the file it is written to, its title and its content.
pub struct Page {
    pub file: String,
    pub title: String,
    pub content: Blueprint,
}

/// What a page template is rendered with.
pub struct Context {
    pub css: Vec<String>,
    pub page: Page,
}

/// The title of a page whose content is `b`.
pub open spec fn page_title(b: BlueprintView) -> Seq<char> {
    match blueprint_title(b) {
        Some(t) => t,
        None => "Untitled"@,
    }
}

/// The content of a requirement's page: the requirement's section alone.
pub open spec fn requirement_content(r: RequirementView) -> BlueprintView {
    BlueprintView {
        name: r.name,
        root: SectionView { heading: empty_heading(), body: Seq::empty(), subsections: seq![r.content] },
    }
}

impl Page {
    /// The page of a document or of an owner's regrouped sections.
    pub fn of_blueprint(b: &Blueprint) -> (r: Page)
        ensures
            r.file@ == "page_"@ + b.name@ + ".html"@,
            r.title@ == page_title(b.deep_view()),
            r.content.deep_view() == b.deep_view(),
    {
        let file = String::from_str("page_").concat(b.name.as_str()).concat(".html");
        let title = match b.title() {
            Some(t) => t,
            None => String::from_str("Untitled"),
        };
        Page { file, title, content: b.clone() }
    }

    /// The page of a requirement.
    pub fn of_requirement(r: &Requirement) -> (p: Page)
        ensures
            p.file@ == "req_"@ + r.name@ + ".html"@,
            p.title@ == page_title(requirement_content(r.deep_view())),
            p.content.deep_view() == requirement_content(r.deep_view()),
    {
        let file = String::from_str("req_").concat(r.name.as_str()).concat(".html");
        let content = Blueprint { name: r.name.clone(), root: Section::new_root(vec![r.content.clone()]) };
        assert(content.deep_view().root.subsections =~= seq![r.content.deep_view()]);
        let title = match content.title() {
            Some(t) => t,
            None => String::from_str("Untitled"),
        };
        Page { file, title, content }
    }
}

} // verus!
