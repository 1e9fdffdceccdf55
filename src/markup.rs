//! The document tree: tags, spans, tables, paragraphs, headings and sections,
//! together with the mathematical value that each of them denotes.
use vstd::prelude::*;
use crate::grammar::{ParseError, spec_document};
use crate::parse::{result_view, document_view};

verus! {

/// What a tag says about the section whose heading carries it.
#[derive(Clone, Copy, PartialEq, Eq, Structural, Debug)]
pub enum TagCategory {
    Simple,
    Requires,
    Satisfies,
}

impl Default for TagCategory {
    fn default() -> (r: TagCategory)
        ensures
            r == TagCategory::Simple,
    {
        TagCategory::Simple
    }
}

/// A classification label on a heading.
#[derive(PartialEq, Debug)]
pub struct Tag {
    pub category: TagCategory,
    pub name: String,
}

pub struct TagView {
    pub category: TagCategory,
    pub name: Seq<char>,
}

impl DeepView for Tag {
    type V = TagView;

    open spec fn deep_view(&self) -> TagView {
        TagView { category: self.category, name: self.name@ }
    }
}

impl Clone for Tag {
    fn clone(&self) -> (r: Tag)
        ensures
            r.deep_view() == self.deep_view(),
    {
        Tag { category: self.category, name: self.name.clone() }
    }
}

impl Default for Tag {
    fn default() -> (r: Tag)
        ensures
            r.category == TagCategory::Simple,
            r.name@ == Seq::<char>::empty(),
    {
        Tag { category: TagCategory::Simple, name: String::new() }
    }
}

/// The decoration of a run of text.
#[derive(Clone, Copy, PartialEq, Eq, Structural, Debug)]
pub enum SpanType {
    Raw,
    Bold,
    Italic,
    Strikethrough,
}

impl Default for SpanType {
    fn default() -> (r: SpanType)
        ensures
            r == SpanType::Raw,
    {
        SpanType::Raw
    }
}

/// A run of text with one decoration.
#[derive(PartialEq, Debug)]
pub struct Span {
    pub category: SpanType,
    pub text: String,
}

pub struct SpanView {
    pub category: SpanType,
    pub text: Seq<char>,
}

impl DeepView for Span {
    type V = SpanView;

    open spec fn deep_view(&self) -> SpanView {
        SpanView { category: self.category, text: self.text@ }
    }
}

impl Clone for Span {
    fn clone(&self) -> (r: Span)
        ensures
            r.deep_view() == self.deep_view(),
    {
        Span { category: self.category, text: self.text.clone() }
    }
}


/// Copies a list of spans, keeping what each span denotes.
pub fn clone_spans(v: &Vec<Span>) -> (r: Vec<Span>)
    ensures
        r.deep_view() == v.deep_view(),
{
    let mut r: Vec<Span> = Vec::new();
    let mut i: usize = 0;
    while i < v.len()
        invariant
            i <= v.len(),
            r@.len() == i,
            forall|j: int| 0 <= j < i ==> #[trigger] r@[j].deep_view() == v@[j].deep_view(),
        decreases v.len() - i,
    {
        r.push(v[i].clone());
        i = i + 1;
    }
    assert(r.deep_view() =~= v.deep_view());
    r
}

/// Copies a table row, cell by cell.
pub fn clone_row(v: &Vec<Vec<Span>>) -> (r: Vec<Vec<Span>>)
    ensures
        r.deep_view() == v.deep_view(),
{
    let mut r: Vec<Vec<Span>> = Vec::new();
    let mut i: usize = 0;
    while i < v.len()
        invariant
            i <= v.len(),
            r@.len() == i,
            forall|j: int| 0 <= j < i ==> #[trigger] r@[j].deep_view() == v@[j].deep_view(),
        decreases v.len() - i,
    {
        r.push(clone_spans(&v[i]));
        i = i + 1;
    }
    assert(r.deep_view() =~= v.deep_view());
    r
}

/// A table: an optional heading row and the body rows, each row a list of
/// cells and each cell a list of spans.
#[derive(PartialEq, Debug)]
pub struct Table {
    pub heading: Vec<Vec<Span>>,
    pub body: Vec<Vec<Vec<Span>>>,
}

pub struct TableView {
    pub heading: Seq<Seq<SpanView>>,
    pub body: Seq<Seq<Seq<SpanView>>>,
}

impl DeepView for Table {
    type V = TableView;

    open spec fn deep_view(&self) -> TableView {
        TableView { heading: self.heading.deep_view(), body: self.body.deep_view() }
    }
}

impl Clone for Table {
    fn clone(&self) -> (r: Table)
        ensures
            r.deep_view() == self.deep_view(),
    {
        let mut body: Vec<Vec<Vec<Span>>> = Vec::new();
        let mut i: usize = 0;
        while i < self.body.len()
            invariant
                i <= self.body.len(),
                body@.len() == i,
            forall|j: int| 0 <= j < i ==> #[trigger] body@[j].deep_view() == self.body@[j].deep_view(),
            decreases self.body.len() - i,
        {
            body.push(clone_row(&self.body[i]));
            i = i + 1;
            }
        assert(body.deep_view() =~= self.body.deep_view());
        Table { heading: clone_row(&self.heading), body }
    }
}

/// A block of a section's body.
#[derive(PartialEq, Debug)]
pub enum Paragraph {
    Empty,
    Spans(Vec<Span>),
    Table(Table),
}

pub enum ParagraphView {
    Empty,
    Spans(Seq<SpanView>),
    Table(TableView),
}

impl DeepView for Paragraph {
    type V = ParagraphView;

    open spec fn deep_view(&self) -> ParagraphView {
        match self {
            Paragraph::Empty => ParagraphView::Empty,
            Paragraph::Spans(v) => ParagraphView::Spans(v.deep_view()),
            Paragraph::Table(t) => ParagraphView::Table(t.deep_view()),
        }
    }
}

impl Clone for Paragraph {
    fn clone(&self) -> (r: Paragraph)
        ensures
            r.deep_view() == self.deep_view(),
    {
        match self {
            Paragraph::Empty => Paragraph::Empty,
            Paragraph::Spans(v) => Paragraph::Spans(clone_spans(v)),
            Paragraph::Table(t) => Paragraph::Table(t.clone()),
        }
    }
}

impl Default for Paragraph {
    fn default() -> (r: Paragraph)
        ensures
            r.deep_view() == ParagraphView::Empty,
    {
        Paragraph::Empty
    }
}


/// A heading line: its rank (the number of markers), its tags and its text.
#[derive(PartialEq, Debug)]
pub struct Heading {
    pub rank: usize,
    pub tags: Vec<Tag>,
    pub text: String,
}

pub struct HeadingView {
    pub rank: nat,
    pub tags: Seq<TagView>,
    pub text: Seq<char>,
}

impl DeepView for Heading {
    type V = HeadingView;

    open spec fn deep_view(&self) -> HeadingView {
        HeadingView { rank: self.rank as nat, tags: self.tags.deep_view(), text: self.text@ }
    }
}

/// Copies a list of tags, keeping what each tag denotes.
pub fn clone_tags(v: &Vec<Tag>) -> (r: Vec<Tag>)
    ensures
        r.deep_view() == v.deep_view(),
{
    let mut r: Vec<Tag> = Vec::new();
    let mut i: usize = 0;
    while i < v.len()
        invariant
            i <= v.len(),
            r@.len() == i,
            forall|j: int| 0 <= j < i ==> #[trigger] r@[j].deep_view() == v@[j].deep_view(),
        decreases v.len() - i,
    {
        r.push(v[i].clone());
        i = i + 1;
    }
    assert(r.deep_view() =~= v.deep_view());
    r
}

impl Clone for Heading {
    fn clone(&self) -> (r: Heading)
        ensures
            r.deep_view() == self.deep_view(),
    {
        Heading { rank: self.rank, tags: clone_tags(&self.tags), text: self.text.clone() }
    }
}

impl Default for Heading {
    fn default() -> (r: Heading)
        ensures
            r.deep_view() == empty_heading(),
    {
        let r = Heading { rank: 0, tags: Vec::new(), text: String::new() };
        assert(r.deep_view().tags =~= Seq::<TagView>::empty());
        r
    }
}

/// The heading of a document's synthetic root: no rank, no tags, no text.
pub open spec fn empty_heading() -> HeadingView {
    HeadingView { rank: 0, tags: Seq::empty(), text: Seq::empty() }
}

/// The written form of a tag: its sigil, then its name.
pub open spec fn tag_text(t: TagView) -> Seq<char> {
    let sigil = match t.category {
        TagCategory::Simple => Seq::<char>::empty(),
        TagCategory::Requires => seq!['?'],
        TagCategory::Satisfies => seq!['='],
    };
    sigil + t.name
}

/// Tags written one after the other, separated by commas.
pub open spec fn tag_list_text(tags: Seq<TagView>) -> Seq<char>
    decreases tags.len(),
{
    if tags.len() == 0 {
        Seq::empty()
    } else if tags.len() == 1 {
        tag_text(tags[0])
    } else {
        tag_list_text(tags.drop_last()) + seq![','] + tag_text(tags.last())
    }
}

/// The line that writes a heading: its markers, a space, its text and, if it
/// has tags, a space and the bracketed tag list.
pub open spec fn heading_line(h: HeadingView) -> Seq<char> {
    let tags = if h.tags.len() > 0 {
        seq![' ', '['] + tag_list_text(h.tags) + seq![']']
    } else {
        Seq::empty()
    };
    Seq::new(h.rank, |i: int| '#') + seq![' '] + h.text + tags
}

impl Tag {
    /// The written form of this tag.
    pub fn to_text(&self) -> (r: String)
        ensures
            r@ == tag_text(self.deep_view()),
    {
        let mut r = String::new();
        proof {
            reveal_strlit("?");
            reveal_strlit("=");
        }
        match self.category {
            TagCategory::Simple => {},
            TagCategory::Requires => r.append("?"),
            TagCategory::Satisfies => r.append("="),
        }
        r.append(self.name.as_str());
        assert(r@ =~= tag_text(self.deep_view()));
        r
    }
}

impl Heading {
    /// The line that writes this heading.
    pub fn to_line(&self) -> (r: String)
        ensures
            r@ == heading_line(self.deep_view()),
    {
        let mut r = String::new();
        let mut i: usize = 0;
        while i < self.rank
            invariant
                i <= self.rank,
                r@ =~= Seq::new(i as nat, |k: int| '#'),
            decreases self.rank - i,
        {
            proof {
                reveal_strlit("#");
            }
            r.append("#");
            i = i + 1;
        }
        proof {
            reveal_strlit(" ");
            reveal_strlit(" [");
        }
        r.append(" ");
        r.append(self.text.as_str());
        let ghost head = r@;
        let tags = &self.tags;
        if tags.len() > 0 {
            r.append(" [");
            let mut j: usize = 0;
            let ghost all = tags.deep_view();
            while j < tags.len()
                invariant
                    j <= tags@.len(),
                    all == tags.deep_view(),
                    all.len() > 0,
                    r@ == head + seq![' ', '['] + tag_list_text(all.subrange(0, j as int)),
                decreases tags@.len() - j,
            {
                proof {
                    reveal_strlit(",");
                }
                let ghost before = r@;
                if j > 0 {
                    r.append(",");
                }
                let t = tags[j].to_text();
                r.append(t.as_str());
                proof {
                    let pre = all.subrange(0, j + 1);
                    assert(pre.drop_last() =~= all.subrange(0, j as int));
                    if j == 0 {
                        assert(tag_list_text(all.subrange(0, 0)) =~= Seq::<char>::empty());
                        assert(r@ =~= head + seq![' ', '['] + tag_list_text(pre));
                    } else {
                        assert(pre.last() == all[j as int]);
                        assert(r@ =~= before + seq![','] + tag_text(all[j as int]));
                        assert(r@ =~= head + seq![' ', '['] + tag_list_text(pre));
                    }
                }
                j = j + 1;
            }
            proof {
                reveal_strlit("]");
            }
            r.append("]");
            assert(all.subrange(0, tags@.len() as int) =~= all);
        }
        assert(r@ =~= heading_line(self.deep_view()));
        r
    }
}

/// A heading with the paragraphs under it and the sections one rank deeper.
#[derive(PartialEq, Debug)]
pub struct Section {
    pub heading: Heading,
    pub body: Vec<Paragraph>,
    pub subsections: Vec<Section>,
}

pub struct SectionView {
    pub heading: HeadingView,
    pub body: Seq<ParagraphView>,
    pub subsections: Seq<SectionView>,
}

impl DeepView for Section {
    type V = SectionView;

    open spec fn deep_view(&self) -> SectionView {
        section_view(self)
    }
}

/// What a section denotes, subsections included.
pub open spec fn section_view(s: &Section) -> SectionView
    decreases s,
{
    SectionView {
        heading: s.heading.deep_view(),
        body: s.body.deep_view(),
        subsections: Seq::new(
            s.subsections.len() as nat,
            |i: int|
                if 0 <= i < s.subsections.len() {
                    section_view(&s.subsections[i])
                } else {
                    empty_section()
                },
        ),
    }
}

/// The subsections of a section denote what its list of subsections denotes.
pub broadcast proof fn lemma_section_subsections(s: Section)
    ensures
        #[trigger] s.deep_view().subsections == s.subsections.deep_view(),
{
    let a = s.deep_view().subsections;
    let b = s.subsections.deep_view();
    assert(a.len() == s.subsections@.len());
    assert(b.len() == s.subsections@.len());
    assert forall|i: int| 0 <= i < a.len() implies a[i] == b[i] by {
        assert(a[i] == s.subsections@[i].deep_view());
    }
    assert(a =~= b);
}

/// Extending a list of tags by one extends its tags of a category by that tag
/// exactly when the tag falls under the category.
pub proof fn lemma_tags_in_step(s: Seq<TagView>, i: int, category: TagCategory)
    requires
        0 <= i < s.len(),
    ensures
        tags_in(s.subrange(0, i + 1), category) == if s[i].category == category {
            tags_in(s.subrange(0, i), category).push(s[i])
        } else {
            tags_in(s.subrange(0, i), category)
        },
{
    reveal(Seq::filter);
    assert(s.subrange(0, i + 1).drop_last() =~= s.subrange(0, i));
}

/// Copies a list of paragraphs, keeping what each denotes.
pub fn clone_paragraphs(v: &Vec<Paragraph>) -> (r: Vec<Paragraph>)
    ensures
        r.deep_view() == v.deep_view(),
{
    let mut r: Vec<Paragraph> = Vec::new();
    let mut i: usize = 0;
    while i < v.len()
        invariant
            i <= v.len(),
            r@.len() == i,
            forall|j: int| 0 <= j < i ==> #[trigger] r@[j].deep_view() == v@[j].deep_view(),
        decreases v.len() - i,
    {
        r.push(v[i].clone());
        i = i + 1;
    }
    assert(r.deep_view() =~= v.deep_view());
    r
}

impl Clone for Section {
    fn clone(&self) -> (r: Section)
        ensures
            r.deep_view() == self.deep_view(),
        decreases self,
    {
        let mut subs: Vec<Section> = Vec::new();
        let mut i: usize = 0;
        while i < self.subsections.len()
            invariant
                i <= self.subsections.len(),
                subs@.len() == i,
                forall|j: int|
                    0 <= j < i ==> #[trigger] subs@[j].deep_view() == self.subsections@[j].deep_view(),
            decreases self.subsections.len() - i,
        {
            proof {
                vstd::std_specs::vec::axiom_vec_index_decreases(self.subsections, i as int);
            }
            subs.push(self.subsections[i].clone());
            i = i + 1;
        }
        let r = Section {
            heading: self.heading.clone(),
            body: clone_paragraphs(&self.body),
            subsections: subs,
        };
        proof {
            lemma_section_subsections(r);
            lemma_section_subsections(*self);
            assert(subs.deep_view() =~= self.subsections.deep_view());
        }
        r
    }
}

impl Default for Section {
    fn default() -> (r: Section)
        ensures
            r.deep_view() == empty_section(),
    {
        let r = Section::new_root(Vec::new());
        assert(r.deep_view().subsections =~= Seq::<SectionView>::empty());
        r
    }
}

/// A section with no heading, no body and no subsections.
pub open spec fn empty_section() -> SectionView {
    SectionView { heading: empty_heading(), body: Seq::empty(), subsections: Seq::empty() }
}

/// The tags of a list that fall under one category, in their order.
pub open spec fn tags_in(tags: Seq<TagView>, category: TagCategory) -> Seq<TagView> {
    tags.filter(|t: TagView| t.category == category)
}

/// The name of the file that a tag's page is written to.
pub open spec fn tag_file_name(t: TagView) -> Seq<char> {
    let prefix = match t.category {
        TagCategory::Simple => "tag_"@,
        _ => "req_"@,
    };
    prefix + t.name + ".html"@
}

impl Tag {
    pub fn file_name(&self) -> (r: String)
        ensures
            r@ == tag_file_name(self.deep_view()),
    {
        let prefix = match self.category {
            TagCategory::Simple => String::from_str("tag_"),
            TagCategory::Requires => String::from_str("req_"),
            TagCategory::Satisfies => String::from_str("req_"),
        };
        prefix.concat(self.name.as_str()).concat(".html")
    }
}

impl Section {
    /// The tags of this section's heading that fall under `category`.
    pub fn find_tags(&self, category: TagCategory) -> (r: Vec<&Tag>)
        ensures
            r.deep_view() == tags_in(self.heading.tags.deep_view(), category),
    {
        let tags = &self.heading.tags;
        let ghost all = tags.deep_view();
        let mut r: Vec<&Tag> = Vec::new();
        let mut i: usize = 0;
        while i < tags.len()
            invariant
                i <= tags.len(),
                all == tags.deep_view(),
                r.deep_view() == tags_in(all.subrange(0, i as int), category),
            decreases tags.len() - i,
        {
            let t = &tags[i];
            proof {
                lemma_tags_in_step(all, i as int, category);
            }
            let ghost before = r.deep_view();
            if t.category == category {
                r.push(t);
                assert(r.deep_view() =~= before.push(all[i as int]));
            }
            i = i + 1;
        }
        assert(all.subrange(0, tags.len() as int) =~= all);
        r
    }

    /// A synthetic section with no heading and no body, holding `subsections`.
    pub fn new_root(subsections: Vec<Section>) -> (r: Section)
        ensures
            r.deep_view().heading == empty_heading(),
            r.deep_view().body == Seq::<ParagraphView>::empty(),
            r.subsections@ == subsections@,
            r.deep_view().subsections == subsections.deep_view(),
    {
        let r = Section { heading: Heading { rank: 0, tags: Vec::new(), text: String::new() }, body: Vec::new(), subsections };
        assert(r.deep_view().heading.tags =~= Seq::<TagView>::empty());
        assert(r.deep_view().body =~= Seq::<ParagraphView>::empty());
        assert(r.deep_view().subsections =~= subsections.deep_view());
        r
    }

    /// The text of this section's heading.
    pub fn title(&self) -> (r: String)
        ensures
            r@ == self.heading.text@,
    {
        self.heading.text.clone()
    }
}


/// One parsed document: its name and a synthetic root section whose
/// subsections are the document's rank-one sections.
#[derive(PartialEq, Debug)]
pub struct Blueprint {
    pub name: String,
    pub root: Section,
}

pub struct BlueprintView {
    pub name: Seq<char>,
    pub root: SectionView,
}

impl DeepView for Blueprint {
    type V = BlueprintView;

    open spec fn deep_view(&self) -> BlueprintView {
        BlueprintView { name: self.name@, root: self.root.deep_view() }
    }
}

impl Clone for Blueprint {
    fn clone(&self) -> (r: Blueprint)
        ensures
            r.deep_view() == self.deep_view(),
    {
        Blueprint { name: self.name.clone(), root: self.root.clone() }
    }
}

/// The title of a document: the text of its first top-level heading, if any.
pub open spec fn blueprint_title(b: BlueprintView) -> Option<Seq<char>> {
    if b.root.subsections.len() > 0 {
        Some(b.root.subsections[0].heading.text)
    } else {
        None
    }
}

impl Blueprint {
    /// Parses the text of the document named `name`.
    pub fn parse(name: &str, input: &str) -> (r: Result<Blueprint, ParseError>)
        ensures
            result_view(r) == document_view(name@, spec_document(input@)),
    {
        crate::parse::blueprint(input, name)
    }

    pub fn title(&self) -> (r: Option<String>)
        ensures
            r matches Some(t) ==> blueprint_title(self.deep_view()) == Some(t@),
            r is None ==> blueprint_title(self.deep_view()) is None,
    {
        proof {
            lemma_section_subsections(self.root);
        }
        if self.root.subsections.len() > 0 {
            Some(self.root.subsections[0].title())
        } else {
            None
        }
    }
}

} // verus!
