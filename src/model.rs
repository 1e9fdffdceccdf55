//! The views built over a corpus: the requirement index and the pages
//! regrouped by ownership.
use vstd::prelude::*;
use crate::markup::{
    TagCategory, Tag, Section, Blueprint, TagView, SectionView, BlueprintView, empty_heading,
    tags_in, clone_tags, lemma_tags_in_step, lemma_section_subsections,
};

verus! {

/// A named requirement: the section that states it and the tags on the same
/// heading that claim to satisfy something.
pub struct Requirement {
    pub name: String,
    pub content: Section,
    pub satisfies: Vec<Tag>,
}

pub struct RequirementView {
    pub name: Seq<char>,
    pub content: SectionView,
    pub satisfies: Seq<TagView>,
}

impl DeepView for Requirement {
    type V = RequirementView;

    open spec fn deep_view(&self) -> RequirementView {
        RequirementView {
            name: self.name@,
            content: self.content.deep_view(),
            satisfies: self.satisfies.deep_view(),
        }
    }
}

impl Clone for Requirement {
    fn clone(&self) -> (r: Requirement)
        ensures
            r.deep_view() == self.deep_view(),
    {
        Requirement {
            name: self.name.clone(),
            content: self.content.clone(),
            satisfies: clone_tags(&self.satisfies),
        }
    }
}

/// The requirement that a `Requires` tag registers for the section `s`.
pub open spec fn requirement_for(t: TagView, s: SectionView) -> RequirementView {
    RequirementView {
        name: t.name,
        content: s,
        satisfies: tags_in(s.heading.tags, TagCategory::Satisfies),
    }
}

/// The requirements that a section registers, one per `Requires` tag of its
/// heading, in the order of the tags.
pub open spec fn own_requirements(s: SectionView) -> Seq<RequirementView> {
    tags_in(s.heading.tags, TagCategory::Requires).map_values(|t: TagView| requirement_for(t, s))
}

/// Sections in document order: each section, then its subsections.
pub open spec fn preorder(secs: Seq<SectionView>) -> Seq<SectionView>
    decreases secs,
{
    if secs.len() == 0 {
        Seq::empty()
    } else {
        preorder(secs.drop_last()) + seq![secs.last()] + preorder(secs.last().subsections)
    }
}

/// The requirements that a sequence of sections registers, in order.
pub open spec fn registrations(visited: Seq<SectionView>) -> Seq<RequirementView>
    decreases visited.len(),
{
    if visited.len() == 0 {
        Seq::empty()
    } else {
        registrations(visited.drop_last()) + own_requirements(visited.last())
    }
}

/// The requirement index and the entries that later ones replaced.
pub struct IndexView {
    pub entries: Seq<RequirementView>,
    pub replaced: Seq<RequirementView>,
}

/// The position of the entry named `name`, if there is one.
pub open spec fn find_named(entries: Seq<RequirementView>, name: Seq<char>) -> Option<int>
    decreases entries.len(),
{
    if entries.len() == 0 {
        None
    } else if entries.last().name == name {
        Some(entries.len() - 1)
    } else {
        find_named(entries.drop_last(), name)
    }
}

/// Registers one requirement: it replaces the entry of the same name, which
/// is recorded as replaced, or it is added at the end.
pub open spec fn register(st: IndexView, r: RequirementView) -> IndexView {
    match find_named(st.entries, r.name) {
        Some(k) => IndexView { entries: st.entries.update(k, r), replaced: st.replaced.push(st.entries[k]) },
        None => IndexView { entries: st.entries.push(r), replaced: st.replaced },
    }
}

/// Registers requirements one after the other.
pub open spec fn register_all(st: IndexView, regs: Seq<RequirementView>) -> IndexView
    decreases regs.len(),
{
    if regs.len() == 0 {
        st
    } else {
        register(register_all(st, regs.drop_last()), regs.last())
    }
}

pub open spec fn empty_index() -> IndexView {
    IndexView { entries: Seq::empty(), replaced: Seq::empty() }
}

/// Registering two lists is registering the first, then the second.
pub proof fn lemma_register_all_append(st: IndexView, a: Seq<RequirementView>, b: Seq<RequirementView>)
    ensures
        register_all(st, a + b) == register_all(register_all(st, a), b),
    decreases b.len(),
{
    if b.len() == 0 {
        assert(a + b =~= a);
    } else {
        lemma_register_all_append(st, a, b.drop_last());
        assert((a + b).drop_last() =~= a + b.drop_last());
    }
}

/// The registrations of two lists of sections are those of the first, then
/// those of the second.
pub proof fn lemma_registrations_append(a: Seq<SectionView>, b: Seq<SectionView>)
    ensures
        registrations(a + b) == registrations(a) + registrations(b),
    decreases b.len(),
{
    if b.len() == 0 {
        assert(a + b =~= a);
        assert(registrations(a) + Seq::<RequirementView>::empty() =~= registrations(a));
    } else {
        lemma_registrations_append(a, b.drop_last());
        assert((a + b).drop_last() =~= a + b.drop_last());
        assert(registrations(a) + registrations(b.drop_last()) + own_requirements(b.last())
            =~= registrations(a) + (registrations(b.drop_last()) + own_requirements(b.last())));
    }
}


pub open spec fn index_view(entries: &Vec<Requirement>, replaced: &Vec<Requirement>) -> IndexView {
    IndexView { entries: entries.deep_view(), replaced: replaced.deep_view() }
}

fn find_named_in(entries: &Vec<Requirement>, name: &String) -> (r: Option<usize>)
    ensures
        r matches Some(k) ==> find_named(entries.deep_view(), name@) == Some(k as int) && k < entries@.len(),
        r is None ==> find_named(entries.deep_view(), name@) is None,
{
    let ghost all = entries.deep_view();
    let mut k = entries.len();
    assert(all.subrange(0, k as int) =~= all);
    while k > 0
        invariant
            k <= entries@.len(),
            all == entries.deep_view(),
            find_named(all, name@) == find_named(all.subrange(0, k as int), name@),
        decreases k,
    {
        let ghost pre = all.subrange(0, k as int);
        assert(pre.drop_last() =~= all.subrange(0, k - 1));
        if entries[k - 1].name == *name {
            return Some(k - 1);
        }
        k = k - 1;
    }
    None
}

/// Registers one requirement in the index held by `entries` and `replaced`.
fn register_one(entries: &mut Vec<Requirement>, replaced: &mut Vec<Requirement>, r: Requirement)
    ensures
        index_view(final(entries), final(replaced)) == register(index_view(old(entries), old(replaced)), r.deep_view()),
{
    let ghost rv = r.deep_view();
    let ghost e0 = entries.deep_view();
    let ghost d0 = replaced.deep_view();
    match find_named_in(entries, &r.name) {
        Some(k) => {
            let previous = entries[k].clone();
            entries[k] = r;
            replaced.push(previous);
            assert(entries.deep_view() =~= e0.update(k as int, rv));
            assert(replaced.deep_view() =~= d0.push(e0[k as int]));
        },
        None => {
            entries.push(r);
            assert(entries.deep_view() =~= e0.push(rv));
        },
    }
}

fn clone_tag_refs(v: &Vec<&Tag>) -> (r: Vec<Tag>)
    ensures
        r.deep_view() == v.deep_view(),
{
    let mut r: Vec<Tag> = Vec::new();
    let mut i: usize = 0;
    while i < v.len()
        invariant
            i <= v.len(),
            r@.len() == i,
            forall|j: int| 0 <= j < i ==> #[trigger] r@[j].deep_view() == v@[j].deep_view(),
        decreases v.len() - i,
    {
        r.push(v[i].clone());
        i = i + 1;
    }
    assert(r.deep_view() =~= v.deep_view());
    r
}

/// Registers the requirements of one section, one per `Requires` tag.
fn register_section(entries: &mut Vec<Requirement>, replaced: &mut Vec<Requirement>, sec: &Section)
    ensures
        index_view(final(entries), final(replaced))
            == register_all(index_view(old(entries), old(replaced)), own_requirements(sec.deep_view())),
{
    let ghost st0 = index_view(entries, replaced);
    let ghost sv = sec.deep_view();
    let ghost all = sv.heading.tags;
    let tags = &sec.heading.tags;
    let mut i: usize = 0;
    assert(tags_in(all.subrange(0, 0), TagCategory::Requires).map_values(|t: TagView| requirement_for(t, sv)) =~= Seq::empty()) by {
        reveal(Seq::filter);
    }
    while i < tags.len()
        invariant
            i <= tags@.len(),
            sv == sec.deep_view(),
            all == sv.heading.tags,
            all == tags.deep_view(),
            index_view(entries, replaced) == register_all(
                st0,
                tags_in(all.subrange(0, i as int), TagCategory::Requires).map_values(|t: TagView| requirement_for(t, sv)),
            ),
        decreases tags@.len() - i,
    {
        let ghost before = tags_in(all.subrange(0, i as int), TagCategory::Requires);
        proof {
            lemma_tags_in_step(all, i as int, TagCategory::Requires);
        }
        let t = &tags[i];
        if t.category == TagCategory::Requires {
            let satisfies = clone_tag_refs(&sec.find_tags(TagCategory::Satisfies));
            let r = Requirement { name: t.name.clone(), content: sec.clone(), satisfies };
            assert(r.deep_view() == requirement_for(all[i as int], sv));
            let ghost regs = before.map_values(|t: TagView| requirement_for(t, sv));
            register_one(entries, replaced, r);
            assert(before.push(all[i as int]).map_values(|t: TagView| requirement_for(t, sv))
                =~= regs.push(requirement_for(all[i as int], sv)));
            assert(regs.push(requirement_for(all[i as int], sv)).drop_last() =~= regs);
        }
        i = i + 1;
    }
    assert(all.subrange(0, tags@.len() as int) =~= all);
}

/// The sections of a list and all their subsections, in document order.
pub proof fn lemma_preorder_step(secs: Seq<SectionView>, i: int)
    requires
        0 <= i < secs.len(),
    ensures
        preorder(secs.subrange(0, i + 1)) == preorder(secs.subrange(0, i)) + seq![secs[i]] + preorder(secs[i].subsections),
{
    assert(secs.subrange(0, i + 1).drop_last() =~= secs.subrange(0, i));
}

/// Registers the requirements of a list of sections and of all their
/// subsections, in document order.
fn register_sections(entries: &mut Vec<Requirement>, replaced: &mut Vec<Requirement>, secs: &Vec<Section>)
    ensures
        index_view(final(entries), final(replaced))
            == register_all(index_view(old(entries), old(replaced)), registrations(preorder(secs.deep_view()))),
    decreases secs,
{
    let ghost st0 = index_view(entries, replaced);
    let ghost all = secs.deep_view();
    let mut i: usize = 0;
    assert(all.subrange(0, 0) =~= Seq::empty());
    while i < secs.len()
        invariant
            i <= secs@.len(),
            all == secs.deep_view(),
            index_view(entries, replaced) == register_all(st0, registrations(preorder(all.subrange(0, i as int)))),
        decreases secs@.len() - i,
    {
        let sec = &secs[i];
        proof {
            vstd::std_specs::vec::axiom_vec_index_decreases(*secs, i as int);
            lemma_section_subsections(*sec);
            lemma_preorder_step(all, i as int);
        }
        let ghost p = preorder(all.subrange(0, i as int));
        let ghost x = all[i as int];
        let ghost st1 = index_view(entries, replaced);
        register_section(entries, replaced, sec);
        let ghost st2 = index_view(entries, replaced);
        register_sections(entries, replaced, &sec.subsections);
        proof {
            let c = preorder(x.subsections);
            assert(registrations(seq![x]) =~= own_requirements(x)) by {
                assert(seq![x].drop_last() =~= Seq::<SectionView>::empty());
                assert(registrations(Seq::<SectionView>::empty()) =~= Seq::empty());
                assert(Seq::<RequirementView>::empty() + own_requirements(x) =~= own_requirements(x));
            }
            lemma_registrations_append(p + seq![x], c);
            lemma_registrations_append(p, seq![x]);
            lemma_register_all_append(st0, registrations(p) + own_requirements(x), registrations(c));
            lemma_register_all_append(st0, registrations(p), own_requirements(x));
        }
        i = i + 1;
    }
    assert(all.subrange(0, secs@.len() as int) =~= all);
}


// The order in which documents are visited.

/// Lexicographic order on names, character by character.
pub open spec fn name_less(a: Seq<char>, b: Seq<char>) -> bool
    decreases a.len(),
{
    if b.len() == 0 {
        false
    } else if a.len() == 0 {
        true
    } else if a[0] != b[0] {
        (a[0] as u32) < (b[0] as u32)
    } else {
        name_less(a.drop_first(), b.drop_first())
    }
}

/// Inserts a document into a list sorted by name, after every document whose
/// name is not greater.
pub open spec fn insert_by_name(sorted: Seq<BlueprintView>, b: BlueprintView) -> Seq<BlueprintView>
    decreases sorted.len(),
{
    if sorted.len() > 0 && name_less(b.name, sorted.last().name) {
        insert_by_name(sorted.drop_last(), b).push(sorted.last())
    } else {
        sorted.push(b)
    }
}

/// Documents sorted by name; documents of equal names keep their order.
pub open spec fn sort_by_name(docs: Seq<BlueprintView>) -> Seq<BlueprintView>
    decreases docs.len(),
{
    if docs.len() == 0 {
        Seq::empty()
    } else {
        insert_by_name(sort_by_name(docs.drop_last()), docs.last())
    }
}

fn name_less_exec(a: &String, b: &String) -> (r: bool)
    ensures
        r == name_less(a@, b@),
{
    let x = crate::parse::Source::new(a.as_str()).chars;
    let y = crate::parse::Source::new(b.as_str()).chars;
    let mut i: usize = 0;
    assert(a@.subrange(0, a@.len() as int) =~= a@);
    assert(b@.subrange(0, b@.len() as int) =~= b@);
    while i < x.len() && i < y.len() && x[i] == y[i]
        invariant
            i <= x@.len(),
            i <= y@.len(),
            x@ == a@,
            y@ == b@,
            name_less(a@, b@) == name_less(a@.subrange(i as int, a@.len() as int), b@.subrange(i as int, b@.len() as int)),
        decreases x@.len() - i,
    {
        proof {
            let xs = a@.subrange(i as int, a@.len() as int);
            let ys = b@.subrange(i as int, b@.len() as int);
            assert(xs.drop_first() =~= a@.subrange(i + 1, a@.len() as int));
            assert(ys.drop_first() =~= b@.subrange(i + 1, b@.len() as int));
        }
        i = i + 1;
    }
    let ghost xs = a@.subrange(i as int, a@.len() as int);
    let ghost ys = b@.subrange(i as int, b@.len() as int);
    if i == y.len() {
        false
    } else if i == x.len() {
        true
    } else {
        assert(xs[0] == x@[i as int] && ys[0] == y@[i as int]);
        (x[i] as u32) < (y[i] as u32)
    }
}

fn insert_sorted(sorted: &mut Vec<Blueprint>, b: Blueprint)
    ensures
        final(sorted).deep_view() == insert_by_name(old(sorted).deep_view(), b.deep_view()),
{
    let ghost all = sorted.deep_view();
    let ghost bv = b.deep_view();
    let mut j = sorted.len();
    assert(all.subrange(0, j as int) =~= all);
    assert(all.subrange(j as int, all.len() as int) =~= Seq::<BlueprintView>::empty());
    assert(insert_by_name(all, bv) =~= insert_by_name(all.subrange(0, j as int), bv) + all.subrange(j as int, all.len() as int));
    while j > 0 && name_less_exec(&b.name, &sorted[j - 1].name)
        invariant
            j <= sorted@.len(),
            all == sorted.deep_view(),
            bv == b.deep_view(),
            insert_by_name(all, bv) == insert_by_name(all.subrange(0, j as int), bv) + all.subrange(j as int, all.len() as int),
        decreases j,
    {
        proof {
            let pre = all.subrange(0, j as int);
            assert(pre.drop_last() =~= all.subrange(0, j - 1));
            assert(insert_by_name(pre.drop_last(), bv).push(pre.last()) + all.subrange(j as int, all.len() as int)
                =~= insert_by_name(all.subrange(0, j - 1), bv) + all.subrange(j - 1, all.len() as int));
        }
        j = j - 1;
    }
    sorted.insert(j, b);
    proof {
        let pre = all.subrange(0, j as int);
        assert(insert_by_name(pre, bv) == pre.push(bv));
        assert(sorted.deep_view() =~= pre.push(bv) + all.subrange(j as int, all.len() as int));
    }
}

/// Sorts documents by name, keeping the order of documents of equal names.
pub fn sort_documents(input: Vec<Blueprint>) -> (r: Vec<Blueprint>)
    ensures
        r.deep_view() == sort_by_name(input.deep_view()),
{
    let ghost all = input.deep_view();
    let mut rest = input;
    let mut sorted: Vec<Blueprint> = Vec::new();
    let ghost mut n: int = 0;
    assert(all.subrange(0, 0) =~= Seq::<BlueprintView>::empty());
    assert(all.subrange(0, all.len() as int) =~= all);
    assert(sorted.deep_view() =~= Seq::<BlueprintView>::empty());
    while rest.len() > 0
        invariant
            0 <= n <= all.len(),
            rest.deep_view() == all.subrange(n, all.len() as int),
            sorted.deep_view() == sort_by_name(all.subrange(0, n)),
        decreases rest@.len(),
    {
        let ghost rv = rest.deep_view();
        let ghost r0 = rest@;
        assert(rv.len() == r0.len());
        assert(rv[0] == r0[0].deep_view());
        assert(rv[0] == all[n]);
        let b = rest.remove(0);
        assert(b.deep_view() == all[n]);
        assert forall|k: int| 0 <= k < rest@.len() implies #[trigger] rest.deep_view()[k] == all[n + 1 + k] by {
            assert(rest@[k] == r0[k + 1]);
            assert(rv[k + 1] == r0[k + 1].deep_view());
        }
        assert(rest.deep_view() =~= all.subrange(n + 1, all.len() as int));
        insert_sorted(&mut sorted, b);
        assert(all.subrange(0, n + 1).drop_last() =~= all.subrange(0, n));
        proof {
            n = n + 1;
        }
    }
    assert(all.subrange(0, n) =~= all);
    sorted
}


// Pages regrouped by ownership.

/// A simple tag whose name starts with `@` names the page that owns its section.
pub open spec fn is_owner_tag(t: TagView) -> bool {
    t.category == TagCategory::Simple && t.name.len() > 0 && t.name[0] == '@'
}

/// The position of the last ownership tag of a list.
pub open spec fn last_owner_tag(tags: Seq<TagView>) -> Option<int>
    decreases tags.len(),
{
    if tags.len() == 0 {
        None
    } else if is_owner_tag(tags.last()) {
        Some(tags.len() - 1)
    } else {
        last_owner_tag(tags.drop_last())
    }
}

/// The page that a section goes to: the one its last ownership tag names, or
/// the page of sections that nobody owns.
pub open spec fn owner(s: SectionView) -> Seq<char> {
    match last_owner_tag(s.heading.tags) {
        Some(k) => s.heading.tags[k].name.drop_first(),
        None => "_free_"@,
    }
}

/// A page named `name` holding `secs`.
pub open spec fn page_of(name: Seq<char>, secs: Seq<SectionView>) -> BlueprintView {
    BlueprintView {
        name,
        root: SectionView { heading: empty_heading(), body: Seq::empty(), subsections: secs },
    }
}

/// The position of the page named `name`, if there is one.
pub open spec fn find_page(pages: Seq<BlueprintView>, name: Seq<char>) -> Option<int>
    decreases pages.len(),
{
    if pages.len() == 0 {
        None
    } else if pages.last().name == name {
        Some(pages.len() - 1)
    } else {
        find_page(pages.drop_last(), name)
    }
}

/// Adds a section at the end of its owner's page, opening the page if needed.
pub open spec fn assign(pages: Seq<BlueprintView>, s: SectionView) -> Seq<BlueprintView> {
    match find_page(pages, owner(s)) {
        Some(k) => pages.update(k, page_of(pages[k].name, pages[k].root.subsections.push(s))),
        None => pages.push(page_of(owner(s), seq![s])),
    }
}

pub open spec fn assign_all(pages: Seq<BlueprintView>, secs: Seq<SectionView>) -> Seq<BlueprintView>
    decreases secs.len(),
{
    if secs.len() == 0 {
        pages
    } else {
        assign(assign_all(pages, secs.drop_last()), secs.last())
    }
}

/// The top-level sections of a list of documents, in order.
pub open spec fn top_sections(docs: Seq<BlueprintView>) -> Seq<SectionView>
    decreases docs.len(),
{
    if docs.len() == 0 {
        Seq::empty()
    } else {
        top_sections(docs.drop_last()) + docs.last().root.subsections
    }
}

/// Every section of a list of documents, in document order.
pub open spec fn corpus_sections(docs: Seq<BlueprintView>) -> Seq<SectionView>
    decreases docs.len(),
{
    if docs.len() == 0 {
        Seq::empty()
    } else {
        corpus_sections(docs.drop_last()) + preorder(docs.last().root.subsections)
    }
}

/// The name of the page that owns `sec`.
pub fn owner_of(sec: &Section) -> (r: String)
    ensures
        r@ == owner(sec.deep_view()),
{
    let tags = &sec.heading.tags;
    let ghost all = tags.deep_view();
    let mut k = tags.len();
    assert(all.subrange(0, k as int) =~= all);
    while k > 0
        invariant
            k <= tags@.len(),
            all == tags.deep_view(),
            all == sec.deep_view().heading.tags,
            last_owner_tag(all) == last_owner_tag(all.subrange(0, k as int)),
        decreases k,
    {
        let ghost pre = all.subrange(0, k as int);
        assert(pre.drop_last() =~= all.subrange(0, k - 1));
        let t = &tags[k - 1];
        if t.category == TagCategory::Simple {
            let n = t.name.as_str().unicode_len();
            if n > 0 && t.name.as_str().get_char(0) == '@' {
                let rest = t.name.as_str().substring_char(1, n);
                assert(rest@ =~= all[k - 1].name.drop_first());
                return String::from_str(rest);
            }
        }
        k = k - 1;
    }
    String::from_str("_free_")
}

fn find_page_in(pages: &Vec<Blueprint>, name: &String) -> (r: Option<usize>)
    ensures
        r matches Some(k) ==> find_page(pages.deep_view(), name@) == Some(k as int) && k < pages@.len(),
        r is None ==> find_page(pages.deep_view(), name@) is None,
{
    let ghost all = pages.deep_view();
    let mut k = pages.len();
    assert(all.subrange(0, k as int) =~= all);
    while k > 0
        invariant
            k <= pages@.len(),
            all == pages.deep_view(),
            find_page(all, name@) == find_page(all.subrange(0, k as int), name@),
        decreases k,
    {
        let ghost pre = all.subrange(0, k as int);
        assert(pre.drop_last() =~= all.subrange(0, k - 1));
        if pages[k - 1].name == *name {
            return Some(k - 1);
        }
        k = k - 1;
    }
    None
}

/// Adds a copy of `sec` to the page that owns it.
fn assign_section(pages: &mut Vec<Blueprint>, sec: &Section)
    ensures
        final(pages).deep_view() == assign(old(pages).deep_view(), sec.deep_view()),
{
    let ghost p0 = pages.deep_view();
    let ghost sv = sec.deep_view();
    let name = owner_of(sec);
    match find_page_in(pages, &name) {
        Some(k) => {
            let mut page = pages.remove(k);
            let ghost old_subs = page.root.subsections.deep_view();
            proof {
                lemma_section_subsections(page.root);
            }
            page.root.subsections.push(sec.clone());
            proof {
                lemma_section_subsections(page.root);
                assert(page.root.subsections.deep_view() =~= old_subs.push(sv));
            }
            let root = Section::new_root(page.root.subsections);
            let page = Blueprint { name: page.name, root };
            assert(page.deep_view() == page_of(p0[k as int].name, p0[k as int].root.subsections.push(sv)));
            pages.insert(k, page);
            assert(pages.deep_view() =~= p0.update(k as int, page_of(p0[k as int].name, p0[k as int].root.subsections.push(sv))));
        },
        None => {
            let root = Section::new_root(vec![sec.clone()]);
            let page = Blueprint { name, root };
            assert(page.deep_view().root.subsections =~= seq![sv]);
            pages.push(page);
            assert(pages.deep_view() =~= p0.push(page_of(owner(sv), seq![sv])));
        },
    }
}


/// The views built over a corpus of documents.
pub struct Model {
    /// The pages, one per owner, in the order in which owners first appear.
    pub pages: Vec<Blueprint>,
    /// The requirement index, one entry per name.
    pub requirements: Vec<Requirement>,
    /// The entries that a later requirement of the same name replaced.
    pub duplicates: Vec<Requirement>,
}

impl Model {
    /// Builds the pages and the requirement index of a corpus. Documents are
    /// visited in order of their names; within a document, each section comes
    /// before its subsections.
    pub fn new(input: Vec<Blueprint>) -> (m: Model)
        ensures
            m.pages.deep_view() == assign_all(Seq::empty(), top_sections(sort_by_name(input.deep_view()))),
            index_view(&m.requirements, &m.duplicates)
                == register_all(empty_index(), registrations(corpus_sections(sort_by_name(input.deep_view())))),
    {
        let docs = sort_documents(input);
        let ghost all = docs.deep_view();
        let mut pages: Vec<Blueprint> = Vec::new();
        let mut requirements: Vec<Requirement> = Vec::new();
        let mut duplicates: Vec<Requirement> = Vec::new();
        let mut d: usize = 0;
        assert(all.subrange(0, 0) =~= Seq::<BlueprintView>::empty());
        assert(pages.deep_view() =~= Seq::<BlueprintView>::empty());
        assert(index_view(&requirements, &duplicates) == empty_index()) by {
            assert(requirements.deep_view() =~= Seq::<RequirementView>::empty());
            assert(duplicates.deep_view() =~= Seq::<RequirementView>::empty());
        }
        assert(registrations(Seq::<SectionView>::empty()) =~= Seq::empty());
        while d < docs.len()
            invariant
                d <= docs@.len(),
                all == docs.deep_view(),
                pages.deep_view() == assign_all(Seq::empty(), top_sections(all.subrange(0, d as int))),
                index_view(&requirements, &duplicates)
                    == register_all(empty_index(), registrations(corpus_sections(all.subrange(0, d as int)))),
            decreases docs@.len() - d,
        {
            let doc = &docs[d];
            let secs = &doc.root.subsections;
            let ghost tops = top_sections(all.subrange(0, d as int));
            let ghost dv = all[d as int];
            proof {
                lemma_section_subsections(doc.root);
                assert(all.subrange(0, d + 1).drop_last() =~= all.subrange(0, d as int));
            }
            let ghost st0 = index_view(&requirements, &duplicates);
            register_sections(&mut requirements, &mut duplicates, secs);
            proof {
                lemma_registrations_append(corpus_sections(all.subrange(0, d as int)), preorder(dv.root.subsections));
                lemma_register_all_append(
                    empty_index(),
                    registrations(corpus_sections(all.subrange(0, d as int))),
                    registrations(preorder(dv.root.subsections)),
                );
            }
            let mut i: usize = 0;
            assert(tops + dv.root.subsections.subrange(0, 0) =~= tops);
            while i < secs.len()
                invariant
                    i <= secs@.len(),
                    secs.deep_view() == dv.root.subsections,
                    pages.deep_view() == assign_all(Seq::empty(), tops + dv.root.subsections.subrange(0, i as int)),
                decreases secs@.len() - i,
            {
                assign_section(&mut pages, &secs[i]);
                assert((tops + dv.root.subsections.subrange(0, i + 1)).drop_last()
                    =~= tops + dv.root.subsections.subrange(0, i as int));
                i = i + 1;
            }
            assert(dv.root.subsections.subrange(0, i as int) =~= dv.root.subsections);
            d = d + 1;
        }
        assert(all.subrange(0, d as int) =~= all);
        Model { pages, requirements, duplicates }
    }
}


// What the index and the pages hold.

/// `find_named` gives the last entry of that name, or none if no entry has it.
pub proof fn lemma_find_named(entries: Seq<RequirementView>, name: Seq<char>)
    ensures
        find_named(entries, name) matches Some(k) ==> 0 <= k < entries.len() && entries[k].name == name
            && forall|j: int| k < j < entries.len() ==> #[trigger] entries[j].name != name,
        find_named(entries, name) is None ==> forall|j: int| 0 <= j < entries.len() ==> #[trigger] entries[j].name != name,
    decreases entries.len(),
{
    if entries.len() > 0 {
        lemma_find_named(entries.drop_last(), name);
        assert forall|j: int| 0 <= j < entries.len() - 1 implies #[trigger] entries[j] == entries.drop_last()[j] by {}
    }
}

/// The requirement index keeps one entry per name: the last registration of
/// that name. Every registered name has its entry, and each registration
/// that found its name taken was recorded as a duplicate.
pub proof fn lemma_index_keeps_last(regs: Seq<RequirementView>)
    ensures
        ({
            let idx = register_all(empty_index(), regs);
            &&& forall|k: int| #![trigger idx.entries[k]] 0 <= k < idx.entries.len() ==> {
                &&& find_named(regs, idx.entries[k].name) is Some
                &&& idx.entries[k] == regs[find_named(regs, idx.entries[k].name)->0]
            }
            &&& forall|j: int| 0 <= j < regs.len() ==> find_named(idx.entries, #[trigger] regs[j].name) is Some
            &&& forall|k1: int, k2: int| 0 <= k1 < k2 < idx.entries.len() ==> #[trigger] idx.entries[k1].name != #[trigger] idx.entries[k2].name
            &&& idx.entries.len() + idx.replaced.len() == regs.len()
        }),
    decreases regs.len(),
{
    if regs.len() > 0 {
        let pre = regs.drop_last();
        let r = regs.last();
        lemma_index_keeps_last(pre);
        let st = register_all(empty_index(), pre);
        let idx = register_all(empty_index(), regs);
        lemma_find_named(st.entries, r.name);
        lemma_find_named(regs, r.name);
        assert(find_named(regs, r.name) == Some(regs.len() - 1));
        assert forall|k: int| #![trigger idx.entries[k]] 0 <= k < idx.entries.len() implies {
            &&& find_named(regs, idx.entries[k].name) is Some
            &&& idx.entries[k] == regs[find_named(regs, idx.entries[k].name)->0]
        } by {
            let e = idx.entries[k];
            if e.name != r.name {
                assert(find_named(regs, e.name) == find_named(pre, e.name));
                match find_named(st.entries, r.name) {
                    Some(m) => {
                        assert(k != m);
                        assert(e == st.entries[k]);
                    },
                    None => {
                        assert(k < st.entries.len());
                        assert(e == st.entries[k]);
                    },
                }
                lemma_find_named(pre, e.name);
                assert(regs[find_named(pre, e.name)->0] == pre[find_named(pre, e.name)->0]);
            }
        }
        assert forall|j: int| 0 <= j < regs.len() implies find_named(idx.entries, #[trigger] regs[j].name) is Some by {
            lemma_find_named(idx.entries, regs[j].name);
            if j < regs.len() - 1 {
                assert(regs[j] == pre[j]);
                lemma_find_named(st.entries, pre[j].name);
                let m = find_named(st.entries, pre[j].name)->0;
                assert(idx.entries[m].name == regs[j].name);
            } else {
                match find_named(st.entries, r.name) {
                    Some(m) => assert(idx.entries[m].name == r.name),
                    None => assert(idx.entries[st.entries.len() as int].name == r.name),
                }
            }
        }
        assert forall|k1: int, k2: int| 0 <= k1 < k2 < idx.entries.len() implies #[trigger] idx.entries[k1].name
            != #[trigger] idx.entries[k2].name by {
            match find_named(st.entries, r.name) {
                Some(m) => {
                    if k1 == m {
                        assert(idx.entries[k2] == st.entries[k2]);
                    } else if k2 == m {
                        assert(idx.entries[k1] == st.entries[k1]);
                    } else {
                        assert(idx.entries[k1] == st.entries[k1]);
                        assert(idx.entries[k2] == st.entries[k2]);
                    }
                },
                None => {
                    if k2 == st.entries.len() {
                        assert(idx.entries[k1] == st.entries[k1]);
                    } else {
                        assert(idx.entries[k1] == st.entries[k1]);
                        assert(idx.entries[k2] == st.entries[k2]);
                    }
                },
            }
        }
    }
}


/// `find_page` gives the last page of that name, or none if no page has it.
pub proof fn lemma_find_page(pages: Seq<BlueprintView>, name: Seq<char>)
    ensures
        find_page(pages, name) matches Some(k) ==> 0 <= k < pages.len() && pages[k].name == name,
        find_page(pages, name) is None ==> forall|j: int| 0 <= j < pages.len() ==> #[trigger] pages[j].name != name,
    decreases pages.len(),
{
    if pages.len() > 0 {
        lemma_find_page(pages.drop_last(), name);
        assert forall|j: int| 0 <= j < pages.len() - 1 implies #[trigger] pages[j] == pages.drop_last()[j] by {}
    }
}

/// The sections of a list that belong to the page named `name`, in order.
pub open spec fn owned_by(secs: Seq<SectionView>, name: Seq<char>) -> Seq<SectionView> {
    secs.filter(|s: SectionView| owner(s) == name)
}

/// No section of a list whose owners all differ from `name` belongs to it.
pub proof fn lemma_owned_by_none(secs: Seq<SectionView>, name: Seq<char>)
    requires
        forall|j: int| 0 <= j < secs.len() ==> owner(#[trigger] secs[j]) != name,
    ensures
        owned_by(secs, name).len() == 0,
    decreases secs.len(),
{
    reveal(Seq::filter);
    if secs.len() > 0 {
        assert forall|j: int| 0 <= j < secs.len() - 1 implies owner(#[trigger] secs.drop_last()[j]) != name by {
            assert(secs.drop_last()[j] == secs[j]);
        }
        lemma_owned_by_none(secs.drop_last(), name);
    }
}

/// Regrouping puts each section on the page of its owner and nowhere else:
/// there is one page per owner, and each page holds exactly the sections that
/// its owner owns, in their order.
pub proof fn lemma_pages_by_owner(secs: Seq<SectionView>)
    ensures
        ({
            let pages = assign_all(Seq::empty(), secs);
            &&& forall|k: int| #![trigger pages[k]] 0 <= k < pages.len() ==> pages[k] == page_of(pages[k].name, owned_by(secs, pages[k].name))
                && owned_by(secs, pages[k].name).len() > 0
            &&& forall|j: int| 0 <= j < secs.len() ==> find_page(pages, owner(#[trigger] secs[j])) is Some
            &&& forall|k1: int, k2: int| 0 <= k1 < k2 < pages.len() ==> #[trigger] pages[k1].name != #[trigger] pages[k2].name
        }),
    decreases secs.len(),
{
    reveal(Seq::filter);
    if secs.len() > 0 {
        let pre = secs.drop_last();
        let x = secs.last();
        lemma_pages_by_owner(pre);
        let ps = assign_all(Seq::empty(), pre);
        let pages = assign_all(Seq::empty(), secs);
        lemma_find_page(ps, owner(x));
        assert forall|k: int| #![trigger pages[k]] 0 <= k < pages.len() implies pages[k] == page_of(pages[k].name, owned_by(secs, pages[k].name))
            && owned_by(secs, pages[k].name).len() > 0 by {
            let n = pages[k].name;
            assert(secs.drop_last() == pre);
            assert(owned_by(secs, n) == if owner(x) == n { owned_by(pre, n).push(x) } else { owned_by(pre, n) });
            match find_page(ps, owner(x)) {
                Some(m) => {
                    if k == m {
                        assert(ps[m] == page_of(ps[m].name, owned_by(pre, ps[m].name)));
                    } else {
                        assert(pages[k] == ps[k]);
                        assert(ps[k].name != ps[m].name);
                    }
                },
                None => {
                    if k < ps.len() {
                        assert(pages[k] == ps[k]);
                    } else {
                        assert forall|j: int| 0 <= j < pre.len() implies owner(#[trigger] pre[j]) != n by {
                            lemma_find_page(ps, owner(pre[j]));
                            let m = find_page(ps, owner(pre[j]))->0;
                            assert(ps[m].name == owner(pre[j]));
                        }
                        lemma_owned_by_none(pre, n);
                        assert(owned_by(pre, n) =~= Seq::<SectionView>::empty());
                        assert(owned_by(pre, n).push(x) =~= seq![x]);
                    }
                },
            }
        }
        assert forall|j: int| 0 <= j < secs.len() implies find_page(pages, owner(#[trigger] secs[j])) is Some by {
            lemma_find_page(pages, owner(secs[j]));
            if j < secs.len() - 1 {
                assert(secs[j] == pre[j]);
                lemma_find_page(ps, owner(pre[j]));
                let m = find_page(ps, owner(pre[j]))->0;
                assert(pages[m].name == ps[m].name);
            } else {
                match find_page(ps, owner(x)) {
                    Some(m) => assert(pages[m].name == owner(x)),
                    None => assert(pages[ps.len() as int].name == owner(x)),
                }
            }
        }
        assert forall|k1: int, k2: int| 0 <= k1 < k2 < pages.len() implies #[trigger] pages[k1].name
            != #[trigger] pages[k2].name by {
            if k2 < ps.len() {
                assert(pages[k1].name == ps[k1].name);
                assert(pages[k2].name == ps[k2].name);
            } else {
                assert(pages[k1].name == ps[k1].name);
            }
        }
    }
}

} // verus!
