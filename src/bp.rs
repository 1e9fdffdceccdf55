//! A plain variant of the markup: untyped tags, bold spans only, and a flat
//! list of sections whose bodies run until the next heading.
use vstd::prelude::*;
use crate::grammar::{ParseError, ParseErrorKind, CharClass, run_end, whole_option};
use crate::parse::{Source, scan, result_view};

verus! {

#[derive(PartialEq, Debug)]
pub struct Tag {
    pub name: String,
}

impl DeepView for Tag {
    type V = Seq<char>;

    open spec fn deep_view(&self) -> Seq<char> {
        self.name@
    }
}

impl Clone for Tag {
    fn clone(&self) -> (r: Tag)
        ensures
            r.deep_view() == self.deep_view(),
    {
        Tag { name: self.name.clone() }
    }
}

impl Default for Tag {
    fn default() -> (r: Tag)
        ensures
            r.deep_view() == Seq::<char>::empty(),
    {
        Tag { name: String::new() }
    }
}

#[derive(Clone, Copy, PartialEq, Eq, Structural, Debug)]
pub enum SpanType {
    Raw,
    Bold,
}

#[derive(PartialEq, Debug)]
pub struct Span {
    pub category: SpanType,
    pub text: String,
}

pub struct SpanView {
    pub category: SpanType,
    pub text: Seq<char>,
}

impl DeepView for Span {
    type V = SpanView;

    open spec fn deep_view(&self) -> SpanView {
        SpanView { category: self.category, text: self.text@ }
    }
}

impl Clone for Span {
    fn clone(&self) -> (r: Span)
        ensures
            r.deep_view() == self.deep_view(),
    {
        Span { category: self.category, text: self.text.clone() }
    }
}

#[derive(PartialEq, Debug)]
pub struct Paragraph {
    pub spans: Vec<Span>,
}

impl DeepView for Paragraph {
    type V = Seq<SpanView>;

    open spec fn deep_view(&self) -> Seq<SpanView> {
        self.spans.deep_view()
    }
}

impl Clone for Paragraph {
    fn clone(&self) -> (r: Paragraph)
        ensures
            r.deep_view() == self.deep_view(),
    {
        let mut spans: Vec<Span> = Vec::new();
        let mut i: usize = 0;
        while i < self.spans.len()
            invariant
                i <= self.spans.len(),
                spans@.len() == i,
                forall|j: int| 0 <= j < i ==> #[trigger] spans@[j].deep_view() == self.spans@[j].deep_view(),
            decreases self.spans.len() - i,
        {
            spans.push(self.spans[i].clone());
            i = i + 1;
        }
        assert(spans.deep_view() =~= self.spans.deep_view());
        Paragraph { spans }
    }
}

#[derive(PartialEq, Debug)]
pub struct Heading {
    pub rank: usize,
    pub tags: Vec<Tag>,
    pub text: String,
}

pub struct HeadingView {
    pub rank: nat,
    pub tags: Seq<Seq<char>>,
    pub text: Seq<char>,
}

impl DeepView for Heading {
    type V = HeadingView;

    open spec fn deep_view(&self) -> HeadingView {
        HeadingView { rank: self.rank as nat, tags: self.tags.deep_view(), text: self.text@ }
    }
}

impl Clone for Heading {
    fn clone(&self) -> (r: Heading)
        ensures
            r.deep_view() == self.deep_view(),
    {
        let mut tags: Vec<Tag> = Vec::new();
        let mut i: usize = 0;
        while i < self.tags.len()
            invariant
                i <= self.tags.len(),
                tags@.len() == i,
                forall|j: int| 0 <= j < i ==> #[trigger] tags@[j].deep_view() == self.tags@[j].deep_view(),
            decreases self.tags.len() - i,
        {
            tags.push(self.tags[i].clone());
            i = i + 1;
        }
        assert(tags.deep_view() =~= self.tags.deep_view());
        Heading { rank: self.rank, tags, text: self.text.clone() }
    }
}

#[derive(PartialEq, Debug)]
pub struct Section {
    pub heading: Heading,
    pub body: Vec<Paragraph>,
}

pub struct SectionView {
    pub heading: HeadingView,
    pub body: Seq<Seq<SpanView>>,
}

impl DeepView for Section {
    type V = SectionView;

    open spec fn deep_view(&self) -> SectionView {
        SectionView { heading: self.heading.deep_view(), body: self.body.deep_view() }
    }
}

impl Clone for Section {
    fn clone(&self) -> (r: Section)
        ensures
            r.deep_view() == self.deep_view(),
    {
        let mut body: Vec<Paragraph> = Vec::new();
        let mut i: usize = 0;
        while i < self.body.len()
            invariant
                i <= self.body.len(),
                body@.len() == i,
                forall|j: int| 0 <= j < i ==> #[trigger] body@[j].deep_view() == self.body@[j].deep_view(),
            decreases self.body.len() - i,
        {
            body.push(self.body[i].clone());
            i = i + 1;
        }
        assert(body.deep_view() =~= self.body.deep_view());
        Section { heading: self.heading.clone(), body }
    }
}

#[derive(PartialEq, Debug)]
pub struct Blueprint {
    pub sections: Vec<Section>,
}

impl DeepView for Blueprint {
    type V = Seq<SectionView>;

    open spec fn deep_view(&self) -> Seq<SectionView> {
        self.sections.deep_view()
    }
}

// The grammar.

pub open spec fn spaces_end(s: Seq<char>, i: int) -> int {
    run_end(s, i, CharClass::Space)
}

/// A line end: one newline, or the end of the text.
pub open spec fn line_end(s: Seq<char>, i: int) -> Option<int> {
    if 0 <= i < s.len() && s[i] == '\n' {
        Some(i + 1)
    } else if i == s.len() {
        Some(i)
    } else {
        None
    }
}

/// Having read an identifier up to `i`, reads further identifiers, each after
/// one space.
pub open spec fn ident_string_end(s: Seq<char>, i: int) -> int
    decreases s.len() - i,
{
    let k = run_end(s, i + 1, CharClass::Ident);
    if 0 <= i < s.len() && s[i] == ' ' && i + 1 < k <= s.len() {
        ident_string_end(s, k)
    } else {
        i
    }
}

/// A tag: blanks, `?` (a tag with no name) or identifiers separated by
/// single spaces, blanks.
pub open spec fn bp_tag(s: Seq<char>, i: int) -> Option<(Seq<char>, int)> {
    let a = spaces_end(s, i);
    let k = run_end(s, a, CharClass::Ident);
    if 0 <= a < s.len() && s[a] == '?' {
        Some((Seq::empty(), spaces_end(s, a + 1)))
    } else if a < k {
        let e = ident_string_end(s, k);
        Some((s.subrange(a, e), spaces_end(s, e)))
    } else {
        None
    }
}

/// Further tags, each after a `,`.
pub open spec fn bp_more_tags(s: Seq<char>, i: int) -> (Seq<Seq<char>>, int)
    decreases s.len() - i,
{
    if 0 <= i < s.len() && s[i] == ',' {
        match bp_tag(s, i + 1) {
            Some((t, k)) => if i < k <= s.len() {
                let (rest, e) = bp_more_tags(s, k);
                (seq![t] + rest, e)
            } else {
                (seq![t], k)
            },
            None => (Seq::empty(), i),
        }
    } else {
        (Seq::empty(), i)
    }
}

/// Zero or more tags separated by `,`.
pub open spec fn bp_tag_list(s: Seq<char>, i: int) -> (Seq<Seq<char>>, int) {
    match bp_tag(s, i) {
        Some((t, k)) => {
            let (rest, e) = bp_more_tags(s, k);
            (seq![t] + rest, e)
        },
        None => (Seq::empty(), i),
    }
}

/// A tag line: a tag list, then a line end.
pub open spec fn bp_tags(s: Seq<char>, i: int) -> Option<(Seq<Seq<char>>, int)> {
    let (tags, q) = bp_tag_list(s, i);
    match line_end(s, q) {
        Some(e) => Some((tags, e)),
        None => None,
    }
}

/// Whether plain text stops at `k`: at a `*`, at blanks before a `#`, or at
/// an empty line.
pub open spec fn raw_stops(s: Seq<char>, k: int) -> bool {
    let a = spaces_end(s, k);
    let b = spaces_end(s, k + 1);
    s[k] == '*' || (a < s.len() && s[a] == '#') || (s[k] == '\n' && b < s.len() && s[b] == '\n')
}

pub open spec fn raw_end(s: Seq<char>, i: int) -> int
    decreases s.len() - i,
{
    if 0 <= i < s.len() && !raw_stops(s, i) {
        raw_end(s, i + 1)
    } else {
        i
    }
}

/// A span: plain text, else text between two `*`.
pub open spec fn bp_span(s: Seq<char>, i: int) -> Option<(SpanView, int)> {
    let k = raw_end(s, i);
    let d = raw_end(s, i + 1);
    if 0 <= i < k {
        Some((SpanView { category: SpanType::Raw, text: s.subrange(i, k) }, k))
    } else if 0 <= i < s.len() && s[i] == '*' && i + 1 < d < s.len() && s[d] == '*' {
        Some((SpanView { category: SpanType::Bold, text: s.subrange(i + 1, d) }, d + 1))
    } else {
        None
    }
}

/// Zero or more spans.
pub open spec fn bp_spans(s: Seq<char>, i: int) -> (Seq<SpanView>, int)
    decreases s.len() - i,
{
    match bp_span(s, i) {
        Some((x, j)) => if i < j <= s.len() {
            let (rest, e) = bp_spans(s, j);
            (seq![x] + rest, e)
        } else {
            (seq![x], j)
        },
        None => (Seq::empty(), i),
    }
}

/// A paragraph: one or more spans, then an optional newline.
pub open spec fn bp_paragraph(s: Seq<char>, i: int) -> Option<(Seq<SpanView>, int)> {
    let (spans, q) = bp_spans(s, i);
    if spans.len() == 0 {
        None
    } else if 0 <= q < s.len() && s[q] == '\n' {
        Some((spans, q + 1))
    } else {
        Some((spans, q))
    }
}

/// Further paragraphs, each after a newline.
pub open spec fn bp_more_paragraphs(s: Seq<char>, i: int) -> (Seq<Seq<SpanView>>, int)
    decreases s.len() - i,
{
    if 0 <= i < s.len() && s[i] == '\n' {
        match bp_paragraph(s, i + 1) {
            Some((p, k)) => if i < k <= s.len() {
                let (rest, e) = bp_more_paragraphs(s, k);
                (seq![p] + rest, e)
            } else {
                (seq![p], k)
            },
            None => (Seq::empty(), i),
        }
    } else {
        (Seq::empty(), i)
    }
}

/// A body: zero or more paragraphs separated by newlines.
pub open spec fn bp_body(s: Seq<char>, i: int) -> (Seq<Seq<SpanView>>, int) {
    match bp_paragraph(s, i) {
        Some((p, k)) => {
            let (rest, e) = bp_more_paragraphs(s, k);
            (seq![p] + rest, e)
        },
        None => (Seq::empty(), i),
    }
}

pub open spec fn is_heading_char(c: char) -> bool {
    c != '\n' && c != '[' && c != ' '
}

/// Having read heading characters up to `i`, reads further ones, each after
/// one space.
pub open spec fn heading_text_end(s: Seq<char>, i: int) -> int
    decreases s.len() - i,
{
    if 0 <= i && i + 1 < s.len() && s[i] == ' ' && is_heading_char(s[i + 1]) {
        heading_text_end(s, i + 2)
    } else {
        i
    }
}

/// A heading: markers, blanks, its text, blanks, an optional bracketed tag
/// list, then a line end.
pub open spec fn bp_heading(s: Seq<char>, i: int) -> Option<(HeadingView, int)> {
    let m = run_end(s, i, CharClass::Marker);
    let a = spaces_end(s, m);
    let e = if 0 <= a < s.len() && is_heading_char(s[a]) {
        heading_text_end(s, a + 1)
    } else {
        a
    };
    let b = spaces_end(s, e);
    let (list, q) = bp_tag_list(s, b + 1);
    let (tags, c) = if 0 <= b < s.len() && s[b] == '[' && 0 <= q < s.len() && s[q] == ']' {
        (list, q + 1)
    } else {
        (Seq::empty(), b)
    };
    if 0 <= i < m {
        match line_end(s, c) {
            Some(r) => Some((HeadingView { rank: (m - i) as nat, tags, text: s.subrange(a, e) }, r)),
            None => None,
        }
    } else {
        None
    }
}

/// A section: a heading and its body.
pub open spec fn bp_section(s: Seq<char>, i: int) -> Option<(SectionView, int)> {
    match bp_heading(s, i) {
        Some((h, q)) => {
            let (body, r) = bp_body(s, q);
            Some((SectionView { heading: h, body }, r))
        },
        None => None,
    }
}

/// Zero or more sections.
pub open spec fn bp_sections(s: Seq<char>, i: int) -> (Seq<SectionView>, int)
    decreases s.len() - i,
{
    match bp_section(s, i) {
        Some((x, j)) => if i < j <= s.len() {
            let (rest, e) = bp_sections(s, j);
            (seq![x] + rest, e)
        } else {
            (seq![x], j)
        },
        None => (Seq::empty(), i),
    }
}

/// A document: one or more sections.
pub open spec fn bp_document(s: Seq<char>) -> Option<(Seq<SectionView>, int)> {
    let (secs, e) = bp_sections(s, 0);
    if secs.len() > 0 {
        Some((secs, e))
    } else {
        None
    }
}


// The parser.

/// What an optional match denotes.
pub open spec fn opt_view<T: DeepView>(o: Option<(T, usize)>) -> Option<(T::V, int)> {
    match o {
        Some((v, e)) => Some((v.deep_view(), e as int)),
        None => None,
    }
}

fn line_end_at(s: &Vec<char>, i: usize) -> (r: Option<usize>)
    requires
        i <= s@.len(),
    ensures
        r matches Some(e) ==> line_end(s@, i as int) == Some(e as int) && i <= e <= s@.len(),
        r is None ==> line_end(s@, i as int) is None,
{
    if i < s.len() && s[i] == '\n' {
        Some(i + 1)
    } else if i == s.len() {
        Some(i)
    } else {
        None
    }
}

fn ident_string_end_at(s: &Vec<char>, i: usize) -> (r: usize)
    requires
        i <= s@.len(),
    ensures
        r == ident_string_end(s@, i as int),
        i <= r <= s@.len(),
{
    let mut j = i;
    loop
        invariant
            i <= j <= s@.len(),
            ident_string_end(s@, i as int) == ident_string_end(s@, j as int),
        decreases s@.len() - j,
    {
        if j < s.len() && s[j] == ' ' {
            let k = scan(s, j + 1, CharClass::Ident);
            if j + 1 < k {
                j = k;
            } else {
                return j;
            }
        } else {
            return j;
        }
    }
}

fn tag_at(src: &Source, i: usize) -> (r: Option<(Tag, usize)>)
    requires
        src.wf(),
        i <= src.s().len(),
    ensures
        opt_view(r) == bp_tag(src.s(), i as int),
        r matches Some((_, e)) ==> i < e <= src.s().len(),
{
    let s = &src.chars;
    let a = scan(s, i, CharClass::Space);
    let k = scan(s, a, CharClass::Ident);
    if a < s.len() && s[a] == '?' {
        let e = scan(s, a + 1, CharClass::Space);
        let name = String::new();
        Some((Tag { name }, e))
    } else if a < k {
        let e = ident_string_end_at(s, k);
        let name = src.slice(a, e);
        let r = scan(s, e, CharClass::Space);
        Some((Tag { name }, r))
    } else {
        None
    }
}

fn more_tags_at(src: &Source, i: usize) -> (r: (Vec<Tag>, usize))
    requires
        src.wf(),
        i <= src.s().len(),
    ensures
        bp_more_tags(src.s(), i as int) == (r.0.deep_view(), r.1 as int),
        i <= r.1 <= src.s().len(),
    decreases src.s().len() - i,
{
    if i < src.chars.len() && src.chars[i] == ',' {
        match tag_at(src, i + 1) {
            Some((t, k)) => {
                let ghost tv = t.deep_view();
                let (rest, e) = more_tags_at(src, k);
                let ghost rv = rest.deep_view();
                let mut v = rest;
                v.insert(0, t);
                assert(v.deep_view() =~= seq![tv] + rv);
                (v, e)
            },
            None => {
                let v: Vec<Tag> = Vec::new();
                assert(v.deep_view() =~= Seq::empty());
                (v, i)
            },
        }
    } else {
        let v: Vec<Tag> = Vec::new();
        assert(v.deep_view() =~= Seq::empty());
        (v, i)
    }
}

fn tag_list_at(src: &Source, i: usize) -> (r: (Vec<Tag>, usize))
    requires
        src.wf(),
        i <= src.s().len(),
    ensures
        bp_tag_list(src.s(), i as int) == (r.0.deep_view(), r.1 as int),
        i <= r.1 <= src.s().len(),
{
    match tag_at(src, i) {
        Some((t, k)) => {
            let ghost tv = t.deep_view();
            let (rest, e) = more_tags_at(src, k);
            let ghost rv = rest.deep_view();
            let mut v = rest;
            v.insert(0, t);
            assert(v.deep_view() =~= seq![tv] + rv);
            (v, e)
        },
        None => {
            let v: Vec<Tag> = Vec::new();
            assert(v.deep_view() =~= Seq::empty());
            (v, i)
        },
    }
}

fn raw_stops_at(s: &Vec<char>, k: usize) -> (r: bool)
    requires
        k < s@.len(),
    ensures
        r == raw_stops(s@, k as int),
{
    let n = s.len();
    let a = scan(s, k, CharClass::Space);
    let b = scan(s, k + 1, CharClass::Space);
    s[k] == '*' || (a < s.len() && s[a] == '#') || (s[k] == '\n' && b < s.len() && s[b] == '\n')
}

fn raw_end_at(s: &Vec<char>, i: usize) -> (r: usize)
    requires
        i <= s@.len(),
    ensures
        r == raw_end(s@, i as int),
        i <= r <= s@.len(),
{
    let mut j = i;
    while j < s.len() && !raw_stops_at(s, j)
        invariant
            i <= j <= s@.len(),
            raw_end(s@, i as int) == raw_end(s@, j as int),
        decreases s@.len() - j,
    {
        j = j + 1;
    }
    j
}

fn span_at(src: &Source, i: usize) -> (r: Option<(Span, usize)>)
    requires
        src.wf(),
        i <= src.s().len(),
    ensures
        opt_view(r) == bp_span(src.s(), i as int),
        r matches Some((_, e)) ==> i < e <= src.s().len(),
{
    let s = &src.chars;
    let k = raw_end_at(s, i);
    if i < k {
        let text = src.slice(i, k);
        return Some((Span { category: SpanType::Raw, text }, k));
    }
    if i < s.len() && s[i] == '*' {
        let d = raw_end_at(s, i + 1);
        if i + 1 < d && d < s.len() && s[d] == '*' {
            let text = src.slice(i + 1, d);
            return Some((Span { category: SpanType::Bold, text }, d + 1));
        }
    }
    None
}

fn spans_at(src: &Source, i: usize) -> (r: (Vec<Span>, usize))
    requires
        src.wf(),
        i <= src.s().len(),
    ensures
        bp_spans(src.s(), i as int) == (r.0.deep_view(), r.1 as int),
        i <= r.1 <= src.s().len(),
{
    let ghost s = src.s();
    let mut acc: Vec<Span> = Vec::new();
    let mut j = i;
    loop
        invariant
            src.wf(),
            s == src.s(),
            i <= j <= s.len(),
            bp_spans(s, i as int) == (acc.deep_view() + bp_spans(s, j as int).0, bp_spans(s, j as int).1),
        decreases s.len() - j,
    {
        match span_at(src, j) {
            Some((x, k)) => {
                let ghost before = acc.deep_view();
                let ghost xv = x.deep_view();
                acc.push(x);
                assert(acc.deep_view() =~= before.push(xv));
                assert(before + (seq![xv] + bp_spans(s, k as int).0) =~= acc.deep_view() + bp_spans(s, k as int).0);
                j = k;
            },
            None => {
                assert(acc.deep_view() + Seq::empty() =~= acc.deep_view());
                return (acc, j);
            },
        }
    }
}


fn paragraph_at(src: &Source, i: usize) -> (r: Option<(Paragraph, usize)>)
    requires
        src.wf(),
        i <= src.s().len(),
    ensures
        opt_view(r) == bp_paragraph(src.s(), i as int),
        r matches Some((_, e)) ==> i < e <= src.s().len(),
{
    let (spans, q) = spans_at(src, i);
    if spans.len() == 0 {
        None
    } else {
        proof {
            // a paragraph is not empty, so it ends after its start
            assert(spans.deep_view().len() > 0);
            lemma_spans_advance(src.s(), i as int);
        }
        if q < src.chars.len() && src.chars[q] == '\n' {
            Some((Paragraph { spans }, q + 1))
        } else {
            Some((Paragraph { spans }, q))
        }
    }
}

/// Lemma: spans that are not empty end after their start.
pub proof fn lemma_spans_advance(s: Seq<char>, i: int)
    requires
        0 <= i <= s.len(),
        bp_spans(s, i).0.len() > 0,
    ensures
        i < bp_spans(s, i).1,
{
    match bp_span(s, i) {
        Some((x, j)) => if i < j <= s.len() {
            lemma_spans_monotone(s, j);
        },
        None => {},
    }
}

/// Lemma: spans end at or after their start.
pub proof fn lemma_spans_monotone(s: Seq<char>, i: int)
    requires
        0 <= i <= s.len(),
    ensures
        i <= bp_spans(s, i).1,
    decreases s.len() - i,
{
    match bp_span(s, i) {
        Some((x, j)) => if i < j <= s.len() {
            lemma_spans_monotone(s, j);
        },
        None => {},
    }
}

fn more_paragraphs_at(src: &Source, i: usize) -> (r: (Vec<Paragraph>, usize))
    requires
        src.wf(),
        i <= src.s().len(),
    ensures
        bp_more_paragraphs(src.s(), i as int) == (r.0.deep_view(), r.1 as int),
        i <= r.1 <= src.s().len(),
    decreases src.s().len() - i,
{
    if i < src.chars.len() && src.chars[i] == '\n' {
        match paragraph_at(src, i + 1) {
            Some((p, k)) => {
                let ghost pv = p.deep_view();
                let (rest, e) = more_paragraphs_at(src, k);
                let ghost rv = rest.deep_view();
                let mut v = rest;
                v.insert(0, p);
                assert(v.deep_view() =~= seq![pv] + rv);
                (v, e)
            },
            None => {
                let v: Vec<Paragraph> = Vec::new();
                assert(v.deep_view() =~= Seq::empty());
                (v, i)
            },
        }
    } else {
        let v: Vec<Paragraph> = Vec::new();
        assert(v.deep_view() =~= Seq::empty());
        (v, i)
    }
}

fn body_at(src: &Source, i: usize) -> (r: (Vec<Paragraph>, usize))
    requires
        src.wf(),
        i <= src.s().len(),
    ensures
        bp_body(src.s(), i as int) == (r.0.deep_view(), r.1 as int),
        i <= r.1 <= src.s().len(),
{
    match paragraph_at(src, i) {
        Some((p, k)) => {
            let ghost pv = p.deep_view();
            let (rest, e) = more_paragraphs_at(src, k);
            let ghost rv = rest.deep_view();
            let mut v = rest;
            v.insert(0, p);
            assert(v.deep_view() =~= seq![pv] + rv);
            (v, e)
        },
        None => {
            let v: Vec<Paragraph> = Vec::new();
            assert(v.deep_view() =~= Seq::empty());
            (v, i)
        },
    }
}

fn heading_text_end_at(s: &Vec<char>, i: usize) -> (r: usize)
    requires
        i <= s@.len(),
    ensures
        r == heading_text_end(s@, i as int),
        i <= r <= s@.len(),
{
    let mut j = i;
    while j < s.len() && j + 1 < s.len() && s[j] == ' ' && s[j + 1] != '\n' && s[j + 1] != '[' && s[j + 1] != ' '
        invariant
            i <= j <= s@.len(),
            heading_text_end(s@, i as int) == heading_text_end(s@, j as int),
        decreases s@.len() - j,
    {
        j = j + 2;
    }
    j
}

fn heading_at(src: &Source, i: usize) -> (r: Option<(Heading, usize)>)
    requires
        src.wf(),
        i <= src.s().len(),
    ensures
        opt_view(r) == bp_heading(src.s(), i as int),
        r matches Some((_, e)) ==> i < e <= src.s().len(),
{
    let s = &src.chars;
    let m = scan(s, i, CharClass::Marker);
    let a = scan(s, m, CharClass::Space);
    let e = if a < s.len() && s[a] != '\n' && s[a] != '[' && s[a] != ' ' {
        heading_text_end_at(s, a + 1)
    } else {
        a
    };
    let b = scan(s, e, CharClass::Space);
    let (tags, c) = if b < s.len() && s[b] == '[' {
        let (list, q) = tag_list_at(src, b + 1);
        if q < s.len() && s[q] == ']' {
            (list, q + 1)
        } else {
            let v: Vec<Tag> = Vec::new();
            assert(v.deep_view() =~= Seq::empty());
            (v, b)
        }
    } else {
        let v: Vec<Tag> = Vec::new();
        assert(v.deep_view() =~= Seq::empty());
        (v, b)
    };
    if i < m {
        match line_end_at(s, c) {
            Some(r) => {
                let text = src.slice(a, e);
                Some((Heading { rank: m - i, tags, text }, r))
            },
            None => None,
        }
    } else {
        None
    }
}

fn section_at(src: &Source, i: usize) -> (r: Option<(Section, usize)>)
    requires
        src.wf(),
        i <= src.s().len(),
    ensures
        opt_view(r) == bp_section(src.s(), i as int),
        r matches Some((_, e)) ==> i < e <= src.s().len(),
{
    match heading_at(src, i) {
        Some((heading, q)) => {
            let (body, r) = body_at(src, q);
            Some((Section { heading, body }, r))
        },
        None => None,
    }
}

fn sections_at(src: &Source, i: usize) -> (r: (Vec<Section>, usize))
    requires
        src.wf(),
        i <= src.s().len(),
    ensures
        bp_sections(src.s(), i as int) == (r.0.deep_view(), r.1 as int),
        i <= r.1 <= src.s().len(),
{
    let ghost s = src.s();
    let mut acc: Vec<Section> = Vec::new();
    let mut j = i;
    loop
        invariant
            src.wf(),
            s == src.s(),
            i <= j <= s.len(),
            bp_sections(s, i as int) == (acc.deep_view() + bp_sections(s, j as int).0, bp_sections(s, j as int).1),
        decreases s.len() - j,
    {
        match section_at(src, j) {
            Some((x, k)) => {
                let ghost before = acc.deep_view();
                let ghost xv = x.deep_view();
                acc.push(x);
                assert(acc.deep_view() =~= before.push(xv));
                assert(before + (seq![xv] + bp_sections(s, k as int).0) =~= acc.deep_view() + bp_sections(s, k as int).0);
                j = k;
            },
            None => {
                assert(acc.deep_view() + Seq::empty() =~= acc.deep_view());
                return (acc, j);
            },
        }
    }
}

/// Demands that a rule read the whole text.
fn finish<T: DeepView>(src: &Source, p: Option<(T, usize)>) -> (r: Result<T, ParseError>)
    requires
        src.wf(),
    ensures
        result_view(r) == whole_option(src.s(), opt_view(p)),
{
    match p {
        Some((v, e)) => {
            if e == src.chars.len() {
                Ok(v)
            } else {
                Err(ParseError { kind: ParseErrorKind::IncompleteParse, offset: e })
            }
        },
        None => Err(ParseError { kind: ParseErrorKind::IncompleteParse, offset: 0 }),
    }
}

/// Reads a whole text as a tag line.
pub fn tags(text: &str) -> (r: Result<Vec<Tag>, ParseError>)
    ensures
        result_view(r) == whole_option(text@, bp_tags(text@, 0)),
{
    let src = Source::new(text);
    let (list, q) = tag_list_at(&src, 0);
    let p = match line_end_at(&src.chars, q) {
        Some(e) => Some((list, e)),
        None => None,
    };
    finish(&src, p)
}

/// Reads a whole text as one span.
pub fn span(text: &str) -> (r: Result<Span, ParseError>)
    ensures
        result_view(r) == whole_option(text@, bp_span(text@, 0)),
{
    let src = Source::new(text);
    let p = span_at(&src, 0);
    finish(&src, p)
}

/// Reads a whole text as a body.
pub fn body(text: &str) -> (r: Result<Vec<Paragraph>, ParseError>)
    ensures
        result_view(r) == whole_option(text@, Some(bp_body(text@, 0))),
{
    let src = Source::new(text);
    let p = body_at(&src, 0);
    finish(&src, Some(p))
}

/// Reads a whole text as a heading.
pub fn heading(text: &str) -> (r: Result<Heading, ParseError>)
    ensures
        result_view(r) == whole_option(text@, bp_heading(text@, 0)),
{
    let src = Source::new(text);
    let p = heading_at(&src, 0);
    finish(&src, p)
}

/// Reads a whole text as a section.
pub fn section(text: &str) -> (r: Result<Section, ParseError>)
    ensures
        result_view(r) == whole_option(text@, bp_section(text@, 0)),
{
    let src = Source::new(text);
    let p = section_at(&src, 0);
    finish(&src, p)
}

/// Reads a whole text as a document.
pub fn blueprint(text: &str) -> (r: Result<Blueprint, ParseError>)
    ensures
        result_view(r) == whole_option(text@, bp_document(text@)),
{
    let src = Source::new(text);
    let (sections, e) = sections_at(&src, 0);
    let p = if sections.len() > 0 {
        Some((Blueprint { sections }, e))
    } else {
        None
    };
    finish(&src, p)
}

} // verus!
