//! The parser: each function reads one rule of the grammar and is proved to
//! give exactly what that rule gives.
use vstd::prelude::*;
use crate::grammar::{
    ParseError, ParseErrorKind, Out, CharClass, in_class, run_end, end_of_line, end_of_construct,
    skip_blank_lines, plain_stops, plain_end, decoration_type, spec_span, cons_out, spec_spans,
    spec_text_paragraph, spec_cells, spec_table_row, separator_cells, spec_table_heading,
    spec_table_rows, spec_table, spec_paragraph, spec_paragraphs, spec_body, spec_tag,
    spec_more_tags, spec_tags, words_end, spec_heading, spec_section, spec_sections,
    trailing_error, spec_document, whole, whole_option, well_ranked, lemma_document_well_ranked,
};
use crate::markup::{
    TagCategory, Tag, SpanType, Span, Table, Paragraph, Heading, Section, Blueprint,
    SpanView, SectionView, BlueprintView, empty_heading,
};

verus! {

/// The outcome of reading a rule: a value and the position after it, no
/// match, or an error.
pub enum Parsed<T> {
    Hit(T, usize),
    Miss,
    Fail(ParseError),
}

impl<T: DeepView> DeepView for Parsed<T> {
    type V = Out<T::V>;

    open spec fn deep_view(&self) -> Out<T::V> {
        match self {
            Parsed::Hit(v, e) => Out::Hit(v.deep_view(), *e as int),
            Parsed::Miss => Out::Miss,
            Parsed::Fail(err) => Out::Fail(*err),
        }
    }
}

/// A document's text together with its characters.
pub struct Source<'a> {
    pub text: &'a str,
    pub chars: Vec<char>,
    /// Whether the text is ASCII, so that it can be sliced in constant time.
    pub ascii: bool,
}

impl<'a> Source<'a> {
    pub open spec fn wf(&self) -> bool {
        &&& self.chars@ == self.text@
        &&& self.ascii == self.text.is_ascii()
    }

    pub open spec fn s(&self) -> Seq<char> {
        self.chars@
    }

    pub fn new(text: &'a str) -> (r: Source<'a>)
        ensures
            r.wf(),
            r.text == text,
    {
        let mut chars: Vec<char> = Vec::new();
        for c in it: text.chars()
            invariant
                chars@ == it.seq().subrange(0, it.index() as int),
                it.seq() == text@,
        {
            chars.push(c);
        }
        assert(chars@ =~= text@);
        let ascii = text.is_ascii();
        Source { text, chars, ascii }
    }

    /// The characters from `a` to `b`, as a string.
    pub fn slice(&self, a: usize, b: usize) -> (r: String)
        requires
            self.wf(),
            a <= b <= self.s().len(),
        ensures
            r@ == self.s().subrange(a as int, b as int),
    {
        if self.ascii {
            String::from_str(self.text.substring_ascii(a, b))
        } else {
            String::from_str(self.text.substring_char(a, b))
        }
    }
}

pub fn class_contains(k: CharClass, c: char) -> (r: bool)
    ensures
        r == in_class(k, c),
{
    match k {
        CharClass::Blank => c == ' ' || c == '\t',
        CharClass::Newline => c == '\n' || c == '\r',
        CharClass::Marker => c == '#',
        CharClass::Space => c == ' ',
        CharClass::Word => c != '\n' && c != '\r' && c != '[' && c != ' ',
        CharClass::TagName => c != ']' && c != ',',
        CharClass::Rule => c == '-' || c == ' ',
        CharClass::Ident => ('a' <= c && c <= 'z') || ('A' <= c && c <= 'Z') || ('0' <= c && c <= '9')
            || c == '-' || c == '_',
    }
}

/// Lemma: a run ends at or after its start and within the text.
pub proof fn lemma_run_end_bounds(s: Seq<char>, i: int, k: CharClass)
    requires
        0 <= i <= s.len(),
    ensures
        i <= run_end(s, i, k) <= s.len(),
    decreases s.len() - i,
{
    if i < s.len() && in_class(k, s[i]) {
        lemma_run_end_bounds(s, i + 1, k);
    }
}

pub fn scan(s: &Vec<char>, i: usize, k: CharClass) -> (r: usize)
    requires
        i <= s@.len(),
    ensures
        r == run_end(s@, i as int, k),
        i <= r <= s@.len(),
{
    let mut j = i;
    while j < s.len() && class_contains(k, s[j])
        invariant
            i <= j <= s@.len(),
            run_end(s@, i as int, k) == run_end(s@, j as int, k),
        decreases s@.len() - j,
    {
        j = j + 1;
    }
    j
}

pub fn end_of_line_at(s: &Vec<char>, i: usize) -> (r: Option<usize>)
    requires
        i <= s@.len(),
    ensures
        r matches Some(j) ==> end_of_line(s@, i as int) == Some(j as int) && i < j <= s@.len(),
        r is None ==> end_of_line(s@, i as int) is None,
{
    let j = scan(s, i, CharClass::Blank);
    if j < s.len() && (s[j] == '\n' || s[j] == '\r') {
        let e = scan(s, j, CharClass::Newline);
        proof {
            lemma_run_end_bounds(s@, j + 1, CharClass::Newline);
        }
        Some(e)
    } else {
        None
    }
}

pub fn end_of_construct_at(s: &Vec<char>, i: usize) -> (r: Option<usize>)
    requires
        i <= s@.len(),
    ensures
        r matches Some(j) ==> end_of_construct(s@, i as int) == Some(j as int) && i <= j <= s@.len(),
        r is None ==> end_of_construct(s@, i as int) is None,
{
    if scan(s, i, CharClass::Blank) == s.len() {
        Some(s.len())
    } else {
        end_of_line_at(s, i)
    }
}

pub fn skip_blank_lines_at(s: &Vec<char>, i: usize) -> (r: usize)
    requires
        i <= s@.len(),
    ensures
        r == skip_blank_lines(s@, i as int),
        i <= r <= s@.len(),
{
    let mut j = i;
    loop
        invariant
            i <= j <= s@.len(),
            skip_blank_lines(s@, i as int) == skip_blank_lines(s@, j as int),
        decreases s@.len() - j,
    {
        match end_of_line_at(s, j) {
            Some(e) => {
                j = e;
            },
            None => {
                return j;
            },
        }
    }
}

pub fn plain_stops_at(s: &Vec<char>, k: usize, in_cell: bool) -> (r: bool)
    requires
        k <= s@.len(),
    ensures
        r == plain_stops(s@, k as int, in_cell),
{
    if k >= s.len() {
        true
    } else if end_of_line_at(s, k).is_some() {
        true
    } else {
        let c = s[k];
        c == '*' || c == '/' || c == '~' || (in_cell && c == '|')
    }
}

pub fn plain_end_at(s: &Vec<char>, i: usize, in_cell: bool) -> (r: usize)
    requires
        i <= s@.len(),
    ensures
        r == plain_end(s@, i as int, in_cell),
        i <= r <= s@.len(),
{
    let mut j = i;
    while j < s.len() && !plain_stops_at(s, j, in_cell)
        invariant
            i <= j <= s@.len(),
            plain_end(s@, i as int, in_cell) == plain_end(s@, j as int, in_cell),
        decreases s@.len() - j,
    {
        j = j + 1;
    }
    j
}

fn decoration_of(c: char) -> (r: SpanType)
    ensures
        r == decoration_type(c),
{
    if c == '*' {
        SpanType::Bold
    } else if c == '/' {
        SpanType::Italic
    } else {
        SpanType::Strikethrough
    }
}

pub fn span_at(src: &Source, i: usize, in_cell: bool) -> (r: Parsed<Span>)
    requires
        src.wf(),
        i <= src.s().len(),
    ensures
        r.deep_view() == spec_span(src.s(), i as int, in_cell),
        r matches Parsed::Hit(_, e) ==> i < e <= src.s().len(),
{
    let s = &src.chars;
    if i >= s.len() {
        return Parsed::Miss;
    }
    let c = s[i];
    if c == '*' || c == '/' || c == '~' {
        let k = plain_end_at(s, i + 1, false);
        if i + 1 < k && k < s.len() && (s[k] == '*' || s[k] == '/' || s[k] == '~') {
            if s[k] == c {
                let text = src.slice(i + 1, k);
                Parsed::Hit(Span { category: decoration_of(c), text }, k + 1)
            } else {
                Parsed::Fail(ParseError { kind: ParseErrorKind::MismatchedDelimiters, offset: i })
            }
        } else {
            Parsed::Miss
        }
    } else {
        let k = plain_end_at(s, i, in_cell);
        if k > i {
            let text = src.slice(i, k);
            Parsed::Hit(Span { category: SpanType::Raw, text }, k)
        } else {
            Parsed::Miss
        }
    }
}


/// Puts `pre` in front of what a repetition yielded.
pub open spec fn prepend_out<T>(pre: Seq<T>, o: Out<Seq<T>>) -> Out<Seq<T>> {
    match o {
        Out::Hit(v, e) => Out::Hit(pre + v, e),
        Out::Miss => Out::Miss,
        Out::Fail(err) => Out::Fail(err),
    }
}

pub proof fn lemma_prepend_cons<T>(pre: Seq<T>, x: T, o: Out<Seq<T>>, at: int)
    requires
        !(o is Miss),
    ensures
        prepend_out(pre, cons_out(x, o, at)) == prepend_out(pre.push(x), o),
{
    match o {
        Out::Hit(v, e) => {
            assert(pre + (seq![x] + v) =~= pre.push(x) + v);
        },
        _ => {},
    }
}

pub proof fn lemma_prepend_empty<T>(o: Out<Seq<T>>)
    ensures
        prepend_out(Seq::<T>::empty(), o) == o,
{
    match o {
        Out::Hit(v, e) => {
            assert(Seq::<T>::empty() + v =~= v);
        },
        _ => {},
    }
}

/// Zero or more spans.
pub fn spans_at(src: &Source, i: usize, in_cell: bool) -> (r: Parsed<Vec<Span>>)
    requires
        src.wf(),
        i <= src.s().len(),
    ensures
        r.deep_view() == spec_spans(src.s(), i as int, in_cell),
        r matches Parsed::Hit(_, e) ==> i <= e <= src.s().len(),
{
    let ghost s = src.s();
    let mut acc: Vec<Span> = Vec::new();
    let mut j = i;
    proof {
        lemma_prepend_empty(spec_spans(s, i as int, in_cell));
    }
    loop
        invariant
            src.wf(),
            s == src.s(),
            i <= j <= s.len(),
            spec_spans(s, i as int, in_cell) == prepend_out(acc.deep_view(), spec_spans(s, j as int, in_cell)),
        decreases s.len() - j,
    {
        match span_at(src, j, in_cell) {
            Parsed::Hit(x, k) => {
                proof {
                    lemma_prepend_cons(acc.deep_view(), x.deep_view(), spec_spans(s, k as int, in_cell), k as int);
                }
                let ghost before = acc.deep_view();
                acc.push(x);
                assert(acc.deep_view() =~= before.push(x.deep_view()));
                j = k;
            },
            Parsed::Miss => {
                assert(acc.deep_view() + Seq::<SpanView>::empty() =~= acc.deep_view());
                return Parsed::Hit(acc, j);
            },
            Parsed::Fail(e) => {
                return Parsed::Fail(e);
            },
        }
    }
}

pub fn text_paragraph_at(src: &Source, i: usize) -> (r: Parsed<Paragraph>)
    requires
        src.wf(),
        i <= src.s().len(),
    ensures
        r.deep_view() == spec_text_paragraph(src.s(), i as int),
        r matches Parsed::Hit(_, e) ==> i <= e <= src.s().len(),
{
    let p = skip_blank_lines_at(&src.chars, i);
    if p < src.chars.len() && src.chars[p] == '#' {
        return Parsed::Miss;
    }
    match spans_at(src, p, false) {
        Parsed::Hit(v, q) => {
            if v.len() == 0 {
                Parsed::Miss
            } else {
                match end_of_construct_at(&src.chars, q) {
                    Some(r) => Parsed::Hit(Paragraph::Spans(v), r),
                    None => Parsed::Miss,
                }
            }
        },
        Parsed::Miss => Parsed::Miss,
        Parsed::Fail(e) => Parsed::Fail(e),
    }
}

/// One or more cells separated by `|`.
pub fn cells_at(src: &Source, i: usize) -> (r: Parsed<Vec<Vec<Span>>>)
    requires
        src.wf(),
        i <= src.s().len(),
    ensures
        r.deep_view() == spec_cells(src.s(), i as int),
        r matches Parsed::Hit(_, e) ==> i <= e <= src.s().len(),
    decreases src.s().len() - i,
{
    match spans_at(src, i, true) {
        Parsed::Hit(c, q) => {
            if c.len() == 0 {
                Parsed::Miss
            } else if i <= q && q < src.chars.len() && src.chars[q] == '|' {
                let ghost cv = c.deep_view();
                match cells_at(src, q + 1) {
                    Parsed::Hit(rest, e) => {
                        let ghost rv = rest.deep_view();
                        let mut v = rest;
                        v.insert(0, c);
                        assert(v.deep_view() =~= seq![cv] + rv);
                        Parsed::Hit(v, e)
                    },
                    Parsed::Miss => {
                        let v = vec![c];
                        assert(v.deep_view() =~= seq![cv]);
                        Parsed::Hit(v, q)
                    },
                    Parsed::Fail(e) => Parsed::Fail(e),
                }
            } else {
                let ghost cv = c.deep_view();
                let v = vec![c];
                assert(v.deep_view() =~= seq![cv]);
                Parsed::Hit(v, q)
            }
        },
        Parsed::Miss => Parsed::Miss,
        Parsed::Fail(e) => Parsed::Fail(e),
    }
}

pub fn table_row_at(src: &Source, i: usize) -> (r: Parsed<Vec<Vec<Span>>>)
    requires
        src.wf(),
        i <= src.s().len(),
    ensures
        r.deep_view() == spec_table_row(src.s(), i as int),
        r matches Parsed::Hit(_, e) ==> i <= e <= src.s().len(),
{
    let p = skip_blank_lines_at(&src.chars, i);
    match cells_at(src, p) {
        Parsed::Hit(cells, q) => {
            if cells.len() >= 2 {
                match end_of_construct_at(&src.chars, q) {
                    Some(r) => Parsed::Hit(cells, r),
                    None => Parsed::Miss,
                }
            } else {
                Parsed::Miss
            }
        },
        Parsed::Miss => Parsed::Miss,
        Parsed::Fail(e) => Parsed::Fail(e),
    }
}


/// The number of cells of a separator row and where they end.
pub fn separator_cells_at(s: &Vec<char>, i: usize) -> (r: Option<(usize, usize)>)
    requires
        i <= s@.len(),
    ensures
        r matches Some((n, e)) ==> separator_cells(s@, i as int) == Some((n as nat, e as int))
            && i <= e <= s@.len(),
        r is None ==> separator_cells(s@, i as int) is None,
    decreases s@.len() - i,
{
    let k = scan(s, i, CharClass::Rule);
    if i < k {
        if k < s.len() && s[k] == '|' {
            match separator_cells_at(s, k + 1) {
                Some((n, r)) => {
                    // there are fewer cells than characters
                    proof {
                        lemma_separator_count(s@, k + 1);
                    }
                    Some((n + 1, r))
                },
                None => Some((1, k)),
            }
        } else {
            Some((1, k))
        }
    } else {
        None
    }
}

/// Lemma: a separator row has no more cells than characters.
pub proof fn lemma_separator_count(s: Seq<char>, i: int)
    requires
        0 <= i <= s.len(),
    ensures
        separator_cells(s, i) matches Some((n, e)) ==> n <= e - i && i <= e <= s.len(),
    decreases s.len() - i,
{
    let k = run_end(s, i, CharClass::Rule);
    lemma_run_end_bounds(s, i, CharClass::Rule);
    if i < k && k < s.len() && s[k] == '|' {
        lemma_separator_count(s, k + 1);
    }
}

pub fn table_heading_at(src: &Source, i: usize) -> (r: Parsed<Vec<Vec<Span>>>)
    requires
        src.wf(),
        i <= src.s().len(),
    ensures
        r.deep_view() == spec_table_heading(src.s(), i as int),
        r matches Parsed::Hit(_, e) ==> i <= e <= src.s().len(),
{
    match table_row_at(src, i) {
        Parsed::Hit(row, q) => {
            let p = scan(&src.chars, q, CharClass::Blank);
            match separator_cells_at(&src.chars, p) {
                Some((n, r)) => {
                    if n >= 2 {
                        match end_of_construct_at(&src.chars, r) {
                            Some(t) => {
                                if n == row.len() {
                                    Parsed::Hit(row, t)
                                } else {
                                    Parsed::Fail(ParseError { kind: ParseErrorKind::SeparatorMismatch, offset: p })
                                }
                            },
                            None => Parsed::Miss,
                        }
                    } else {
                        Parsed::Miss
                    }
                },
                None => Parsed::Miss,
            }
        },
        Parsed::Miss => Parsed::Miss,
        Parsed::Fail(e) => Parsed::Fail(e),
    }
}

/// Zero or more table rows, each of `width` cells unless `width` is zero.
pub fn table_rows_at(src: &Source, i: usize, width: usize) -> (r: Parsed<Vec<Vec<Vec<Span>>>>)
    requires
        src.wf(),
        i <= src.s().len(),
    ensures
        r.deep_view() == spec_table_rows(src.s(), i as int, width as nat),
        r matches Parsed::Hit(_, e) ==> i <= e <= src.s().len(),
{
    let ghost s = src.s();
    let mut acc: Vec<Vec<Vec<Span>>> = Vec::new();
    let mut j = i;
    proof {
        lemma_prepend_empty(spec_table_rows(s, i as int, width as nat));
    }
    loop
        invariant
            src.wf(),
            s == src.s(),
            i <= j <= s.len(),
            spec_table_rows(s, i as int, width as nat) == prepend_out(acc.deep_view(), spec_table_rows(s, j as int, width as nat)),
        decreases s.len() - j,
    {
        match table_row_at(src, j) {
            Parsed::Hit(x, k) => {
                if width != 0 && x.len() != width {
                    let at = skip_blank_lines_at(&src.chars, j);
                    return Parsed::Fail(ParseError { kind: ParseErrorKind::SeparatorMismatch, offset: at });
                }
                if k <= j {
                    let ghost before = acc.deep_view();
                    let ghost xv = x.deep_view();
                    acc.push(x);
                    assert(acc.deep_view() =~= before + seq![xv]);
                    return Parsed::Hit(acc, k);
                }
                proof {
                    lemma_prepend_cons(acc.deep_view(), x.deep_view(), spec_table_rows(s, k as int, width as nat), k as int);
                }
                let ghost before = acc.deep_view();
                acc.push(x);
                assert(acc.deep_view() =~= before.push(x.deep_view()));
                j = k;
            },
            Parsed::Miss => {
                assert(acc.deep_view() + Seq::empty() =~= acc.deep_view());
                return Parsed::Hit(acc, j);
            },
            Parsed::Fail(e) => {
                return Parsed::Fail(e);
            },
        }
    }
}

pub fn table_at(src: &Source, i: usize) -> (r: Parsed<Table>)
    requires
        src.wf(),
        i <= src.s().len(),
    ensures
        r.deep_view() == spec_table(src.s(), i as int),
        r matches Parsed::Hit(_, e) ==> i <= e <= src.s().len(),
{
    let (heading, q) = match table_heading_at(src, i) {
        Parsed::Hit(h, q) => (h, q),
        Parsed::Miss => (Vec::new(), i),
        Parsed::Fail(e) => {
            return Parsed::Fail(e);
        },
    };
    assert(heading.deep_view() =~= (match spec_table_heading(src.s(), i as int) {
        Out::Hit(h, _) => h,
        _ => Seq::empty(),
    }));
    match table_rows_at(src, q, heading.len()) {
        Parsed::Hit(rows, t) => {
            if rows.len() > 0 {
                Parsed::Hit(Table { heading, body: rows }, t)
            } else {
                Parsed::Miss
            }
        },
        Parsed::Miss => Parsed::Miss,
        Parsed::Fail(e) => Parsed::Fail(e),
    }
}

pub fn paragraph_at(src: &Source, i: usize) -> (r: Parsed<Paragraph>)
    requires
        src.wf(),
        i <= src.s().len(),
    ensures
        r.deep_view() == spec_paragraph(src.s(), i as int),
        r matches Parsed::Hit(_, e) ==> i <= e <= src.s().len(),
{
    match table_at(src, i) {
        Parsed::Hit(t, q) => Parsed::Hit(Paragraph::Table(t), q),
        Parsed::Miss => text_paragraph_at(src, i),
        Parsed::Fail(e) => Parsed::Fail(e),
    }
}

/// Zero or more paragraphs.
pub fn paragraphs_at(src: &Source, i: usize) -> (r: Parsed<Vec<Paragraph>>)
    requires
        src.wf(),
        i <= src.s().len(),
    ensures
        r.deep_view() == spec_paragraphs(src.s(), i as int),
        r matches Parsed::Hit(_, e) ==> i <= e <= src.s().len(),
{
    let ghost s = src.s();
    let mut acc: Vec<Paragraph> = Vec::new();
    let mut j = i;
    proof {
        lemma_prepend_empty(spec_paragraphs(s, i as int));
    }
    loop
        invariant
            src.wf(),
            s == src.s(),
            i <= j <= s.len(),
            spec_paragraphs(s, i as int) == prepend_out(acc.deep_view(), spec_paragraphs(s, j as int)),
        decreases s.len() - j,
    {
        match paragraph_at(src, j) {
            Parsed::Hit(x, k) => {
                if k <= j {
                    let ghost before = acc.deep_view();
                    let ghost xv = x.deep_view();
                    acc.push(x);
                    assert(acc.deep_view() =~= before + seq![xv]);
                    return Parsed::Hit(acc, k);
                }
                proof {
                    lemma_prepend_cons(acc.deep_view(), x.deep_view(), spec_paragraphs(s, k as int), k as int);
                }
                let ghost before = acc.deep_view();
                acc.push(x);
                assert(acc.deep_view() =~= before.push(x.deep_view()));
                j = k;
            },
            Parsed::Miss => {
                assert(acc.deep_view() + Seq::empty() =~= acc.deep_view());
                return Parsed::Hit(acc, j);
            },
            Parsed::Fail(e) => {
                return Parsed::Fail(e);
            },
        }
    }
}

pub fn body_at(src: &Source, i: usize) -> (r: Parsed<Vec<Paragraph>>)
    requires
        src.wf(),
        i <= src.s().len(),
    ensures
        r.deep_view() == spec_body(src.s(), i as int),
        r matches Parsed::Hit(_, e) ==> i <= e <= src.s().len(),
{
    match paragraphs_at(src, i) {
        Parsed::Hit(v, q) => {
            if v.len() > 0 {
                Parsed::Hit(v, q)
            } else {
                Parsed::Miss
            }
        },
        Parsed::Miss => Parsed::Miss,
        Parsed::Fail(e) => Parsed::Fail(e),
    }
}


pub fn tag_at(src: &Source, i: usize) -> (r: Option<(Tag, usize)>)
    requires
        src.wf(),
        i <= src.s().len(),
    ensures
        r matches Some((t, e)) ==> spec_tag(src.s(), i as int) == Some((t.deep_view(), e as int))
            && i < e <= src.s().len(),
        r is None ==> spec_tag(src.s(), i as int) is None,
{
    let s = &src.chars;
    let (category, j) = if i < s.len() && s[i] == '?' {
        (TagCategory::Requires, i + 1)
    } else if i < s.len() && s[i] == '=' {
        (TagCategory::Satisfies, i + 1)
    } else {
        (TagCategory::Simple, i)
    };
    let k = scan(s, j, CharClass::TagName);
    if j < k {
        let name = src.slice(j, k);
        Some((Tag { category, name }, k))
    } else {
        None
    }
}

/// Further tags, each after a `,`.
pub fn more_tags_at(src: &Source, i: usize) -> (r: (Vec<Tag>, usize))
    requires
        src.wf(),
        i <= src.s().len(),
    ensures
        spec_more_tags(src.s(), i as int) == (r.0.deep_view(), r.1 as int),
        i <= r.1 <= src.s().len(),
    decreases src.s().len() - i,
{
    if i < src.chars.len() && src.chars[i] == ',' {
        match tag_at(src, i + 1) {
            Some((t, k)) => {
                let ghost tv = t.deep_view();
                let (rest, e) = more_tags_at(src, k);
                let ghost rv = rest.deep_view();
                let mut v = rest;
                v.insert(0, t);
                assert(v.deep_view() =~= seq![tv] + rv);
                (v, e)
            },
            None => {
                let v: Vec<Tag> = Vec::new();
                assert(v.deep_view() =~= Seq::empty());
                (v, i)
            },
        }
    } else {
        let v: Vec<Tag> = Vec::new();
        assert(v.deep_view() =~= Seq::empty());
        (v, i)
    }
}

pub fn tags_at(src: &Source, i: usize) -> (r: Option<(Vec<Tag>, usize)>)
    requires
        src.wf(),
        i <= src.s().len(),
    ensures
        r matches Some((t, e)) ==> spec_tags(src.s(), i as int) == Some((t.deep_view(), e as int))
            && i < e <= src.s().len(),
        r is None ==> spec_tags(src.s(), i as int) is None,
{
    let s = &src.chars;
    if i < s.len() && s[i] == '[' {
        let (tags, q) = match tag_at(src, i + 1) {
            Some((t, k)) => {
                let ghost tv = t.deep_view();
                let (rest, e) = more_tags_at(src, k);
                let ghost rv = rest.deep_view();
                let mut v = rest;
                v.insert(0, t);
                assert(v.deep_view() =~= seq![tv] + rv);
                (v, e)
            },
            None => {
                let v: Vec<Tag> = Vec::new();
                assert(v.deep_view() =~= Seq::empty());
                (v, i + 1)
            },
        };
        if q < s.len() && s[q] == ']' {
            Some((tags, q + 1))
        } else {
            None
        }
    } else {
        None
    }
}

pub fn words_end_at(s: &Vec<char>, i: usize) -> (r: usize)
    requires
        i <= s@.len(),
    ensures
        r == words_end(s@, i as int),
        i <= r <= s@.len(),
{
    let mut j = i;
    loop
        invariant
            i <= j <= s@.len(),
            words_end(s@, i as int) == words_end(s@, j as int),
        decreases s@.len() - j,
    {
        let a = scan(s, j, CharClass::Space);
        let k = scan(s, a, CharClass::Word);
        if j < a && a < k {
            j = k;
        } else {
            return j;
        }
    }
}

pub fn heading_at(src: &Source, i: usize, rank: usize) -> (r: Option<(Heading, usize)>)
    requires
        src.wf(),
        i <= src.s().len(),
    ensures
        r matches Some((h, e)) ==> spec_heading(src.s(), i as int, rank as nat) == Some((h.deep_view(), e as int))
            && i < e <= src.s().len(),
        r is None ==> spec_heading(src.s(), i as int, rank as nat) is None,
        r is Some ==> rank < src.s().len(),
{
    let s = &src.chars;
    let m = scan(s, i, CharClass::Marker);
    let a = scan(s, m, CharClass::Blank);
    let w = scan(s, a, CharClass::Word);
    let e = words_end_at(s, w);
    let b = scan(s, e, CharClass::Blank);
    let (tags, c) = match tags_at(src, b) {
        Some((t, c)) => (t, c),
        None => {
            let v: Vec<Tag> = Vec::new();
            assert(v.deep_view() =~= Seq::empty());
            (v, b)
        },
    };
    if i < m && a < w {
        match end_of_construct_at(s, c) {
            Some(r) => {
                if m - i == rank {
                    let text = src.slice(a, e);
                    Some((Heading { rank, tags, text }, r))
                } else {
                    None
                }
            },
            None => None,
        }
    } else {
        None
    }
}


pub fn section_at(src: &Source, i: usize, rank: usize) -> (r: Parsed<Section>)
    requires
        src.wf(),
        i <= src.s().len(),
    ensures
        r.deep_view() == spec_section(src.s(), i as int, rank as nat),
        r matches Parsed::Hit(_, e) ==> i < e <= src.s().len(),
    decreases src.s().len() - i, 0nat,
{
    let p = skip_blank_lines_at(&src.chars, i);
    match heading_at(src, p, rank) {
        Some((heading, q)) => {
            let (body, r) = match body_at(src, q) {
                Parsed::Hit(b, r) => (b, r),
                Parsed::Miss => (Vec::new(), q),
                Parsed::Fail(e) => {
                    return Parsed::Fail(e);
                },
            };
            assert(body.deep_view() =~= (match spec_body(src.s(), q as int) {
                Out::Hit(b, _) => b,
                _ => Seq::empty(),
            }));
            let n = src.chars.len();
            assert(rank < n);
            if i < r {
                match sections_at(src, r, rank + 1) {
                    Parsed::Hit(subsections, t) => {
                        let sec = Section { heading, body, subsections };
                        proof {
                            crate::markup::lemma_section_subsections(sec);
                        }
                        Parsed::Hit(sec, t)
                    },
                    Parsed::Miss => Parsed::Miss,
                    Parsed::Fail(e) => Parsed::Fail(e),
                }
            } else {
                Parsed::Miss
            }
        },
        None => Parsed::Miss,
    }
}

/// Zero or more sections of the given rank.
pub fn sections_at(src: &Source, i: usize, rank: usize) -> (r: Parsed<Vec<Section>>)
    requires
        src.wf(),
        i <= src.s().len(),
    ensures
        r.deep_view() == spec_sections(src.s(), i as int, rank as nat),
        r matches Parsed::Hit(_, e) ==> i <= e <= src.s().len(),
    decreases src.s().len() - i, 1nat,
{
    let ghost s = src.s();
    let mut acc: Vec<Section> = Vec::new();
    let mut j = i;
    proof {
        lemma_prepend_empty(spec_sections(s, i as int, rank as nat));
    }
    loop
        invariant
            src.wf(),
            s == src.s(),
            i <= j <= s.len(),
            spec_sections(s, i as int, rank as nat) == prepend_out(acc.deep_view(), spec_sections(s, j as int, rank as nat)),
        decreases s.len() - j,
    {
        match section_at(src, j, rank) {
            Parsed::Hit(x, k) => {
                proof {
                    lemma_prepend_cons(acc.deep_view(), x.deep_view(), spec_sections(s, k as int, rank as nat), k as int);
                }
                let ghost before = acc.deep_view();
                acc.push(x);
                assert(acc.deep_view() =~= before.push(x.deep_view()));
                j = k;
            },
            Parsed::Miss => {
                assert(acc.deep_view() + Seq::empty() =~= acc.deep_view());
                return Parsed::Hit(acc, j);
            },
            Parsed::Fail(e) => {
                return Parsed::Fail(e);
            },
        }
    }
}


/// What a result denotes.
pub open spec fn result_view<T: DeepView>(r: Result<T, ParseError>) -> Result<T::V, ParseError> {
    match r {
        Ok(v) => Ok(v.deep_view()),
        Err(e) => Err(e),
    }
}

/// Demands that a rule read the whole text.
fn finish<T: DeepView>(src: &Source, p: Parsed<T>) -> (r: Result<T, ParseError>)
    requires
        src.wf(),
    ensures
        result_view(r) == whole(src.s(), p.deep_view()),
{
    match p {
        Parsed::Hit(v, e) => {
            if e == src.chars.len() {
                Ok(v)
            } else {
                Err(ParseError { kind: ParseErrorKind::IncompleteParse, offset: e })
            }
        },
        Parsed::Miss => Err(ParseError { kind: ParseErrorKind::IncompleteParse, offset: 0 }),
        Parsed::Fail(e) => Err(e),
    }
}

/// Demands that a rule that cannot fail outright read the whole text.
fn finish_option<T: DeepView>(src: &Source, p: Option<(T, usize)>) -> (r: Result<T, ParseError>)
    requires
        src.wf(),
    ensures
        result_view(r) == whole_option(src.s(), match p {
            Some((v, e)) => Some((v.deep_view(), e as int)),
            None => None,
        }),
{
    match p {
        Some((v, e)) => finish(src, Parsed::Hit(v, e)),
        None => finish(src, Parsed::<T>::Miss),
    }
}

/// Reads a whole text as one span.
pub fn span(text: &str) -> (r: Result<Span, ParseError>)
    ensures
        result_view(r) == whole(text@, spec_span(text@, 0, false)),
{
    let src = Source::new(text);
    let p = span_at(&src, 0, false);
    finish(&src, p)
}

/// Reads a whole text as a body: one or more paragraphs.
pub fn body(text: &str) -> (r: Result<Vec<Paragraph>, ParseError>)
    ensures
        result_view(r) == whole(text@, spec_body(text@, 0)),
{
    let src = Source::new(text);
    let p = body_at(&src, 0);
    finish(&src, p)
}

/// Reads a whole text as a tag list.
pub fn tags(text: &str) -> (r: Result<Vec<Tag>, ParseError>)
    ensures
        result_view(r) == whole_option(text@, spec_tags(text@, 0)),
{
    let src = Source::new(text);
    let p = tags_at(&src, 0);
    finish_option(&src, p)
}

/// Reads a whole text as a heading of the given rank.
pub fn heading(text: &str, rank: usize) -> (r: Result<Heading, ParseError>)
    ensures
        result_view(r) == whole_option(text@, spec_heading(text@, 0, rank as nat)),
{
    let src = Source::new(text);
    let p = heading_at(&src, 0, rank);
    finish_option(&src, p)
}

/// Reads a whole text as a section of the given rank.
pub fn section(text: &str, rank: usize) -> (r: Result<Section, ParseError>)
    ensures
        result_view(r) == whole(text@, spec_section(text@, 0, rank as nat)),
{
    let src = Source::new(text);
    let p = section_at(&src, 0, rank);
    finish(&src, p)
}

/// The document named `name` whose top-level sections a parse gave.
pub open spec fn document_view(name: Seq<char>, d: Result<Seq<SectionView>, ParseError>) -> Result<BlueprintView, ParseError> {
    match d {
        Ok(secs) => Ok(BlueprintView {
            name,
            root: SectionView { heading: empty_heading(), body: Seq::empty(), subsections: secs },
        }),
        Err(e) => Err(e),
    }
}

fn trailing_error_at(src: &Source, q: usize) -> (r: ParseError)
    requires
        src.wf(),
        q <= src.s().len(),
    ensures
        r == trailing_error(src.s(), q as int),
{
    let p = skip_blank_lines_at(&src.chars, q);
    let m = scan(&src.chars, p, CharClass::Marker);
    if heading_at(src, p, m - p).is_some() {
        ParseError { kind: ParseErrorKind::WrongRank, offset: p }
    } else {
        ParseError { kind: ParseErrorKind::IncompleteParse, offset: q }
    }
}

/// Reads a whole text as the document named `name`.
pub fn blueprint(text: &str, name: &str) -> (r: Result<Blueprint, ParseError>)
    ensures
        result_view(r) == document_view(name@, spec_document(text@)),
{
    let src = Source::new(text);
    match sections_at(&src, 0, 1) {
        Parsed::Hit(secs, q) => {
            match end_of_construct_at(&src.chars, q) {
                Some(e) => {
                    if e == src.chars.len() {
                        let root = Section::new_root(secs);
                        return Ok(Blueprint { name: String::from_str(name), root });
                    }
                },
                None => {},
            }
            Err(trailing_error_at(&src, q))
        },
        Parsed::Miss => Err(trailing_error_at(&src, 0)),
        Parsed::Fail(e) => Err(e),
    }
}


/// Every document that parses is a well-ranked tree: each section's
/// subsections are exactly one rank deeper than the section itself, with no
/// rank skipped, from the root's rank-one sections down to the leaves.
pub proof fn lemma_parsed_blueprint_well_ranked(text: Seq<char>, name: Seq<char>)
    ensures
        document_view(name, spec_document(text)) matches Ok(b) ==> well_ranked(b.root),
{
    lemma_document_well_ranked(text);
}

} // verus!
