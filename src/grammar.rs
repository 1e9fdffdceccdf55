//! The markup grammar, stated as functions on the characters of a document.
//!
//! Each rule takes the text and a position and says whether the rule matches
//! there, what it yields and where it ends (`Out::Hit`), that it does not
//! match (`Out::Miss`, after which an ordered choice tries its next
//! alternative), or that the text is malformed in a way that no alternative
//! can mend (`Out::Fail`).
use vstd::prelude::*;
use crate::markup::{
    TagCategory, TagView, SpanType, SpanView, TableView, ParagraphView, HeadingView, SectionView,
};

verus! {

/// Why a document could not be parsed.
#[derive(Clone, Copy, PartialEq, Eq, Structural, Debug)]
pub enum ParseErrorKind {
    /// A decorated span opened with one delimiter and closed with another.
    MismatchedDelimiters,
    /// A heading whose rank does not fit where it stands.
    WrongRank,
    /// A table row whose cell count differs from its table's separator row.
    SeparatorMismatch,
    /// Text that no rule accounts for.
    IncompleteParse,
}

/// A parse failure and the character offset at which it was found.
#[derive(Clone, Copy, PartialEq, Eq, Structural, Debug)]
pub struct ParseError {
    pub kind: ParseErrorKind,
    pub offset: usize,
}

/// The outcome of a grammar rule at a position.
pub enum Out<T> {
    Hit(T, int),
    Miss,
    Fail(ParseError),
}

pub open spec fn error_at(kind: ParseErrorKind, at: int) -> ParseError {
    ParseError { kind, offset: at as usize }
}

pub open spec fn is_blank(c: char) -> bool {
    c == ' ' || c == '\t'
}

pub open spec fn is_newline(c: char) -> bool {
    c == '\n' || c == '\r'
}

pub open spec fn is_decoration(c: char) -> bool {
    c == '*' || c == '/' || c == '~'
}

pub open spec fn decoration_type(c: char) -> SpanType {
    if c == '*' {
        SpanType::Bold
    } else if c == '/' {
        SpanType::Italic
    } else {
        SpanType::Strikethrough
    }
}

/// The classes of characters that the grammar reads runs of.
#[derive(Clone, Copy, PartialEq, Eq, Structural, Debug)]
pub enum CharClass {
    /// Spaces and tabs.
    Blank,
    /// Line feeds and carriage returns.
    Newline,
    /// The heading marker `#`.
    Marker,
    /// The space character alone.
    Space,
    /// Characters of a heading word.
    Word,
    /// Characters of a tag name.
    TagName,
    /// Characters of a table separator cell.
    Rule,
    /// Characters of an identifier: ASCII letters and digits, `-` and `_`.
    Ident,
}

pub open spec fn in_class(k: CharClass, c: char) -> bool {
    match k {
        CharClass::Blank => is_blank(c),
        CharClass::Newline => is_newline(c),
        CharClass::Marker => c == '#',
        CharClass::Space => c == ' ',
        CharClass::Word => is_word_char(c),
        CharClass::TagName => is_tag_char(c),
        CharClass::Rule => is_rule_char(c),
        CharClass::Ident => is_ident_char(c),
    }
}

/// The end of the run of characters of class `k` that starts at `i`.
pub open spec fn run_end(s: Seq<char>, i: int, k: CharClass) -> int
    decreases s.len() - i,
{
    if 0 <= i < s.len() && in_class(k, s[i]) {
        run_end(s, i + 1, k)
    } else {
        i
    }
}

pub open spec fn skip_blanks(s: Seq<char>, i: int) -> int {
    run_end(s, i, CharClass::Blank)
}

/// End of line: blanks, then one or more newline characters.
pub open spec fn end_of_line(s: Seq<char>, i: int) -> Option<int> {
    let j = skip_blanks(s, i);
    if j < s.len() && is_newline(s[j]) {
        Some(run_end(s, j, CharClass::Newline))
    } else {
        None
    }
}

/// End of construct: blanks, then the end of the text or an end of line.
pub open spec fn end_of_construct(s: Seq<char>, i: int) -> Option<int> {
    if skip_blanks(s, i) == s.len() {
        Some(s.len() as int)
    } else {
        end_of_line(s, i)
    }
}

/// Skips any number of blank lines.
pub open spec fn skip_blank_lines(s: Seq<char>, i: int) -> int
    decreases s.len() - i,
{
    match end_of_line(s, i) {
        Some(j) => if i < j <= s.len() {
            skip_blank_lines(s, j)
        } else {
            i
        },
        None => i,
    }
}

/// Whether plain text stops at `k`: at the end, at an end of line, at a
/// decoration character, or (inside a table cell) at a cell separator.
pub open spec fn plain_stops(s: Seq<char>, k: int, in_cell: bool) -> bool {
    k >= s.len() || end_of_line(s, k) is Some || is_decoration(s[k]) || (in_cell && s[k] == '|')
}

pub open spec fn plain_end(s: Seq<char>, i: int, in_cell: bool) -> int
    decreases s.len() - i,
{
    if 0 <= i < s.len() && !plain_stops(s, i, in_cell) {
        plain_end(s, i + 1, in_cell)
    } else {
        i
    }
}

/// One span: a decorated span where a decoration character stands, plain
/// text otherwise.
pub open spec fn spec_span(s: Seq<char>, i: int, in_cell: bool) -> Out<SpanView> {
    if i < 0 || i >= s.len() {
        Out::Miss
    } else if is_decoration(s[i]) {
        let k = plain_end(s, i + 1, false);
        if i + 1 < k < s.len() && is_decoration(s[k]) {
            if s[k] == s[i] {
                Out::Hit(SpanView { category: decoration_type(s[i]), text: s.subrange(i + 1, k) }, k + 1)
            } else {
                Out::Fail(error_at(ParseErrorKind::MismatchedDelimiters, i))
            }
        } else {
            Out::Miss
        }
    } else {
        let k = plain_end(s, i, in_cell);
        if k > i {
            Out::Hit(SpanView { category: SpanType::Raw, text: s.subrange(i, k) }, k)
        } else {
            Out::Miss
        }
    }
}

/// Puts `x` in front of what a repetition yielded.
pub open spec fn cons_out<T>(x: T, o: Out<Seq<T>>, at: int) -> Out<Seq<T>> {
    match o {
        Out::Hit(v, e) => Out::Hit(seq![x] + v, e),
        Out::Miss => Out::Hit(seq![x], at),
        Out::Fail(err) => Out::Fail(err),
    }
}

/// Zero or more spans.
pub open spec fn spec_spans(s: Seq<char>, i: int, in_cell: bool) -> Out<Seq<SpanView>>
    decreases s.len() - i,
{
    match spec_span(s, i, in_cell) {
        Out::Hit(x, j) => if i < j <= s.len() {
            cons_out(x, spec_spans(s, j, in_cell), j)
        } else {
            Out::Hit(seq![x], j)
        },
        Out::Miss => Out::Hit(Seq::empty(), i),
        Out::Fail(err) => Out::Fail(err),
    }
}

/// A paragraph of text: not a heading line, one or more spans, then the end
/// of the construct.
pub open spec fn spec_text_paragraph(s: Seq<char>, i: int) -> Out<ParagraphView> {
    let p = skip_blank_lines(s, i);
    if p < s.len() && s[p] == '#' {
        Out::Miss
    } else {
        match spec_spans(s, p, false) {
            Out::Hit(v, q) => if v.len() == 0 {
                Out::Miss
            } else {
                match end_of_construct(s, q) {
                    Some(r) => Out::Hit(ParagraphView::Spans(v), r),
                    None => Out::Miss,
                }
            },
            Out::Miss => Out::Miss,
            Out::Fail(err) => Out::Fail(err),
        }
    }
}

/// One or more cells, separated by `|`; each cell is one or more spans.
pub open spec fn spec_cells(s: Seq<char>, i: int) -> Out<Seq<Seq<SpanView>>>
    decreases s.len() - i,
{
    match spec_spans(s, i, true) {
        Out::Hit(c, q) => if c.len() == 0 {
            Out::Miss
        } else if i <= q < s.len() && s[q] == '|' {
            cons_out(c, spec_cells(s, q + 1), q)
        } else {
            Out::Hit(seq![c], q)
        },
        Out::Miss => Out::Miss,
        Out::Fail(err) => Out::Fail(err),
    }
}

/// A table row: two or more cells, then the end of the construct.
pub open spec fn spec_table_row(s: Seq<char>, i: int) -> Out<Seq<Seq<SpanView>>> {
    match spec_cells(s, skip_blank_lines(s, i)) {
        Out::Hit(cells, q) => if cells.len() >= 2 {
            match end_of_construct(s, q) {
                Some(r) => Out::Hit(cells, r),
                None => Out::Miss,
            }
        } else {
            Out::Miss
        },
        Out::Miss => Out::Miss,
        Out::Fail(err) => Out::Fail(err),
    }
}

pub open spec fn is_ident_char(c: char) -> bool {
    ('a' <= c <= 'z') || ('A' <= c <= 'Z') || ('0' <= c <= '9') || c == '-' || c == '_'
}

pub open spec fn is_rule_char(c: char) -> bool {
    c == '-' || c == ' '
}

/// The number of cells of a separator row (runs of `-` and spaces separated
/// by `|`) and where they end.
pub open spec fn separator_cells(s: Seq<char>, i: int) -> Option<(nat, int)>
    decreases s.len() - i,
{
    let k = run_end(s, i, CharClass::Rule);
    if 0 <= i < k {
        if k < s.len() && s[k] == '|' {
            match separator_cells(s, k + 1) {
                Some((n, r)) => Some((n + 1, r)),
                None => Some((1, k)),
            }
        } else {
            Some((1, k))
        }
    } else {
        None
    }
}

/// A table heading: a row followed by a separator row with as many cells.
/// A separator row with another number of cells is an error.
pub open spec fn spec_table_heading(s: Seq<char>, i: int) -> Out<Seq<Seq<SpanView>>> {
    match spec_table_row(s, i) {
        Out::Hit(row, q) => {
            let p = skip_blanks(s, q);
            match separator_cells(s, p) {
                Some((n, r)) => if n >= 2 {
                    match end_of_construct(s, r) {
                        Some(t) => if n == row.len() {
                            Out::Hit(row, t)
                        } else {
                            Out::Fail(error_at(ParseErrorKind::SeparatorMismatch, p))
                        },
                        None => Out::Miss,
                    }
                } else {
                    Out::Miss
                },
                None => Out::Miss,
            }
        },
        Out::Miss => Out::Miss,
        Out::Fail(err) => Out::Fail(err),
    }
}

/// Zero or more table rows. Where the table has a heading, `width` is its
/// cell count and a row with another count is an error; zero means no
/// heading.
pub open spec fn spec_table_rows(s: Seq<char>, i: int, width: nat) -> Out<Seq<Seq<Seq<SpanView>>>>
    decreases s.len() - i,
{
    match spec_table_row(s, i) {
        Out::Hit(x, j) => if width != 0 && x.len() != width {
            Out::Fail(error_at(ParseErrorKind::SeparatorMismatch, skip_blank_lines(s, i)))
        } else if i < j <= s.len() {
            cons_out(x, spec_table_rows(s, j, width), j)
        } else {
            Out::Hit(seq![x], j)
        },
        Out::Miss => Out::Hit(Seq::empty(), i),
        Out::Fail(err) => Out::Fail(err),
    }
}

/// A table: an optional heading, then one or more rows.
pub open spec fn spec_table(s: Seq<char>, i: int) -> Out<TableView> {
    let (head, q) = match spec_table_heading(s, i) {
        Out::Hit(h, q) => (h, q),
        _ => (Seq::empty(), i),
    };
    match spec_table_heading(s, i) {
        Out::Fail(err) => Out::Fail(err),
        _ => match spec_table_rows(s, q, head.len()) {
            Out::Hit(rows, t) => if rows.len() > 0 {
                Out::Hit(TableView { heading: head, body: rows }, t)
            } else {
                Out::Miss
            },
            Out::Miss => Out::Miss,
            Out::Fail(err) => Out::Fail(err),
        },
    }
}

/// A paragraph: a table, else a paragraph of text.
pub open spec fn spec_paragraph(s: Seq<char>, i: int) -> Out<ParagraphView> {
    match spec_table(s, i) {
        Out::Hit(t, q) => Out::Hit(ParagraphView::Table(t), q),
        Out::Miss => spec_text_paragraph(s, i),
        Out::Fail(err) => Out::Fail(err),
    }
}

/// Zero or more paragraphs.
pub open spec fn spec_paragraphs(s: Seq<char>, i: int) -> Out<Seq<ParagraphView>>
    decreases s.len() - i,
{
    match spec_paragraph(s, i) {
        Out::Hit(x, j) => if i < j <= s.len() {
            cons_out(x, spec_paragraphs(s, j), j)
        } else {
            Out::Hit(seq![x], j)
        },
        Out::Miss => Out::Hit(Seq::empty(), i),
        Out::Fail(err) => Out::Fail(err),
    }
}

/// A body: one or more paragraphs.
pub open spec fn spec_body(s: Seq<char>, i: int) -> Out<Seq<ParagraphView>> {
    match spec_paragraphs(s, i) {
        Out::Hit(v, q) => if v.len() > 0 {
            Out::Hit(v, q)
        } else {
            Out::Miss
        },
        other => other,
    }
}

pub open spec fn is_tag_char(c: char) -> bool {
    c != ']' && c != ','
}

/// A tag: an optional `?` or `=`, then one or more characters other than
/// `]` and `,`.
pub open spec fn spec_tag(s: Seq<char>, i: int) -> Option<(TagView, int)> {
    let (category, j) = if 0 <= i < s.len() && s[i] == '?' {
        (TagCategory::Requires, i + 1)
    } else if 0 <= i < s.len() && s[i] == '=' {
        (TagCategory::Satisfies, i + 1)
    } else {
        (TagCategory::Simple, i)
    };
    let k = run_end(s, j, CharClass::TagName);
    if j < k {
        Some((TagView { category, name: s.subrange(j, k) }, k))
    } else {
        None
    }
}

/// Further tags, each after a `,`.
pub open spec fn spec_more_tags(s: Seq<char>, i: int) -> (Seq<TagView>, int)
    decreases s.len() - i,
{
    if 0 <= i < s.len() && s[i] == ',' {
        match spec_tag(s, i + 1) {
            Some((t, k)) => if i < k <= s.len() {
                let (rest, e) = spec_more_tags(s, k);
                (seq![t] + rest, e)
            } else {
                (seq![t], k)
            },
            None => (Seq::empty(), i),
        }
    } else {
        (Seq::empty(), i)
    }
}

/// A tag list: `[`, tags separated by `,`, then `]`.
pub open spec fn spec_tags(s: Seq<char>, i: int) -> Option<(Seq<TagView>, int)> {
    if 0 <= i < s.len() && s[i] == '[' {
        let (tags, q) = match spec_tag(s, i + 1) {
            Some((t, k)) => {
                let (rest, e) = spec_more_tags(s, k);
                (seq![t] + rest, e)
            },
            None => (Seq::empty(), i + 1),
        };
        if 0 <= q < s.len() && s[q] == ']' {
            Some((tags, q + 1))
        } else {
            None
        }
    } else {
        None
    }
}

pub open spec fn is_word_char(c: char) -> bool {
    c != '\n' && c != '\r' && c != '[' && c != ' '
}

/// Having read a word up to `i`, reads further words, each after one or more
/// spaces, and gives where the last of them ends.
pub open spec fn words_end(s: Seq<char>, i: int) -> int
    decreases s.len() - i,
{
    let j = run_end(s, i, CharClass::Space);
    let k = run_end(s, j, CharClass::Word);
    if 0 <= i < j < k <= s.len() {
        words_end(s, k)
    } else {
        i
    }
}

/// A heading line of the given rank: markers, blanks, words, blanks, an
/// optional tag list, then the end of the construct.
pub open spec fn spec_heading(s: Seq<char>, i: int, rank: nat) -> Option<(HeadingView, int)> {
    let m = run_end(s, i, CharClass::Marker);
    let a = skip_blanks(s, m);
    let w = run_end(s, a, CharClass::Word);
    let e = words_end(s, w);
    let b = skip_blanks(s, e);
    let (tags, c) = match spec_tags(s, b) {
        Some((t, c)) => (t, c),
        None => (Seq::empty(), b),
    };
    if 0 <= i < m && a < w {
        match end_of_construct(s, c) {
            Some(r) => if m - i == rank {
                Some((HeadingView { rank, tags, text: s.subrange(a, e) }, r))
            } else {
                None
            },
            None => None,
        }
    } else {
        None
    }
}

/// A section of the given rank: blank lines, its heading, an optional body,
/// then any number of sections one rank deeper.
pub open spec fn spec_section(s: Seq<char>, i: int, rank: nat) -> Out<SectionView>
    decreases s.len() - i, 0nat,
{
    match spec_heading(s, skip_blank_lines(s, i), rank) {
        Some((h, q)) => {
            let (body, r) = match spec_body(s, q) {
                Out::Hit(b, r) => (b, r),
                _ => (Seq::empty(), q),
            };
            match spec_body(s, q) {
                Out::Fail(err) => Out::Fail(err),
                _ => if i < r <= s.len() {
                    match spec_sections(s, r, rank + 1) {
                        Out::Hit(subs, t) => Out::Hit(
                            SectionView { heading: h, body, subsections: subs },
                            t,
                        ),
                        Out::Miss => Out::Miss,
                        Out::Fail(err) => Out::Fail(err),
                    }
                } else {
                    Out::Miss
                },
            }
        },
        None => Out::Miss,
    }
}

/// Zero or more sections of the given rank.
pub open spec fn spec_sections(s: Seq<char>, i: int, rank: nat) -> Out<Seq<SectionView>>
    decreases s.len() - i, 1nat,
{
    match spec_section(s, i, rank) {
        Out::Hit(x, j) => if i < j <= s.len() {
            cons_out(x, spec_sections(s, j, rank), j)
        } else {
            Out::Hit(seq![x], j)
        },
        Out::Miss => Out::Hit(Seq::empty(), i),
        Out::Fail(err) => Out::Fail(err),
    }
}


/// What is wrong with the text left at `q` once no further section can be
/// read: a heading that cannot stand at that depth, or text that no rule
/// accounts for.
pub open spec fn trailing_error(s: Seq<char>, q: int) -> ParseError {
    let p = skip_blank_lines(s, q);
    let m = run_end(s, p, CharClass::Marker);
    if spec_heading(s, p, (m - p) as nat) is Some {
        error_at(ParseErrorKind::WrongRank, p)
    } else {
        error_at(ParseErrorKind::IncompleteParse, q)
    }
}

/// A whole document: any number of rank-one sections, then the end of the
/// construct, which must be the end of the text.
pub open spec fn spec_document(s: Seq<char>) -> Result<Seq<SectionView>, ParseError> {
    match spec_sections(s, 0, 1) {
        Out::Hit(secs, q) => if end_of_construct(s, q) == Some(s.len() as int) {
            Ok(secs)
        } else {
            Err(trailing_error(s, q))
        },
        Out::Miss => Err(trailing_error(s, 0)),
        Out::Fail(err) => Err(err),
    }
}

/// A text read whole by one rule: the rule must match at its start and end
/// at its end.
pub open spec fn whole<T>(s: Seq<char>, o: Out<T>) -> Result<T, ParseError> {
    match o {
        Out::Hit(v, e) => if e == s.len() {
            Ok(v)
        } else {
            Err(error_at(ParseErrorKind::IncompleteParse, e))
        },
        Out::Miss => Err(error_at(ParseErrorKind::IncompleteParse, 0)),
        Out::Fail(err) => Err(err),
    }
}

/// A text read whole by a rule that cannot fail outright.
pub open spec fn whole_option<T>(s: Seq<char>, o: Option<(T, int)>) -> Result<T, ParseError> {
    match o {
        Some((v, e)) => whole(s, Out::Hit(v, e)),
        None => whole(s, Out::<T>::Miss),
    }
}


/// Every subsection of a section is exactly one rank deeper, all the way
/// down.
pub open spec fn well_ranked(s: SectionView) -> bool
    decreases s,
{
    forall|k: int|
        0 <= k < s.subsections.len() ==> (#[trigger] s.subsections[k]).heading.rank == s.heading.rank + 1
            && well_ranked(s.subsections[k])
}

/// Every section that the section rule reads has the rank it was asked for and
/// is well ranked.
pub proof fn lemma_section_well_ranked(s: Seq<char>, i: int, rank: nat)
    ensures
        spec_section(s, i, rank) matches Out::Hit(sec, _) ==> sec.heading.rank == rank && well_ranked(sec),
    decreases s.len() - i, 0nat,
{
    match spec_heading(s, skip_blank_lines(s, i), rank) {
        Some((h, q)) => {
            let r = match spec_body(s, q) {
                Out::Hit(b, r) => r,
                _ => q,
            };
            if i < r <= s.len() {
                lemma_sections_well_ranked(s, r, rank + 1);
            }
        },
        None => {},
    }
}

/// Every section of a run that the sections rule reads has the rank it was
/// asked for and is well ranked.
pub proof fn lemma_sections_well_ranked(s: Seq<char>, i: int, rank: nat)
    ensures
        spec_sections(s, i, rank) matches Out::Hit(v, _) ==> forall|k: int|
            0 <= k < v.len() ==> (#[trigger] v[k]).heading.rank == rank && well_ranked(v[k]),
    decreases s.len() - i, 1nat,
{
    lemma_section_well_ranked(s, i, rank);
    match spec_section(s, i, rank) {
        Out::Hit(x, j) => if i < j <= s.len() {
            lemma_sections_well_ranked(s, j, rank);
            match spec_sections(s, j, rank) {
                Out::Hit(rest, e) => {
                    let v = seq![x] + rest;
                    assert forall|k: int| 0 <= k < v.len() implies (#[trigger] v[k]).heading.rank == rank
                        && well_ranked(v[k]) by {
                        if k > 0 {
                            assert(v[k] == rest[k - 1]);
                        }
                    }
                },
                _ => {},
            }
        },
        _ => {},
    }
}

/// The tree of a parsed document is well ranked: its top-level sections have
/// rank one, and every subsection is exactly one rank deeper than its parent.
pub proof fn lemma_document_well_ranked(s: Seq<char>)
    ensures
        spec_document(s) matches Ok(secs) ==> well_ranked(
            SectionView { heading: HeadingView { rank: 0, tags: Seq::empty(), text: Seq::empty() }, body: Seq::empty(), subsections: secs },
        ),
{
    lemma_sections_well_ranked(s, 0, 1);
}

} // verus!
