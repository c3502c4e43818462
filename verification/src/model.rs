use vstd::prelude::*;
use crate::chars::is_digit;
use crate::text::{lower_ascii_seq, lower_ascii_chars, contains_sub, contains_chars, str_to_chars};

verus! {

/// One anchor element of a value cell: its concatenated text and the three
/// attributes that decide visibility.
pub struct AnchorModel {
    /// The anchor's text content, joined over its text nodes.
    pub text: String,
    /// Whether a `hidden` attribute is present.
    pub hidden_attr: bool,
    /// The inline `style` attribute, when present.
    pub style: Option<String>,
    /// The `aria-hidden` attribute, when present.
    pub aria_hidden: Option<String>,
}

/// One label/value row: the text of its first two cells and the anchors of
/// the value cell.
pub struct RowModel {
    /// The first cell's text content.
    pub label: String,
    /// The second cell's text content.
    pub value: String,
    /// The anchor elements inside the value cell, in document order.
    pub anchors: Vec<AnchorModel>,
}

/// One italic label found directly under a paragraph, with the text of every
/// span inside the paragraph.
pub struct ItalicModel {
    /// The italic element's text content.
    pub label: String,
    /// The text of each span element under the italic's parent, in order.
    pub spans: Vec<String>,
}

/// Everything the extraction logic reads from one document: its label/value
/// rows and its italic-labeled span groups, in document order.
pub struct PageModel {
    pub rows: Vec<RowModel>,
    pub italics: Vec<ItalicModel>,
}

/// The extraction result: phones and names, deduped, in discovery order.
pub struct PageContacts {
    pub phones: Vec<String>,
    pub names: Vec<String>,
}

impl Default for PageContacts {
    /// An empty result: no phones and no names.
    fn default() -> (r: PageContacts)
        ensures
            r.phones@.len() == 0,
            r.names@.len() == 0,
    {
        PageContacts { phones: Vec::new(), names: Vec::new() }
    }
}

/// The ghost view of one anchor: its text, whether a `hidden` attribute is
/// present, its `style` value, and its `aria-hidden` value.
pub type AnchorView = (Seq<char>, bool, Option<Seq<char>>, Option<Seq<char>>);

/// The ghost view of one label/value row: label text, value text, and the
/// value cell's anchors.
pub type RowView = (Seq<char>, Seq<char>, Seq<AnchorView>);

/// The ghost view of one row as parsed: the first two cell texts, each
/// present only when the cell exists, and the value cell's anchors (empty
/// when that cell is absent).
pub type RawRowView = (Option<Seq<char>>, Option<Seq<char>>, Seq<AnchorView>);

/// The ghost view of one italic group: its label text and its span texts.
pub type ItalicView = (Seq<char>, Seq<Seq<char>>);

/// The view of an optional string.
pub open spec fn opt_view(o: Option<String>) -> Option<Seq<char>> {
    match o {
        Some(s) => Some(s@),
        None => None,
    }
}

pub open spec fn anchor_view(a: AnchorModel) -> AnchorView {
    (a.text@, a.hidden_attr, opt_view(a.style), opt_view(a.aria_hidden))
}

pub open spec fn row_view(r: RowModel) -> RowView {
    (r.label@, r.value@, anchors_views(r.anchors@))
}

pub open spec fn italic_view(i: ItalicModel) -> ItalicView {
    (i.label@, i.spans.deep_view())
}

pub open spec fn anchors_views(s: Seq<AnchorModel>) -> Seq<AnchorView> {
    s.map_values(|a: AnchorModel| anchor_view(a))
}

pub open spec fn rows_views(s: Seq<RowModel>) -> Seq<RowView> {
    s.map_values(|r: RowModel| row_view(r))
}

pub open spec fn italics_views(s: Seq<ItalicModel>) -> Seq<ItalicView> {
    s.map_values(|i: ItalicModel| italic_view(i))
}

/// Whether the element is visually hidden: a `hidden` attribute, an inline
/// style that disables display, visibility or opacity, or an `aria-hidden`
/// attribute equal (ASCII case-insensitively) to "true".
pub open spec fn hidden_spec(a: AnchorView) -> bool {
    a.1 || (match a.2 {
        Some(st) => {
            let l = lower_ascii_seq(st);
            contains_sub(l, "display:none"@) || contains_sub(l, "visibility:hidden"@)
                || contains_sub(l, "opacity:0"@) || contains_sub(l, "opacity: 0"@)
        },
        None => false,
    }) || (match a.3 {
        Some(v) => lower_ascii_seq(v) == "true"@,
        None => false,
    })
}

/// Whether two character vectors hold the same characters.
pub fn chars_eq(a: &Vec<char>, b: &Vec<char>) -> (r: bool)
    ensures
        r == (a@ == b@),
{
    if a.len() != b.len() {
        proof {
            assert(a@ != b@);
        }
        return false;
    }
    let mut i: usize = 0;
    while i < a.len()
        invariant
            i <= a@.len(),
            a@.len() == b@.len(),
            forall|j: int| 0 <= j < i ==> a@[j] == b@[j],
        decreases a@.len() - i,
    {
        if a[i] != b[i] {
            return false;
        }
        i += 1;
    }
    proof {
        assert(a@ =~= b@);
    }
    true
}

/// Decides visibility from the element's own attributes alone; an ancestor's
/// hidden state is deliberately not consulted.
pub fn is_element_hidden(a: &AnchorModel) -> (r: bool)
    ensures
        r == hidden_spec(anchor_view(*a)),
{
    if a.hidden_attr {
        return true;
    }
    let style_hit: bool = match &a.style {
        Some(st) => {
            let sv = str_to_chars(st.as_str());
            let l = lower_ascii_chars(&sv);
            contains_chars(&l, &str_to_chars("display:none")) || contains_chars(
                &l,
                &str_to_chars("visibility:hidden"),
            ) || contains_chars(&l, &str_to_chars("opacity:0")) || contains_chars(
                &l,
                &str_to_chars("opacity: 0"),
            )
        },
        None => false,
    };
    if style_hit {
        return true;
    }
    match &a.aria_hidden {
        Some(v) => {
            let lv = lower_ascii_chars(&str_to_chars(v.as_str()));
            chars_eq(&lv, &str_to_chars("true"))
        },
        None => false,
    }
}

/// Whether the sequence holds at least one ASCII decimal digit.
pub open spec fn has_digit(s: Seq<char>) -> bool {
    exists|i: int| 0 <= i < s.len() && is_digit(#[trigger] s[i])
}

/// Whether the string holds at least one ASCII decimal digit.
pub fn has_digit_str(t: &Vec<char>) -> (r: bool)
    ensures
        r == has_digit(t@),
{
    let mut i: usize = 0;
    while i < t.len()
        invariant
            i <= t@.len(),
            forall|j: int| 0 <= j < i ==> !is_digit(#[trigger] t@[j]),
        decreases t@.len() - i,
    {
        if crate::chars::is_digit_char(t[i]) {
            return true;
        }
        i += 1;
    }
    false
}

} // verus!
