use vstd::prelude::*;
use crate::model::{RowModel, PageModel, PageContacts, hidden_spec, is_element_hidden, has_digit,
    has_digit_str, AnchorView, RowView, ItalicView, anchor_view, row_view, italic_view,
    anchors_views, rows_views, italics_views};
use crate::text::{norm_spec, lower_seq, contains_sub, normalize_chars, normalize_text,
    lower_chars, contains_chars, str_to_chars};
use crate::phones::{phones_spec, extract_phones};
use crate::names::{names_spec, extract_person_names};
use crate::{push_unique, push_unique_spec, push_all, push_all_unique};

verus! {

/// The lowercase label keyword that marks a phone-bearing row or italic
/// label ("telefon", written in Cyrillic).
pub open spec fn kw_phone() -> Seq<char> {
    "\u{442}\u{435}\u{43b}\u{435}\u{444}\u{43e}\u{43d}"@
}

/// The lowercase label keyword for a manager row ("rukovoditel", written in
/// Cyrillic).
pub open spec fn kw_manager() -> Seq<char> {
    "\u{440}\u{443}\u{43a}\u{43e}\u{432}\u{43e}\u{434}\u{438}\u{442}\u{435}\u{43b}\u{44c}"@
}

/// The lowercase label keyword for a full-name row ("fio", written in
/// Cyrillic).
pub open spec fn kw_fio() -> Seq<char> {
    "\u{444}\u{438}\u{43e}"@
}

/// How a row is routed by its label.
#[derive(PartialEq, Eq, Structural, Clone, Copy, Debug)]
pub enum RowKind {
    Phone,
    Name,
    Other,
}

/// The routing of a row label: normalized and lowercased, a label holding the
/// phone keyword feeds phone extraction; otherwise one holding the manager or
/// full-name keyword feeds name extraction; every other row is ignored.
pub open spec fn classify_label_spec(label: Seq<char>) -> RowKind {
    let l = lower_seq(norm_spec(label));
    if contains_sub(l, kw_phone()) {
        RowKind::Phone
    } else if contains_sub(l, kw_manager()) || contains_sub(l, kw_fio()) {
        RowKind::Name
    } else {
        RowKind::Other
    }
}

pub fn classify_label(label: &str) -> (r: RowKind)
    ensures
        r == classify_label_spec(label@),
{
    let lv = str_to_chars(label);
    let n = normalize_chars(&lv);
    let l = lower_chars(&n);
    if contains_chars(&l, &str_to_chars("\u{442}\u{435}\u{43b}\u{435}\u{444}\u{43e}\u{43d}")) {
        RowKind::Phone
    } else if contains_chars(
        &l,
        &str_to_chars(
            "\u{440}\u{443}\u{43a}\u{43e}\u{432}\u{43e}\u{434}\u{438}\u{442}\u{435}\u{43b}\u{44c}",
        ),
    ) || contains_chars(&l, &str_to_chars("\u{444}\u{438}\u{43e}")) {
        RowKind::Name
    } else {
        RowKind::Other
    }
}

/// The local name set after visiting each anchor in order: a visible anchor
/// with non-empty normalized text contributes its extracted names under the
/// dedup rule; hidden or empty anchors contribute nothing.
pub open spec fn anchors_fold(aa: Seq<AnchorView>, acc: Seq<Seq<char>>) -> Seq<Seq<char>>
    decreases aa.len(),
{
    if aa.len() == 0 {
        acc
    } else {
        let a = aa[0];
        let acc2 = if !hidden_spec(a) && norm_spec(a.0).len() > 0 {
            push_all(acc, names_spec(norm_spec(a.0)))
        } else {
            acc
        };
        anchors_fold(aa.drop_first(), acc2)
    }
}

/// The names one name-bearing row yields: the anchors' names, or, if no
/// anchor yielded any, the names extracted from the whole value text when
/// that is non-empty.
pub open spec fn row_names_spec(r: RowView) -> Seq<Seq<char>> {
    let local = anchors_fold(r.2, Seq::empty());
    let v = norm_spec(r.1);
    if local.len() == 0 && v.len() > 0 {
        push_all(local, names_spec(v))
    } else {
        local
    }
}

/// The (phones, names) accumulated over the rows in document order.
pub open spec fn rows_fold(
    rows: Seq<RowView>,
    ph: Seq<Seq<char>>,
    nm: Seq<Seq<char>>,
) -> (Seq<Seq<char>>, Seq<Seq<char>>)
    decreases rows.len(),
{
    if rows.len() == 0 {
        (ph, nm)
    } else {
        let r = rows[0];
        let rest = rows.drop_first();
        match classify_label_spec(r.0) {
            RowKind::Phone => rows_fold(rest, push_all(ph, phones_spec(norm_spec(r.1))), nm),
            RowKind::Name => rows_fold(rest, ph, push_all(nm, row_names_spec(r))),
            RowKind::Other => rows_fold(rest, ph, nm),
        }
    }
}

/// The phones accumulated over one italic group's spans: a span whose
/// normalized text is non-empty and holds a digit is appended under the
/// dedup rule.
pub open spec fn spans_fold(ss: Seq<Seq<char>>, ph: Seq<Seq<char>>) -> Seq<Seq<char>>
    decreases ss.len(),
{
    if ss.len() == 0 {
        ph
    } else {
        let t = norm_spec(ss[0]);
        let ph2 = if t.len() > 0 && has_digit(t) {
            push_unique_spec(ph, t)
        } else {
            ph
        };
        spans_fold(ss.drop_first(), ph2)
    }
}

/// The phones accumulated over the italic groups: only a group whose
/// normalized, lowercased label holds the phone keyword contributes its
/// spans.
pub open spec fn italics_fold(its: Seq<ItalicView>, ph: Seq<Seq<char>>) -> Seq<Seq<char>>
    decreases its.len(),
{
    if its.len() == 0 {
        ph
    } else {
        let it = its[0];
        let ph2 = if contains_sub(lower_seq(norm_spec(it.0)), kw_phone()) {
            spans_fold(it.1, ph)
        } else {
            ph
        };
        italics_fold(its.drop_first(), ph2)
    }
}

/// Every phone of the page: the row-based phones first, then the
/// fallback-scanned ones, deduped in discovery order.
pub open spec fn page_phones_spec(rows: Seq<RowView>, italics: Seq<ItalicView>) -> Seq<Seq<char>> {
    italics_fold(italics, rows_fold(rows, Seq::empty(), Seq::empty()).0)
}

/// Every name of the page, deduped in discovery order.
pub open spec fn page_names_spec(rows: Seq<RowView>) -> Seq<Seq<char>> {
    rows_fold(rows, Seq::empty(), Seq::empty()).1
}

/// A sequence without duplicates.
pub open spec fn distinct_seq(l: Seq<Seq<char>>) -> bool {
    forall|i: int, j: int| 0 <= i < j < l.len() ==> l[i] != l[j]
}

proof fn lemma_push_unique_distinct(l: Seq<Seq<char>>, v: Seq<char>)
    requires
        distinct_seq(l),
    ensures
        distinct_seq(push_unique_spec(l, v)),
{
    if !l.contains(v) {
        let p = l.push(v);
        assert forall|i: int, j: int| 0 <= i < j < p.len() implies p[i] != p[j] by {
            if j == l.len() {
                if p[i] == v {
                    assert(l[i] == v);
                    assert(l.contains(v));
                }
            }
        }
    }
}

proof fn lemma_push_all_distinct(l: Seq<Seq<char>>, vs: Seq<Seq<char>>)
    requires
        distinct_seq(l),
    ensures
        distinct_seq(push_all(l, vs)),
    decreases vs.len(),
{
    if vs.len() > 0 {
        lemma_push_unique_distinct(l, vs[0]);
        lemma_push_all_distinct(push_unique_spec(l, vs[0]), vs.drop_first());
    }
}

proof fn lemma_spans_fold_distinct(ss: Seq<Seq<char>>, ph: Seq<Seq<char>>)
    requires
        distinct_seq(ph),
    ensures
        distinct_seq(spans_fold(ss, ph)),
    decreases ss.len(),
{
    if ss.len() > 0 {
        let t = norm_spec(ss[0]);
        if t.len() > 0 && has_digit(t) {
            lemma_push_unique_distinct(ph, t);
            lemma_spans_fold_distinct(ss.drop_first(), push_unique_spec(ph, t));
        } else {
            lemma_spans_fold_distinct(ss.drop_first(), ph);
        }
    }
}

proof fn lemma_rows_fold_distinct(rows: Seq<RowView>, ph: Seq<Seq<char>>, nm: Seq<Seq<char>>)
    requires
        distinct_seq(ph),
        distinct_seq(nm),
    ensures
        distinct_seq(rows_fold(rows, ph, nm).0),
        distinct_seq(rows_fold(rows, ph, nm).1),
    decreases rows.len(),
{
    if rows.len() > 0 {
        let r = rows[0];
        let rest = rows.drop_first();
        match classify_label_spec(r.0) {
            RowKind::Phone => {
                lemma_push_all_distinct(ph, phones_spec(norm_spec(r.1)));
                lemma_rows_fold_distinct(rest, push_all(ph, phones_spec(norm_spec(r.1))), nm);
            },
            RowKind::Name => {
                lemma_push_all_distinct(nm, row_names_spec(r));
                lemma_rows_fold_distinct(rest, ph, push_all(nm, row_names_spec(r)));
            },
            RowKind::Other => {
                lemma_rows_fold_distinct(rest, ph, nm);
            },
        }
    }
}

proof fn lemma_italics_fold_distinct(its: Seq<ItalicView>, ph: Seq<Seq<char>>)
    requires
        distinct_seq(ph),
    ensures
        distinct_seq(italics_fold(its, ph)),
    decreases its.len(),
{
    if its.len() > 0 {
        let it = its[0];
        if contains_sub(lower_seq(norm_spec(it.0)), kw_phone()) {
            lemma_spans_fold_distinct(it.1, ph);
            lemma_italics_fold_distinct(its.drop_first(), spans_fold(it.1, ph));
        } else {
            lemma_italics_fold_distinct(its.drop_first(), ph);
        }
    }
}

/// Neither collection of a page's contacts ever holds the same entry twice:
/// every append goes through the dedup rule.
pub proof fn lemma_page_contacts_distinct(rows: Seq<RowView>, italics: Seq<ItalicView>)
    ensures
        distinct_seq(page_phones_spec(rows, italics)),
        distinct_seq(page_names_spec(rows)),
{
    lemma_rows_fold_distinct(rows, Seq::empty(), Seq::empty());
    lemma_italics_fold_distinct(italics, rows_fold(rows, Seq::empty(), Seq::empty()).0);
}

proof fn lemma_rows_fold_other(rows: Seq<RowView>, ph: Seq<Seq<char>>, nm: Seq<Seq<char>>)
    requires
        forall|i: int| 0 <= i < rows.len() ==> classify_label_spec(#[trigger] rows[i].0) is Other,
    ensures
        rows_fold(rows, ph, nm) == (ph, nm),
    decreases rows.len(),
{
    if rows.len() > 0 {
        assert(classify_label_spec(rows[0].0) is Other);
        assert(forall|i: int| 0 <= i < rows.drop_first().len() ==> rows.drop_first()[i]
            == rows[i + 1]);
        lemma_rows_fold_other(rows.drop_first(), ph, nm);
    }
}

proof fn lemma_italics_fold_nokw(its: Seq<ItalicView>, ph: Seq<Seq<char>>)
    requires
        forall|i: int| 0 <= i < its.len() ==> !contains_sub(
            lower_seq(norm_spec(#[trigger] its[i].0)),
            kw_phone(),
        ),
    ensures
        italics_fold(its, ph) == ph,
    decreases its.len(),
{
    if its.len() > 0 {
        assert(!contains_sub(lower_seq(norm_spec(its[0].0)), kw_phone()));
        assert(forall|i: int| 0 <= i < its.drop_first().len() ==> its.drop_first()[i]
            == its[i + 1]);
        lemma_italics_fold_nokw(its.drop_first(), ph);
    }
}

/// A page with no phone- or name-labeled row and no phone-labeled italic
/// group yields no contact data at all: both collections come out empty.
pub proof fn lemma_empty_page(rows: Seq<RowView>, italics: Seq<ItalicView>)
    requires
        forall|i: int| 0 <= i < rows.len() ==> classify_label_spec(#[trigger] rows[i].0) is Other,
        forall|i: int| 0 <= i < italics.len() ==> !contains_sub(
            lower_seq(norm_spec(#[trigger] italics[i].0)),
            kw_phone(),
        ),
    ensures
        page_phones_spec(rows, italics).len() == 0,
        page_names_spec(rows).len() == 0,
{
    lemma_rows_fold_other(rows, Seq::empty(), Seq::empty());
    lemma_italics_fold_nokw(italics, Seq::empty());
}

/// The names of one name-bearing row, as `row_names_spec` states them.
pub fn row_names(row: &RowModel) -> (r: Vec<String>)
    ensures
        r.deep_view() == row_names_spec(row_view(*row)),
{
    let ghost av = anchors_views(row.anchors@);
    let mut local: Vec<String> = Vec::new();
    proof {
        assert(local.deep_view() =~= Seq::<Seq<char>>::empty());
        assert(av.skip(0) =~= av);
    }
    let mut i: usize = 0;
    while i < row.anchors.len()
        invariant
            i <= row.anchors@.len(),
            av == anchors_views(row.anchors@),
            anchors_fold(av.skip(i as int), local.deep_view()) == anchors_fold(av, Seq::empty()),
        decreases row.anchors@.len() - i,
    {
        let a = &row.anchors[i];
        proof {
            assert(av[i as int] == anchor_view(row.anchors@[i as int]));
        }
        if !is_element_hidden(a) {
            let t = normalize_text(a.text.as_str());
            if !t.as_str().is_empty() {
                let found = extract_person_names(t.as_str());
                push_all_unique(&mut local, &found);
            }
        }
        proof {
            assert(av.skip(i as int)[0] == av[i as int]);
            assert(av.skip(i as int).drop_first() =~= av.skip(i + 1));
        }
        i += 1;
    }
    proof {
        assert(av.skip(i as int) =~= Seq::<AnchorView>::empty());
        assert(local.deep_view() == anchors_fold(av, Seq::empty()));
    }
    if local.len() == 0 {
        let v = normalize_text(row.value.as_str());
        if !v.as_str().is_empty() {
            proof {
                assert(local.deep_view().len() == 0);
            }
            let found = extract_person_names(v.as_str());
            push_all_unique(&mut local, &found);
        }
    }
    local
}

/// Walks the rows and then the italic groups of the model, routing each by
/// its label, and returns the deduped phones and names in discovery order.
pub fn extract_contacts(m: &PageModel) -> (r: PageContacts)
    ensures
        r.phones.deep_view() == page_phones_spec(rows_views(m.rows@), italics_views(m.italics@)),
        r.names.deep_view() == page_names_spec(rows_views(m.rows@)),
{
    let ghost rv = rows_views(m.rows@);
    let ghost iv = italics_views(m.italics@);
    let mut phones: Vec<String> = Vec::new();
    let mut names: Vec<String> = Vec::new();
    proof {
        assert(phones.deep_view() =~= Seq::<Seq<char>>::empty());
        assert(names.deep_view() =~= Seq::<Seq<char>>::empty());
        assert(rv.skip(0) =~= rv);
    }
    let mut i: usize = 0;
    while i < m.rows.len()
        invariant
            i <= m.rows@.len(),
            rv == rows_views(m.rows@),
            rows_fold(rv.skip(i as int), phones.deep_view(), names.deep_view()) == rows_fold(
                rv,
                Seq::empty(),
                Seq::empty(),
            ),
        decreases m.rows@.len() - i,
    {
        let row = &m.rows[i];
        proof {
            assert(rv[i as int] == row_view(m.rows@[i as int]));
        }
        match classify_label(row.label.as_str()) {
            RowKind::Phone => {
                let v = normalize_text(row.value.as_str());
                let found = extract_phones(v.as_str());
                push_all_unique(&mut phones, &found);
            },
            RowKind::Name => {
                let found = row_names(row);
                push_all_unique(&mut names, &found);
            },
            RowKind::Other => {},
        }
        proof {
            assert(rv.skip(i as int)[0] == rv[i as int]);
            assert(rv.skip(i as int).drop_first() =~= rv.skip(i + 1));
        }
        i += 1;
    }
    proof {
        assert(rv.skip(i as int) =~= Seq::<RowView>::empty());
        assert(iv.skip(0) =~= iv);
    }
    let ghost ph_rows = phones.deep_view();
    let mut j: usize = 0;
    while j < m.italics.len()
        invariant
            j <= m.italics@.len(),
            iv == italics_views(m.italics@),
            rv == rows_views(m.rows@),
            italics_fold(iv.skip(j as int), phones.deep_view()) == italics_fold(iv, ph_rows),
            ph_rows == rows_fold(rv, Seq::empty(), Seq::empty()).0,
            names.deep_view() == page_names_spec(rv),
        decreases m.italics@.len() - j,
    {
        let it = &m.italics[j];
        proof {
            assert(iv[j as int] == italic_view(m.italics@[j as int]));
        }
        let lab = normalize_text(it.label.as_str());
        let labv = str_to_chars(lab.as_str());
        let labl = lower_chars(&labv);
        if contains_chars(
            &labl,
            &str_to_chars("\u{442}\u{435}\u{43b}\u{435}\u{444}\u{43e}\u{43d}"),
        ) {
            let ghost ph_before = phones.deep_view();
            proof {
                assert(it.spans.deep_view().skip(0) =~= it.spans.deep_view());
            }
            let mut k: usize = 0;
            while k < it.spans.len()
                invariant
                    k <= it.spans@.len(),
                    spans_fold(it.spans.deep_view().skip(k as int), phones.deep_view())
                        == spans_fold(it.spans.deep_view(), ph_before),
                decreases it.spans@.len() - k,
            {
                let t = normalize_text(it.spans[k].as_str());
                let tv = str_to_chars(t.as_str());
                if !t.as_str().is_empty() && has_digit_str(&tv) {
                    push_unique(&mut phones, t);
                }
                proof {
                    assert(it.spans.deep_view().skip(k as int)[0] == it.spans.deep_view()[k as int]);
                    assert(it.spans@[k as int]@ == it.spans.deep_view()[k as int]);
                    assert(it.spans.deep_view().skip(k as int).drop_first() =~= it.spans.deep_view()
                        .skip(k + 1));
                }
                k += 1;
            }
            proof {
                assert(it.spans.deep_view().skip(k as int) =~= Seq::<Seq<char>>::empty());
            }
        }
        proof {
            assert(it.spans.deep_view() == iv[j as int].1);
            assert(iv.skip(j as int)[0] == iv[j as int]);
            assert(iv.skip(j as int).drop_first() =~= iv.skip(j + 1));
        }
        j += 1;
    }
    proof {
        assert(iv.skip(j as int) =~= Seq::<ItalicView>::empty());
    }
    PageContacts { phones, names }
}

} // verus!
