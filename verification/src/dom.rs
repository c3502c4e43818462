use vstd::prelude::*;
use crate::model::{AnchorModel, RowModel, ItalicModel, PageModel, PageContacts, AnchorView,
    RowView, RawRowView, ItalicView, anchor_view, row_view, italic_view, anchors_views, rows_views,
    italics_views, opt_view};
use crate::extract::{extract_contacts, distinct_seq, lemma_page_contacts_distinct,
    page_phones_spec, page_names_spec};

verus! {

#[verifier::external_type_specification]
#[verifier::external_body]
pub struct ExHtml(scraper::Html);

/// What the document tree holds for each table row, in document order: the
/// text of its first and second child cell, each present only when that cell
/// exists, and the second cell's anchors (text, `hidden` presence, `style`,
/// `aria-hidden`; empty when the cell is absent). The queries below state
/// their results over this name.
pub uninterp spec fn doc_rows(doc: scraper::Html) -> Seq<RawRowView>;

/// What the document tree holds for each italic-under-paragraph element, in
/// document order: its text and the texts of the spans under its parent.
pub uninterp spec fn doc_italics(doc: scraper::Html) -> Seq<ItalicView>;

/// The row data that parsing the given HTML text yields: parsing is a
/// function of the document string alone.
pub uninterp spec fn page_rows_of(html: Seq<char>) -> Seq<RawRowView>;

/// The italic-group data that parsing the given HTML text yields.
pub uninterp spec fn page_italics_of(html: Seq<char>) -> Seq<ItalicView>;

/// Relies on scraper's `Html::parse_document`, which builds a document tree
/// from any input string without failing, deterministically: what the tree
/// holds is a function of the input text alone.
#[verifier::external_body]
fn parse_document(html: &str) -> (doc: scraper::Html)
    ensures
        doc_rows(doc) == page_rows_of(html@),
        doc_italics(doc) == page_italics_of(html@),
{
    scraper::Html::parse_document(html)
}

/// Relies on scraper's `Selector::parse` and `Html::select`: the number of
/// table-row (`tr`) elements in the document.
#[verifier::external_body]
fn dom_row_count(doc: &scraper::Html) -> (r: usize)
    ensures
        r == doc_rows(*doc).len(),
{
    let sel = scraper::Selector::parse("tr").unwrap();
    doc.select(&sel).count()
}

/// Relies on scraper's `Html::select`, `ElementRef::select` and
/// `ElementRef::text`: the space-joined text of the `cell`-th child cell
/// (`td`) of the `row`-th table row, when both exist.
#[verifier::external_body]
fn dom_row_cell_text(doc: &scraper::Html, row: usize, cell: usize) -> (r: Option<String>)
    ensures
        row < doc_rows(*doc).len() && cell == 0 ==> opt_view(r) == doc_rows(*doc)[row as int].0,
        row < doc_rows(*doc).len() && cell == 1 ==> opt_view(r) == doc_rows(*doc)[row as int].1,
        row >= doc_rows(*doc).len() ==> r is None,
{
    let tr = scraper::Selector::parse("tr").unwrap();
    let td = scraper::Selector::parse(":scope > td").unwrap();
    let r = doc.select(&tr).nth(row)?;
    let c = r.select(&td).nth(cell)?;
    Some(c.text().collect::<Vec<_>>().join(" "))
}

/// Relies on scraper's `ElementRef::select`: the number of anchor (`a`)
/// elements inside the second child cell of the `row`-th table row, or 0
/// when that cell does not exist.
#[verifier::external_body]
fn dom_value_anchor_count(doc: &scraper::Html, row: usize) -> (r: usize)
    ensures
        row < doc_rows(*doc).len() ==> r == doc_rows(*doc)[row as int].2.len(),
        row >= doc_rows(*doc).len() ==> r == 0,
{
    let tr = scraper::Selector::parse("tr").unwrap();
    let td = scraper::Selector::parse(":scope > td").unwrap();
    let a = scraper::Selector::parse("a").unwrap();
    match doc.select(&tr).nth(row).and_then(|r| r.select(&td).nth(1)) {
        Some(cell) => cell.select(&a).count(),
        None => 0,
    }
}

/// Relies on scraper's `ElementRef::select` and `ElementRef::text`: the
/// space-joined text of the `idx`-th anchor inside the second child cell of
/// the `row`-th table row, when it exists.
#[verifier::external_body]
fn dom_value_anchor_text(doc: &scraper::Html, row: usize, idx: usize) -> (r: Option<String>)
    ensures
        match r {
            Some(t) => row < doc_rows(*doc).len() && idx < doc_rows(*doc)[row as int].2.len()
                && doc_rows(*doc)[row as int].2[idx as int].0 == t@,
            None => row >= doc_rows(*doc).len() || idx >= doc_rows(*doc)[row as int].2.len(),
        },
{
    let tr = scraper::Selector::parse("tr").unwrap();
    let td = scraper::Selector::parse(":scope > td").unwrap();
    let a = scraper::Selector::parse("a").unwrap();
    let cell = doc.select(&tr).nth(row).and_then(|r| r.select(&td).nth(1))?;
    let anchor = cell.select(&a).nth(idx)?;
    Some(anchor.text().collect::<Vec<_>>().join(" "))
}

/// Relies on scraper's `ElementRef::attr`: the value of the named attribute
/// on the `idx`-th anchor inside the second child cell of the `row`-th table
/// row; absent attribute or absent anchor both give nothing.
#[verifier::external_body]
fn dom_value_anchor_attr(doc: &scraper::Html, row: usize, idx: usize, name: &str) -> (r: Option<
    String,
>)
    ensures
        name@ == "hidden"@ && row < doc_rows(*doc).len() && idx < doc_rows(
            *doc,
        )[row as int].2.len() ==> (r is Some <==> doc_rows(*doc)[row as int].2[idx as int].1),
        name@ == "style"@ && row < doc_rows(*doc).len() && idx < doc_rows(*doc)[row as int].2.len()
            ==> opt_view(r) == doc_rows(*doc)[row as int].2[idx as int].2,
        name@ == "aria-hidden"@ && row < doc_rows(*doc).len() && idx < doc_rows(
            *doc,
        )[row as int].2.len() ==> opt_view(r) == doc_rows(*doc)[row as int].2[idx as int].3,
{
    let tr = scraper::Selector::parse("tr").unwrap();
    let td = scraper::Selector::parse(":scope > td").unwrap();
    let a = scraper::Selector::parse("a").unwrap();
    let cell = doc.select(&tr).nth(row).and_then(|r| r.select(&td).nth(1))?;
    let anchor = cell.select(&a).nth(idx)?;
    anchor.attr(name).map(|v| v.to_string())
}

/// Relies on scraper's `Html::select` with the `p > i` selector: the number
/// of italic elements standing directly under a paragraph.
#[verifier::external_body]
fn dom_italic_count(doc: &scraper::Html) -> (r: usize)
    ensures
        r == doc_italics(*doc).len(),
{
    let pi = scraper::Selector::parse("p > i").unwrap();
    doc.select(&pi).count()
}

/// Relies on scraper's `Html::select` and `ElementRef::text`: the
/// space-joined text of the `idx`-th italic-under-paragraph element.
#[verifier::external_body]
fn dom_italic_text(doc: &scraper::Html, idx: usize) -> (r: Option<String>)
    ensures
        match r {
            Some(t) => idx < doc_italics(*doc).len() && doc_italics(*doc)[idx as int].0 == t@,
            None => idx >= doc_italics(*doc).len(),
        },
{
    let pi = scraper::Selector::parse("p > i").unwrap();
    let el = doc.select(&pi).nth(idx)?;
    Some(el.text().collect::<Vec<_>>().join(" "))
}

/// Relies on scraper's `NodeRef::parent` and `ElementRef::wrap`: the number
/// of span elements under the parent of the `idx`-th italic-under-paragraph
/// element, or 0 when there is no such parent element.
#[verifier::external_body]
fn dom_italic_span_count(doc: &scraper::Html, idx: usize) -> (r: usize)
    ensures
        idx < doc_italics(*doc).len() ==> r == doc_italics(*doc)[idx as int].1.len(),
        idx >= doc_italics(*doc).len() ==> r == 0,
{
    let pi = scraper::Selector::parse("p > i").unwrap();
    let sp = scraper::Selector::parse("span").unwrap();
    let parent = doc.select(&pi).nth(idx).and_then(|el| el.parent()).and_then(
        scraper::ElementRef::wrap,
    );
    match parent {
        Some(p) => p.select(&sp).count(),
        None => 0,
    }
}

/// Relies on scraper's `ElementRef::select` and `ElementRef::text`: the
/// space-joined text of the `span`-th span under the parent of the `idx`-th
/// italic-under-paragraph element, when it exists.
#[verifier::external_body]
fn dom_italic_span_text(doc: &scraper::Html, idx: usize, span: usize) -> (r: Option<String>)
    ensures
        match r {
            Some(t) => idx < doc_italics(*doc).len() && span < doc_italics(
                *doc,
            )[idx as int].1.len() && doc_italics(*doc)[idx as int].1[span as int] == t@,
            None => idx >= doc_italics(*doc).len() || span >= doc_italics(*doc)[idx as int].1.len(),
        },
{
    let pi = scraper::Selector::parse("p > i").unwrap();
    let sp = scraper::Selector::parse("span").unwrap();
    let parent = doc.select(&pi).nth(idx).and_then(|el| el.parent()).and_then(
        scraper::ElementRef::wrap,
    )?;
    let s = parent.select(&sp).nth(span)?;
    Some(s.text().collect::<Vec<_>>().join(" "))
}

/// The rows that carry both a label and a value cell, in document order,
/// with the incomplete rows dropped.
pub open spec fn rows_model_spec(rows: Seq<RawRowView>) -> Seq<RowView>
    decreases rows.len(),
{
    if rows.len() == 0 {
        Seq::empty()
    } else {
        let front = rows_model_spec(rows.drop_last());
        let r = rows.last();
        match (r.0, r.1) {
            (Some(l), Some(v)) => front + seq![(l, v, r.2)],
            _ => front,
        }
    }
}

/// Builds the page model from raw HTML: one entry per table row with two
/// cells, carrying both cells' text and the value cell's anchors with their
/// visibility attributes; one entry per italic-under-paragraph element,
/// carrying its text and its parent's span texts.
pub fn parse_page(html: &str) -> (r: PageModel)
    ensures
        rows_views(r.rows@) == rows_model_spec(page_rows_of(html@)),
        italics_views(r.italics@) == page_italics_of(html@),
{
    let doc = parse_document(html);
    let ghost dr = doc_rows(doc);
    let ghost di = doc_italics(doc);
    let nrows = dom_row_count(&doc);
    let mut rows: Vec<RowModel> = Vec::new();
    proof {
        assert(rows_views(rows@) =~= Seq::<RowView>::empty());
        assert(dr.take(0) =~= Seq::<RawRowView>::empty());
    }
    let mut i: usize = 0;
    while i < nrows
        invariant
            i <= nrows,
            nrows == dr.len(),
            dr == doc_rows(doc),
            rows_views(rows@) == rows_model_spec(dr.take(i as int)),
        decreases nrows - i,
    {
        let label_opt = dom_row_cell_text(&doc, i, 0);
        let value_opt = dom_row_cell_text(&doc, i, 1);
        proof {
            assert(dr.take(i + 1).drop_last() =~= dr.take(i as int));
            assert(dr.take(i + 1).last() == dr[i as int]);
        }
        match (label_opt, value_opt) {
            (Some(label), Some(value)) => {
                let na = dom_value_anchor_count(&doc, i);
                let mut anchors: Vec<AnchorModel> = Vec::new();
                proof {
                    assert(anchors_views(anchors@) =~= dr[i as int].2.take(0));
                }
                let mut j: usize = 0;
                while j < na
                    invariant
                        j <= na,
                        i < dr.len(),
                        na == dr[i as int].2.len(),
                        dr == doc_rows(doc),
                        anchors_views(anchors@) == dr[i as int].2.take(j as int),
                    decreases na - j,
                {
                    match dom_value_anchor_text(&doc, i, j) {
                        Some(text) => {
                            let hidden_attr = dom_value_anchor_attr(
                                &doc,
                                i,
                                j,
                                "hidden",
                            ).is_some();
                            let style = dom_value_anchor_attr(&doc, i, j, "style");
                            let aria_hidden = dom_value_anchor_attr(&doc, i, j, "aria-hidden");
                            let a = AnchorModel { text, hidden_attr, style, aria_hidden };
                            let ghost prev = anchors@;
                            proof {
                                assert(anchor_view(a) == dr[i as int].2[j as int]);
                            }
                            anchors.push(a);
                            proof {
                                assert(anchors@ =~= prev.push(a));
                                assert(anchors_views(anchors@) =~= anchors_views(prev).push(
                                    anchor_view(a),
                                ));
                                assert(dr[i as int].2.take(j + 1) =~= dr[i as int].2.take(
                                    j as int,
                                ).push(dr[i as int].2[j as int]));
                            }
                        },
                        None => {
                            proof {
                                assert(false);
                            }
                        },
                    }
                    j += 1;
                }
                proof {
                    assert(dr[i as int].2.take(na as int) =~= dr[i as int].2);
                }
                let rm = RowModel { label, value, anchors };
                proof {
                    assert(row_view(rm) == (label@, value@, dr[i as int].2));
                }
                rows.push(rm);
                proof {
                    assert(rows_views(rows@) =~= rows_model_spec(dr.take(i as int)) + seq![
                        (label@, value@, dr[i as int].2),
                    ]);
                    assert(rows_model_spec(dr.take(i + 1)) == rows_model_spec(dr.take(i as int))
                        + seq![(label@, value@, dr[i as int].2)]);
                }
            },
            _ => {
                proof {
                    assert(dr[i as int].0 is None || dr[i as int].1 is None);
                    assert(rows_model_spec(dr.take(i + 1)) == rows_model_spec(dr.take(i as int)));
                }
            },
        }
        i += 1;
    }
    proof {
        assert(dr.take(nrows as int) =~= dr);
    }
    let nit = dom_italic_count(&doc);
    let mut italics: Vec<ItalicModel> = Vec::new();
    proof {
        assert(italics_views(italics@) =~= di.take(0));
    }
    let mut k: usize = 0;
    while k < nit
        invariant
            k <= nit,
            nit == di.len(),
            di == doc_italics(doc),
            italics_views(italics@) == di.take(k as int),
        decreases nit - k,
    {
        match dom_italic_text(&doc, k) {
            Some(label) => {
                let ns = dom_italic_span_count(&doc, k);
                let mut spans: Vec<String> = Vec::new();
                proof {
                    assert(spans.deep_view() =~= di[k as int].1.take(0));
                }
                let mut t: usize = 0;
                while t < ns
                    invariant
                        t <= ns,
                        k < di.len(),
                        ns == di[k as int].1.len(),
                        di == doc_italics(doc),
                        spans.deep_view() == di[k as int].1.take(t as int),
                    decreases ns - t,
                {
                    match dom_italic_span_text(&doc, k, t) {
                        Some(s) => {
                            let ghost prevs = spans.deep_view();
                            let ghost sv = s@;
                            spans.push(s);
                            proof {
                                assert(spans.deep_view() =~= prevs.push(sv));
                                assert(di[k as int].1.take(t + 1) =~= di[k as int].1.take(
                                    t as int,
                                ).push(di[k as int].1[t as int]));
                            }
                        },
                        None => {
                            proof {
                                assert(false);
                            }
                        },
                    }
                    t += 1;
                }
                proof {
                    assert(di[k as int].1.take(ns as int) =~= di[k as int].1);
                }
                let im = ItalicModel { label, spans };
                let ghost previ = italics@;
                proof {
                    assert(italic_view(im) == di[k as int]);
                }
                italics.push(im);
                proof {
                    assert(italics@ =~= previ.push(im));
                    assert(italics_views(italics@) =~= italics_views(previ).push(italic_view(im)));
                    assert(di.take(k + 1) =~= di.take(k as int).push(di[k as int]));
                }
            },
            None => {
                proof {
                    assert(false);
                }
            },
        }
        k += 1;
    }
    proof {
        assert(di.take(nit as int) =~= di);
    }
    PageModel { rows, italics }
}

/// The entry point over one raw HTML document: parses it, builds the model,
/// and extracts the contacts. The result is exactly the extraction of what
/// the parser yields for this text — a function of the document alone — and
/// holds no duplicate phone and no duplicate name.
pub fn contacts_from_html(html: &str) -> (r: PageContacts)
    ensures
        r.phones.deep_view() == page_phones_spec(
            rows_model_spec(page_rows_of(html@)),
            page_italics_of(html@),
        ),
        r.names.deep_view() == page_names_spec(rows_model_spec(page_rows_of(html@))),
        distinct_seq(r.phones.deep_view()),
        distinct_seq(r.names.deep_view()),
{
    let model = parse_page(html);
    let r = extract_contacts(&model);
    proof {
        lemma_page_contacts_distinct(rows_model_spec(page_rows_of(html@)), page_italics_of(html@));
    }
    r
}

} // verus!
