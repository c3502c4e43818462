use org_contacts::dom::contacts_from_html;
use org_contacts::extract::{classify_label, RowKind};
use org_contacts::model::{AnchorModel, is_element_hidden};
use org_contacts::names::extract_person_names;
use org_contacts::phones::extract_phones;
use org_contacts::text::normalize_text;
use org_contacts::push_unique;

fn anchor(text: &str, hidden: bool, style: Option<&str>, aria: Option<&str>) -> AnchorModel {
    AnchorModel {
        text: text.to_string(),
        hidden_attr: hidden,
        style: style.map(|s| s.to_string()),
        aria_hidden: aria.map(|s| s.to_string()),
    }
}

#[test]
fn push_unique_dedups_and_is_idempotent() {
    let mut list: Vec<String> = Vec::new();
    push_unique(&mut list, "a".to_string());
    push_unique(&mut list, "b".to_string());
    let once = list.clone();
    push_unique(&mut list, "b".to_string());
    assert_eq!(list, once);
    assert_eq!(list, vec!["a".to_string(), "b".to_string()]);
}

#[test]
fn normalize_collapses_and_trims() {
    assert_eq!(normalize_text("  a\t\n b  "), "a b");
    assert_eq!(normalize_text(""), "");
    assert_eq!(normalize_text(" \t\n "), "");
    assert_eq!(normalize_text("one"), "one");
}

#[test]
fn normalize_is_a_fixed_point() {
    for s in ["  a\t\n b  ", "", "x", "  много \u{a0} пробелов  тут "] {
        let once = normalize_text(s);
        let twice = normalize_text(&once);
        assert_eq!(once, twice);
    }
}

#[test]
fn short_digit_run_is_no_phone() {
    assert!(extract_phones("12-3").is_empty());
    assert!(extract_phones("").is_empty());
    assert!(extract_phones("нет цифр").is_empty());
}

#[test]
fn phone_match_is_normalized() {
    assert_eq!(extract_phones("+7 (912) 345-67-89"), vec!["+7 (912) 345-67-89".to_string()]);
    assert_eq!(extract_phones("+7  (912)\t345-67-89"), vec!["+7 (912) 345-67-89".to_string()]);
}

#[test]
fn phones_keep_duplicates_and_order() {
    assert_eq!(
        extract_phones("т. 123456, ф. 123456"),
        vec!["123456".to_string(), "123456".to_string()]
    );
}

#[test]
fn name_of_three_tokens_is_one_match() {
    assert_eq!(
        extract_person_names("Иванов Иван Иванович"),
        vec!["Иванов Иван Иванович".to_string()]
    );
}

#[test]
fn four_tokens_match_first_window_only() {
    assert_eq!(
        extract_person_names("Иванов Иван Иванович Петров"),
        vec!["Иванов Иван Иванович".to_string()]
    );
}

#[test]
fn hyphenated_compound_surname_matches() {
    assert_eq!(
        extract_person_names("Петрова-Водкина Анна Сергеевна"),
        vec!["Петрова-Водкина Анна Сергеевна".to_string()]
    );
}

#[test]
fn unmatched_text_falls_back_whole() {
    assert_eq!(extract_person_names("ООО РОМАШКА"), vec!["ООО РОМАШКА".to_string()]);
    assert!(extract_person_names("   ").is_empty());
}

#[test]
fn names_are_deduped_in_order() {
    assert_eq!(
        extract_person_names("Иванов Иван, Иванов Иван"),
        vec!["Иванов Иван".to_string()]
    );
}

#[test]
fn labels_route_by_keyword() {
    assert_eq!(classify_label("Телефон"), RowKind::Phone);
    assert_eq!(classify_label("ТЕЛЕФОНЫ:"), RowKind::Phone);
    assert_eq!(classify_label("Руководитель"), RowKind::Name);
    assert_eq!(classify_label("ФИО директора"), RowKind::Name);
    assert_eq!(classify_label("Адрес"), RowKind::Other);
    assert_eq!(classify_label(""), RowKind::Other);
}

#[test]
fn hidden_attribute_forms() {
    assert!(is_element_hidden(&anchor("x", true, None, None)));
    assert!(is_element_hidden(&anchor("x", false, Some("display:none"), None)));
    assert!(is_element_hidden(&anchor("x", false, Some("Visibility:HIDDEN"), None)));
    assert!(is_element_hidden(&anchor("x", false, Some("opacity:0"), None)));
    assert!(is_element_hidden(&anchor("x", false, Some("opacity: 0;"), None)));
    assert!(is_element_hidden(&anchor("x", false, None, Some("TRUE"))));
    assert!(!is_element_hidden(&anchor("x", false, None, Some("false"))));
    assert!(!is_element_hidden(&anchor("x", false, Some("color:red"), None)));
    assert!(!is_element_hidden(&anchor("x", false, None, None)));
}

#[test]
fn hidden_anchor_is_excluded() {
    let html = "<html><body><table><tr>\
        <td>Руководитель</td>\
        <td><a href=\"/1\" hidden>Петров Петр Петрович</a>\
        <a href=\"/2\">Иванов Иван Иванович</a></td>\
        </tr></table></body></html>";
    let c = contacts_from_html(html);
    assert_eq!(c.names, vec!["Иванов Иван Иванович".to_string()]);
    assert!(c.phones.is_empty());
}

#[test]
fn style_and_aria_hidden_anchors_are_excluded() {
    let html = "<html><body><table><tr>\
        <td>Руководитель</td>\
        <td><a style=\"display:none\">Петров Петр Петрович</a>\
        <a aria-hidden=\"true\">Сидоров Олег Иванович</a>\
        <a>Иванов Иван Иванович</a></td>\
        </tr></table></body></html>";
    let c = contacts_from_html(html);
    assert_eq!(c.names, vec!["Иванов Иван Иванович".to_string()]);
}

#[test]
fn only_hidden_anchor_falls_back_to_cell_text() {
    let html = "<html><body><table><tr>\
        <td>Руководитель</td>\
        <td><a hidden>Петров Петр Петрович</a></td>\
        </tr></table></body></html>";
    let c = contacts_from_html(html);
    assert_eq!(c.names, vec!["Петров Петр Петрович".to_string()]);
}

#[test]
fn empty_page_gives_empty_contacts() {
    let html = "<html><body><p>ничего интересного</p>\
        <table><tr><td>Адрес</td><td>Москва</td></tr></table></body></html>";
    let c = contacts_from_html(html);
    assert!(c.phones.is_empty());
    assert!(c.names.is_empty());
}

#[test]
fn fallback_recovers_span_phone() {
    let html = "<html><body>\
        <p><i>Телефон:</i> <span>+7 495 123-45-67</span><span>доб.</span></p>\
        </body></html>";
    let c = contacts_from_html(html);
    assert_eq!(c.phones, vec!["+7 495 123-45-67".to_string()]);
    assert!(c.names.is_empty());
}

#[test]
fn name_row_without_anchors_uses_cell_text() {
    let html = "<html><body><table><tr>\
        <td>ФИО</td><td>Смирнова Анна</td>\
        </tr></table></body></html>";
    let c = contacts_from_html(html);
    assert_eq!(c.names, vec!["Смирнова Анна".to_string()]);
}

#[test]
fn phone_row_and_fallback_are_deduped() {
    let html = "<html><body>\
        <table><tr><td>Телефон</td><td>+7 495 111-22-33</td></tr></table>\
        <p><i>Телефон:</i> <span>+7 495 111-22-33</span><span>+7 495 444-55-66</span></p>\
        </body></html>";
    let c = contacts_from_html(html);
    assert_eq!(
        c.phones,
        vec!["+7 495 111-22-33".to_string(), "+7 495 444-55-66".to_string()]
    );
}

#[test]
fn row_with_single_cell_is_skipped() {
    let html = "<html><body><table><tr><td>Телефон 123456</td></tr></table></body></html>";
    let c = contacts_from_html(html);
    assert!(c.phones.is_empty());
    assert!(c.names.is_empty());
}

#[test]
fn multiple_rows_accumulate_in_document_order() {
    let html = "<html><body><table>\
        <tr><td>Телефон</td><td>123456</td></tr>\
        <tr><td>Руководитель</td><td><a>Иванов Иван</a></td></tr>\
        <tr><td>Телефон</td><td>654321</td></tr>\
        </table></body></html>";
    let c = contacts_from_html(html);
    assert_eq!(c.phones, vec!["123456".to_string(), "654321".to_string()]);
    assert_eq!(c.names, vec!["Иванов Иван".to_string()]);
}
