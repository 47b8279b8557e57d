use action_crawler::actions::extract_actions;
use action_crawler::dom::Attr;
use action_crawler::dom::Document;
use action_crawler::services::base_path;
use action_crawler::services::extract_services;

fn at(name: &str, value: &str) -> Attr {
    Attr { name: String::from(name), value: String::from(value) }
}

fn el(doc: &mut Document, parent: Option<usize>, tag: &str, attrs: Vec<Attr>) -> usize {
    doc.add_element(parent, String::from(tag), attrs)
}

fn txt(doc: &mut Document, parent: usize, text: &str) -> usize {
    doc.add_text(Some(parent), String::from(text))
}

/// An index page with one highlighted service entry.
fn index_page(href: &str, label: &str) -> Document {
    let mut doc = Document::new();
    let html = el(&mut doc, None, "html", vec![]);
    let region = el(&mut doc, Some(html), "div", vec![at("class", "highlights")]);
    let ul = el(&mut doc, Some(region), "ul", vec![]);
    let li = el(&mut doc, Some(ul), "li", vec![]);
    let a = el(&mut doc, Some(li), "a", vec![at("href", href)]);
    txt(&mut doc, a, label);
    doc
}

#[test]
fn index_href_yields_code_and_verbatim_join() {
    let doc = index_page("./list_s3.html", "Amazon S3");
    let services = extract_services(&doc);
    assert_eq!(services.len(), 1);
    assert_eq!(services[0].name, "Amazon S3");
    assert_eq!(services[0].code, "s3");
    let expected = format!("{}/./list_s3.html", base_path());
    assert_eq!(services[0].document_uri, expected);
    assert_eq!(
        services[0].document_uri,
        "https://docs.aws.amazon.com/IAM/latest/UserGuide/./list_s3.html"
    );
}

#[test]
fn index_href_not_matching_pattern_is_skipped() {
    let doc = index_page("about.html", "About");
    assert_eq!(extract_services(&doc).len(), 0);
}

#[test]
fn index_href_with_empty_code_is_skipped() {
    let doc = index_page("./list_.html", "Odd");
    assert_eq!(extract_services(&doc).len(), 0);
}

#[test]
fn index_anchor_outside_region_is_skipped() {
    let mut doc = Document::new();
    let html = el(&mut doc, None, "html", vec![]);
    let a = el(&mut doc, Some(html), "a", vec![at("href", "./list_s3.html")]);
    txt(&mut doc, a, "Amazon S3");
    assert_eq!(extract_services(&doc).len(), 0);
}

#[test]
fn index_anchor_without_text_is_skipped() {
    let mut doc = Document::new();
    let html = el(&mut doc, None, "html", vec![]);
    let region = el(&mut doc, Some(html), "div", vec![at("class", "highlights")]);
    let ul = el(&mut doc, Some(region), "ul", vec![]);
    let li = el(&mut doc, Some(ul), "li", vec![]);
    el(&mut doc, Some(li), "a", vec![at("href", "./list_s3.html")]);
    assert_eq!(extract_services(&doc).len(), 0);
}

#[test]
fn index_class_list_with_many_words_still_matches() {
    let mut doc = Document::new();
    let html = el(&mut doc, None, "html", vec![]);
    let region = el(&mut doc, Some(html), "div", vec![at("class", "wide highlights dark")]);
    let ul = el(&mut doc, Some(region), "ul", vec![]);
    let li = el(&mut doc, Some(ul), "li", vec![]);
    let a = el(&mut doc, Some(li), "a", vec![at("href", "./list_ec2.html")]);
    txt(&mut doc, a, "Amazon EC2");
    let services = extract_services(&doc);
    assert_eq!(services.len(), 1);
    assert_eq!(services[0].code, "ec2");
}

/// A service page skeleton: the marker and one action row. Returns the
/// document and the row's first cell, which holds the anchor.
struct PageParts {
    doc: Document,
    row: usize,
    cell1: usize,
}

fn service_page(prefix_text: &str) -> PageParts {
    let mut doc = Document::new();
    let html = el(&mut doc, None, "html", vec![]);
    let main = el(&mut doc, Some(html), "div", vec![at("id", "main-col-body")]);
    let marker = el(&mut doc, Some(main), "code", vec![at("class", "code")]);
    txt(&mut doc, marker, prefix_text);
    let table = el(&mut doc, Some(main), "table", vec![]);
    let row = el(&mut doc, Some(table), "tr", vec![]);
    let cell1 = el(&mut doc, Some(row), "td", vec![]);
    PageParts { doc, row, cell1 }
}

#[test]
fn action_row_yields_full_record() {
    let mut p = service_page("s3");
    el(&mut p.doc, Some(p.cell1), "a", vec![at("id", "s3-PutObject")]);
    el(&mut p.doc, Some(p.cell1), "a", vec![at("href", "API_PutObject.html")]);
    let cell2 = el(&mut p.doc, Some(p.row), "td", vec![]);
    txt(&mut p.doc, cell2, "Grants permission to add an object");
    let actions = extract_actions("s3", &p.doc).expect("marker should be found");
    assert_eq!(actions.len(), 1);
    assert_eq!(actions[0].name, "s3:PutObject");
    assert_eq!(actions[0].description, "Grants permission to add an object");
    assert_eq!(actions[0].document_uri, "API_PutObject.html");
}

#[test]
fn row_without_second_cell_yields_nothing() {
    let mut p = service_page("s3");
    el(&mut p.doc, Some(p.cell1), "a", vec![at("id", "s3-PutObject")]);
    el(&mut p.doc, Some(p.cell1), "a", vec![at("href", "API_PutObject.html")]);
    let actions = extract_actions("s3", &p.doc).expect("marker should be found");
    assert_eq!(actions.len(), 0);
}

#[test]
fn lowercase_led_id_is_discarded() {
    let mut p = service_page("s3");
    el(&mut p.doc, Some(p.cell1), "a", vec![at("id", "s3-getObject")]);
    let cell2 = el(&mut p.doc, Some(p.row), "td", vec![]);
    txt(&mut p.doc, cell2, "A permission sub-entry");
    let actions = extract_actions("s3", &p.doc).expect("marker should be found");
    assert_eq!(actions.len(), 0);
}

#[test]
fn foreign_prefix_id_is_discarded() {
    let mut p = service_page("s3");
    el(&mut p.doc, Some(p.cell1), "a", vec![at("id", "iam-PutRole")]);
    let cell2 = el(&mut p.doc, Some(p.row), "td", vec![]);
    txt(&mut p.doc, cell2, "Some other service's entry");
    let actions = extract_actions("s3", &p.doc).expect("marker should be found");
    assert_eq!(actions.len(), 0);
}

#[test]
fn empty_description_is_discarded() {
    let mut p = service_page("s3");
    el(&mut p.doc, Some(p.cell1), "a", vec![at("id", "s3-PutObject")]);
    let cell2 = el(&mut p.doc, Some(p.row), "td", vec![]);
    txt(&mut p.doc, cell2, "   \n  ");
    let actions = extract_actions("s3", &p.doc).expect("marker should be found");
    assert_eq!(actions.len(), 0);
}

#[test]
fn anchor_not_in_row_is_discarded() {
    let mut p = service_page("s3");
    let div = el(&mut p.doc, Some(p.cell1), "div", vec![]);
    el(&mut p.doc, Some(div), "a", vec![at("id", "s3-PutObject")]);
    let cell2 = el(&mut p.doc, Some(p.row), "td", vec![]);
    txt(&mut p.doc, cell2, "Grants permission to add an object");
    let actions = extract_actions("s3", &p.doc).expect("marker should be found");
    assert_eq!(actions.len(), 0);
}

#[test]
fn missing_sibling_link_gives_empty_uri() {
    let mut p = service_page("s3");
    el(&mut p.doc, Some(p.cell1), "a", vec![at("id", "s3-ListBuckets")]);
    let cell2 = el(&mut p.doc, Some(p.row), "td", vec![]);
    txt(&mut p.doc, cell2, "Grants permission to list buckets");
    let actions = extract_actions("s3", &p.doc).expect("marker should be found");
    assert_eq!(actions.len(), 1);
    assert_eq!(actions[0].name, "s3:ListBuckets");
    assert_eq!(actions[0].document_uri, "");
}

#[test]
fn marker_text_names_the_action_prefix() {
    let mut p = service_page("s3express");
    el(&mut p.doc, Some(p.cell1), "a", vec![at("id", "s3-CreateSession")]);
    el(&mut p.doc, Some(p.cell1), "a", vec![at("href", "API_CreateSession.html")]);
    let cell2 = el(&mut p.doc, Some(p.row), "td", vec![]);
    txt(&mut p.doc, cell2, "Grants permission to create a session");
    let actions = extract_actions("s3", &p.doc).expect("marker should be found");
    assert_eq!(actions.len(), 1);
    assert_eq!(actions[0].name, "s3express:CreateSession");
}

#[test]
fn page_without_marker_yields_none() {
    let mut doc = Document::new();
    let html = el(&mut doc, None, "html", vec![]);
    let main = el(&mut doc, Some(html), "div", vec![at("id", "main-col-body")]);
    el(&mut doc, Some(main), "p", vec![]);
    assert!(extract_actions("s3", &doc).is_none());
}

#[test]
fn marker_without_text_yields_none() {
    let mut doc = Document::new();
    let html = el(&mut doc, None, "html", vec![]);
    let main = el(&mut doc, Some(html), "div", vec![at("id", "main-col-body")]);
    el(&mut doc, Some(main), "code", vec![at("class", "code")]);
    assert!(extract_actions("s3", &doc).is_none());
}

#[test]
fn marker_outside_main_region_is_not_used() {
    let mut doc = Document::new();
    let html = el(&mut doc, None, "html", vec![]);
    let aside = el(&mut doc, Some(html), "div", vec![at("id", "side-bar")]);
    let marker = el(&mut doc, Some(aside), "code", vec![at("class", "code")]);
    txt(&mut doc, marker, "s3");
    assert!(extract_actions("s3", &doc).is_none());
}

#[test]
fn description_joins_descendant_texts_with_spaces() {
    let mut p = service_page("s3");
    el(&mut p.doc, Some(p.cell1), "a", vec![at("id", "s3-PutObject")]);
    let cell2 = el(&mut p.doc, Some(p.row), "td", vec![]);
    txt(&mut p.doc, cell2, "Grants permission");
    let em = el(&mut p.doc, Some(cell2), "em", vec![]);
    txt(&mut p.doc, em, "to add");
    txt(&mut p.doc, cell2, "an object");
    let actions = extract_actions("s3", &p.doc).expect("marker should be found");
    assert_eq!(actions.len(), 1);
    assert_eq!(actions[0].description, "Grants permission to add an object");
}

#[test]
fn anchor_id_is_trimmed_before_the_strip() {
    let mut p = service_page("s3");
    el(&mut p.doc, Some(p.cell1), "a", vec![at("id", "s3-PutObject  ")]);
    let cell2 = el(&mut p.doc, Some(p.row), "td", vec![]);
    txt(&mut p.doc, cell2, "Grants permission to add an object");
    let actions = extract_actions("s3", &p.doc).expect("marker should be found");
    assert_eq!(actions.len(), 1);
    assert_eq!(actions[0].name, "s3:PutObject");
}
