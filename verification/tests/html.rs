use std::collections::HashMap;

use unidpp_projector::fixtures::{consumer_lens, demo_as_of, demo_passport};
use unidpp_projector::html::{
    accept_prefers_html, document, esc, first_media_type, requested_format, text, Format,
};
use unidpp_projector::json::Json;
use unidpp_projector::project::ProfileSource;
use unidpp_projector::render::render;

fn heads() -> Vec<String> {
    (0..11).map(|i| format!("{i:02x}").repeat(32)).collect()
}

fn demo_render() -> Json {
    let source = ProfileSource::fallback("fixtures", None);
    Json::Obj(render(&demo_passport(&heads()), &consumer_lens(), demo_as_of(), "en", &source).unwrap())
}

#[test]
fn the_page_serializes_the_render() {
    let doc = demo_render();
    let page = document(&doc);
    // Section labels and values come from the render document.
    assert!(page.contains("<h2>Product</h2>"), "sections carry labels");
    assert!(page.contains("Battery capacity"), "item labels present");
    assert!(page.contains("kWh"), "formatted values with units present");
    // The deliberate gap is stated, never hidden.
    assert!(
        page.contains("Recycling instruction"),
        "the missing element's label still renders"
    );
    assert!(page.contains("not shown — "), "the gap states its absence");
    assert!(page.contains("Coverage"), "the coverage footer renders");
    assert!(page.contains("4 of 5"), "the coverage counts render");
    // Language and identity anchor the page.
    assert!(page.contains(r#"<html lang="en">"#));
    assert!(
        page.contains("urn:iso:std:iso-iec:15459"),
        "the product id is the title"
    );
}

#[test]
fn the_page_is_deterministic() {
    let doc = demo_render();
    assert_eq!(document(&doc), document(&doc));
}

#[test]
fn hostile_strings_are_escaped() {
    let doc = Json::parse(
        r#"{
        "render_metadata": {"lang": "en"},
        "passport": {"id": "p", "product_id": "<script>alert(1)</script>", "capability": "silent", "status": "active"},
        "sections": [{
            "id": "s", "label": "Product \"&\" <b>bold</b>",
            "items": [{
                "element": "e", "label": "Name", "status": "present",
                "formatted": "<img src=x onerror=alert(2)>",
                "sourced": {"occurred_at": "2027-01-01T00:00:00Z"}
            }]
        }],
        "coverage": {"elements_required": 1, "elements_present": 1, "complete": true, "missing": []}
    }"#,
    )
    .unwrap();
    let page = document(&doc);
    assert!(!page.contains("<script>alert(1)"));
    assert!(!page.contains("<img src=x"));
    assert!(page.contains("&lt;script&gt;alert(1)&lt;/script&gt;"));
    assert!(page.contains("Product &quot;&amp;&quot; &lt;b&gt;bold&lt;/b&gt;"));
}

#[test]
fn the_change_notice_states_the_newest_recorded_fact() {
    let doc = Json::parse(
        r#"{
        "render_metadata": {"lang": "en"},
        "passport": {"id": "p", "product_id": "x", "capability": "silent", "status": "active"},
        "sections": [{
            "id": "s", "label": "Product",
            "items": [
                {"element": "a", "label": "A", "status": "present", "formatted": "1",
                 "sourced": {"occurred_at": "2026-01-01T00:00:00Z"}},
                {"element": "b", "label": "B", "status": "present", "formatted": "2",
                 "sourced": {"occurred_at": "2027-03-05T09:00:00Z"}},
                {"element": "c", "label": "C", "status": "missing", "detail": "not provided"}
            ]
        }],
        "coverage": {"elements_required": 3, "elements_present": 2, "complete": false, "missing": []}
    }"#,
    )
    .unwrap();
    let page = document(&doc);
    assert!(page.contains("recorded on 2027-03-05T09:00:00Z"));
}

#[test]
fn acceptance_negotiation() {
    assert!(accept_prefers_html(Some(
        "text/html,application/xhtml+xml,application/xml;q=0.9,*/*;q=0.8"
    )));
    assert!(!accept_prefers_html(Some("*/*")));
    assert!(!accept_prefers_html(Some("application/json")));
    assert!(!accept_prefers_html(Some(
        "application/json, text/html;q=0.5"
    )));
    assert!(!accept_prefers_html(None));
    // The explicit parameter outranks the header.
    let mut params = HashMap::new();
    params.insert("format".to_string(), "json".to_string());
    assert_eq!(requested_format(&params, Some("text/html")), Format::Json);
    params.insert("format".to_string(), "html".to_string());
    assert_eq!(requested_format(&params, None), Format::Html);
    params.insert("format".to_string(), "text".to_string());
    assert_eq!(requested_format(&params, None), Format::Text);
    params.insert("format".to_string(), "xml".to_string());
    assert_eq!(
        requested_format(&params, None),
        Format::Invalid("xml".to_string())
    );
    params.remove("format");
    assert_eq!(requested_format(&params, Some("text/html")), Format::Html);
    assert_eq!(requested_format(&params, Some("text/plain")), Format::Text);
    assert_eq!(requested_format(&params, None), Format::Json);
}

#[test]
fn the_text_form_is_speakable_and_honest() {
    let doc = demo_render();
    let spoken = text(&doc);
    // Determinism: pure function of the render.
    assert_eq!(spoken, text(&doc));
    // Labels and values serialize as plain sentences — no markup.
    assert!(!spoken.contains('<'));
    assert!(spoken.contains("Battery capacity: "));
    assert!(spoken.contains("kWh"));
    // A gap is spoken, never hidden.
    assert!(spoken.contains("Recycling instruction: not shown — "));
    // The coverage summary closes the reading.
    assert!(spoken.contains("Coverage: 4 of 5 elements presented, incomplete."));
    assert!(spoken.contains("The most recent information on this page was recorded on"));
}

#[test]
fn escaping_replaces_the_five_markup_characters() {
    assert_eq!(esc("a<b>&\"'c"), "a&lt;b&gt;&amp;&quot;&#39;c");
    assert_eq!(esc("★ plain"), "★ plain");
    assert_eq!(esc(""), "");
    assert_eq!(format!("{}{}", esc("<"), esc("&")), esc("<&"));
    // An entity in the text is escaped again: decoding gives the text back.
    assert_eq!(esc("&lt;"), "&amp;lt;");
}

#[test]
fn the_first_media_type_stands_without_its_parameters() {
    assert_eq!(
        first_media_type(Some("Text/HTML;q=0.5, application/json")),
        Some("text/html".to_string())
    );
    assert_eq!(first_media_type(None), None);
}

#[test]
fn trust_marks_are_escaped_too() {
    let doc = Json::parse(
        r#"{
        "render_metadata": {"lang": "en"},
        "passport": {"id": "p", "product_id": "x", "capability": "silent", "status": "active"},
        "sections": [{"id": "s", "label": "S", "items": [
            {"element": "a", "label": "A", "status": "present", "formatted": "1",
             "trust": "\"><b>"}]}],
        "coverage": {"elements_required": 1, "elements_present": 1, "complete": true, "missing": []}
    }"#,
    )
    .unwrap();
    assert!(!document(&doc).contains("\"><b>"));
}
