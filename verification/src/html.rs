//! The consumer serializations of the render: the same presentation,
//! additional wire formats. `/render` negotiated to `text/html` serves a
//! standalone page and to `text/plain` the speakable text form — both built
//! **from the render document**, so there is exactly one presentation
//! computation and neither can disagree with the JSON.
//!
//! A gap item renders as a stated absence with its reason; the coverage
//! footer states the ratio and completeness; the newest fact's recording time
//! is stated as the page's change notice. Every string is HTML-escaped; the
//! page contains no client-side script and no external asset.
use std::collections::HashMap;
use vstd::prelude::*;
use vstd::string::*;

use crate::json::{json_views, member_str, member_view, Json, JsonView};
use crate::query::{param, param_of};
use crate::text::{ascii_white_space, before, before_char, is_blank, is_white, lowercase, lowered, nat_text, number_text, opt_str, opt_text, or_empty, phrase, same, same_opt, separators_end_the_first_part, sorts_before, sorts_before_irreflexive, sorts_before_transitive, trim, trimmed, trimming_takes_the_ends_off, up_to};

verus! {

/// A character as it stands in an escaped text.
pub open spec fn escaped_char(c: char) -> Seq<char> {
    if c == '&' {
        "&amp;"@
    } else if c == '<' {
        "&lt;"@
    } else if c == '>' {
        "&gt;"@
    } else if c == '"' {
        "&quot;"@
    } else if c == '\'' {
        "&#39;"@
    } else {
        seq![c]
    }
}

/// The HTML-escaped text.
pub open spec fn escaped(s: Seq<char>) -> Seq<char>
    decreases s.len(),
{
    if s.len() == 0 {
        Seq::empty()
    } else {
        escaped(s.drop_last()) + escaped_char(s.last())
    }
}

/// HTML-escape a string (`&`, `<`, `>`, `"`, `'`).
pub fn esc(s: &str) -> (r: String)
    ensures
        r@ == escaped(s@),
{
    let mut out: String = String::new();
    for c in it: s.chars()
        invariant
            it.seq() == s@,
            out@ == escaped(s@.take(it.index() as int)),
    {
        let ghost now = s@.take(it.index() as int + 1);
        assert(now.drop_last() =~= s@.take(it.index() as int));
        let ghost before = out@;
        if c == '&' {
            out.append("&amp;");
        } else if c == '<' {
            out.append("&lt;");
        } else if c == '>' {
            out.append("&gt;");
        } else if c == '"' {
            out.append("&quot;");
        } else if c == '\'' {
            out.append("&#39;");
        } else {
            out.push(c);
            assert(out@ =~= before + seq![c]);
        }
    }
    assert(s@.take(s@.len() as int) =~= s@);
    out
}

/// Escaping works piece by piece.
pub proof fn escaping_distributes(a: Seq<char>, b: Seq<char>)
    ensures
        escaped(a + b) == escaped(a) + escaped(b),
    decreases b.len(),
{
    if b.len() == 0 {
        assert(a + b =~= a);
        assert(escaped(a) + escaped(b) =~= escaped(a));
    } else {
        assert((a + b).drop_last() =~= a + b.drop_last());
        escaping_distributes(a, b.drop_last());
        assert(escaped(a) + escaped(b.drop_last()) + escaped_char(b.last()) =~= escaped(a) + (
        escaped(b.drop_last()) + escaped_char(b.last())));
    }
}

/// An escaped text opens no tag and closes no attribute: it holds none of the
/// characters `<`, `>`, `"` and `'`.
pub proof fn escaped_text_has_no_markup(s: Seq<char>, i: int)
    requires
        0 <= i < escaped(s).len(),
    ensures
        escaped(s)[i] != '<',
        escaped(s)[i] != '>',
        escaped(s)[i] != '"',
        escaped(s)[i] != '\'',
    decreases s.len(),
{
    reveal_strlit("&amp;");
    reveal_strlit("&lt;");
    reveal_strlit("&gt;");
    reveal_strlit("&quot;");
    reveal_strlit("&#39;");
    if i < escaped(s.drop_last()).len() {
        escaped_text_has_no_markup(s.drop_last(), i);
    } else {
        let k = i - escaped(s.drop_last()).len();
        assert(escaped(s)[i] == escaped_char(s.last())[k]);
    }
}

/// `t` starts with `prefix`.
pub open spec fn opens_with(t: Seq<char>, prefix: Seq<char>) -> bool {
    t.len() >= prefix.len() && t.take(prefix.len() as int) == prefix
}

/// The text that an escaped text stands for.
pub open spec fn unescaped(t: Seq<char>) -> Seq<char>
    decreases t.len(),
{
    if t.len() == 0 {
        Seq::empty()
    } else if opens_with(t, "&amp;"@) && "&amp;"@.len() > 0 {
        seq!['&'] + unescaped(t.skip("&amp;"@.len() as int))
    } else if opens_with(t, "&lt;"@) && "&lt;"@.len() > 0 {
        seq!['<'] + unescaped(t.skip("&lt;"@.len() as int))
    } else if opens_with(t, "&gt;"@) && "&gt;"@.len() > 0 {
        seq!['>'] + unescaped(t.skip("&gt;"@.len() as int))
    } else if opens_with(t, "&quot;"@) && "&quot;"@.len() > 0 {
        seq!['"'] + unescaped(t.skip("&quot;"@.len() as int))
    } else if opens_with(t, "&#39;"@) && "&#39;"@.len() > 0 {
        seq!['\''] + unescaped(t.skip("&#39;"@.len() as int))
    } else {
        seq![t[0]] + unescaped(t.skip(1))
    }
}

/// `t` starts with one of the entities that escaping writes.
pub open spec fn opens_entity(t: Seq<char>) -> bool {
    ||| opens_with(t, "&amp;"@)
    ||| opens_with(t, "&lt;"@)
    ||| opens_with(t, "&gt;"@)
    ||| opens_with(t, "&quot;"@)
    ||| opens_with(t, "&#39;"@)
}

/// `c` stands for itself in an escaped text.
pub open spec fn is_plain(c: char) -> bool {
    c != '&' && c != '<' && c != '>' && c != '"' && c != '\''
}

proof fn unescaped_char(c: char, rest: Seq<char>)
    ensures
        unescaped(escaped_char(c) + rest) == seq![c] + unescaped(rest),
{
    reveal_strlit("&amp;");
    reveal_strlit("&lt;");
    reveal_strlit("&gt;");
    reveal_strlit("&quot;");
    reveal_strlit("&#39;");
    let e = escaped_char(c);
    let t = e + rest;
    assert(t.take(e.len() as int) =~= e);
    assert(t.skip(e.len() as int) =~= rest);
    if is_plain(c) {
        assert(t[0] == c);
        if opens_entity(t) {
            if opens_with(t, "&amp;"@) {
                assert(t.take(5)[0] == '&');
            } else if opens_with(t, "&lt;"@) {
                assert(t.take(4)[0] == '&');
            } else if opens_with(t, "&gt;"@) {
                assert(t.take(4)[0] == '&');
            } else if opens_with(t, "&quot;"@) {
                assert(t.take(6)[0] == '&');
            } else {
                assert(t.take(5)[0] == '&');
            }
        }
    } else {
        assert(t[0] == '&' && t[1] == e[1]);
        if opens_with(t, "&amp;"@) {
            assert(t.take(5)[1] == 'a');
        }
        if opens_with(t, "&lt;"@) {
            assert(t.take(4)[1] == 'l');
        }
        if opens_with(t, "&gt;"@) {
            assert(t.take(4)[1] == 'g');
        }
        if opens_with(t, "&quot;"@) {
            assert(t.take(6)[1] == 'q');
        }
        if opens_with(t, "&#39;"@) {
            assert(t.take(5)[1] == '#');
        }
    }
}

/// An escaped text decodes back to the text.
pub proof fn escaping_decodes_back(s: Seq<char>)
    ensures
        unescaped(escaped(s)) == s,
    decreases s.len(),
{
    if s.len() > 0 {
        let (one, rest) = (s.take(1), s.skip(1));
        assert(one + rest =~= s);
        escaping_distributes(one, rest);
        assert(one.drop_last() =~= Seq::<char>::empty());
        assert(escaped(one.drop_last()) =~= Seq::<char>::empty());
        assert(escaped(one) =~= escaped_char(s[0]));
        unescaped_char(s[0], escaped(rest));
        escaping_decodes_back(rest);
        assert(seq![s[0]] + rest =~= s);
    }
}

/// Two texts that look the same escaped are the same.
pub proof fn escaping_is_injective(a: Seq<char>, b: Seq<char>)
    requires
        escaped(a) == escaped(b),
    ensures
        a == b,
{
    escaping_decodes_back(a);
    escaping_decodes_back(b);
}

/// Every `&` of an escaped text starts an entity.
pub proof fn every_ampersand_starts_an_entity(s: Seq<char>, i: int)
    requires
        0 <= i < escaped(s).len(),
        escaped(s)[i] == '&',
    ensures
        opens_entity(escaped(s).skip(i)),
    decreases s.len(),
{
    reveal_strlit("&amp;");
    reveal_strlit("&lt;");
    reveal_strlit("&gt;");
    reveal_strlit("&quot;");
    reveal_strlit("&#39;");
    let before = escaped(s.drop_last());
    let e = escaped_char(s.last());
    let t = escaped(s).skip(i);
    if i < before.len() {
        every_ampersand_starts_an_entity(s.drop_last(), i);
        let u = before.skip(i);
        assert(t =~= u + e);
        assert forall|p: Seq<char>| #[trigger] opens_with(u, p) implies opens_with(t, p) by {
            assert(t.take(p.len() as int) =~= u.take(p.len() as int));
        }
    } else {
        assert(escaped(s)[i] == e[i - before.len()]);
        assert(i == before.len());
        assert(t =~= e);
        assert(t.take(e.len() as int) =~= e);
    }
}

/// A text of plain characters is left unchanged.
pub proof fn plain_texts_are_unchanged(s: Seq<char>)
    requires
        forall|i: int| 0 <= i < s.len() ==> is_plain(#[trigger] s[i]),
    ensures
        escaped(s) == s,
    decreases s.len(),
{
    if s.len() > 0 {
        plain_texts_are_unchanged(s.drop_last());
        assert(is_plain(s[s.len() - 1]));
        assert(s.drop_last() + seq![s.last()] =~= s);
    }
}

/// The client's first (most-preferred) media type, lowercased and
/// parameter-stripped.
pub open spec fn media_type(accept: Option<Seq<char>>) -> Option<Seq<char>> {
    match accept {
        None => None,
        Some(a) => {
            let first = lowered(trimmed(up_to(up_to(a, ','), ';')));
            if first.len() == 0 {
                None
            } else {
                Some(first)
            }
        },
    }
}

/// The client's first media type.
pub fn first_media_type(accept: Option<&str>) -> (r: Option<String>)
    ensures
        opt_text(r) == media_type(opt_str(accept)),
{
    match accept {
        None => None,
        Some(a) => {
            let listed: String = before_char(a, ',');
            let bare: String = before_char(listed.as_str(), ';');
            let first: String = lowercase(trim(bare.as_str()).as_str());
            if first.as_str().unicode_len() == 0 {
                None
            } else {
                Some(first)
            }
        },
    }
}

/// The first media type is an HTML one.
pub open spec fn prefers_html(accept: Option<Seq<char>>) -> bool {
    media_type(accept) == Some("text/html"@) || media_type(accept) == Some(
        "application/xhtml+xml"@,
    )
}

/// Whether an `Accept` header prefers an HTML representation: the client's
/// first media type decides.
pub fn accept_prefers_html(accept: Option<&str>) -> (r: bool)
    ensures
        r == prefers_html(opt_str(accept)),
{
    let first: Option<String> = first_media_type(accept);
    same_opt(&first, "text/html") || same_opt(&first, "application/xhtml+xml")
}

/// The `/render` output format.
#[derive(Debug, PartialEq, Eq)]
pub enum Format {
    Html,
    Text,
    Json,
    Invalid(String),
}

/// What a format says.
pub enum FormatView {
    Html,
    Text,
    Json,
    Invalid(Seq<char>),
}

impl View for Format {
    type V = FormatView;

    open spec fn view(&self) -> FormatView {
        match *self {
            Format::Html => FormatView::Html,
            Format::Text => FormatView::Text,
            Format::Json => FormatView::Json,
            Format::Invalid(s) => FormatView::Invalid(s@),
        }
    }
}

/// The output format that a request asks for: the explicit `format` parameter
/// first, else the `Accept` header's preference, else JSON.
pub open spec fn format_of(explicit: Option<Seq<char>>, accept: Option<Seq<char>>) -> FormatView {
    match explicit {
        Some(raw) => {
            let f = trimmed(raw);
            if f == "html"@ {
                FormatView::Html
            } else if f == "text"@ {
                FormatView::Text
            } else if f == "json"@ {
                FormatView::Json
            } else {
                FormatView::Invalid(f)
            }
        },
        None => if prefers_html(accept) {
            FormatView::Html
        } else if media_type(accept) == Some("text/plain"@) {
            FormatView::Text
        } else {
            FormatView::Json
        },
    }
}

/// The requested output format for `/render`.
pub fn requested_format(params: &HashMap<String, String>, accept: Option<&str>) -> (r: Format)
    ensures
        r@ == format_of(param_of(params@, "format"@), opt_str(accept)),
{
    match param(params, "format") {
        Some(raw) => {
            let f: String = trim(raw.as_str());
            if same(f.as_str(), "html") {
                Format::Html
            } else if same(f.as_str(), "text") {
                Format::Text
            } else if same(f.as_str(), "json") {
                Format::Json
            } else {
                Format::Invalid(f)
            }
        },
        None => {
            if accept_prefers_html(accept) {
                return Format::Html;
            }
            let first: Option<String> = first_media_type(accept);
            if same_opt(&first, "text/plain") {
                Format::Text
            } else {
                Format::Json
            }
        },
    }
}

/// An explicit format outranks the header: whatever the client accepts, the
/// answer is the same.
pub proof fn explicit_format_outranks_accept(
    explicit: Seq<char>,
    one: Option<Seq<char>>,
    other: Option<Seq<char>>,
)
    ensures
        format_of(Some(explicit), one) == format_of(Some(explicit), other),
{
}

/// Minimal mobile-first styling, inline.
pub const STYLE: &'static str = "body{font-family:system-ui,sans-serif;margin:0 auto;max-width:640px;padding:1rem;color:#1a1a1a;background:#fafafa}.card{background:#fff;border:1px solid #e0e0e0;border-radius:8px;padding:1rem;margin-bottom:1rem}h1{font-size:1.25rem;margin:0 0 .5rem}h2{font-size:1.05rem;margin:0 0 .5rem}.meta,.asof{color:#666;font-size:.8rem;margin:.25rem 0}section{background:#fff;border:1px solid #e0e0e0;border-radius:8px;padding:1rem;margin-bottom:1rem}.item{display:flex;justify-content:space-between;gap:1rem;padding:.4rem 0;border-bottom:1px solid #f0f0f0}.item:last-child{border-bottom:none}.label{color:#555}.value{text-align:right;font-weight:500}.gap .value{color:#b00;font-weight:400}.notice{color:#555;font-size:.85rem;padding:0 .25rem}.coverage{color:#555;font-size:.85rem;padding:.5rem .25rem}.gaps{margin:.25rem 0;padding-left:1.25rem}";

/// The text at a path of two keys.
pub open spec fn str_at(j: JsonView, a: Seq<char>, b: Seq<char>) -> Option<Seq<char>> {
    match member_view(j, a) {
        Some(x) => member_str(x, b),
        None => None,
    }
}

/// The items of a list member.
pub open spec fn list_at(j: JsonView, key: Seq<char>) -> Option<Seq<JsonView>> {
    match member_view(j, key) {
        Some(JsonView::Arr(items)) => Some(items),
        _ => None,
    }
}

fn list_of<'a>(j: &'a Json, key: &str) -> (r: Option<&'a Vec<Json>>)
    ensures
        match r {
            Some(items) => list_at(j@, key@) == Some(json_views(items@)),
            None => list_at(j@, key@) is None,
        },
{
    match j.get(key) {
        Some(x) => x.as_array(),
        None => None,
    }
}

fn str_of(j: &Json, key: &str) -> (r: String)
    ensures
        r@ == or_empty(member_str(j@, key@)),
{
    match j.get_str(key) {
        Some(s) => s.to_string(),
        None => String::new(),
    }
}

fn str_of_or(j: &Json, key: &str, default: &str) -> (r: String)
    ensures
        r@ == (match member_str(j@, key@) {
            Some(s) => s,
            None => default@,
        }),
{
    match j.get_str(key) {
        Some(s) => s.to_string(),
        None => default.to_string(),
    }
}

fn opt_str_of(j: &Json, a: &str, b: &str) -> (r: Option<String>)
    ensures
        opt_text(r) == str_at(j@, a@, b@),
{
    match j.get(a) {
        Some(x) => match x.get_str(b) {
            Some(s) => Some(s.to_string()),
            None => None,
        },
        None => None,
    }
}

fn str_of_path(j: &Json, a: &str, b: &str) -> (r: String)
    ensures
        r@ == or_empty(str_at(j@, a@, b@)),
{
    match opt_str_of(j, a, b) {
        Some(s) => s,
        None => String::new(),
    }
}

/// What an item shows in place of its value: the formatted value where it is
/// present, else the stated absence.
pub open spec fn item_body(item: JsonView) -> Seq<char> {
    if member_str(item, "status"@) == Some("present"@) {
        or_empty(member_str(item, "formatted"@))
    } else {
        "not shown — "@ + (match member_str(item, "detail"@) {
            Some(d) => d,
            None => "not provided"@,
        })
    }
}

fn body_of(item: &Json) -> (r: String)
    ensures
        r@ == item_body(item@),
{
    let status: Option<&str> = item.get_str("status");
    let present: bool = match status {
        Some(s) => same(s, "present"),
        None => false,
    };
    if present {
        str_of(item, "formatted")
    } else {
        let mut out: String = "not shown — ".to_string();
        out.append(str_of_or(item, "detail", "not provided").as_str());
        out
    }
}

/// The class list of an item: a gap is marked, and the trust tags along.
pub open spec fn item_class(item: JsonView) -> Seq<char> {
    let marked = if member_str(item, "status"@) == Some("missing"@) {
        "item"@ + " gap"@
    } else {
        "item"@
    };
    let trust = or_empty(member_str(item, "trust"@));
    if trust.len() > 0 {
        marked + " trust-"@ + escaped(trust)
    } else {
        marked
    }
}

/// One presented item: the label and the formatted value, or the label and
/// the stated absence.
pub open spec fn item_page(item: JsonView) -> Seq<char> {
    "<div class=\""@ + item_class(item) + "\"><span class=\"label\">"@ + escaped(
        or_empty(member_str(item, "label"@)),
    ) + "</span><span class=\"value\">"@ + escaped(item_body(item)) + "</span></div>\n"@
}

fn item_html(item: &Json) -> (r: String)
    ensures
        r@ == item_page(item@),
{
    let mut class: String = "item".to_string();
    match item.get_str("status") {
        Some(s) => {
            if same(s, "missing") {
                class.append(" gap");
            }
        },
        None => {},
    }
    let trust: String = str_of(item, "trust");
    if trust.as_str().unicode_len() > 0 {
        class.append(" trust-");
        class.append(esc(trust.as_str()).as_str());
    }
    let mut out: String = phrase("<div class=\"", class.as_str(), "\"><span class=\"label\">");
    out.append(esc(str_of(item, "label").as_str()).as_str());
    out.append("</span><span class=\"value\">");
    out.append(esc(body_of(item).as_str()).as_str());
    out.append("</span></div>\n");
    out
}

/// The first `n` items of a section.
pub open spec fn items_page(items: Seq<JsonView>, n: int) -> Seq<char>
    decreases n,
{
    if n <= 0 {
        Seq::empty()
    } else {
        items_page(items, n - 1) + item_page(items[n - 1])
    }
}

/// One section.
pub open spec fn section_page(section: JsonView) -> Seq<char> {
    "<section id=\""@ + escaped(or_empty(member_str(section, "id"@))) + "\">\n<h2>"@ + escaped(
        or_empty(member_str(section, "label"@)),
    ) + "</h2>\n"@ + (match list_at(section, "items"@) {
        Some(items) => items_page(items, items.len() as int),
        None => Seq::empty(),
    }) + "</section>\n"@
}

/// The first `n` sections.
pub open spec fn sections_page(sections: Seq<JsonView>, n: int) -> Seq<char>
    decreases n,
{
    if n <= 0 {
        Seq::empty()
    } else {
        sections_page(sections, n - 1) + section_page(sections[n - 1])
    }
}

fn section_html(section: &Json) -> (r: String)
    ensures
        r@ == section_page(section@),
{
    let mut out: String = "<section id=\"".to_string();
    out.append(esc(str_of(section, "id").as_str()).as_str());
    out.append("\">\n<h2>");
    out.append(esc(str_of(section, "label").as_str()).as_str());
    out.append("</h2>\n");
    let mut list: String = String::new();
    match list_of(section, "items") {
        Some(items) => {
            let ghost views = json_views(items@);
            let mut i: usize = 0;
            while i < items.len()
                invariant
                    i <= items.len(),
                    views == json_views(items@),
                    list@ == items_page(views, i as int),
                decreases items.len() - i,
            {
                assert(views[i as int] == items@[i as int]@);
                list.append(item_html(&items[i]).as_str());
                i = i + 1;
            }
        },
        None => {},
    }
    out.append(list.as_str());
    out.append("</section>\n");
    out
}

/// The later of the newest time so far and another.
pub open spec fn later(best: Option<Seq<char>>, t: Seq<char>) -> Option<Seq<char>> {
    match best {
        None => Some(t),
        Some(b) => if sorts_before(b, t) {
            Some(t)
        } else {
            Some(b)
        },
    }
}

/// The newest recording time among `best` and the first `n` items that are
/// present.
pub open spec fn newest_of_items(items: Seq<JsonView>, n: int, best: Option<Seq<char>>) -> Option<
    Seq<char>,
>
    decreases n,
{
    if n <= 0 {
        best
    } else {
        let so_far = newest_of_items(items, n - 1, best);
        let item = items[n - 1];
        match str_at(item, "sourced"@, "occurred_at"@) {
            Some(t) => if member_str(item, "status"@) == Some("present"@) {
                later(so_far, t)
            } else {
                so_far
            },
            None => so_far,
        }
    }
}

/// The newest recording time among the first `n` sections.
pub open spec fn newest_of_sections(sections: Seq<JsonView>, n: int) -> Option<Seq<char>>
    decreases n,
{
    if n <= 0 {
        None
    } else {
        let so_far = newest_of_sections(sections, n - 1);
        match list_at(sections[n - 1], "items"@) {
            Some(items) => newest_of_items(items, items.len() as int, so_far),
            None => so_far,
        }
    }
}

/// The newest `sourced.occurred_at` across presented items — the page's
/// change notice (RFC 3339 `Z` texts sort by time).
pub open spec fn newest_time(render: JsonView) -> Option<Seq<char>> {
    match list_at(render, "sections"@) {
        Some(sections) => newest_of_sections(sections, sections.len() as int),
        None => None,
    }
}

fn newest_in(items: &Vec<Json>, start: Option<String>) -> (r: Option<String>)
    ensures
        opt_text(r) == newest_of_items(
            json_views(items@),
            items@.len() as int,
            opt_text(start),
        ),
{
    let ghost views = json_views(items@);
    let ghost first = opt_text(start);
    let mut best: Option<String> = start;
    let mut i: usize = 0;
    while i < items.len()
        invariant
            i <= items.len(),
            views == json_views(items@),
            opt_text(best) == newest_of_items(views, i as int, first),
        decreases items.len() - i,
    {
        let item: &Json = &items[i];
        assert(views[i as int] == item@);
        let present: bool = match item.get_str("status") {
            Some(s) => same(s, "present"),
            None => false,
        };
        if present {
            match opt_str_of(item, "sourced", "occurred_at") {
                Some(t) => {
                    let newer: bool = match &best {
                        None => true,
                        Some(b) => before(b.as_str(), t.as_str()),
                    };
                    if newer {
                        best = Some(t);
                    }
                },
                None => {},
            }
        }
        i = i + 1;
    }
    best
}

fn newest_recorded_at(render: &Json) -> (r: Option<String>)
    ensures
        opt_text(r) == newest_time(render@),
{
    match list_of(render, "sections") {
        Some(sections) => {
            let ghost views = json_views(sections@);
            let mut best: Option<String> = None;
            let mut i: usize = 0;
            while i < sections.len()
                invariant
                    i <= sections.len(),
                    views == json_views(sections@),
                    opt_text(best) == newest_of_sections(views, i as int),
                decreases sections.len() - i,
            {
                assert(views[i as int] == sections@[i as int]@);
                match list_of(&sections[i], "items") {
                    Some(items) => {
                        best = newest_in(items, best);
                    },
                    None => {},
                }
                i = i + 1;
            }
            best
        },
        None => None,
    }
}

/// The change notice.
pub open spec fn notice_page(render: JsonView) -> Seq<char> {
    match newest_time(render) {
        Some(t) => "<p class=\"notice\">"@ + escaped(
            "The most recent information on this page was recorded on "@ + t + "."@,
        ) + "</p>\n"@,
        None => Seq::empty(),
    }
}

/// A count of the coverage report.
pub open spec fn count_at(render: JsonView, key: Seq<char>) -> Option<u64> {
    match member_view(render, "coverage"@) {
        Some(c) => match member_view(c, key) {
            Some(JsonView::Num(n)) => Some(n),
            _ => None,
        },
        None => None,
    }
}

/// The coverage report says that the view is complete.
pub open spec fn says_complete(render: JsonView) -> bool {
    match member_view(render, "coverage"@) {
        Some(c) => member_view(c, "complete"@) == Some(JsonView::Bool(true)),
        None => false,
    }
}

/// The word for completeness.
pub open spec fn completeness(render: JsonView) -> Seq<char> {
    if says_complete(render) {
        "complete"@
    } else {
        "incomplete"@
    }
}

/// The first `n` gaps of the coverage report.
pub open spec fn gaps_page(missing: Seq<JsonView>, n: int) -> Seq<char>
    decreases n,
{
    if n <= 0 {
        Seq::empty()
    } else {
        let m = missing[n - 1];
        gaps_page(missing, n - 1) + ("<li>"@ + escaped(or_empty(member_str(m, "element"@))) + " — "@
            + escaped(
            match member_str(m, "detail"@) {
                Some(d) => d,
                None => "not provided"@,
            },
        ) + "</li>\n"@)
    }
}

/// The gap list of the coverage report; nothing where there is no gap.
pub open spec fn gap_list_page(render: JsonView) -> Seq<char> {
    match member_view(render, "coverage"@) {
        Some(c) => match list_at(c, "missing"@) {
            Some(missing) => if missing.len() > 0 {
                "<ul class=\"gaps\">\n"@ + gaps_page(missing, missing.len() as int) + "</ul>\n"@
            } else {
                Seq::empty()
            },
            None => Seq::empty(),
        },
        None => Seq::empty(),
    }
}

/// The id of the profile that was rendered.
pub open spec fn profile_at(render: JsonView) -> Seq<char> {
    match member_view(render, "render_metadata"@) {
        Some(m) => or_empty(str_at(m, "profile"@, "id"@)),
        None => Seq::empty(),
    }
}

/// The coverage footer: the same honesty as the JSON.
pub open spec fn footer_page(render: JsonView) -> Seq<char> {
    match (count_at(render, "elements_required"@), count_at(render, "elements_present"@)) {
        (Some(required), Some(present)) => "<footer class=\"coverage\">\n<h2>Coverage</h2>\n<p>"@
            + escaped(
            nat_text(present as nat) + " of "@ + nat_text(required as nat)
                + " elements presented — "@ + completeness(render) + "."@,
        ) + "</p>\n"@ + gap_list_page(render) + "<p class=\"asof\">"@ + escaped(
            "Rendered as of "@ + or_empty(str_at(render, "render_metadata"@, "as_of"@))
                + " · profile "@ + profile_at(render),
        ) + "</p>\n"@ + "</footer>\n"@,
        _ => Seq::empty(),
    }
}

/// The page title.
pub open spec fn title_of(product: Seq<char>) -> Seq<char> {
    if product.len() == 0 {
        "UniDPP"@
    } else {
        product + " — UniDPP"@
    }
}

/// The head of the page.
pub open spec fn head_page(render: JsonView) -> Seq<char> {
    let lang = match str_at(render, "render_metadata"@, "lang"@) {
        Some(l) => l,
        None => "en"@,
    };
    let product = or_empty(str_at(render, "passport"@, "product_id"@));
    "<!DOCTYPE html>\n"@ + "<html lang=\""@ + escaped(lang) + "\">"@
        + "\n<head>\n<meta charset=\"utf-8\">\n"@
        + "<meta name=\"viewport\" content=\"width=device-width, initial-scale=1\">\n"@ + "<title>"@
        + escaped(title_of(product)) + "</title>\n"@ + "<style>"@ + STYLE@
        + "</style>\n</head>\n<body>\n"@
}

/// The header: identity, as the consumer anchors on it.
pub open spec fn header_page(render: JsonView) -> Seq<char> {
    "<header class=\"card\">\n<h1>"@ + escaped(
        or_empty(str_at(render, "passport"@, "product_id"@)),
    ) + "</h1>\n<p class=\"meta\">"@ + escaped(
        "passport "@ + or_empty(str_at(render, "passport"@, "id"@)) + " · capability "@ + or_empty(
            str_at(render, "passport"@, "capability"@),
        ) + " · status "@ + or_empty(str_at(render, "passport"@, "status"@)),
    ) + "</p>\n</header>\n"@
}

/// The sections.
pub open spec fn body_page(render: JsonView) -> Seq<char> {
    match list_at(render, "sections"@) {
        Some(sections) => sections_page(sections, sections.len() as int),
        None => Seq::empty(),
    }
}

/// The standalone HTML page of a render document.
pub open spec fn page(render: JsonView) -> Seq<char> {
    head_page(render) + header_page(render) + body_page(render) + notice_page(render)
        + footer_page(render) + "</body>\n</html>\n"@
}

fn head_html(render: &Json) -> (r: String)
    ensures
        r@ == head_page(render@),
{
    let lang: String = match opt_str_of(render, "render_metadata", "lang") {
        Some(l) => l,
        None => "en".to_string(),
    };
    let product: String = str_of_path(render, "passport", "product_id");
    let title: String = if product.as_str().unicode_len() == 0 {
        "UniDPP".to_string()
    } else {
        let mut t: String = product.clone();
        t.append(" — UniDPP");
        t
    };
    let mut out: String = "<!DOCTYPE html>\n".to_string();
    out.append("<html lang=\"");
    out.append(esc(lang.as_str()).as_str());
    out.append("\">");
    out.append("\n<head>\n<meta charset=\"utf-8\">\n");
    out.append("<meta name=\"viewport\" content=\"width=device-width, initial-scale=1\">\n");
    out.append("<title>");
    out.append(esc(title.as_str()).as_str());
    out.append("</title>\n");
    out.append("<style>");
    out.append(STYLE);
    out.append("</style>\n</head>\n<body>\n");
    out
}

fn header_html(render: &Json) -> (r: String)
    ensures
        r@ == header_page(render@),
{
    let mut out: String = "<header class=\"card\">\n<h1>".to_string();
    out.append(esc(str_of_path(render, "passport", "product_id").as_str()).as_str());
    out.append("</h1>\n<p class=\"meta\">");
    let mut meta: String = "passport ".to_string();
    meta.append(str_of_path(render, "passport", "id").as_str());
    meta.append(" · capability ");
    meta.append(str_of_path(render, "passport", "capability").as_str());
    meta.append(" · status ");
    meta.append(str_of_path(render, "passport", "status").as_str());
    out.append(esc(meta.as_str()).as_str());
    out.append("</p>\n</header>\n");
    out
}

fn body_html(render: &Json) -> (r: String)
    ensures
        r@ == body_page(render@),
{
    let mut out: String = String::new();
    match list_of(render, "sections") {
        Some(sections) => {
            let ghost views = json_views(sections@);
            let mut i: usize = 0;
            while i < sections.len()
                invariant
                    i <= sections.len(),
                    views == json_views(sections@),
                    out@ == sections_page(views, i as int),
                decreases sections.len() - i,
            {
                assert(views[i as int] == sections@[i as int]@);
                out.append(section_html(&sections[i]).as_str());
                i = i + 1;
            }
        },
        None => {},
    }
    out
}

fn notice_html(render: &Json) -> (r: String)
    ensures
        r@ == notice_page(render@),
{
    match newest_recorded_at(render) {
        Some(t) => {
            let notice: String = phrase(
                "The most recent information on this page was recorded on ",
                t.as_str(),
                ".",
            );
            let mut out: String = "<p class=\"notice\">".to_string();
            out.append(esc(notice.as_str()).as_str());
            out.append("</p>\n");
            out
        },
        None => String::new(),
    }
}

fn count_of(render: &Json, key: &str) -> (r: Option<u64>)
    ensures
        r == count_at(render@, key@),
{
    match render.get("coverage") {
        Some(c) => match c.get(key) {
            Some(n) => n.as_u64(),
            None => None,
        },
        None => None,
    }
}

fn completeness_of(render: &Json) -> (r: &'static str)
    ensures
        r@ == completeness(render@),
{
    let complete: bool = match render.get("coverage") {
        Some(c) => match c.get("complete") {
            Some(b) => match b.as_bool() {
                Some(b) => b,
                None => false,
            },
            None => false,
        },
        None => false,
    };
    if complete {
        "complete"
    } else {
        "incomplete"
    }
}

fn gap_list_html(render: &Json) -> (r: String)
    ensures
        r@ == gap_list_page(render@),
{
    let missing: &Vec<Json> = match render.get("coverage") {
        Some(c) => match list_of(c, "missing") {
            Some(m) => m,
            None => return String::new(),
        },
        None => return String::new(),
    };
    if missing.len() == 0 {
        return String::new();
    }
    let ghost views = json_views(missing@);
    let mut list: String = String::new();
    let mut i: usize = 0;
    while i < missing.len()
        invariant
            i <= missing.len(),
            views == json_views(missing@),
            list@ == gaps_page(views, i as int),
        decreases missing.len() - i,
    {
        assert(views[i as int] == missing@[i as int]@);
        let mut gap: String = "<li>".to_string();
        gap.append(esc(str_of(&missing[i], "element").as_str()).as_str());
        gap.append(" — ");
        gap.append(esc(str_of_or(&missing[i], "detail", "not provided").as_str()).as_str());
        gap.append("</li>\n");
        list.append(gap.as_str());
        i = i + 1;
    }
    let mut out: String = "<ul class=\"gaps\">\n".to_string();
    out.append(list.as_str());
    out.append("</ul>\n");
    out
}

fn profile_of(render: &Json) -> (r: String)
    ensures
        r@ == profile_at(render@),
{
    match render.get("render_metadata") {
        Some(m) => str_of_path(m, "profile", "id"),
        None => String::new(),
    }
}

fn footer_html(render: &Json) -> (r: String)
    ensures
        r@ == footer_page(render@),
{
    match (count_of(render, "elements_required"), count_of(render, "elements_present")) {
        (Some(required), Some(present)) => {
            let mut line: String = number_text(present as u128);
            line.append(" of ");
            line.append(number_text(required as u128).as_str());
            line.append(" elements presented — ");
            line.append(completeness_of(render));
            line.append(".");
            let mut out: String = "<footer class=\"coverage\">\n<h2>Coverage</h2>\n<p>".to_string();
            out.append(esc(line.as_str()).as_str());
            out.append("</p>\n");
            out.append(gap_list_html(render).as_str());
            let mut stamp: String = "Rendered as of ".to_string();
            stamp.append(str_of_path(render, "render_metadata", "as_of").as_str());
            stamp.append(" · profile ");
            stamp.append(profile_of(render).as_str());
            out.append("<p class=\"asof\">");
            out.append(esc(stamp.as_str()).as_str());
            out.append("</p>\n");
            out.append("</footer>\n");
            out
        },
        _ => String::new(),
    }
}

/// Serialize a render document to a standalone HTML page.
pub fn document(render: &Json) -> (r: String)
    ensures
        r@ == page(render@),
{
    let mut out: String = head_html(render);
    out.append(header_html(render).as_str());
    out.append(body_html(render).as_str());
    out.append(notice_html(render).as_str());
    out.append(footer_html(render).as_str());
    out.append("</body>\n</html>\n");
    out
}

/// One spoken item; an item without a label is not spoken.
pub open spec fn spoken_item(item: JsonView) -> Seq<char> {
    let label = or_empty(member_str(item, "label"@));
    if label.len() == 0 {
        Seq::empty()
    } else {
        label + ": "@ + item_body(item) + ".\n"@
    }
}

/// The first `n` spoken items.
pub open spec fn spoken_items(items: Seq<JsonView>, n: int) -> Seq<char>
    decreases n,
{
    if n <= 0 {
        Seq::empty()
    } else {
        spoken_items(items, n - 1) + spoken_item(items[n - 1])
    }
}

/// One spoken section.
pub open spec fn spoken_section(section: JsonView) -> Seq<char> {
    let label = or_empty(member_str(section, "label"@));
    let heading = if label.len() == 0 {
        Seq::empty()
    } else {
        "\n"@ + label + ".\n"@
    };
    heading + (match list_at(section, "items"@) {
        Some(items) => spoken_items(items, items.len() as int),
        None => Seq::empty(),
    })
}

/// The first `n` spoken sections.
pub open spec fn spoken_sections(sections: Seq<JsonView>, n: int) -> Seq<char>
    decreases n,
{
    if n <= 0 {
        Seq::empty()
    } else {
        spoken_sections(sections, n - 1) + spoken_section(sections[n - 1])
    }
}

/// The speakable text of a render document: plain sentences, every gap
/// spoken.
pub open spec fn speech(render: JsonView) -> Seq<char> {
    let product = or_empty(str_at(render, "passport"@, "product_id"@));
    let opening = if product.len() == 0 {
        Seq::empty()
    } else {
        product + ".\n"@
    };
    let told = match list_at(render, "sections"@) {
        Some(sections) => spoken_sections(sections, sections.len() as int),
        None => Seq::empty(),
    };
    let notice = match newest_time(render) {
        Some(t) => "\nThe most recent information on this page was recorded on "@ + t + ".\n"@,
        None => Seq::empty(),
    };
    let covered = match (
        count_at(render, "elements_required"@),
        count_at(render, "elements_present"@),
    ) {
        (Some(required), Some(present)) => "Coverage: "@ + nat_text(present as nat) + " of "@
            + nat_text(required as nat) + " elements presented, "@ + completeness(render) + "."@,
        _ => Seq::empty(),
    };
    opening + told + notice + covered
}

fn spoken_section_text(section: &Json) -> (r: String)
    ensures
        r@ == spoken_section(section@),
{
    let mut out: String = String::new();
    let label: String = str_of(section, "label");
    if label.as_str().unicode_len() > 0 {
        out = phrase("\n", label.as_str(), ".\n");
    }
    let mut told: String = String::new();
    match list_of(section, "items") {
        Some(items) => {
            let ghost views = json_views(items@);
            let mut i: usize = 0;
            while i < items.len()
                invariant
                    i <= items.len(),
                    views == json_views(items@),
                    told@ == spoken_items(views, i as int),
                decreases items.len() - i,
            {
                assert(views[i as int] == items@[i as int]@);
                let item_label: String = str_of(&items[i], "label");
                let mut sentence: String = String::new();
                if item_label.as_str().unicode_len() > 0 {
                    sentence = item_label;
                    sentence.append(": ");
                    sentence.append(body_of(&items[i]).as_str());
                    sentence.append(".\n");
                }
                told.append(sentence.as_str());
                i = i + 1;
            }
        },
        None => {},
    }
    out.append(told.as_str());
    out
}

/// The plain-text serialization of the render.
pub fn text(render: &Json) -> (r: String)
    ensures
        r@ == speech(render@),
{
    let mut out: String = String::new();
    let product: String = str_of_path(render, "passport", "product_id");
    if product.as_str().unicode_len() > 0 {
        out = product;
        out.append(".\n");
    }
    let mut told: String = String::new();
    match list_of(render, "sections") {
        Some(sections) => {
            let ghost views = json_views(sections@);
            let mut i: usize = 0;
            while i < sections.len()
                invariant
                    i <= sections.len(),
                    views == json_views(sections@),
                    told@ == spoken_sections(views, i as int),
                decreases sections.len() - i,
            {
                assert(views[i as int] == sections@[i as int]@);
                told.append(spoken_section_text(&sections[i]).as_str());
                i = i + 1;
            }
        },
        None => {},
    }
    out.append(told.as_str());
    let notice: String = match newest_recorded_at(render) {
        Some(t) => phrase(
            "\nThe most recent information on this page was recorded on ",
            t.as_str(),
            ".\n",
        ),
        None => String::new(),
    };
    out.append(notice.as_str());
    let covered: String = match (
        count_of(render, "elements_required"),
        count_of(render, "elements_present"),
    ) {
        (Some(required), Some(present)) => {
            let mut line: String = "Coverage: ".to_string();
            line.append(number_text(present as u128).as_str());
            line.append(" of ");
            line.append(number_text(required as u128).as_str());
            line.append(" elements presented, ");
            line.append(completeness_of(render));
            line.append(".");
            line
        },
        _ => String::new(),
    };
    out.append(covered.as_str());
    out
}

/// Nothing in the text opens a script element: every `<` is followed by two
/// characters that are not the start of `script`.
pub open spec fn scriptless(s: Seq<char>) -> bool {
    forall|i: int|
        0 <= i < s.len() && #[trigger] s[i] == '<' ==> i + 2 < s.len() && !((s[i + 1] == 's' || s[i
            + 1] == 'S') && (s[i + 2] == 'c' || s[i + 2] == 'C'))
}

proof fn style_is_scriptless()
    ensures
        scriptless(STYLE@),
{
    reveal_strlit("body{font-family:system-ui,sans-serif;margin:0 auto;max-width:640px;padding:1rem;color:#1a1a1a;background:#fafafa}.card{background:#fff;border:1px solid #e0e0e0;border-radius:8px;padding:1rem;margin-bottom:1rem}h1{font-size:1.25rem;margin:0 0 .5rem}h2{font-size:1.05rem;margin:0 0 .5rem}.meta,.asof{color:#666;font-size:.8rem;margin:.25rem 0}section{background:#fff;border:1px solid #e0e0e0;border-radius:8px;padding:1rem;margin-bottom:1rem}.item{display:flex;justify-content:space-between;gap:1rem;padding:.4rem 0;border-bottom:1px solid #f0f0f0}.item:last-child{border-bottom:none}.label{color:#555}.value{text-align:right;font-weight:500}.gap .value{color:#b00;font-weight:400}.notice{color:#555;font-size:.85rem;padding:0 .25rem}.coverage{color:#555;font-size:.85rem;padding:.5rem .25rem}.gaps{margin:.25rem 0;padding-left:1.25rem}");
    assert forall|i: int| 0 <= i < STYLE@.len() implies #[trigger] STYLE@[i] != '<' by {
    }
}

broadcast proof fn scriptless_joins(a: Seq<char>, b: Seq<char>)
    requires
        scriptless(a),
        scriptless(b),
    ensures
        #[trigger] scriptless(a + b),
{
    let s = a + b;
    assert forall|i: int| 0 <= i < s.len() && #[trigger] s[i] == '<' implies i + 2 < s.len() && !((
    s[i + 1] == 's' || s[i + 1] == 'S') && (s[i + 2] == 'c' || s[i + 2] == 'C')) by {
        if i < a.len() {
            assert(a[i] == '<');
        } else {
            assert(b[i - a.len()] == '<');
        }
    }
}

broadcast proof fn escaped_is_scriptless(s: Seq<char>)
    ensures
        #[trigger] scriptless(escaped(s)),
{
    assert forall|i: int| 0 <= i < escaped(s).len() implies #[trigger] escaped(s)[i] != '<' by {
        escaped_text_has_no_markup(s, i);
    }
}

broadcast proof fn nothing_is_scriptless()
    ensures
        #[trigger] scriptless(Seq::<char>::empty()),
{
}

proof fn items_are_scriptless(items: Seq<JsonView>, n: int)
    ensures
        scriptless(items_page(items, n)),
    decreases n,
{
    broadcast use {scriptless_joins, escaped_is_scriptless, nothing_is_scriptless};

    if n > 0 {
        items_are_scriptless(items, n - 1);
        item_is_scriptless(items[n - 1]);
    }
}

proof fn item_is_scriptless(item: JsonView)
    ensures
        scriptless(item_page(item)),
{
    broadcast use {scriptless_joins, escaped_is_scriptless};

    reveal_strlit("<div class=\"");
    assert(scriptless("<div class=\""@));
    reveal_strlit("item");
    assert(scriptless("item"@));
    reveal_strlit(" gap");
    assert(scriptless(" gap"@));
    reveal_strlit(" trust-");
    assert(scriptless(" trust-"@));
    reveal_strlit("\"><span class=\"label\">");
    assert(scriptless("\"><span class=\"label\">"@));
    reveal_strlit("</span><span class=\"value\">");
    assert(scriptless("</span><span class=\"value\">"@));
    reveal_strlit("</span></div>\n");
    assert(scriptless("</span></div>\n"@));
    assert(scriptless(item_class(item)));
}

proof fn sections_are_scriptless(sections: Seq<JsonView>, n: int)
    ensures
        scriptless(sections_page(sections, n)),
    decreases n,
{
    broadcast use {scriptless_joins, escaped_is_scriptless, nothing_is_scriptless};

    if n > 0 {
        sections_are_scriptless(sections, n - 1);
        let section = sections[n - 1];
        match list_at(section, "items"@) {
            Some(items) => items_are_scriptless(items, items.len() as int),
            None => {},
        }
        section_marks_are_scriptless();
        assert(scriptless(section_page(section)));
    }
}

proof fn section_marks_are_scriptless()
    ensures
        scriptless("<section id=\""@),
        scriptless("\">\n<h2>"@),
        scriptless("</h2>\n"@),
        scriptless("</section>\n"@),
{
    reveal_strlit("<section id=\"");
    assert(scriptless("<section id=\""@));
    reveal_strlit("\">\n<h2>");
    assert(scriptless("\">\n<h2>"@));
    reveal_strlit("</h2>\n");
    assert(scriptless("</h2>\n"@));
    reveal_strlit("</section>\n");
    assert(scriptless("</section>\n"@));
}

proof fn gaps_are_scriptless(missing: Seq<JsonView>, n: int)
    ensures
        scriptless(gaps_page(missing, n)),
    decreases n,
{
    broadcast use {scriptless_joins, escaped_is_scriptless, nothing_is_scriptless};

    if n > 0 {
        gaps_are_scriptless(missing, n - 1);
        reveal_strlit("<li>");
        assert(scriptless("<li>"@));
        reveal_strlit(" — ");
        assert(scriptless(" — "@));
        reveal_strlit("</li>\n");
        assert(scriptless("</li>\n"@));
    }
}

proof fn footer_is_scriptless(render: JsonView)
    ensures
        scriptless(footer_page(render)),
{
    broadcast use {scriptless_joins, escaped_is_scriptless, nothing_is_scriptless};

    reveal_strlit("<footer class=\"coverage\">\n<h2>Coverage</h2>\n<p>");
    assert(scriptless("<footer class=\"coverage\">\n<h2>Coverage</h2>\n<p>"@));
    reveal_strlit("</p>\n");
    assert(scriptless("</p>\n"@));
    reveal_strlit("<ul class=\"gaps\">\n");
    assert(scriptless("<ul class=\"gaps\">\n"@));
    reveal_strlit("</ul>\n");
    assert(scriptless("</ul>\n"@));
    reveal_strlit("<p class=\"asof\">");
    assert(scriptless("<p class=\"asof\">"@));
    reveal_strlit("</footer>\n");
    assert(scriptless("</footer>\n"@));
    match member_view(render, "coverage"@) {
        Some(c) => match list_at(c, "missing"@) {
            Some(missing) => gaps_are_scriptless(missing, missing.len() as int),
            None => {},
        },
        None => {},
    }
    assert(scriptless(gap_list_page(render)));
}

proof fn head_is_scriptless(render: JsonView)
    ensures
        scriptless(head_page(render)),
        scriptless(header_page(render)),
        scriptless(notice_page(render)),
{
    broadcast use {scriptless_joins, escaped_is_scriptless, nothing_is_scriptless};

    style_is_scriptless();
    reveal_strlit("<!DOCTYPE html>\n");
    assert(scriptless("<!DOCTYPE html>\n"@));
    reveal_strlit("<html lang=\"");
    assert(scriptless("<html lang=\""@));
    reveal_strlit("\">");
    assert(scriptless("\">"@));
    reveal_strlit("\n<head>\n<meta charset=\"utf-8\">\n");
    assert(scriptless("\n<head>\n<meta charset=\"utf-8\">\n"@));
    reveal_strlit("<meta name=\"viewport\" content=\"width=device-width, initial-scale=1\">\n");
    assert(scriptless("<meta name=\"viewport\" content=\"width=device-width, initial-scale=1\">\n"@));
    reveal_strlit("<title>");
    assert(scriptless("<title>"@));
    reveal_strlit("</title>\n");
    assert(scriptless("</title>\n"@));
    reveal_strlit("<style>");
    assert(scriptless("<style>"@));
    reveal_strlit("</style>\n</head>\n<body>\n");
    assert(scriptless("</style>\n</head>\n<body>\n"@));
    reveal_strlit("<header class=\"card\">\n<h1>");
    assert(scriptless("<header class=\"card\">\n<h1>"@));
    reveal_strlit("</h1>\n<p class=\"meta\">");
    assert(scriptless("</h1>\n<p class=\"meta\">"@));
    reveal_strlit("</p>\n</header>\n");
    assert(scriptless("</p>\n</header>\n"@));
    reveal_strlit("<p class=\"notice\">");
    assert(scriptless("<p class=\"notice\">"@));
    reveal_strlit("</p>\n");
    assert(scriptless("</p>\n"@));
}

/// The page contains no script: whatever the render document holds, nothing
/// on the page opens a script element.
pub proof fn the_page_holds_no_script(render: JsonView)
    ensures
        scriptless(page(render)),
{
    broadcast use {scriptless_joins, nothing_is_scriptless};

    head_is_scriptless(render);
    match list_at(render, "sections"@) {
        Some(sections) => sections_are_scriptless(sections, sections.len() as int),
        None => {},
    }
    footer_is_scriptless(render);
    reveal_strlit("</body>\n</html>\n");
    assert(scriptless("</body>\n</html>\n"@));
}

/// `t` stands somewhere in `s`.
pub open spec fn part_of(t: Seq<char>, s: Seq<char>) -> bool {
    exists|i: int| 0 <= i && i + t.len() <= s.len() && #[trigger] s.subrange(i, i + t.len()) == t
}

proof fn part_between(t: Seq<char>, a: Seq<char>, s: Seq<char>, b: Seq<char>)
    requires
        part_of(t, s),
    ensures
        part_of(t, a + s + b),
{
    let i = choose|i: int|
        0 <= i && i + t.len() <= s.len() && #[trigger] s.subrange(i, i + t.len()) == t;
    let all = a + s + b;
    assert(all.subrange(a.len() + i, a.len() + i + t.len()) =~= s.subrange(i, i + t.len()));
}

proof fn part_here(t: Seq<char>, a: Seq<char>, b: Seq<char>)
    ensures
        part_of(t, a + t + b),
{
    assert(t.subrange(0int, 0int + t.len()) =~= t);
    part_between(t, a, t, b);
}

proof fn part_joined(t: Seq<char>, a: Seq<char>, b: Seq<char>)
    requires
        part_of(t, a) || part_of(t, b),
    ensures
        part_of(t, a + b),
{
    let none = Seq::<char>::empty();
    if part_of(t, a) {
        part_between(t, none, a, b);
        assert(none + a + b =~= a + b);
    } else {
        part_between(t, a, b, none);
        assert(a + b + none =~= a + b);
    }
}

/// The item reads as `t`: as its formatted value where it is present, else
/// as the stated absence with its reason.
pub open spec fn item_reads(item: JsonView, t: Seq<char>) -> bool {
    if member_str(item, "status"@) == Some("present"@) {
        member_str(item, "formatted"@) == Some(t)
    } else {
        match member_str(item, "detail"@) {
            Some(d) => t == "not shown — "@ + d,
            None => t == "not shown — "@ + "not provided"@,
        }
    }
}

/// The document has the item at this place.
pub open spec fn has_item(render: JsonView, s: int, k: int, item: JsonView) -> bool {
    &&& list_at(render, "sections"@) is Some
    &&& 0 <= s < list_at(render, "sections"@)->0.len()
    &&& list_at(list_at(render, "sections"@)->0[s], "items"@) is Some
    &&& 0 <= k < list_at(list_at(render, "sections"@)->0[s], "items"@)->0.len()
    &&& list_at(list_at(render, "sections"@)->0[s], "items"@)->0[k] == item
}

/// Every item of the document is on the page, its label beside what it
/// reads as, both escaped.
#[verifier::rlimit(60)]
#[verifier::spinoff_prover]
pub proof fn the_page_shows_every_item(
    render: JsonView,
    s: int,
    k: int,
    item: JsonView,
    label: Seq<char>,
    t: Seq<char>,
)
    requires
        has_item(render, s, k, item),
        member_str(item, "label"@) == Some(label),
        item_reads(item, t),
    ensures
        part_of(escaped(label) + "</span><span class=\"value\">"@ + escaped(t), page(render)),
{
    let sections = list_at(render, "sections"@)->0;
    let items = list_at(sections[s], "items"@)->0;
    let shown = escaped(label) + "</span><span class=\"value\">"@ + escaped(t);
    let front = "<div class=\""@ + item_class(item) + "\"><span class=\"label\">"@;
    let back = "</span></div>\n"@;
    part_here(shown, front, back);
    assert(item_page(item) =~= front + shown + back);
    items_hold(items, items.len() as int, k, shown);
    let list = items_page(items, items.len() as int);
    let open = "<section id=\""@ + escaped(or_empty(member_str(sections[s], "id"@))) + "\">\n<h2>"@
        + escaped(or_empty(member_str(sections[s], "label"@))) + "</h2>\n"@;
    part_between(shown, open, list, "</section>\n"@);
    assert(section_page(sections[s]) =~= open + list + "</section>\n"@);
    sections_hold(sections, sections.len() as int, s, shown);
    part_between(
        shown,
        head_page(render) + header_page(render),
        body_page(render),
        notice_page(render) + footer_page(render) + "</body>\n</html>\n"@,
    );
    assert(page(render) =~= head_page(render) + header_page(render) + body_page(render) + (
    notice_page(render) + footer_page(render) + "</body>\n</html>\n"@));
}

proof fn items_hold(items: Seq<JsonView>, n: int, k: int, t: Seq<char>)
    requires
        0 <= k < n <= items.len(),
        part_of(t, item_page(items[k])),
    ensures
        part_of(t, items_page(items, n)),
    decreases n,
{
    if k < n - 1 {
        items_hold(items, n - 1, k, t);
    }
    part_joined(t, items_page(items, n - 1), item_page(items[n - 1]));
}

proof fn sections_hold(sections: Seq<JsonView>, n: int, k: int, t: Seq<char>)
    requires
        0 <= k < n <= sections.len(),
        part_of(t, section_page(sections[k])),
    ensures
        part_of(t, sections_page(sections, n)),
    decreases n,
{
    if k < n - 1 {
        sections_hold(sections, n - 1, k, t);
    }
    part_joined(t, sections_page(sections, n - 1), section_page(sections[n - 1]));
}

/// Every labelled item of the document is spoken: its label, and what it
/// reads as.
#[verifier::rlimit(60)]
#[verifier::spinoff_prover]
pub proof fn every_labelled_item_is_spoken(
    render: JsonView,
    s: int,
    k: int,
    item: JsonView,
    label: Seq<char>,
    t: Seq<char>,
)
    requires
        has_item(render, s, k, item),
        member_str(item, "label"@) == Some(label),
        label.len() > 0,
        item_reads(item, t),
    ensures
        part_of(label + ": "@ + t + ".\n"@, speech(render)),
{
    let sections = list_at(render, "sections"@)->0;
    let items = list_at(sections[s], "items"@)->0;
    let line = label + ": "@ + t + ".\n"@;
    let none = Seq::<char>::empty();
    part_here(line, none, none);
    assert(spoken_item(item) =~= none + line + none);
    spoken_items_hold(items, items.len() as int, k, line);
    let name = or_empty(member_str(sections[s], "label"@));
    let heading = if name.len() == 0 {
        none
    } else {
        "\n"@ + name + ".\n"@
    };
    part_joined(line, heading, spoken_items(items, items.len() as int));
    spoken_sections_hold(sections, sections.len() as int, s, line);
    let product = or_empty(str_at(render, "passport"@, "product_id"@));
    let opening = if product.len() == 0 {
        none
    } else {
        product + ".\n"@
    };
    let told = spoken_sections(sections, sections.len() as int);
    let cut = opening.len() as int;
    let rest = speech(render).skip(cut + told.len() as int);
    part_between(line, opening, told, rest);
    assert(speech(render) =~= opening + told + rest);
}

proof fn spoken_items_hold(items: Seq<JsonView>, n: int, k: int, t: Seq<char>)
    requires
        0 <= k < n <= items.len(),
        part_of(t, spoken_item(items[k])),
    ensures
        part_of(t, spoken_items(items, n)),
    decreases n,
{
    if k < n - 1 {
        spoken_items_hold(items, n - 1, k, t);
    }
    part_joined(t, spoken_items(items, n - 1), spoken_item(items[n - 1]));
}

proof fn spoken_sections_hold(sections: Seq<JsonView>, n: int, k: int, t: Seq<char>)
    requires
        0 <= k < n <= sections.len(),
        part_of(t, spoken_section(sections[k])),
    ensures
        part_of(t, spoken_sections(sections, n)),
    decreases n,
{
    if k < n - 1 {
        spoken_sections_hold(sections, n - 1, k, t);
    }
    part_joined(t, spoken_sections(sections, n - 1), spoken_section(sections[n - 1]));
}

/// The word for a view that is complete, or is not.
pub open spec fn complete_word(complete: bool) -> Seq<char> {
    if complete {
        "complete"@
    } else {
        "incomplete"@
    }
}

/// Page and speech state the coverage: how many elements of how many are
/// presented, and whether that is complete.
#[verifier::rlimit(60)]
#[verifier::spinoff_prover]
pub proof fn coverage_is_stated(render: JsonView, required: u64, present: u64, complete: bool)
    requires
        member_view(render, "coverage"@) is Some,
        ({
            let c = member_view(render, "coverage"@)->0;
            &&& member_view(c, "elements_required"@) == Some(JsonView::Num(required))
            &&& member_view(c, "elements_present"@) == Some(JsonView::Num(present))
            &&& member_view(c, "complete"@) == Some(JsonView::Bool(complete))
        }),
    ensures
        part_of(
            escaped(
                nat_text(present as nat) + " of "@ + nat_text(required as nat)
                    + " elements presented — "@ + complete_word(complete) + "."@,
            ),
            page(render),
        ),
        part_of(
            "Coverage: "@ + nat_text(present as nat) + " of "@ + nat_text(required as nat)
                + " elements presented, "@ + complete_word(complete) + "."@,
            speech(render),
        ),
{
    let none = Seq::<char>::empty();
    let stated = escaped(
        nat_text(present as nat) + " of "@ + nat_text(required as nat) + " elements presented — "@
            + complete_word(complete) + "."@,
    );
    let open = "<footer class=\"coverage\">\n<h2>Coverage</h2>\n<p>"@;
    let rest = footer_page(render).skip((open + stated).len() as int);
    part_here(stated, open, rest);
    assert(footer_page(render) =~= open + stated + rest);
    footer_is_on_the_page(stated, render);
    let line = "Coverage: "@ + nat_text(present as nat) + " of "@ + nat_text(required as nat)
        + " elements presented, "@ + complete_word(complete) + "."@;
    let front = speech(render).take(speech(render).len() - line.len());
    part_here(line, front, none);
    assert(speech(render) =~= front + line + none);
}

proof fn footer_is_on_the_page(t: Seq<char>, render: JsonView)
    requires
        part_of(t, footer_page(render)),
    ensures
        part_of(t, page(render)),
{
    let front = head_page(render) + header_page(render) + body_page(render) + notice_page(render);
    part_between(t, front, footer_page(render), "</body>\n</html>\n"@);
}

/// The page lists every gap of the coverage report, with its reason.
#[verifier::rlimit(60)]
#[verifier::spinoff_prover]
pub proof fn every_gap_is_listed(
    render: JsonView,
    k: int,
    element: Seq<char>,
    detail: Seq<char>,
)
    requires
        count_at(render, "elements_required"@) is Some,
        count_at(render, "elements_present"@) is Some,
        ({
            let c = member_view(render, "coverage"@)->0;
            &&& list_at(c, "missing"@) is Some
            &&& 0 <= k < list_at(c, "missing"@)->0.len()
            &&& member_str(list_at(c, "missing"@)->0[k], "element"@) == Some(element)
            &&& member_str(list_at(c, "missing"@)->0[k], "detail"@) == Some(detail)
        }),
    ensures
        part_of(escaped(element) + " — "@ + escaped(detail), page(render)),
{
    let missing = list_at(member_view(render, "coverage"@)->0, "missing"@)->0;
    let t = escaped(element) + " — "@ + escaped(detail);
    gaps_hold(missing, missing.len() as int, k, element, detail);
    let gaps = gaps_page(missing, missing.len() as int);
    part_between(t, "<ul class=\"gaps\">\n"@, gaps, "</ul>\n"@);
    let (required, present) = (
        count_at(render, "elements_required"@)->0,
        count_at(render, "elements_present"@)->0,
    );
    let open = "<footer class=\"coverage\">\n<h2>Coverage</h2>\n<p>"@ + escaped(
        nat_text(present as nat) + " of "@ + nat_text(required as nat) + " elements presented — "@
            + completeness(render) + "."@,
    ) + "</p>\n"@;
    let list = gap_list_page(render);
    let rest = footer_page(render).skip((open + list).len() as int);
    part_between(t, open, list, rest);
    assert(footer_page(render) =~= open + list + rest);
    footer_is_on_the_page(t, render);
}

proof fn gaps_hold(
    missing: Seq<JsonView>,
    n: int,
    k: int,
    element: Seq<char>,
    detail: Seq<char>,
)
    requires
        0 <= k < n <= missing.len(),
        member_str(missing[k], "element"@) == Some(element),
        member_str(missing[k], "detail"@) == Some(detail),
    ensures
        part_of(escaped(element) + " — "@ + escaped(detail), gaps_page(missing, n)),
    decreases n,
{
    let t = escaped(element) + " — "@ + escaped(detail);
    let before = gaps_page(missing, n - 1);
    let now = gaps_page(missing, n);
    let last = now.skip(before.len() as int);
    assert(now =~= before + last);
    if k < n - 1 {
        gaps_hold(missing, n - 1, k, element, detail);
    } else {
        part_here(t, "<li>"@, "</li>\n"@);
        assert(last =~= "<li>"@ + t + "</li>\n"@);
    }
    part_joined(t, before, last);
}

/// The page names its subject: the product, and the passport with its
/// capability and its status. So does the speech, the product first.
#[verifier::rlimit(60)]
#[verifier::spinoff_prover]
pub proof fn the_subject_is_named(
    render: JsonView,
    product: Seq<char>,
    id: Seq<char>,
    capability: Seq<char>,
    status: Seq<char>,
)
    requires
        str_at(render, "passport"@, "product_id"@) == Some(product),
        str_at(render, "passport"@, "id"@) == Some(id),
        str_at(render, "passport"@, "capability"@) == Some(capability),
        str_at(render, "passport"@, "status"@) == Some(status),
        product.len() > 0,
    ensures
        part_of("<h1>"@ + escaped(product) + "</h1>"@, page(render)),
        part_of("<title>"@ + escaped(product + " — UniDPP"@) + "</title>"@, page(render)),
        part_of(
            escaped(
                "passport "@ + id + " · capability "@ + capability + " · status "@ + status,
            ),
            page(render),
        ),
        (product + ".\n"@).is_prefix_of(speech(render)),
{
    let head = head_page(render);
    let header = header_page(render);
    let behind = body_page(render) + notice_page(render) + footer_page(render)
        + "</body>\n</html>\n"@;
    let title = "<title>"@ + escaped(product + " — UniDPP"@) + "</title>"@;
    reveal_strlit("</title>\n");
    reveal_strlit("</title>");
    assert("</title>\n"@ =~= "</title>"@ + seq!['\n']);
    let lang = match str_at(render, "render_metadata"@, "lang"@) {
        Some(l) => l,
        None => "en"@,
    };
    let before = "<!DOCTYPE html>\n"@ + "<html lang=\""@ + escaped(lang) + "\">"@
        + "\n<head>\n<meta charset=\"utf-8\">\n"@
        + "<meta name=\"viewport\" content=\"width=device-width, initial-scale=1\">\n"@;
    let rest = head.skip((before + title).len() as int);
    part_here(title, before, rest);
    assert(head =~= before + title + rest);
    let none = Seq::<char>::empty();
    part_between(title, none, head, header + behind);
    assert(page(render) =~= none + head + (header + behind));
    let name = "<h1>"@ + escaped(product) + "</h1>"@;
    reveal_strlit("<header class=\"card\">\n<h1>");
    reveal_strlit("<h1>");
    reveal_strlit("<header class=\"card\">\n");
    reveal_strlit("</h1>\n<p class=\"meta\">");
    reveal_strlit("</h1>");
    reveal_strlit("\n<p class=\"meta\">");
    assert("<header class=\"card\">\n<h1>"@ =~= "<header class=\"card\">\n"@ + "<h1>"@);
    assert("</h1>\n<p class=\"meta\">"@ =~= "</h1>"@ + "\n<p class=\"meta\">"@);
    let after = header.skip(("<header class=\"card\">\n"@ + name).len() as int);
    part_here(name, "<header class=\"card\">\n"@, after);
    assert(header =~= "<header class=\"card\">\n"@ + name + after);
    part_between(name, head, header, behind);
    assert(page(render) =~= head + header + behind);
    let meta = escaped(
        "passport "@ + id + " · capability "@ + capability + " · status "@ + status,
    );
    let front = "<header class=\"card\">\n<h1>"@ + escaped(product) + "</h1>\n<p class=\"meta\">"@;
    part_here(meta, front, "</p>\n</header>\n"@);
    assert(header =~= front + meta + "</p>\n</header>\n"@);
    part_between(meta, head, header, behind);
    let spoken = speech(render);
    assert(spoken.take((product + ".\n"@).len() as int) =~= product + ".\n"@);
}

proof fn later_is_latest(best: Option<Seq<char>>, t: Seq<char>)
    ensures
        later(best, t) is Some,
        later(best, t) == Some(t) || later(best, t) == best,
        !sorts_before(later(best, t)->0, t),
        best is Some ==> !sorts_before(later(best, t)->0, best->0),
{
    sorts_before_irreflexive(t, 0);
    if best is Some {
        sorts_before_irreflexive(best->0, 0);
        if sorts_before(best->0, t) && sorts_before(t, best->0) {
            sorts_before_transitive(t, best->0, t, 0);
        }
    }
}

/// An item of a list was recorded at `t`.
pub open spec fn item_recorded(item: JsonView, t: Seq<char>) -> bool {
    member_str(item, "status"@) == Some("present"@) && str_at(item, "sourced"@, "occurred_at"@)
        == Some(t)
}

/// `t` is not later than the newest time.
pub open spec fn not_after(t: Seq<char>, newest: Option<Seq<char>>) -> bool {
    newest is Some && !sorts_before(newest->0, t)
}

proof fn not_after_later(t: Seq<char>, best: Option<Seq<char>>, u: Seq<char>)
    requires
        not_after(t, best),
    ensures
        not_after(t, later(best, u)),
{
    if sorts_before(best->0, u) && sorts_before(u, t) {
        sorts_before_transitive(best->0, u, t, 0);
    }
}

#[verifier::rlimit(60)]
#[verifier::spinoff_prover]
proof fn newest_item(items: Seq<JsonView>, n: int, best: Option<Seq<char>>)
    requires
        0 <= n <= items.len(),
    ensures
        ({
            let newest = newest_of_items(items, n, best);
            &&& newest == best || exists|k: int|
                0 <= k < n && newest is Some && item_recorded(#[trigger] items[k], newest->0)
            &&& forall|t: Seq<char>| #[trigger] not_after(t, best) ==> not_after(t, newest)
            &&& forall|k: int, t: Seq<char>|
                0 <= k < n && #[trigger] item_recorded(items[k], t) ==> not_after(t, newest)
        }),
    decreases n,
{
    if n > 0 {
        newest_item(items, n - 1, best);
        let so_far = newest_of_items(items, n - 1, best);
        let newest = newest_of_items(items, n, best);
        let item = items[n - 1];
        if newest != so_far {
            assert(item_recorded(items[n - 1], newest->0));
        } else if so_far != best {
            let k = choose|k: int|
                0 <= k < n - 1 && so_far is Some && item_recorded(#[trigger] items[k], so_far->0);
            assert(item_recorded(items[k], newest->0));
        }
        assert forall|t: Seq<char>| #[trigger] not_after(t, so_far) implies not_after(t, newest) by {
            match str_at(item, "sourced"@, "occurred_at"@) {
                Some(u) => not_after_later(t, so_far, u),
                None => {},
            }
        }
        assert forall|k: int, t: Seq<char>|
            0 <= k < n && #[trigger] item_recorded(items[k], t) implies not_after(t, newest) by {
            if k == n - 1 {
                later_is_latest(so_far, t);
            } else {
                assert(not_after(t, so_far));
            }
        }
        assert forall|t: Seq<char>| #[trigger] not_after(t, best) implies not_after(t, newest) by {
            assert(not_after(t, so_far));
        }
    }
}

/// The item is one of the section's.
pub open spec fn section_holds(section: JsonView, k: int, item: JsonView) -> bool {
    match list_at(section, "items"@) {
        Some(items) => 0 <= k < items.len() && items[k] == item,
        None => false,
    }
}

#[verifier::rlimit(60)]
#[verifier::spinoff_prover]
proof fn newest_section(sections: Seq<JsonView>, n: int)
    requires
        0 <= n <= sections.len(),
    ensures
        ({
            let newest = newest_of_sections(sections, n);
            &&& newest is Some ==> exists|s: int, k: int, item: JsonView|
                0 <= s < n && #[trigger] section_holds(sections[s], k, item) && item_recorded(
                    item,
                    newest->0,
                )
            &&& forall|s: int, k: int, item: JsonView, t: Seq<char>|
                0 <= s < n && #[trigger] section_holds(sections[s], k, item)
                    && #[trigger] item_recorded(item, t) ==> not_after(t, newest)
        }),
    decreases n,
{
    if n > 0 {
        newest_section(sections, n - 1);
        let so_far = newest_of_sections(sections, n - 1);
        let newest = newest_of_sections(sections, n);
        let section = sections[n - 1];
        match list_at(section, "items"@) {
            Some(items) => {
                newest_item(items, items.len() as int, so_far);
                if newest is Some {
                    if newest == so_far {
                    } else {
                        let k = choose|k: int|
                            0 <= k < items.len() && newest is Some && item_recorded(
                                #[trigger] items[k],
                                newest->0,
                            );
                        assert(section_holds(sections[n - 1], k, items[k]));
                    }
                }
                assert forall|s: int, k: int, item: JsonView, t: Seq<char>|
                    0 <= s < n && #[trigger] section_holds(sections[s], k, item)
                        && #[trigger] item_recorded(item, t) implies not_after(t, newest) by {
                    if s == n - 1 {
                        assert(item_recorded(items[k], t));
                    } else {
                        assert(not_after(t, so_far));
                    }
                }
            },
            None => {},
        }
    }
}

/// The change notice states the latest recording time of the present items:
/// it is the time of one of them, and no other is later. Without such an
/// item there is none.
pub proof fn the_notice_states_the_latest_time(
    render: JsonView,
    s: int,
    k: int,
    item: JsonView,
    t: Seq<char>,
)
    ensures
        newest_time(render) is Some ==> exists|s: int, k: int, item: JsonView|
            #[trigger] has_item(render, s, k, item) && item_recorded(item, newest_time(render)->0),
        has_item(render, s, k, item) && item_recorded(item, t) ==> not_after(t, newest_time(render)),
        newest_time(render) == Some(t) ==> part_of(
            escaped("The most recent information on this page was recorded on "@ + t + "."@),
            page(render),
        ),
{
    match list_at(render, "sections"@) {
        Some(sections) => {
            newest_section(sections, sections.len() as int);
            if newest_time(render) is Some {
                let (s0, k0, i0) = choose|s: int, k: int, item: JsonView|
                    0 <= s < sections.len() && #[trigger] section_holds(sections[s], k, item)
                        && item_recorded(item, newest_time(render)->0);
                assert(has_item(render, s0, k0, i0));
            }
            if has_item(render, s, k, item) {
                assert(section_holds(sections[s], k, item));
            }
        },
        None => {},
    }
    if newest_time(render) == Some(t) {
        let stated = escaped(
            "The most recent information on this page was recorded on "@ + t + "."@,
        );
        part_here(stated, "<p class=\"notice\">"@, "</p>\n"@);
        let front = head_page(render) + header_page(render) + body_page(render);
        let behind = footer_page(render) + "</body>\n</html>\n"@;
        part_between(stated, front, notice_page(render), behind);
        assert(page(render) =~= front + notice_page(render) + behind);
    }
}

/// The media type of a header is its first: without white space, capitals,
/// parameters and what else is accepted.
#[verifier::rlimit(60)]
#[verifier::spinoff_prover]
pub proof fn the_first_media_type_counts(
    a: Seq<char>,
    name: Seq<char>,
    b: Seq<char>,
    params: Seq<char>,
    others: Seq<char>,
)
    requires
        is_blank(a),
        is_blank(b),
        name.len() > 0,
        !is_white(name[0]),
        !is_white(name.last()),
        !name.contains(','),
        !name.contains(';'),
        !params.contains(','),
    ensures
        media_type(None) is None,
        media_type(Some(a + name + b)) == Some(lowered(name)),
        media_type(Some(a + name + b + seq![','] + others)) == Some(lowered(name)),
        media_type(Some(a + name + b + seq![';'] + params)) == Some(lowered(name)),
        media_type(Some(a + name + b + seq![';'] + params + seq![','] + others)) == Some(
            lowered(name),
        ),
{
    let first = a + name + b;
    ascii_white_space(',');
    ascii_white_space(';');
    assert forall|i: int| 0 <= i < first.len() implies first[i] != ',' && first[i] != ';' by {
        if i < a.len() {
            assert(is_white(a[i]));
        } else if i < a.len() + name.len() {
            assert(name.contains(name[i - a.len()]));
        } else {
            assert(is_white(b[i - a.len() - name.len()]));
        }
    }
    assert(!first.contains(',') && !first.contains(';'));
    trimming_takes_the_ends_off(a, name, b);
    separators_end_the_first_part(first, ',', others);
    separators_end_the_first_part(first, ';', params);
    let with = first + seq![';'] + params;
    assert(!with.contains(',')) by {
        if with.contains(',') {
            let i = with.index_of(',');
            if i > first.len() {
                assert(params[i - first.len() - 1] == ',');
                assert(params.contains(','));
            }
        }
    }
    separators_end_the_first_part(with, ',', others);
    assert(lowered(name).len() == name.len());
}

/// Which format a request gets: the one that it names, between white space;
/// without a name the page for a client that prefers HTML, the text for one
/// that prefers plain text, and the document for any other.
#[verifier::rlimit(60)]
#[verifier::spinoff_prover]
pub proof fn formats_are_asked_for(
    a: Seq<char>,
    name: Seq<char>,
    b: Seq<char>,
    accept: Option<Seq<char>>,
)
    requires
        is_blank(a),
        is_blank(b),
        name.len() > 0,
        !is_white(name[0]),
        !is_white(name.last()),
    ensures
        format_of(Some(a + name + b), accept) is Html <==> name == "html"@,
        format_of(Some(a + name + b), accept) is Text <==> name == "text"@,
        format_of(Some(a + name + b), accept) is Json <==> name == "json"@,
        format_of(Some(a + name + b), accept) matches FormatView::Invalid(other) ==> other == name,
        format_of(None, accept) is Html <==> media_type(accept) == Some("text/html"@) || media_type(
            accept,
        ) == Some("application/xhtml+xml"@),
        format_of(None, accept) is Text <==> media_type(accept) == Some("text/plain"@),
        !(format_of(None, accept) is Invalid),
{
    trimming_takes_the_ends_off(a, name, b);
    reveal_strlit("html");
    reveal_strlit("text");
    reveal_strlit("json");
    assert("html"@[0] == 'h' && "text"@[0] == 't' && "json"@[0] == 'j');
    reveal_strlit("text/html");
    reveal_strlit("application/xhtml+xml");
    reveal_strlit("text/plain");
    assert("text/html"@.len() == 9 && "text/plain"@.len() == 10 && "application/xhtml+xml"@.len()
        == 21);
}

} // verus!
