//! Records read from JSON documents.
//!
//! A record is written as an object, with its fields under their names, or as
//! a list, with its fields in their order. What follows says which fault of a
//! document is reported, and in which words.
use vstd::prelude::*;
use vstd::string::*;

use crate::json::{json_view_cases, member_view, Json, JsonObject, JsonView};
use crate::text::{before, chars_of, nat_text, number_text, opt_text, phrase, same, sorts_before};

verus! {

/// A text as a quoted literal, the way its `Debug` form shows it.
pub uninterp spec fn quoted(text: Seq<char>) -> Seq<char>;

/// The `Debug` form of `str`, as `format!` writes it: the text in double
/// quotes, its quotes, backslashes and unprintable characters escaped.
/// Claimed: the form depends on the text alone; it is named by [`quoted`].
#[verifier::external_body]
fn quoted_text(text: &str) -> (r: String)
    ensures
        r@ == quoted(text@),
{
    format!("{:?}", text)
}

/// A number is whole where its text has neither a point nor an exponent.
pub open spec fn whole(number: Seq<char>) -> bool {
    !number.contains('.') && !number.contains('e')
}

/// How a message shows a document. (A quotient, which no text is read as, is
/// shown by its two counts.)
pub open spec fn shown(j: JsonView) -> Seq<char> {
    match j {
        JsonView::Null => "null"@,
        JsonView::Bool(true) => "boolean `true`"@,
        JsonView::Bool(false) => "boolean `false`"@,
        JsonView::Num(n) => "integer `"@ + nat_text(n as nat) + "`"@,
        JsonView::Real(t) => if whole(t) {
            "integer `"@ + t + "`"@
        } else {
            "floating point `"@ + t + "`"@
        },
        JsonView::Ratio(n, d) => "floating point `"@ + (nat_text(n as nat) + "/"@ + nat_text(
            d as nat,
        )) + "`"@,
        JsonView::Str(s) => "string "@ + quoted(s),
        JsonView::Arr(_) => "sequence"@,
        JsonView::Obj(_) => "map"@,
    }
}

/// The message for a document of another kind than the expected one.
pub open spec fn invalid_type(j: JsonView, expected: Seq<char>) -> Seq<char> {
    "invalid type: "@ + shown(j) + ", expected "@ + expected
}

/// The message for a list of `n` items where another number is expected.
pub open spec fn invalid_length(n: nat, expected: Seq<char>) -> Seq<char> {
    "invalid length "@ + nat_text(n) + ", expected "@ + expected
}

/// The message for an absent field.
pub open spec fn missing_field(key: Seq<char>) -> Seq<char> {
    "missing field `"@ + key + "`"@
}

fn is_whole(number: &str) -> (r: bool)
    ensures
        r == whole(number@),
{
    let chars: Vec<char> = chars_of(number);
    let mut i: usize = 0;
    while i < chars.len()
        invariant
            i <= chars.len(),
            chars@ == number@,
            forall|k: int| 0 <= k < i ==> number@[k] != '.' && number@[k] != 'e',
        decreases chars.len() - i,
    {
        if chars[i] == '.' || chars[i] == 'e' {
            assert(number@[i as int] == '.' || number@[i as int] == 'e');
            return false;
        }
        i = i + 1;
    }
    true
}

fn shown_text(doc: &Json) -> (r: String)
    ensures
        r@ == shown(doc@),
{
    broadcast use json_view_cases;

    match doc {
        Json::Null => "null".to_string(),
        Json::Bool(b) => if *b {
            "boolean `true`".to_string()
        } else {
            "boolean `false`".to_string()
        },
        Json::Num(n) => phrase("integer `", number_text(*n as u128).as_str(), "`"),
        Json::Real(t) => if is_whole(t.as_str()) {
            phrase("integer `", t.as_str(), "`")
        } else {
            phrase("floating point `", t.as_str(), "`")
        },
        Json::Ratio(n, d) => {
            let part: String = number_text(*n as u128);
            let of: String = number_text(*d as u128);
            let both: String = phrase(part.as_str(), "/", of.as_str());
            phrase("floating point `", both.as_str(), "`")
        },
        Json::Str(s) => {
            let mut out: String = "string ".to_string();
            out.append(quoted_text(s.as_str()).as_str());
            out
        },
        Json::Arr(_) => "sequence".to_string(),
        Json::Obj(_) => "map".to_string(),
    }
}

/// The message for a document of another kind than the expected one.
pub fn invalid_type_text(doc: &Json, expected: &str) -> (r: String)
    ensures
        r@ == invalid_type(doc@, expected@),
{
    let mut out: String = phrase("invalid type: ", shown_text(doc).as_str(), ", expected ");
    out.append(expected);
    out
}

fn invalid_length_text(n: usize, expected: &str) -> (r: String)
    ensures
        r@ == invalid_length(n as nat, expected@),
{
    let mut out: String = phrase(
        "invalid length ",
        number_text(n as u128).as_str(),
        ", expected ",
    );
    out.append(expected);
    out
}

/// The `i`-th field of a record, named `key`: the member of that name where
/// the record is written as an object, the item at that place where it is
/// written as a list.
pub open spec fn field_view(j: JsonView, i: int, key: Seq<char>) -> Option<JsonView> {
    match j {
        JsonView::Arr(items) => if 0 <= i < items.len() {
            Some(items[i])
        } else {
            None
        },
        _ => member_view(j, key),
    }
}

/// What a field's document says, where there is one.
pub open spec fn found(field: Option<&Json>) -> Option<JsonView> {
    match field {
        Some(j) => Some(j@),
        None => None,
    }
}

impl Json {
    /// The `i`-th field of a record, named `key`.
    pub fn field(&self, i: usize, key: &str) -> (r: Option<&Json>)
        ensures
            found(r) == field_view(self@, i as int, key@),
    {
        broadcast use json_view_cases;

        match self {
            Json::Arr(items) => {
                if i < items.len() {
                    Some(&items[i])
                } else {
                    None
                }
            },
            _ => self.get(key),
        }
    }
}

/// How one field of a record was read.
pub struct FieldView {
    pub key: Seq<char>,
    /// A record without the field is at fault.
    pub required: bool,
    pub present: bool,
    /// Why the field's document cannot be read.
    pub fault: Option<Seq<char>>,
}

/// How one field of a record was read.
pub struct Field {
    pub key: &'static str,
    pub required: bool,
    pub present: bool,
    pub fault: Option<String>,
}

impl View for Field {
    type V = FieldView;

    open spec fn view(&self) -> FieldView {
        FieldView {
            key: self.key@,
            required: self.required,
            present: self.present,
            fault: opt_text(self.fault),
        }
    }
}

/// How the fields of a record were read.
pub open spec fn field_views(fields: Seq<Field>) -> Seq<FieldView> {
    fields.map_values(|f: Field| f@)
}

/// A field that a record must have.
pub open spec fn required(
    key: Seq<char>,
    field: Option<JsonView>,
    fault: Option<Seq<char>>,
) -> FieldView {
    FieldView { key, required: true, present: field is Some, fault }
}

/// A field that a record may leave out.
pub open spec fn optional(
    key: Seq<char>,
    field: Option<JsonView>,
    fault: Option<Seq<char>>,
) -> FieldView {
    FieldView { key, required: false, present: field is Some, fault }
}

impl Field {
    /// A field that a record must have.
    pub fn required(key: &'static str, field: Option<&Json>, fault: Option<String>) -> (r: Field)
        ensures
            r@ == required(key@, found(field), opt_text(fault)),
    {
        Field { key, required: true, present: field.is_some(), fault }
    }

    /// A field that a record may leave out.
    pub fn optional(key: &'static str, field: Option<&Json>, fault: Option<String>) -> (r: Field)
        ensures
            r@ == optional(key@, found(field), opt_text(fault)),
    {
        Field { key, required: false, present: field.is_some(), fault }
    }

    /// A text that a record must have.
    pub fn text(key: &'static str, field: Option<&Json>) -> (r: Field)
        ensures
            r@ == required(key@, found(field), str_fault(found(field))),
    {
        Field::required(key, field, str_fault_text(field))
    }

    /// A text that a record may leave out.
    pub fn maybe_text(key: &'static str, field: Option<&Json>) -> (r: Field)
        ensures
            r@ == optional(key@, found(field), opt_str_fault(found(field))),
    {
        Field::optional(key, field, opt_str_fault_text(field))
    }
}

/// Why a field is no text.
pub open spec fn str_fault(field: Option<JsonView>) -> Option<Seq<char>> {
    match field {
        None => None,
        Some(JsonView::Str(_)) => None,
        Some(j) => Some(invalid_type(j, "a string"@)),
    }
}

/// Why a field is neither a text nor `null`.
pub open spec fn opt_str_fault(field: Option<JsonView>) -> Option<Seq<char>> {
    match field {
        Some(JsonView::Null) => None,
        _ => str_fault(field),
    }
}

/// The text in a field.
pub open spec fn str_in(field: Option<JsonView>) -> Seq<char> {
    match field {
        Some(JsonView::Str(s)) => s,
        _ => Seq::empty(),
    }
}

/// The text in a field, where there is one.
pub open spec fn opt_str_in(field: Option<JsonView>) -> Option<Seq<char>> {
    match field {
        Some(JsonView::Str(s)) => Some(s),
        _ => None,
    }
}

fn str_fault_text(field: Option<&Json>) -> (r: Option<String>)
    ensures
        opt_text(r) == str_fault(found(field)),
{
    match field {
        None => None,
        Some(j) => match j.as_str() {
            Some(_) => None,
            None => Some(invalid_type_text(j, "a string")),
        },
    }
}

fn opt_str_fault_text(field: Option<&Json>) -> (r: Option<String>)
    ensures
        opt_text(r) == opt_str_fault(found(field)),
{
    broadcast use json_view_cases;

    match field {
        Some(Json::Null) => None,
        _ => str_fault_text(field),
    }
}

/// The text in a field.
pub fn take_str(field: Option<&Json>) -> (r: String)
    requires
        found(field) matches Some(JsonView::Str(_)),
    ensures
        r@ == str_in(found(field)),
{
    match take_opt_str(field) {
        Some(s) => s,
        None => String::new(),
    }
}

/// The text in a field, where there is one.
pub fn take_opt_str(field: Option<&Json>) -> (r: Option<String>)
    ensures
        opt_text(r) == opt_str_in(found(field)),
{
    match field {
        None => None,
        Some(j) => match j.as_str() {
            Some(s) => Some(s.to_string()),
            None => None,
        },
    }
}

/// Why a reading failed.
pub open spec fn err_of<T>(r: Result<T, Seq<char>>) -> Option<Seq<char>> {
    match r {
        Ok(_) => None,
        Err(e) => Some(e),
    }
}

/// Of the first `n` fields that cannot be read, the one whose name sorts
/// first; -1 where there is none.
pub open spec fn first_unread(fields: Seq<FieldView>, n: int) -> int
    decreases n,
{
    if n <= 0 {
        -1
    } else {
        let best = first_unread(fields, n - 1);
        if fields[n - 1].fault is Some && (best < 0 || sorts_before(
            fields[n - 1].key,
            fields[best].key,
        )) {
            n - 1
        } else {
            best
        }
    }
}

/// The fault of a record written as an object, from its `i`-th field on, where
/// every field that is there can be read.
pub open spec fn missing_from(fields: Seq<FieldView>, i: int) -> Option<Seq<char>>
    decreases fields.len() - i,
{
    if i < 0 || i >= fields.len() {
        None
    } else if fields[i].required && !fields[i].present {
        Some(missing_field(fields[i].key))
    } else {
        missing_from(fields, i + 1)
    }
}

/// The fault of a record written as a list of `n` items, from its `i`-th field
/// on.
pub open spec fn listed_fault(
    n: nat,
    name: Seq<char>,
    fields: Seq<FieldView>,
    i: int,
) -> Option<Seq<char>>
    decreases fields.len() - i,
{
    if i < 0 || i >= fields.len() {
        if n > fields.len() {
            Some(invalid_length(n, "fewer elements in array"@))
        } else {
            None
        }
    } else if fields[i].present && fields[i].fault is Some {
        fields[i].fault
    } else if fields[i].required && !fields[i].present {
        Some(
            invalid_length(
                i as nat,
                name + " with "@ + nat_text(fields.len()) + " elements"@,
            ),
        )
    } else {
        listed_fault(n, name, fields, i + 1)
    }
}

/// Why a document is not the record `name` of these fields. An object is read
/// in the order of its keys, so that of several unreadable fields the first by
/// name is reported, and an absent field only where all others can be read. A
/// list is read in the order of the fields.
pub open spec fn record_fault(j: JsonView, name: Seq<char>, fields: Seq<FieldView>) -> Option<
    Seq<char>,
> {
    match j {
        JsonView::Obj(_) => {
            let unread = first_unread(fields, fields.len() as int);
            if unread >= 0 {
                fields[unread].fault
            } else {
                missing_from(fields, 0)
            }
        },
        JsonView::Arr(items) => listed_fault(items.len(), name, fields, 0),
        _ => Some(invalid_type(j, name)),
    }
}

/// The first unreadable field is one of the fields, and unreadable; where
/// there is none, every field can be read.
proof fn first_unread_facts(fields: Seq<FieldView>, n: int)
    requires
        0 <= n <= fields.len(),
    ensures
        -1 <= first_unread(fields, n) < n,
        first_unread(fields, n) >= 0 ==> fields[first_unread(fields, n)].fault is Some,
        first_unread(fields, n) < 0 ==> forall|i: int|
            0 <= i < n ==> (#[trigger] fields[i]).fault is None,
    decreases n,
{
    if n > 0 {
        first_unread_facts(fields, n - 1);
    }
}

fn unread_text(fields: &Vec<Field>) -> (r: Option<String>)
    ensures
        ({
            let views = field_views(fields@);
            let unread = first_unread(views, views.len() as int);
            if unread >= 0 {
                0 <= unread < views.len() && views[unread].fault is Some && opt_text(r)
                    == views[unread].fault
            } else {
                r is None && forall|i: int| 0 <= i < views.len() ==> (#[trigger] views[i]).fault is None
            }
        }),
{
    let ghost views = field_views(fields@);
    let mut best: usize = 0;
    let mut any: bool = false;
    let mut i: usize = 0;
    while i < fields.len()
        invariant
            i <= fields.len(),
            views == field_views(fields@),
            first_unread(views, i as int) == (if any {
                best as int
            } else {
                -1
            }),
            any ==> best < i && fields[best as int].fault is Some,
        decreases fields.len() - i,
    {
        assert(views[i as int] == fields@[i as int]@);
        if any {
            assert(views[best as int] == fields@[best as int]@);
        }
        if fields[i].fault.is_some() && (!any || before(fields[i].key, fields[best].key)) {
            best = i;
            any = true;
        }
        i = i + 1;
    }
    proof {
        first_unread_facts(views, views.len() as int);
        if any {
            assert(views[best as int] == fields@[best as int]@);
        }
    }
    if any {
        fields[best].fault.clone()
    } else {
        None
    }
}

fn missing_text(fields: &Vec<Field>) -> (r: Option<String>)
    ensures
        opt_text(r) == missing_from(field_views(fields@), 0),
        r is None ==> forall|i: int|
            0 <= i < fields@.len() ==> ((#[trigger] fields@[i]).required ==> fields@[i].present),
{
    let ghost views = field_views(fields@);
    let mut i: usize = 0;
    while i < fields.len()
        invariant
            i <= fields.len(),
            views == field_views(fields@),
            missing_from(views, 0) == missing_from(views, i as int),
            forall|k: int|
                0 <= k < i ==> ((#[trigger] fields@[k]).required ==> fields@[k].present),
        decreases fields.len() - i,
    {
        assert(views[i as int] == fields@[i as int]@);
        if fields[i].required && !fields[i].present {
            return Some(phrase("missing field `", fields[i].key, "`"));
        }
        i = i + 1;
    }
    None
}

fn listed_text(n: usize, name: &str, fields: &Vec<Field>) -> (r: Option<String>)
    ensures
        opt_text(r) == listed_fault(n as nat, name@, field_views(fields@), 0),
        r is None ==> forall|i: int|
            0 <= i < fields@.len() ==> ((#[trigger] fields@[i]).required ==> fields@[i].present) && (
            fields@[i].present ==> fields@[i].fault is None),
{
    let ghost views = field_views(fields@);
    let mut i: usize = 0;
    while i < fields.len()
        invariant
            i <= fields.len(),
            views == field_views(fields@),
            listed_fault(n as nat, name@, views, 0) == listed_fault(
                n as nat,
                name@,
                views,
                i as int,
            ),
            forall|k: int|
                0 <= k < i ==> ((#[trigger] fields@[k]).required ==> fields@[k].present) && (
                fields@[k].present ==> fields@[k].fault is None),
        decreases fields.len() - i,
    {
        assert(views[i as int] == fields@[i as int]@);
        if fields[i].present && fields[i].fault.is_some() {
            return fields[i].fault.clone();
        }
        if fields[i].required && !fields[i].present {
            let count: String = number_text(fields.len() as u128);
            let mut expected: String = phrase(name, " with ", count.as_str());
            expected.append(" elements");
            return Some(invalid_length_text(i, expected.as_str()));
        }
        i = i + 1;
    }
    if n > fields.len() {
        Some(invalid_length_text(n, "fewer elements in array"))
    } else {
        None
    }
}

/// Why a document is not the record `name` of these fields. Where it is, no
/// required field is absent, and every field that is there can be read.
pub fn record_fault_text(doc: &Json, name: &str, fields: &Vec<Field>) -> (r: Option<String>)
    ensures
        opt_text(r) == record_fault(doc@, name@, field_views(fields@)),
        r is None ==> forall|i: int|
            0 <= i < fields@.len() ==> ((#[trigger] fields@[i]).required ==> fields@[i].present) && (
            fields@[i].present ==> fields@[i].fault is None),
{
    broadcast use json_view_cases;

    let ghost views = field_views(fields@);
    assert(forall|i: int| 0 <= i < fields@.len() ==> #[trigger] views[i] == fields@[i]@);
    match doc {
        Json::Obj(_) => match unread_text(fields) {
            Some(e) => Some(e),
            None => {
                let r: Option<String> = missing_text(fields);
                assert forall|i: int| 0 <= i < fields@.len() implies (
                #[trigger] fields@[i]).fault is None by {
                    assert(views[i].fault is None);
                }
                r
            },
        },
        Json::Arr(items) => listed_text(items.len(), name, fields),
        _ => Some(invalid_type_text(doc, name)),
    }
}

/// The only member of an object that has no other.
pub open spec fn only_member(m: Map<Seq<char>, JsonView>) -> Option<(Seq<char>, JsonView)> {
    if exists|k: Seq<char>| is_only(m, k) {
        let k = choose|k: Seq<char>| is_only(m, k);
        Some((k, m[k]))
    } else {
        None
    }
}

/// The object has the key `k` and no other.
pub open spec fn is_only(m: Map<Seq<char>, JsonView>, k: Seq<char>) -> bool {
    m.dom() == set![k]
}

/// The variant that a document names, with what it writes of the variant's
/// content: a text is the name alone, an object of one member has the content
/// under the name.
pub open spec fn tag_of(j: JsonView) -> Result<(Seq<char>, Option<JsonView>), Seq<char>> {
    match j {
        JsonView::Str(s) => Ok((s, None)),
        JsonView::Obj(m) => match only_member(m) {
            Some((name, content)) => Ok((name, Some(content))),
            None => Err("invalid value: map, expected map with a single key"@),
        },
        _ => Err(invalid_type(j, "string or map"@)),
    }
}

/// Why a variant without content cannot be written with this one.
pub open spec fn content_fault(content: Option<JsonView>) -> Option<Seq<char>> {
    match content {
        None => None,
        Some(JsonView::Null) => None,
        Some(j) => Some(invalid_type(j, "unit"@)),
    }
}

/// The message for a name that is no variant; `names` lists the variants.
pub open spec fn unknown_variant(name: Seq<char>, names: Seq<char>) -> Seq<char> {
    "unknown variant `"@ + name + "`, expected "@ + names
}

/// The message for a name that is no variant; `names` lists the variants.
pub fn unknown_variant_text(name: &str, names: &str) -> (r: String)
    ensures
        r@ == unknown_variant(name@, names@),
{
    let mut out: String = phrase("unknown variant `", name, "`, expected ");
    out.append(names);
    out
}

/// Why a variant without content cannot be written with this one.
pub fn content_fault_text(content: Option<&Json>) -> (r: Option<String>)
    ensures
        opt_text(r) == content_fault(found(content)),
{
    broadcast use json_view_cases;

    match content {
        None => None,
        Some(Json::Null) => None,
        Some(j) => Some(invalid_type_text(j, "unit")),
    }
}

/// The variant that a document names, with what it writes of its content.
pub fn read_tag(doc: &Json) -> (r: Result<(&str, Option<&Json>), String>)
    ensures
        match r {
            Ok(t) => tag_of(doc@) == Ok::<(Seq<char>, Option<JsonView>), Seq<char>>(
                (t.0@, found(t.1)),
            ),
            Err(e) => tag_of(doc@) == Err::<(Seq<char>, Option<JsonView>), Seq<char>>(e@),
        },
{
    broadcast use json_view_cases;

    match doc {
        Json::Str(s) => Ok((s.as_str(), None)),
        Json::Obj(o) => match only(o) {
            Some((name, content)) => Ok((name, Some(content))),
            None => Err("invalid value: map, expected map with a single key".to_string()),
        },
        _ => Err(invalid_type_text(doc, "string or map")),
    }
}

fn only(o: &JsonObject) -> (r: Option<(&str, &Json)>)
    ensures
        match r {
            Some(m) => only_member(o@) == Some((m.0@, m.1@)),
            None => only_member(o@) is None,
        },
{
    let n: usize = o.written();
    if n == 0 {
        assert forall|k: Seq<char>| !is_only(o@, k) by {
            assert(!o@.dom().contains(k));
            assert(set![k].contains(k));
        }
        return None;
    }
    let key: &str = o.member(0).0.as_str();
    let mut i: usize = 1;
    assert(o.first(1).dom() =~= set![key@]);
    while i < n
        invariant
            1 <= i <= n,
            n == o.members_len(),
            o.first(n as nat) == o@,
            o.first(i as nat).dom() == set![key@],
        decreases n - i,
    {
        let (k, _) = o.member(i);
        if !same(k.as_str(), key) {
            proof {
                o.first_grows(i as nat + 1, n as nat);
                assert(o@.dom().contains(k@));
                o.first_grows(i as nat, n as nat);
                assert(o.first(i as nat).dom().contains(key@));
                assert(o@.dom().contains(key@));
                assert forall|x: Seq<char>| !is_only(o@, x) by {
                    if is_only(o@, x) {
                        assert(set![x].contains(k@));
                        assert(set![x].contains(key@));
                    }
                }
            }
            return None;
        }
        assert(o.first(i as nat + 1).dom() =~= set![key@]);
        i = i + 1;
    }
    proof {
        assert(is_only(o@, key@));
        let k = choose|k: Seq<char>| is_only(o@, k);
        assert(set![k].contains(key@));
    }
    match o.get(key) {
        Some(content) => Some((key, content)),
        None => None,
    }
}

/// A record is read where each of its fields can be read and none that it
/// must have is absent; a list may then hold no more than the fields.
pub proof fn sound_records_are_read(j: JsonView, name: Seq<char>, fields: Seq<FieldView>)
    requires
        j is Obj || (j is Arr && j->Arr_0.len() <= fields.len()),
        forall|i: int|
            0 <= i < fields.len() ==> (#[trigger] fields[i]).fault is None && (fields[i].required
                ==> fields[i].present),
    ensures
        record_fault(j, name, fields) is None,
{
    first_unread_facts(fields, fields.len() as int);
    nothing_missing(fields, 0);
    if j is Arr {
        nothing_wrong_in_list(j->Arr_0.len(), name, fields, 0);
    }
}

proof fn nothing_missing(fields: Seq<FieldView>, k: int)
    requires
        0 <= k,
        forall|i: int|
            0 <= i < fields.len() ==> ((#[trigger] fields[i]).required ==> fields[i].present),
    ensures
        missing_from(fields, k) is None,
    decreases fields.len() - k,
{
    if k < fields.len() {
        nothing_missing(fields, k + 1);
    }
}

proof fn nothing_wrong_in_list(n: nat, name: Seq<char>, fields: Seq<FieldView>, k: int)
    requires
        0 <= k,
        n <= fields.len(),
        forall|i: int|
            0 <= i < fields.len() ==> (#[trigger] fields[i]).fault is None && (fields[i].required
                ==> fields[i].present),
    ensures
        listed_fault(n, name, fields, k) is None,
    decreases fields.len() - k,
{
    if k < fields.len() {
        nothing_wrong_in_list(n, name, fields, k + 1);
    }
}

/// A document is no record where a field that is there cannot be read, where
/// one that must be there is absent, where a list holds more than the
/// fields, and where it is neither an object nor a list.
pub proof fn faulty_records_are_refused(
    j: JsonView,
    name: Seq<char>,
    fields: Seq<FieldView>,
    k: int,
)
    requires
        0 <= k < fields.len(),
    ensures
        !(j is Obj) && !(j is Arr) ==> record_fault(j, name, fields) is Some,
        j is Arr && j->Arr_0.len() > fields.len() ==> record_fault(j, name, fields) is Some,
        fields[k].required && !fields[k].present ==> record_fault(j, name, fields) is Some,
        fields[k].present && fields[k].fault is Some ==> record_fault(j, name, fields) is Some,
{
    first_unread_facts(fields, fields.len() as int);
    if fields[k].required && !fields[k].present {
        missing_is_found(fields, 0, k);
    }
    if j is Arr {
        list_fault_is_found(j->Arr_0.len(), name, fields, 0, k);
    }
}

proof fn missing_is_found(fields: Seq<FieldView>, i: int, k: int)
    requires
        0 <= i <= k < fields.len(),
        fields[k].required && !fields[k].present,
    ensures
        missing_from(fields, i) is Some,
    decreases k - i,
{
    if i < k {
        missing_is_found(fields, i + 1, k);
    }
}

proof fn list_fault_is_found(n: nat, name: Seq<char>, fields: Seq<FieldView>, i: int, k: int)
    requires
        0 <= i <= fields.len(),
        0 <= k < fields.len(),
    ensures
        n > fields.len() ==> listed_fault(n, name, fields, i) is Some,
        i <= k && fields[k].required && !fields[k].present ==> listed_fault(n, name, fields, i) is Some,
        i <= k && fields[k].present && fields[k].fault is Some ==> listed_fault(n, name, fields, i) is Some,
    decreases fields.len() - i,
{
    if i < fields.len() {
        list_fault_is_found(n, name, fields, i + 1, k);
    }
}

/// A record as a document: an object with its members, or the list of its
/// items.
pub open spec fn written(
    list: bool,
    members: Map<Seq<char>, JsonView>,
    items: Seq<JsonView>,
) -> JsonView {
    if list {
        JsonView::Arr(items)
    } else {
        JsonView::Obj(members)
    }
}

/// A text that may be absent, as a document.
pub open spec fn written_text(t: Option<Seq<char>>) -> JsonView {
    match t {
        Some(s) => JsonView::Str(s),
        None => JsonView::Null,
    }
}

} // verus!
