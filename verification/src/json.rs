//! JSON documents as plain values.
//!
//! Views, renders and registry items are documents of this type. Contracts
//! speak of a document by its [`JsonView`], in which an object is a map: the
//! order of members carries no meaning, and the last member written under a
//! key is the one that counts.
use vstd::prelude::*;
use vstd::string::*;

use crate::text::same;

verus! {

/// A JSON document.
#[derive(Debug, PartialEq)]
pub enum Json {
    Null,
    Bool(bool),
    /// A whole number from zero up.
    Num(u64),
    /// Any other number, as its text.
    Real(String),
    /// A quotient of two counts, written as one number.
    Ratio(u64, u64),
    Str(String),
    Arr(Vec<Json>),
    Obj(JsonObject),
}

/// The members of a JSON object, in writing order.
#[derive(Debug, PartialEq)]
pub struct JsonObject {
    members: Vec<(String, Json)>,
}

/// What a JSON document says.
pub enum JsonView {
    Null,
    Bool(bool),
    Num(u64),
    Real(Seq<char>),
    Ratio(u64, u64),
    Str(Seq<char>),
    Arr(Seq<JsonView>),
    Obj(Map<Seq<char>, JsonView>),
}

impl View for Json {
    type V = JsonView;

    open spec fn view(&self) -> JsonView {
        json_view(*self)
    }
}

/// What the document `j` says.
pub closed spec fn json_view(j: Json) -> JsonView
    decreases j, 0nat,
{
    match j {
        Json::Null => JsonView::Null,
        Json::Bool(b) => JsonView::Bool(b),
        Json::Num(n) => JsonView::Num(n),
        Json::Real(t) => JsonView::Real(t@),
        Json::Ratio(n, d) => JsonView::Ratio(n, d),
        Json::Str(s) => JsonView::Str(s@),
        Json::Arr(items) => JsonView::Arr(items_view(items, items.len() as nat)),
        Json::Obj(o) => JsonView::Obj(members_view(o.members, o.members.len() as nat)),
    }
}

/// What the first `n` items of an array say.
closed spec fn items_view(items: Vec<Json>, n: nat) -> Seq<JsonView>
    decreases items, n,
{
    if n == 0 || n > items.len() {
        Seq::empty()
    } else {
        items_view(items, (n - 1) as nat).push(json_view(items[n - 1]))
    }
}

/// What the first `n` members of an object say.
closed spec fn members_view(members: Vec<(String, Json)>, n: nat) -> Map<Seq<char>, JsonView>
    decreases members, n,
{
    if n == 0 || n > members.len() {
        Map::empty()
    } else {
        members_view(members, (n - 1) as nat).insert(
            members[n - 1].0@,
            json_view(members[n - 1].1),
        )
    }
}

/// What each document of a list says.
pub open spec fn json_views(items: Seq<Json>) -> Seq<JsonView> {
    items.map_values(|j: Json| j@)
}

proof fn items_view_is_map(items: Vec<Json>, n: nat)
    requires
        n <= items.len(),
    ensures
        items_view(items, n) == json_views(items@.take(n as int)),
    decreases n,
{
    if n > 0 {
        items_view_is_map(items, (n - 1) as nat);
        assert(json_views(items@.take(n as int)) =~= json_views(items@.take(n - 1)).push(
            items@[n - 1]@,
        ));
    }
}

/// The view of each kind of document.
pub broadcast proof fn json_view_cases(j: Json)
    ensures
        #[trigger] json_view(j) == (match j {
            Json::Null => JsonView::Null,
            Json::Bool(b) => JsonView::Bool(b),
            Json::Num(n) => JsonView::Num(n),
            Json::Real(t) => JsonView::Real(t@),
            Json::Ratio(n, d) => JsonView::Ratio(n, d),
            Json::Str(s) => JsonView::Str(s@),
            Json::Arr(items) => JsonView::Arr(json_views(items@)),
            Json::Obj(o) => JsonView::Obj(o@),
        }),
{
    match j {
        Json::Arr(items) => {
            items_view_is_map(items, items.len() as nat);
            assert(items@.take(items.len() as int) =~= items@);
        },
        _ => {},
    }
}

impl View for JsonObject {
    type V = Map<Seq<char>, JsonView>;

    closed spec fn view(&self) -> Map<Seq<char>, JsonView> {
        members_view(self.members, self.members.len() as nat)
    }
}

proof fn members_view_prefix(a: Vec<(String, Json)>, b: Vec<(String, Json)>, n: nat)
    requires
        n <= a.len(),
        n <= b.len(),
        forall|i: int| 0 <= i < n ==> a@[i] == b@[i],
    ensures
        members_view(a, n) == members_view(b, n),
    decreases n,
{
    if n > 0 {
        members_view_prefix(a, b, (n - 1) as nat);
        assert(a@[n - 1] == b@[n - 1]);
    }
}

impl JsonObject {
    /// The object without members.
    pub fn new() -> (r: JsonObject)
        ensures
            r@ == Map::<Seq<char>, JsonView>::empty(),
    {
        JsonObject { members: Vec::new() }
    }

    /// Write `value` under `key`.
    pub fn insert(&mut self, key: &str, value: Json)
        ensures
            final(self)@ == old(self)@.insert(key@, value@),
    {
        let ghost before = self.members;
        self.members.push((key.to_string(), value));
        proof {
            members_view_prefix(before, self.members, before.len() as nat);
        }
    }

    /// Write a text under `key`.
    pub fn put(&mut self, key: &str, value: &str)
        ensures
            final(self)@ == old(self)@.insert(key@, JsonView::Str(value@)),
    {
        broadcast use json_view_cases;

        self.insert(key, Json::Str(value.to_string()));
    }

    /// Write a count under `key`.
    pub fn put_num(&mut self, key: &str, value: u64)
        ensures
            final(self)@ == old(self)@.insert(key@, JsonView::Num(value)),
    {
        broadcast use json_view_cases;

        self.insert(key, Json::Num(value));
    }

    /// Write a truth value under `key`.
    pub fn put_bool(&mut self, key: &str, value: bool)
        ensures
            final(self)@ == old(self)@.insert(key@, JsonView::Bool(value)),
    {
        broadcast use json_view_cases;

        self.insert(key, Json::Bool(value));
    }

    /// Write an object under `key`.
    pub fn put_obj(&mut self, key: &str, value: JsonObject)
        ensures
            final(self)@ == old(self)@.insert(key@, JsonView::Obj(value@)),
    {
        broadcast use json_view_cases;

        self.insert(key, Json::Obj(value));
    }

    /// Write a list under `key`.
    pub fn put_arr(&mut self, key: &str, value: Vec<Json>)
        ensures
            final(self)@ == old(self)@.insert(key@, JsonView::Arr(json_views(value@))),
    {
        broadcast use json_view_cases;

        self.insert(key, Json::Arr(value));
    }

    /// Write a text under `key`, or `null` where there is none.
    pub fn put_opt(&mut self, key: &str, value: &Option<String>)
        ensures
            final(self)@ == old(self)@.insert(key@, opt_str_view(*value)),
    {
        broadcast use json_view_cases;

        match value {
            Some(t) => self.insert(key, Json::Str(t.clone())),
            None => self.insert(key, Json::Null),
        }
    }

    /// Write every member of `other`; where both hold a key, `other` counts.
    pub fn merge(&mut self, other: JsonObject)
        ensures
            final(self)@ == old(self)@.union_prefer_right(other@),
    {
        let ghost start = self.members;
        let ghost base = self@;
        let ghost added = other.members;
        let mut rest: Vec<(String, Json)> = other.members;
        self.members.append(&mut rest);
        proof {
            members_view_prefix(start, self.members, start.len() as nat);
            members_view_appended(self.members, start.len() as nat, added, added.len() as nat);
        }
    }

    /// The document under `key`.
    pub fn get(&self, key: &str) -> (r: Option<&Json>)
        ensures
            match r {
                Some(j) => self@.contains_key(key@) && j@ == self@[key@],
                None => !self@.contains_key(key@),
            },
    {
        let mut i: usize = self.members.len();
        while i > 0
            invariant
                i <= self.members.len(),
                self@.contains_key(key@) <==> members_view(self.members, i as nat).contains_key(key@),
                self@.contains_key(key@) ==> self@[key@] == members_view(self.members, i as nat)[key@],
            decreases i,
        {
            if same(self.members[i - 1].0.as_str(), key) {
                return Some(&self.members[i - 1].1);
            }
            i = i - 1;
        }
        None
    }

    /// Write a text into the object under `key`, where there is one.
    pub fn put_into(&mut self, key: &str, member: &str, value: &str)
        ensures
            final(self)@ == (match member_of(old(self)@, key@) {
                Some(JsonView::Obj(inner)) => old(self)@.insert(
                    key@,
                    JsonView::Obj(inner.insert(member@, JsonView::Str(value@))),
                ),
                _ => old(self)@,
            }),
    {
        broadcast use json_view_cases;

        let ghost before = self.members;
        let ghost whole = self@;
        let mut i: usize = self.members.len();
        while i > 0
            invariant
                before == self.members,
                i <= self.members.len(),
                whole == self@,
                whole == old(self)@,
                whole.contains_key(key@) <==> members_view(self.members, i as nat).contains_key(
                    key@,
                ),
                whole.contains_key(key@) ==> whole[key@] == members_view(
                    self.members,
                    i as nat,
                )[key@],
            decreases i,
        {
            if same(self.members[i - 1].0.as_str(), key) {
                assert(members_view(before, i as nat)[key@] == json_view(before@[i - 1].1));
                let (k, found) = self.members.remove(i - 1);
                assert(k@ == key@);
                assert(whole[key@] == json_view(found));
                match found {
                    Json::Obj(o) => {
                        let mut inner: JsonObject = o;
                        inner.put(member, value);
                        let ghost shown = inner@;
                        let ghost rest = self.members;
                        self.members.push((k, Json::Obj(inner)));
                        proof {
                            members_view_prefix(rest, self.members, rest.len() as nat);
                            assert forall|x: Seq<char>| x != key@ implies (whole.contains_key(x)
                                <==> #[trigger] self@.contains_key(x)) && (whole.contains_key(x)
                                ==> whole[x] == self@[x]) by {
                                members_view_removed(
                                    before,
                                    rest,
                                    i - 1,
                                    before.len() as nat,
                                    x,
                                );
                            }
                            let n = self.members.len() as nat;
                            assert(self@ == members_view(self.members, (n - 1) as nat).insert(
                                self.members@[n - 1].0@,
                                json_view(self.members@[n - 1].1),
                            ));
                            assert(json_view(self.members@[n - 1].1) == JsonView::Obj(shown));
                            assert(self@ =~= whole.insert(key@, JsonView::Obj(shown)));
                        }
                    },
                    other => {
                        self.members.insert(i - 1, (k, other));
                        proof {
                            assert(self.members@ =~= before@);
                            members_view_prefix(before, self.members, before.len() as nat);
                        }
                    },
                }
                return ;
            }
            i = i - 1;
        }
    }

    /// What the first `n` written members say: of two with one key the later
    /// counts.
    pub closed spec fn first(self, n: nat) -> Map<Seq<char>, JsonView> {
        members_view(self.members, n)
    }

    /// How many members were written. Walking them in order, each under its
    /// key, gives the object.
    pub fn written(&self) -> (r: usize)
        ensures
            r == self.members_len(),
            self.first(0) == Map::<Seq<char>, JsonView>::empty(),
            self.first(r as nat) == self@,
    {
        self.members.len()
    }

    /// How many members were written.
    pub closed spec fn members_len(self) -> nat {
        self.members.len() as nat
    }

    /// What the first members say stays under the same keys as more follow.
    pub proof fn first_grows(self, i: nat, n: nat)
        requires
            i <= n <= self.members_len(),
        ensures
            self.first(i).dom().subset_of(self.first(n).dom()),
        decreases n - i,
    {
        if i < n {
            self.first_grows(i, (n - 1) as nat);
        }
    }

    /// The `i`-th written member: what the members up to it say is what those
    /// before it say, with its document under its key.
    pub fn member(&self, i: usize) -> (r: (&String, &Json))
        requires
            i < self.members_len(),
        ensures
            self.first(i as nat + 1) == self.first(i as nat).insert(r.0@, r.1@),
    {
        (&self.members[i].0, &self.members[i].1)
    }
}

/// The member `key` of an object.
pub open spec fn member_of(m: Map<Seq<char>, JsonView>, key: Seq<char>) -> Option<JsonView> {
    if m.contains_key(key) {
        Some(m[key])
    } else {
        None
    }
}

/// Taking one member out changes nothing under other keys.
proof fn members_view_removed(
    all: Vec<(String, Json)>,
    rest: Vec<(String, Json)>,
    i: int,
    n: nat,
    k: Seq<char>,
)
    requires
        0 <= i < all.len(),
        rest@ == all@.remove(i),
        n <= all.len(),
        k != all@[i].0@,
    ensures
        ({
            let m = members_view(all, n);
            let r = members_view(rest, if n <= i { n } else { (n - 1) as nat });
            (m.contains_key(k) <==> r.contains_key(k)) && (m.contains_key(k) ==> m[k] == r[k])
        }),
    decreases n,
{
    if n > 0 {
        members_view_removed(all, rest, i, (n - 1) as nat, k);
        if n <= i {
            assert(rest@[n - 1] == all@[n - 1]);
        } else if n - 1 > i {
            assert(rest@[n - 2] == all@[n - 1]);
            assert(members_view(rest, (n - 1) as nat) == members_view(rest, (n - 2) as nat).insert(
                rest@[n - 2].0@,
                json_view(rest@[n - 2].1),
            ));
        }
    }
}

proof fn members_view_appended(
    all: Vec<(String, Json)>,
    start: nat,
    added: Vec<(String, Json)>,
    n: nat,
)
    requires
        all.len() == start + added.len(),
        n <= added.len(),
        forall|i: int| 0 <= i < added.len() ==> all@[start + i] == added@[i],
    ensures
        members_view(all, start + n) == members_view(all, start).union_prefer_right(
            members_view(added, n),
        ),
    decreases n,
{
    if n > 0 {
        members_view_appended(all, start, added, (n - 1) as nat);
        assert(all@[start + n - 1] == added@[n - 1]);
        assert(members_view(all, start + n) =~= members_view(all, start).union_prefer_right(
            members_view(added, n),
        ));
    } else {
        assert(members_view(all, start) =~= members_view(all, start).union_prefer_right(
            Map::empty(),
        ));
    }
}

/// A text, or `null` where there is none.
pub open spec fn opt_str_view(s: Option<String>) -> JsonView {
    match s {
        Some(t) => JsonView::Str(t@),
        None => JsonView::Null,
    }
}

/// The member `key` of a document that is an object.
pub open spec fn member_view(j: JsonView, key: Seq<char>) -> Option<JsonView> {
    match j {
        JsonView::Obj(m) => if m.contains_key(key) {
            Some(m[key])
        } else {
            None
        },
        _ => None,
    }
}

/// The text member `key` of a document that is an object.
pub open spec fn member_str(j: JsonView, key: Seq<char>) -> Option<Seq<char>> {
    match member_view(j, key) {
        Some(JsonView::Str(s)) => Some(s),
        _ => None,
    }
}

impl Json {
    /// A copy of the document.
    pub fn copy(&self) -> (r: Json)
        ensures
            r@ == self@,
        decreases *self,
    {
        broadcast use json_view_cases;

        match self {
            Json::Null => Json::Null,
            Json::Bool(b) => Json::Bool(*b),
            Json::Num(n) => Json::Num(*n),
            Json::Real(t) => Json::Real(t.clone()),
            Json::Ratio(n, d) => Json::Ratio(*n, *d),
            Json::Str(s) => Json::Str(s.clone()),
            Json::Arr(items) => {
                let mut out: Vec<Json> = Vec::new();
                let mut i: usize = 0;
                while i < items.len()
                    invariant
                        i <= items.len(),
                        *self == Json::Arr(*items),
                        json_views(out@) == json_views(items@.take(i as int)),
                    decreases items.len() - i,
                {
                    let ghost done = out@;
                    assert(decreases_to!(*self => self->Arr_0));
                    assert(decreases_to!(*items => items[i as int]));
                    out.push(items[i].copy());
                    assert(json_views(out@) =~= json_views(done).push(items@[i as int]@));
                    assert(json_views(items@.take(i as int + 1)) =~= json_views(
                        items@.take(i as int),
                    ).push(items@[i as int]@));
                    i = i + 1;
                }
                assert(items@.take(items.len() as int) =~= items@);
                Json::Arr(out)
            },
            Json::Obj(o) => {
                let mut out: JsonObject = JsonObject::new();
                let mut i: usize = 0;
                while i < o.members.len()
                    invariant
                        i <= o.members.len(),
                        *self == Json::Obj(*o),
                        out@ == members_view(o.members, i as nat),
                    decreases o.members.len() - i,
                {
                    assert(decreases_to!(*self => self->Obj_0));
                    assert(decreases_to!(*o => o.members));
                    assert(decreases_to!(o.members => o.members[i as int]));
                    out.insert(o.members[i].0.as_str(), o.members[i].1.copy());
                    i = i + 1;
                }
                Json::Obj(out)
            },
        }
    }

    /// A text document.
    pub fn text(s: &str) -> (r: Json)
        ensures
            r@ == JsonView::Str(s@),
    {
        broadcast use json_view_cases;

        Json::Str(s.to_string())
    }

    /// A list of texts.
    pub fn text_list(parts: &Vec<String>) -> (r: Json)
        ensures
            r@ == JsonView::Arr(parts@.map_values(|s: String| JsonView::Str(s@))),
    {
        broadcast use json_view_cases;

        let mut out: Vec<Json> = Vec::new();
        let mut i: usize = 0;
        while i < parts.len()
            invariant
                i <= parts.len(),
                json_views(out@) == parts@.take(i as int).map_values(
                    |s: String| JsonView::Str(s@),
                ),
            decreases parts.len() - i,
        {
            let ghost done = out@;
            out.push(Json::text(parts[i].as_str()));
            assert(json_views(out@) =~= json_views(done).push(JsonView::Str(parts@[i as int]@)));
            assert(parts@.take(i as int + 1).map_values(|s: String| JsonView::Str(s@))
                =~= parts@.take(i as int).map_values(|s: String| JsonView::Str(s@)).push(
                JsonView::Str(parts@[i as int]@),
            ));
            i = i + 1;
        }
        assert(parts@.take(parts.len() as int) =~= parts@);
        Json::Arr(out)
    }

    /// The member `key`, where the document is an object that holds it.
    pub fn get(&self, key: &str) -> (r: Option<&Json>)
        ensures
            match r {
                Some(j) => member_view(self@, key@) == Some(j@),
                None => member_view(self@, key@) is None,
            },
    {
        broadcast use json_view_cases;

        match self {
            Json::Obj(o) => o.get(key),
            _ => None,
        }
    }

    /// The text, where the document is one.
    pub fn as_str(&self) -> (r: Option<&str>)
        ensures
            match r {
                Some(s) => self@ == JsonView::Str(s@),
                None => !(self@ is Str),
            },
    {
        broadcast use json_view_cases;

        match self {
            Json::Str(s) => Some(s.as_str()),
            _ => None,
        }
    }

    /// The whole number, where the document is one.
    pub fn as_u64(&self) -> (r: Option<u64>)
        ensures
            match r {
                Some(n) => self@ == JsonView::Num(n),
                None => !(self@ is Num),
            },
    {
        broadcast use json_view_cases;

        match self {
            Json::Num(n) => Some(*n),
            _ => None,
        }
    }

    /// The truth value, where the document is one.
    pub fn as_bool(&self) -> (r: Option<bool>)
        ensures
            match r {
                Some(b) => self@ == JsonView::Bool(b),
                None => !(self@ is Bool),
            },
    {
        broadcast use json_view_cases;

        match self {
            Json::Bool(b) => Some(*b),
            _ => None,
        }
    }

    /// The items, where the document is a list.
    pub fn as_array(&self) -> (r: Option<&Vec<Json>>)
        ensures
            match r {
                Some(items) => self@ == JsonView::Arr(json_views(items@)),
                None => !(self@ is Arr),
            },
    {
        broadcast use json_view_cases;

        match self {
            Json::Arr(items) => Some(items),
            _ => None,
        }
    }

    /// The members, where the document is an object.
    pub fn as_object(&self) -> (r: Option<&JsonObject>)
        ensures
            match r {
                Some(o) => self@ == JsonView::Obj(o@),
                None => !(self@ is Obj),
            },
    {
        broadcast use json_view_cases;

        match self {
            Json::Obj(o) => Some(o),
            _ => None,
        }
    }

    /// The text member `key`.
    pub fn get_str(&self, key: &str) -> (r: Option<&str>)
        ensures
            match r {
                Some(s) => member_str(self@, key@) == Some(s@),
                None => member_str(self@, key@) is None,
            },
    {
        match self.get(key) {
            Some(j) => j.as_str(),
            None => None,
        }
    }
}

/// A parsed document of `serde_json`.
#[verifier::external_type_specification]
#[verifier::external_body]
pub struct ExValue(serde_json::Value);

/// What a parsed document holds.
pub uninterp spec fn value_tree(v: serde_json::Value) -> JsonView;

/// What `serde_json::from_str` makes of a text: the document, or the message
/// of its error.
pub uninterp spec fn json_text(text: Seq<char>) -> Result<JsonView, Seq<char>>;

/// `serde_json::from_str` reads a text as a JSON document. Claimed: the
/// outcome depends on the text alone; it is named by [`json_text`].
#[verifier::external_body]
fn parse_value(text: &str) -> (r: Result<serde_json::Value, String>)
    ensures
        match r {
            Ok(v) => json_text(text@) == Ok::<JsonView, Seq<char>>(value_tree(v)),
            Err(e) => json_text(text@) == Err::<JsonView, Seq<char>>(e@),
        },
{
    serde_json::from_str(text).map_err(|e| e.to_string())
}

/// The same document as a [`Json`]: each variant of `serde_json::Value` taken
/// over one for one, a number that `Number::as_u64` gives as
/// [`Json::Num`] and any other by its text. Claimed: the result says what the
/// parsed document holds, which [`value_tree`] names.
#[verifier::external_body]
fn value_json(v: &serde_json::Value) -> (r: Json)
    ensures
        r@ == value_tree(*v),
{
    match v {
        serde_json::Value::Null => Json::Null,
        serde_json::Value::Bool(b) => Json::Bool(*b),
        serde_json::Value::Number(n) => n.as_u64().map(Json::Num).unwrap_or(Json::Real(n.to_string())),
        serde_json::Value::String(s) => Json::Str(s.clone()),
        serde_json::Value::Array(items) => Json::Arr(items.iter().map(value_json).collect()),
        serde_json::Value::Object(o) => Json::Obj(
            JsonObject { members: o.iter().map(|m| (m.0.clone(), value_json(m.1))).collect() },
        ),
    }
}

impl Json {
    /// Read a JSON text.
    pub fn parse(text: &str) -> (r: Result<Json, String>)
        ensures
            match r {
                Ok(j) => json_text(text@) == Ok::<JsonView, Seq<char>>(j@),
                Err(e) => json_text(text@) == Err::<JsonView, Seq<char>>(e@),
            },
    {
        match parse_value(text) {
            Ok(v) => Ok(value_json(&v)),
            Err(e) => Err(e),
        }
    }
}

/// The member names of views, renders and roll-ups, told apart by their
/// length and some of their characters.
pub proof fn member_names_differ()
    ensures
        "actor"@.len() == 5 && "actor"@[0] == 'a' && "actor"@[1] == 'c' && "actor"@[4] == 'r',
        "actor_id"@.len() == 8 && "actor_id"@[0] == 'a' && "actor_id"@[1] == 'c' && "actor_id"@[7] == 'd',
        "actor_role"@.len() == 10 && "actor_role"@[0] == 'a' && "actor_role"@[1] == 'c' && "actor_role"@[9] == 'e',
        "amount"@.len() == 6 && "amount"@[0] == 'a' && "amount"@[1] == 'm' && "amount"@[5] == 't',
        "applies"@.len() == 7 && "applies"@[0] == 'a' && "applies"@[1] == 'p' && "applies"@[6] == 's',
        "as_of"@.len() == 5 && "as_of"@[0] == 'a' && "as_of"@[1] == 's' && "as_of"@[4] == 'f',
        "axes"@.len() == 4 && "axes"@[0] == 'a' && "axes"@[1] == 'x' && "axes"@[3] == 's',
        "band"@.len() == 4 && "band"@[0] == 'b' && "band"@[1] == 'a' && "band"@[3] == 'd',
        "below_lowest_band"@.len() == 17 && "below_lowest_band"@[0] == 'b' && "below_lowest_band"@[1] == 'e' && "below_lowest_band"@[16] == 'd',
        "capability"@.len() == 10 && "capability"@[0] == 'c' && "capability"@[1] == 'a' && "capability"@[9] == 'y',
        "children_provided"@.len() == 17 && "children_provided"@[0] == 'c' && "children_provided"@[1] == 'h' && "children_provided"@[9] == 'p' && "children_provided"@[16] == 'd',
        "children_required"@.len() == 17 && "children_required"@[0] == 'c' && "children_required"@[1] == 'h' && "children_required"@[9] == 'r' && "children_required"@[16] == 'd',
        "citation"@.len() == 8 && "citation"@[0] == 'c' && "citation"@[1] == 'i' && "citation"@[7] == 'n',
        "clause_urn"@.len() == 10 && "clause_urn"@[0] == 'c' && "clause_urn"@[1] == 'l' && "clause_urn"@[9] == 'n',
        "complete"@.len() == 8 && "complete"@[0] == 'c' && "complete"@[1] == 'o' && "complete"@[2] == 'm' && "complete"@[7] == 'e',
        "contains_as_of"@.len() == 14 && "contains_as_of"@[0] == 'c' && "contains_as_of"@[1] == 'o' && "contains_as_of"@[13] == 'f',
        "coverage"@.len() == 8 && "coverage"@[0] == 'c' && "coverage"@[1] == 'o' && "coverage"@[2] == 'v' && "coverage"@[7] == 'e',
        "custodian"@.len() == 9 && "custodian"@[0] == 'c' && "custodian"@[1] == 'u' && "custodian"@[8] == 'n',
        "decimal_digits"@.len() == 14 && "decimal_digits"@[0] == 'd' && "decimal_digits"@[1] == 'e' && "decimal_digits"@[13] == 's',
        "declared_unit"@.len() == 13 && "declared_unit"@[0] == 'd' && "declared_unit"@[1] == 'e' && "declared_unit"@[12] == 't',
        "detail"@.len() == 6 && "detail"@[0] == 'd' && "detail"@[1] == 'e' && "detail"@[5] == 'l',
        "element"@.len() == 7 && "element"@[0] == 'e' && "element"@[1] == 'l' && "element"@[6] == 't',
        "elements_present"@.len() == 16 && "elements_present"@[0] == 'e' && "elements_present"@[1] == 'l' && "elements_present"@[15] == 't',
        "elements_required"@.len() == 17 && "elements_required"@[0] == 'e' && "elements_required"@[1] == 'l' && "elements_required"@[16] == 'd',
        "entries"@.len() == 7 && "entries"@[0] == 'e' && "entries"@[1] == 'n' && "entries"@[6] == 's',
        "error"@.len() == 5 && "error"@[0] == 'e' && "error"@[1] == 'r' && "error"@[4] == 'r',
        "events"@.len() == 6 && "events"@[0] == 'e' && "events"@[1] == 'v' && "events"@[5] == 's',
        "exact"@.len() == 5 && "exact"@[0] == 'e' && "exact"@[1] == 'x' && "exact"@[4] == 't',
        "fallback_lang"@.len() == 13 && "fallback_lang"@[0] == 'f' && "fallback_lang"@[1] == 'a' && "fallback_lang"@[12] == 'g',
        "floor"@.len() == 5 && "floor"@[0] == 'f' && "floor"@[1] == 'l' && "floor"@[4] == 'r',
        "formatted"@.len() == 9 && "formatted"@[0] == 'f' && "formatted"@[1] == 'o' && "formatted"@[8] == 'd',
        "formatting_rules"@.len() == 16 && "formatting_rules"@[0] == 'f' && "formatting_rules"@[1] == 'o' && "formatting_rules"@[15] == 's',
        "freshness"@.len() == 9 && "freshness"@[0] == 'f' && "freshness"@[1] == 'r' && "freshness"@[8] == 's',
        "from"@.len() == 4 && "from"@[0] == 'f' && "from"@[1] == 'r' && "from"@[3] == 'm',
        "id"@.len() == 2 && "id"@[0] == 'i' && "id"@[1] == 'd',
        "input"@.len() == 5 && "input"@[0] == 'i' && "input"@[1] == 'n' && "input"@[4] == 't',
        "input_element"@.len() == 13 && "input_element"@[0] == 'i' && "input_element"@[1] == 'n' && "input_element"@[12] == 't',
        "input_set_root"@.len() == 14 && "input_set_root"@[0] == 'i' && "input_set_root"@[1] == 'n' && "input_set_root"@[13] == 't',
        "inputs"@.len() == 6 && "inputs"@[0] == 'i' && "inputs"@[1] == 'n' && "inputs"@[5] == 's',
        "item"@.len() == 4 && "item"@[0] == 'i' && "item"@[1] == 't' && "item"@[3] == 'm',
        "items"@.len() == 5 && "items"@[0] == 'i' && "items"@[1] == 't' && "items"@[4] == 's',
        "kind"@.len() == 4 && "kind"@[0] == 'k' && "kind"@[1] == 'i' && "kind"@[3] == 'd',
        "label"@.len() == 5 && "label"@[0] == 'l' && "label"@[1] == 'a' && "label"@[4] == 'l',
        "label_lang"@.len() == 10 && "label_lang"@[0] == 'l' && "label_lang"@[1] == 'a' && "label_lang"@[9] == 'g',
        "lang"@.len() == 4 && "lang"@[0] == 'l' && "lang"@[1] == 'a' && "lang"@[3] == 'g',
        "log_head"@.len() == 8 && "log_head"@[0] == 'l' && "log_head"@[1] == 'o' && "log_head"@[7] == 'd',
        "mapping"@.len() == 7 && "mapping"@[0] == 'm' && "mapping"@[1] == 'a' && "mapping"@[6] == 'g',
        "matched_arm"@.len() == 11 && "matched_arm"@[0] == 'm' && "matched_arm"@[1] == 'a' && "matched_arm"@[10] == 'm',
        "method_citation"@.len() == 15 && "method_citation"@[0] == 'm' && "method_citation"@[1] == 'e' && "method_citation"@[14] == 'n',
        "min"@.len() == 3 && "min"@[0] == 'm' && "min"@[1] == 'i' && "min"@[2] == 'n',
        "min_capability"@.len() == 14 && "min_capability"@[0] == 'm' && "min_capability"@[1] == 'i' && "min_capability"@[13] == 'y',
        "missing"@.len() == 7 && "missing"@[0] == 'm' && "missing"@[1] == 'i' && "missing"@[6] == 'g',
        "missing_children"@.len() == 16 && "missing_children"@[0] == 'm' && "missing_children"@[1] == 'i' && "missing_children"@[15] == 'n',
        "missing_inputs"@.len() == 14 && "missing_inputs"@[0] == 'm' && "missing_inputs"@[1] == 'i' && "missing_inputs"@[13] == 's',
        "name"@.len() == 4 && "name"@[0] == 'n' && "name"@[1] == 'a' && "name"@[3] == 'e',
        "note"@.len() == 4 && "note"@[0] == 'n' && "note"@[1] == 'o' && "note"@[3] == 'e',
        "occurred_at"@.len() == 11 && "occurred_at"@[0] == 'o' && "occurred_at"@[1] == 'c' && "occurred_at"@[10] == 't',
        "operation"@.len() == 9 && "operation"@[0] == 'o' && "operation"@[1] == 'p' && "operation"@[8] == 'n',
        "output"@.len() == 6 && "output"@[0] == 'o' && "output"@[1] == 'u' && "output"@[5] == 't',
        "package"@.len() == 7 && "package"@[0] == 'p' && "package"@[1] == 'a' && "package"@[6] == 'e',
        "package_ref"@.len() == 11 && "package_ref"@[0] == 'p' && "package_ref"@[1] == 'a' && "package_ref"@[10] == 'f',
        "passport"@.len() == 8 && "passport"@[0] == 'p' && "passport"@[1] == 'a' && "passport"@[7] == 't',
        "path"@.len() == 4 && "path"@[0] == 'p' && "path"@[1] == 'a' && "path"@[3] == 'h',
        "product_id"@.len() == 10 && "product_id"@[0] == 'p' && "product_id"@[1] == 'r' && "product_id"@[9] == 'd',
        "profile"@.len() == 7 && "profile"@[0] == 'p' && "profile"@[1] == 'r' && "profile"@[6] == 'e',
        "ratio"@.len() == 5 && "ratio"@[0] == 'r' && "ratio"@[1] == 'a' && "ratio"@[4] == 'o',
        "reason"@.len() == 6 && "reason"@[0] == 'r' && "reason"@[1] == 'e' && "reason"@[5] == 'n',
        "render_metadata"@.len() == 15 && "render_metadata"@[0] == 'r' && "render_metadata"@[1] == 'e' && "render_metadata"@[14] == 'a',
        "resolution"@.len() == 10 && "resolution"@[0] == 'r' && "resolution"@[1] == 'e' && "resolution"@[9] == 'n',
        "rollup"@.len() == 6 && "rollup"@[0] == 'r' && "rollup"@[1] == 'o' && "rollup"@[5] == 'p',
        "rule_id"@.len() == 7 && "rule_id"@[0] == 'r' && "rule_id"@[1] == 'u' && "rule_id"@[6] == 'd',
        "satisfiable"@.len() == 11 && "satisfiable"@[0] == 's' && "satisfiable"@[1] == 'a' && "satisfiable"@[10] == 'e',
        "sections"@.len() == 8 && "sections"@[0] == 's' && "sections"@[1] == 'e' && "sections"@[7] == 's',
        "selected"@.len() == 8 && "selected"@[0] == 's' && "selected"@[1] == 'e' && "selected"@[7] == 'd',
        "seq"@.len() == 3 && "seq"@[0] == 's' && "seq"@[1] == 'e' && "seq"@[2] == 'q',
        "service"@.len() == 7 && "service"@[0] == 's' && "service"@[1] == 'e' && "service"@[6] == 'e',
        "source"@.len() == 6 && "source"@[0] == 's' && "source"@[1] == 'o' && "source"@[5] == 'e',
        "source_detail"@.len() == 13 && "source_detail"@[0] == 's' && "source_detail"@[1] == 'o' && "source_detail"@[12] == 'l',
        "source_scheme"@.len() == 13 && "source_scheme"@[0] == 's' && "source_scheme"@[1] == 'o' && "source_scheme"@[12] == 'e',
        "sourced"@.len() == 7 && "sourced"@[0] == 's' && "sourced"@[1] == 'o' && "sourced"@[6] == 'd',
        "sourced_seq"@.len() == 11 && "sourced_seq"@[0] == 's' && "sourced_seq"@[1] == 'o' && "sourced_seq"@[10] == 'q',
        "status"@.len() == 6 && "status"@[0] == 's' && "status"@[1] == 't' && "status"@[5] == 's',
        "target_scheme"@.len() == 13 && "target_scheme"@[0] == 't' && "target_scheme"@[1] == 'a' && "target_scheme"@[12] == 'e',
        "template_ref"@.len() == 12 && "template_ref"@[0] == 't' && "template_ref"@[1] == 'e' && "template_ref"@[11] == 'f',
        "to"@.len() == 2 && "to"@[0] == 't' && "to"@[1] == 'o',
        "transformed"@.len() == 11 && "transformed"@[0] == 't' && "transformed"@[1] == 'r' && "transformed"@[10] == 'd',
        "trigger"@.len() == 7 && "trigger"@[0] == 't' && "trigger"@[1] == 'r' && "trigger"@[6] == 'r',
        "trust"@.len() == 5 && "trust"@[0] == 't' && "trust"@[1] == 'r' && "trust"@[4] == 't',
        "unit"@.len() == 4 && "unit"@[0] == 'u' && "unit"@[1] == 'n' && "unit"@[3] == 't',
        "unit_position"@.len() == 13 && "unit_position"@[0] == 'u' && "unit_position"@[1] == 'n' && "unit_position"@[12] == 'n',
        "units"@.len() == 5 && "units"@[0] == 'u' && "units"@[1] == 'n' && "units"@[4] == 's',
        "uom_registered"@.len() == 14 && "uom_registered"@[0] == 'u' && "uom_registered"@[1] == 'o' && "uom_registered"@[13] == 'd',
        "validity"@.len() == 8 && "validity"@[0] == 'v' && "validity"@[1] == 'a' && "validity"@[7] == 'y',
        "value"@.len() == 5 && "value"@[0] == 'v' && "value"@[1] == 'a' && "value"@[4] == 'e',
        "version"@.len() == 7 && "version"@[0] == 'v' && "version"@[1] == 'e' && "version"@[6] == 'n',
        "view"@.len() == 4 && "view"@[0] == 'v' && "view"@[1] == 'i' && "view"@[3] == 'w',
        "weight_element"@.len() == 14 && "weight_element"@[0] == 'w' && "weight_element"@[1] == 'e' && "weight_element"@[13] == 't',
{
    reveal_strlit("actor");
    reveal_strlit("actor_id");
    reveal_strlit("actor_role");
    reveal_strlit("amount");
    reveal_strlit("applies");
    reveal_strlit("as_of");
    reveal_strlit("axes");
    reveal_strlit("band");
    reveal_strlit("below_lowest_band");
    reveal_strlit("capability");
    reveal_strlit("children_provided");
    reveal_strlit("children_required");
    reveal_strlit("citation");
    reveal_strlit("clause_urn");
    reveal_strlit("complete");
    reveal_strlit("contains_as_of");
    reveal_strlit("coverage");
    reveal_strlit("custodian");
    reveal_strlit("decimal_digits");
    reveal_strlit("declared_unit");
    reveal_strlit("detail");
    reveal_strlit("element");
    reveal_strlit("elements_present");
    reveal_strlit("elements_required");
    reveal_strlit("entries");
    reveal_strlit("error");
    reveal_strlit("events");
    reveal_strlit("exact");
    reveal_strlit("fallback_lang");
    reveal_strlit("floor");
    reveal_strlit("formatted");
    reveal_strlit("formatting_rules");
    reveal_strlit("freshness");
    reveal_strlit("from");
    reveal_strlit("id");
    reveal_strlit("input");
    reveal_strlit("input_element");
    reveal_strlit("input_set_root");
    reveal_strlit("inputs");
    reveal_strlit("item");
    reveal_strlit("items");
    reveal_strlit("kind");
    reveal_strlit("label");
    reveal_strlit("label_lang");
    reveal_strlit("lang");
    reveal_strlit("log_head");
    reveal_strlit("mapping");
    reveal_strlit("matched_arm");
    reveal_strlit("method_citation");
    reveal_strlit("min");
    reveal_strlit("min_capability");
    reveal_strlit("missing");
    reveal_strlit("missing_children");
    reveal_strlit("missing_inputs");
    reveal_strlit("name");
    reveal_strlit("note");
    reveal_strlit("occurred_at");
    reveal_strlit("operation");
    reveal_strlit("output");
    reveal_strlit("package");
    reveal_strlit("package_ref");
    reveal_strlit("passport");
    reveal_strlit("path");
    reveal_strlit("product_id");
    reveal_strlit("profile");
    reveal_strlit("ratio");
    reveal_strlit("reason");
    reveal_strlit("render_metadata");
    reveal_strlit("resolution");
    reveal_strlit("rollup");
    reveal_strlit("rule_id");
    reveal_strlit("satisfiable");
    reveal_strlit("sections");
    reveal_strlit("selected");
    reveal_strlit("seq");
    reveal_strlit("service");
    reveal_strlit("source");
    reveal_strlit("source_detail");
    reveal_strlit("source_scheme");
    reveal_strlit("sourced");
    reveal_strlit("sourced_seq");
    reveal_strlit("status");
    reveal_strlit("target_scheme");
    reveal_strlit("template_ref");
    reveal_strlit("to");
    reveal_strlit("transformed");
    reveal_strlit("trigger");
    reveal_strlit("trust");
    reveal_strlit("unit");
    reveal_strlit("unit_position");
    reveal_strlit("units");
    reveal_strlit("uom_registered");
    reveal_strlit("validity");
    reveal_strlit("value");
    reveal_strlit("version");
    reveal_strlit("view");
    reveal_strlit("weight_element");
}

} // verus!
