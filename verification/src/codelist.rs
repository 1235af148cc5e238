//! The localization / code-list mapping class: registered correspondences
//! between two code lists.
//!
//! A lens binding names a mapping item; the item's table translates a code
//! value of the source scheme into the target scheme. A value with no
//! correspondence is emitted as the explicit `unmapped` output — never a
//! silent pass-through of the source value.
use vstd::prelude::*;
use vstd::string::*;

use crate::json::{json_views, member_str, member_view, Json, JsonView};
use crate::record::{err_of, field_view, field_views, found, invalid_type, invalid_type_text, opt_str_fault, opt_str_in, optional, record_fault, record_fault_text, required, sound_records_are_read, str_fault, str_in, take_opt_str, take_str, Field, written, written_text};
use crate::strmap::StrMap;
use crate::text::{blank, copy_opt, is_blank, is_white, opt_text, phrase, reports, same};

verus! {

/// The output for an input value the table does not carry (explicit, never
/// silent).
pub const UNMAPPED: &'static str = "unmapped";

/// One correspondence row of the mapping table.
#[derive(Debug, PartialEq, Eq)]
pub struct MappingEntry {
    /// The value in the source scheme.
    pub source_value: String,
    /// The corresponding value in the target scheme.
    pub target_value: String,
    /// Optional correspondence note (why this row maps as it does).
    pub note: Option<String>,
}

/// What a row says.
pub struct EntryView {
    pub source: Seq<char>,
    pub target: Seq<char>,
    pub note: Option<Seq<char>>,
}

impl View for MappingEntry {
    type V = EntryView;

    open spec fn view(&self) -> EntryView {
        EntryView {
            source: self.source_value@,
            target: self.target_value@,
            note: opt_text(self.note),
        }
    }
}

/// A registered code-list correspondence item (versioned like any registry
/// item; the item's manifest slot carries this shape).
#[derive(Debug, PartialEq, Eq)]
pub struct CodeListMapping {
    /// The mapping item id (what a lens binding's `mapping_ref` names).
    pub id: String,
    /// The version pin (recorded in every mapped output).
    pub version: String,
    /// Human-readable title.
    pub title: Option<String>,
    /// The authority the table transcribes.
    pub citation: Option<String>,
    /// The scheme the input value belongs to.
    pub source_scheme: String,
    /// The scheme the output value belongs to.
    pub target_scheme: String,
    /// The correspondence rows (unique on `source_value`).
    pub table: Vec<MappingEntry>,
}

/// What a mapping says.
pub struct MappingView {
    pub id: Seq<char>,
    pub version: Seq<char>,
    pub title: Option<Seq<char>>,
    pub citation: Option<Seq<char>>,
    pub source_scheme: Seq<char>,
    pub target_scheme: Seq<char>,
    pub table: Seq<EntryView>,
}

/// What the rows of a table say.
pub open spec fn rows(table: Seq<MappingEntry>) -> Seq<EntryView> {
    table.map_values(|e: MappingEntry| e@)
}

impl View for CodeListMapping {
    type V = MappingView;

    open spec fn view(&self) -> MappingView {
        MappingView {
            id: self.id@,
            version: self.version@,
            title: opt_text(self.title),
            citation: opt_text(self.citation),
            source_scheme: self.source_scheme@,
            target_scheme: self.target_scheme@,
            table: rows(self.table@),
        }
    }
}

/// The first row from `i` on for a source value.
pub open spec fn row_for(table: Seq<EntryView>, source: Seq<char>, i: int) -> Option<EntryView>
    decreases table.len() - i,
{
    if i < 0 || i >= table.len() {
        None
    } else if table[i].source == source {
        Some(table[i])
    } else {
        row_for(table, source, i + 1)
    }
}

/// Some row before `i` has the source value `s`.
pub open spec fn source_taken(table: Seq<EntryView>, i: int, s: Seq<char>) -> bool {
    exists|j: int| 0 <= j < i && (#[trigger] table[j]).source == s
}

/// Some row before `i` has the target value `t`.
pub open spec fn target_taken(table: Seq<EntryView>, i: int, t: Seq<char>) -> bool {
    exists|j: int| 0 <= j < i && (#[trigger] table[j]).target == t
}

/// The first fault among the rows from `i` on.
pub open spec fn rows_fault(m: MappingView, i: int) -> Option<Seq<char>>
    decreases m.table.len() - i,
{
    if i < 0 || i >= m.table.len() {
        None
    } else if is_blank(m.table[i].source) || is_blank(m.table[i].target) {
        Some("code-list mapping `"@ + m.id + "` has a row with an empty value"@)
    } else if source_taken(m.table, i, m.table[i].source) {
        Some(
            "code-list mapping `"@ + m.id + "` maps source value `"@ + m.table[i].source
                + "` twice"@,
        )
    } else {
        rows_fault(m, i + 1)
    }
}

/// The first fault of a mapping: identity present, schemes named, table
/// non-empty with unique, non-empty values.
pub open spec fn mapping_fault(m: MappingView) -> Option<Seq<char>> {
    if is_blank(m.id) {
        Some("code-list mapping lacks an id"@)
    } else if is_blank(m.version) {
        Some("code-list mapping `"@ + m.id + "` lacks a version pin"@)
    } else if is_blank(m.source_scheme) || is_blank(m.target_scheme) {
        Some(
            "code-list mapping `"@ + m.id + "` must name its source and target schemes"@,
        )
    } else if m.table.len() == 0 {
        Some("code-list mapping `"@ + m.id + "` has an empty table"@)
    } else {
        rows_fault(m, 0)
    }
}

/// A row read the other way round.
pub open spec fn swapped(e: EntryView) -> EntryView {
    EntryView { source: e.target, target: e.source, note: e.note }
}

/// The first row from `i` on whose target value an earlier row has.
pub open spec fn collision(table: Seq<EntryView>, i: int) -> Option<Seq<char>>
    decreases table.len() - i,
{
    if i < 0 || i >= table.len() {
        None
    } else if target_taken(table, i, table[i].target) {
        Some(table[i].target)
    } else {
        collision(table, i + 1)
    }
}

/// The reverse correspondence, or why there is none.
pub open spec fn reversal(m: MappingView) -> Result<MappingView, Seq<char>> {
    match collision(m.table, 0) {
        Some(t) => Err(
            "code-list mapping `"@ + m.id
                + "` is not bijective — the reverse correspondence is not a function (target value `"@
                + t + "` appears twice)"@,
        ),
        None => Ok(
            MappingView {
                id: m.id + ":reversed"@,
                source_scheme: m.target_scheme,
                target_scheme: m.source_scheme,
                table: m.table.map_values(|e: EntryView| swapped(e)),
                ..m
            },
        ),
    }
}

impl CodeListMapping {
    fn source_before(&self, n: usize, s: &str) -> (r: bool)
        requires
            n <= self.table.len(),
        ensures
            r == source_taken(self@.table, n as int, s@),
    {
        let mut i: usize = 0;
        while i < n
            invariant
                i <= n <= self.table.len(),
                forall|j: int| 0 <= j < i ==> (#[trigger] self@.table[j]).source != s@,
            decreases n - i,
        {
            assert(self@.table[i as int] == self.table@[i as int]@);
            if same(self.table[i].source_value.as_str(), s) {
                return true;
            }
            i = i + 1;
        }
        false
    }

    fn target_before(&self, n: usize, t: &str) -> (r: bool)
        requires
            n <= self.table.len(),
        ensures
            r == target_taken(self@.table, n as int, t@),
    {
        let mut i: usize = 0;
        while i < n
            invariant
                i <= n <= self.table.len(),
                forall|j: int| 0 <= j < i ==> (#[trigger] self@.table[j]).target != t@,
            decreases n - i,
        {
            assert(self@.table[i as int] == self.table@[i as int]@);
            if same(self.table[i].target_value.as_str(), t) {
                return true;
            }
            i = i + 1;
        }
        false
    }

    /// Structural validation.
    pub fn validate(&self) -> (r: Result<(), String>)
        ensures
            reports(r, mapping_fault(self@)),
    {
        if blank(self.id.as_str()) {
            return Err("code-list mapping lacks an id".to_string());
        }
        if blank(self.version.as_str()) {
            return Err(phrase("code-list mapping `", self.id.as_str(), "` lacks a version pin"));
        }
        if blank(self.source_scheme.as_str()) || blank(self.target_scheme.as_str()) {
            return Err(
                phrase(
                    "code-list mapping `",
                    self.id.as_str(),
                    "` must name its source and target schemes",
                ),
            );
        }
        if self.table.len() == 0 {
            return Err(phrase("code-list mapping `", self.id.as_str(), "` has an empty table"));
        }
        let mut i: usize = 0;
        while i < self.table.len()
            invariant
                i <= self.table.len(),
                mapping_fault(self@) == rows_fault(self@, i as int),
            decreases self.table.len() - i,
        {
            let entry: &MappingEntry = &self.table[i];
            assert(self@.table[i as int] == entry@);
            if blank(entry.source_value.as_str()) || blank(entry.target_value.as_str()) {
                return Err(
                    phrase(
                        "code-list mapping `",
                        self.id.as_str(),
                        "` has a row with an empty value",
                    ),
                );
            }
            if self.source_before(i, entry.source_value.as_str()) {
                let mut out: String = phrase(
                    "code-list mapping `",
                    self.id.as_str(),
                    "` maps source value `",
                );
                out.append(entry.source_value.as_str());
                out.append("` twice");
                return Err(out);
            }
            i = i + 1;
        }
        Ok(())
    }

    /// Look up one source-scheme value.
    pub fn lookup(&self, source_value: &str) -> (r: Option<&MappingEntry>)
        ensures
            match r {
                Some(e) => row_for(self@.table, source_value@, 0) == Some(e@),
                None => row_for(self@.table, source_value@, 0) is None,
            },
    {
        let mut i: usize = 0;
        while i < self.table.len()
            invariant
                i <= self.table.len(),
                row_for(self@.table, source_value@, 0) == row_for(
                    self@.table,
                    source_value@,
                    i as int,
                ),
            decreases self.table.len() - i,
        {
            assert(self@.table[i as int] == self.table@[i as int]@);
            if same(self.table[i].source_value.as_str(), source_value) {
                return Some(&self.table[i]);
            }
            i = i + 1;
        }
        None
    }

    /// The reverse correspondence (target scheme back to source): rows re-keyed
    /// on the target values. Only total for bijective tables; a collision is an
    /// error the caller surfaces.
    pub fn reversed(&self) -> (r: Result<CodeListMapping, String>)
        ensures
            match r {
                Ok(m) => reversal(self@) == Ok::<MappingView, Seq<char>>(m@),
                Err(e) => reversal(self@) == Err::<MappingView, Seq<char>>(e@),
            },
    {
        let mut table: Vec<MappingEntry> = Vec::new();
        let ghost whole = self@.table.map_values(|e: EntryView| swapped(e));
        let mut i: usize = 0;
        while i < self.table.len()
            invariant
                i <= self.table.len(),
                whole == self@.table.map_values(|e: EntryView| swapped(e)),
                rows(table@) == whole.take(i as int),
                collision(self@.table, 0) == collision(self@.table, i as int),
            decreases self.table.len() - i,
        {
            let entry: &MappingEntry = &self.table[i];
            assert(self@.table[i as int] == entry@);
            if self.target_before(i, entry.target_value.as_str()) {
                let mut out: String = phrase(
                    "code-list mapping `",
                    self.id.as_str(),
                    "` is not bijective — the reverse correspondence is not a function (target value `",
                );
                out.append(entry.target_value.as_str());
                out.append("` appears twice)");
                return Err(out);
            }
            let ghost done = table@;
            let turned: MappingEntry = MappingEntry {
                source_value: entry.target_value.clone(),
                target_value: entry.source_value.clone(),
                note: copy_opt(&entry.note),
            };
            table.push(turned);
            assert(rows(table@) =~= rows(done).push(whole[i as int]));
            assert(whole.take(i as int + 1) =~= whole.take(i as int).push(whole[i as int]));
            i = i + 1;
        }
        assert(whole.take(whole.len() as int) =~= whole);
        let mut id: String = self.id.clone();
        id.append(":reversed");
        Ok(
            CodeListMapping {
                id,
                version: self.version.clone(),
                title: copy_opt(&self.title),
                citation: copy_opt(&self.citation),
                source_scheme: self.target_scheme.clone(),
                target_scheme: self.source_scheme.clone(),
                table,
            },
        )
    }
}

impl CodeListMapping {
    /// A copy of the mapping.
    pub fn copy(&self) -> (r: CodeListMapping)
        ensures
            r@ == self@,
    {
        let mut table: Vec<MappingEntry> = Vec::new();
        let mut i: usize = 0;
        while i < self.table.len()
            invariant
                i <= self.table.len(),
                rows(table@) == self@.table.take(i as int),
            decreases self.table.len() - i,
        {
            let ghost done = table@;
            let e: &MappingEntry = &self.table[i];
            table.push(
                MappingEntry {
                    source_value: e.source_value.clone(),
                    target_value: e.target_value.clone(),
                    note: copy_opt(&e.note),
                },
            );
            assert(rows(table@) =~= rows(done).push(self@.table[i as int]));
            assert(self@.table.take(i as int + 1) =~= self@.table.take(i as int).push(
                self@.table[i as int],
            ));
            i = i + 1;
        }
        assert(self@.table.take(self@.table.len() as int) =~= self@.table);
        CodeListMapping {
            id: self.id.clone(),
            version: self.version.clone(),
            title: copy_opt(&self.title),
            citation: copy_opt(&self.citation),
            source_scheme: self.source_scheme.clone(),
            target_scheme: self.target_scheme.clone(),
            table,
        }
    }
}

/// The row that a document writes, or why it cannot be read.
pub open spec fn row_of(j: JsonView) -> Result<EntryView, Seq<char>> {
    let source = field_view(j, 0, "source_value"@);
    let target = field_view(j, 1, "target_value"@);
    let note = field_view(j, 2, "note"@);
    match record_fault(
        j,
        "struct MappingEntry"@,
        seq![
            required("source_value"@, source, str_fault(source)),
            required("target_value"@, target, str_fault(target)),
            optional("note"@, note, opt_str_fault(note)),
        ],
    ) {
        Some(e) => Err(e),
        None => Ok(
            EntryView { source: str_in(source), target: str_in(target), note: opt_str_in(note) },
        ),
    }
}

/// The rows that the first `n` documents write, or why the first unreadable
/// one cannot be read.
pub open spec fn rows_of(items: Seq<JsonView>, n: int) -> Result<Seq<EntryView>, Seq<char>>
    decreases n,
{
    if n <= 0 {
        Ok(Seq::empty())
    } else {
        match (rows_of(items, n - 1), row_of(items[n - 1])) {
            (Err(e), _) => Err(e),
            (_, Err(e)) => Err(e),
            (Ok(done), Ok(row)) => Ok(done.push(row)),
        }
    }
}

/// A failure among the first documents is the failure of all.
proof fn rows_of_stops(items: Seq<JsonView>, i: int, n: int)
    requires
        0 <= i <= n,
        rows_of(items, i) is Err,
    ensures
        rows_of(items, n) == rows_of(items, i),
    decreases n - i,
{
    if i < n {
        rows_of_stops(items, i, n - 1);
    }
}

/// The rows that a field writes, or why they cannot be read.
pub open spec fn table_of(field: Option<JsonView>) -> Result<Seq<EntryView>, Seq<char>> {
    match field {
        None => Ok(Seq::empty()),
        Some(JsonView::Arr(items)) => rows_of(items, items.len() as int),
        Some(j) => Err(invalid_type(j, "a sequence"@)),
    }
}

/// The mapping that a document writes, or why it cannot be read.
pub open spec fn mapping_of(j: JsonView) -> Result<MappingView, Seq<char>> {
    let id = field_view(j, 0, "id"@);
    let version = field_view(j, 1, "version"@);
    let title = field_view(j, 2, "title"@);
    let citation = field_view(j, 3, "citation"@);
    let source_scheme = field_view(j, 4, "source_scheme"@);
    let target_scheme = field_view(j, 5, "target_scheme"@);
    let table = field_view(j, 6, "table"@);
    match record_fault(
        j,
        "struct CodeListMapping"@,
        seq![
            required("id"@, id, str_fault(id)),
            required("version"@, version, str_fault(version)),
            optional("title"@, title, opt_str_fault(title)),
            optional("citation"@, citation, opt_str_fault(citation)),
            required("source_scheme"@, source_scheme, str_fault(source_scheme)),
            required("target_scheme"@, target_scheme, str_fault(target_scheme)),
            required("table"@, table, err_of(table_of(table))),
        ],
    ) {
        Some(e) => Err(e),
        None => Ok(
            MappingView {
                id: str_in(id),
                version: str_in(version),
                title: opt_str_in(title),
                citation: opt_str_in(citation),
                source_scheme: str_in(source_scheme),
                target_scheme: str_in(target_scheme),
                table: table_of(table)->Ok_0,
            },
        ),
    }
}

/// The valid mapping that a document writes, or why there is none.
pub open spec fn accepted_mapping(j: JsonView) -> Result<MappingView, Seq<char>> {
    match mapping_of(j) {
        Err(e) => Err("code-list mapping does not parse: "@ + e),
        Ok(m) => match mapping_fault(m) {
            Some(f) => Err(f),
            None => Ok(m),
        },
    }
}

/// The text, or a question mark where there is none.
pub open spec fn or_unknown(s: Option<Seq<char>>) -> Seq<char> {
    match s {
        Some(t) => t,
        None => "?"@,
    }
}

/// The valid mapping that a registry item carries in its `manifest` slot, or
/// why there is none.
pub open spec fn item_mapping(item: JsonView) -> Result<MappingView, Seq<char>> {
    let id = member_str(item, "identifier"@);
    let class = member_str(item, "item_class"@);
    if class is Some && class->0 != "transform"@ {
        Err(
            "item `"@ + or_unknown(id) + "` is not a transform item (class `"@ + class->0 + "`)"@,
        )
    } else {
        match member_view(item, "manifest"@) {
            Some(JsonView::Obj(m)) => match accepted_mapping(JsonView::Obj(m)) {
                Err(e) => Err(e),
                Ok(mapping) => if id is Some && mapping.id != id->0 {
                    Err(
                        "mapping item `"@ + id->0 + "` carries a manifest for `"@ + mapping.id
                            + "`"@,
                    )
                } else {
                    Ok(mapping)
                },
            },
            _ => Err("mapping item `"@ + or_unknown(id) + "` carries no manifest"@),
        }
    }
}

fn read_row(doc: &Json) -> (r: Result<MappingEntry, String>)
    ensures
        match r {
            Ok(e) => row_of(doc@) == Ok::<EntryView, Seq<char>>(e@),
            Err(e) => row_of(doc@) == Err::<EntryView, Seq<char>>(e@),
        },
{
    let source: Option<&Json> = doc.field(0, "source_value");
    let target: Option<&Json> = doc.field(1, "target_value");
    let note: Option<&Json> = doc.field(2, "note");
    let fields: Vec<Field> = vec![
        Field::text("source_value", source),
        Field::text("target_value", target),
        Field::maybe_text("note", note),
    ];
    assert(field_views(fields@) =~= seq![fields@[0]@, fields@[1]@, fields@[2]@]);
    match record_fault_text(doc, "struct MappingEntry", &fields) {
        Some(e) => Err(e),
        None => Ok(
            MappingEntry {
                source_value: take_str(source),
                target_value: take_str(target),
                note: take_opt_str(note),
            },
        ),
    }
}

fn read_rows(items: &Vec<Json>) -> (r: Result<Vec<MappingEntry>, String>)
    ensures
        match r {
            Ok(t) => rows_of(json_views(items@), items.len() as int) == Ok::<
                Seq<EntryView>,
                Seq<char>,
            >(rows(t@)),
            Err(e) => rows_of(json_views(items@), items.len() as int) == Err::<
                Seq<EntryView>,
                Seq<char>,
            >(e@),
        },
{
    let ghost views = json_views(items@);
    let mut table: Vec<MappingEntry> = Vec::new();
    let mut i: usize = 0;
    assert(rows(table@) =~= Seq::<EntryView>::empty());
    while i < items.len()
        invariant
            i <= items.len(),
            views == json_views(items@),
            rows_of(views, i as int) == Ok::<Seq<EntryView>, Seq<char>>(rows(table@)),
        decreases items.len() - i,
    {
        assert(views[i as int] == items@[i as int]@);
        match read_row(&items[i]) {
            Ok(row) => {
                let ghost done = table@;
                table.push(row);
                assert(rows(table@) =~= rows(done).push(row@));
            },
            Err(e) => {
                proof {
                    rows_of_stops(views, i as int + 1, items.len() as int);
                }
                return Err(e);
            },
        }
        i = i + 1;
    }
    Ok(table)
}

fn read_table(field: Option<&Json>) -> (r: Result<Vec<MappingEntry>, String>)
    ensures
        match r {
            Ok(t) => table_of(found(field)) == Ok::<Seq<EntryView>, Seq<char>>(rows(t@)),
            Err(e) => table_of(found(field)) == Err::<Seq<EntryView>, Seq<char>>(e@),
        },
{
    match field {
        None => {
            let none: Vec<MappingEntry> = Vec::new();
            assert(rows(none@) =~= Seq::<EntryView>::empty());
            Ok(none)
        },
        Some(j) => match j.as_array() {
            Some(items) => read_rows(items),
            None => Err(invalid_type_text(j, "a sequence")),
        },
    }
}

fn read_mapping(doc: &Json) -> (r: Result<CodeListMapping, String>)
    ensures
        match r {
            Ok(m) => mapping_of(doc@) == Ok::<MappingView, Seq<char>>(m@),
            Err(e) => mapping_of(doc@) == Err::<MappingView, Seq<char>>(e@),
        },
{
    let id: Option<&Json> = doc.field(0, "id");
    let version: Option<&Json> = doc.field(1, "version");
    let title: Option<&Json> = doc.field(2, "title");
    let citation: Option<&Json> = doc.field(3, "citation");
    let source_scheme: Option<&Json> = doc.field(4, "source_scheme");
    let target_scheme: Option<&Json> = doc.field(5, "target_scheme");
    let rows_field: Option<&Json> = doc.field(6, "table");
    let (table, table_fault): (Vec<MappingEntry>, Option<String>) = match read_table(rows_field) {
        Ok(t) => (t, None),
        Err(e) => (Vec::new(), Some(e)),
    };
    let fields: Vec<Field> = vec![
        Field::text("id", id),
        Field::text("version", version),
        Field::maybe_text("title", title),
        Field::maybe_text("citation", citation),
        Field::text("source_scheme", source_scheme),
        Field::text("target_scheme", target_scheme),
        Field::required("table", rows_field, table_fault),
    ];
    assert(field_views(fields@) =~= seq![
        fields@[0]@,
        fields@[1]@,
        fields@[2]@,
        fields@[3]@,
        fields@[4]@,
        fields@[5]@,
        fields@[6]@,
    ]);
    match record_fault_text(doc, "struct CodeListMapping", &fields) {
        Some(e) => Err(e),
        None => {
            assert(fields@[6].fault is None);
            Ok(
                CodeListMapping {
                    id: take_str(id),
                    version: take_str(version),
                    title: take_opt_str(title),
                    citation: take_opt_str(citation),
                    source_scheme: take_str(source_scheme),
                    target_scheme: take_str(target_scheme),
                    table,
                },
            )
        },
    }
}

impl CodeListMapping {
    /// Read and validate a mapping item from its manifest document.
    pub fn from_json(doc: &Json) -> (r: Result<CodeListMapping, String>)
        ensures
            match r {
                Ok(m) => accepted_mapping(doc@) == Ok::<MappingView, Seq<char>>(m@),
                Err(e) => accepted_mapping(doc@) == Err::<MappingView, Seq<char>>(e@),
            },
    {
        match read_mapping(doc) {
            Err(e) => {
                let mut out: String = "code-list mapping does not parse: ".to_string();
                out.append(e.as_str());
                Err(out)
            },
            Ok(m) => match m.validate() {
                Ok(()) => Ok(m),
                Err(e) => Err(e),
            },
        }
    }

    /// Read from a registry item document (the `manifest` slot).
    pub fn from_item(item: &Json) -> (r: Result<CodeListMapping, String>)
        ensures
            match r {
                Ok(m) => item_mapping(item@) == Ok::<MappingView, Seq<char>>(m@),
                Err(e) => item_mapping(item@) == Err::<MappingView, Seq<char>>(e@),
            },
    {
        let id: Option<&str> = item.get_str("identifier");
        let shown: &str = match id {
            Some(s) => s,
            None => "?",
        };
        match item.get_str("item_class") {
            Some(class) => {
                if !same(class, "transform") {
                    let mut out: String = phrase(
                        "item `",
                        shown,
                        "` is not a transform item (class `",
                    );
                    out.append(class);
                    out.append("`)");
                    return Err(out);
                }
            },
            None => {},
        }
        let manifest: &Json = match item.get("manifest") {
            Some(m) => match m.as_object() {
                Some(_) => m,
                None => return Err(phrase("mapping item `", shown, "` carries no manifest")),
            },
            None => return Err(phrase("mapping item `", shown, "` carries no manifest")),
        };
        let mapping: CodeListMapping = match CodeListMapping::from_json(manifest) {
            Ok(m) => m,
            Err(e) => return Err(e),
        };
        match id {
            Some(id) => {
                if !same(mapping.id.as_str(), id) {
                    let mut out: String = phrase(
                        "mapping item `",
                        id,
                        "` carries a manifest for `",
                    );
                    out.append(mapping.id.as_str());
                    out.append("`");
                    return Err(out);
                }
            },
            None => {},
        }
        Ok(mapping)
    }
}

/// The mappings a projection may consult, with per-item sourcing (`registry` —
/// a transforms subregister item, `fixtures` — the built-in demo corpus).
#[derive(Debug, PartialEq)]
pub struct MappingSet {
    /// Mappings and their sourcing mode, keyed by item id.
    pub mappings: StrMap<(CodeListMapping, &'static str)>,
}

impl View for MappingSet {
    type V = Map<Seq<char>, (MappingView, Seq<char>)>;

    open spec fn view(&self) -> Map<Seq<char>, (MappingView, Seq<char>)> {
        self.mappings@.map_values(|e: (CodeListMapping, &'static str)| (e.0@, e.1@))
    }
}

impl MappingSet {
    /// An empty set (no localization bindings consult it).
    pub fn empty() -> (r: MappingSet)
        ensures
            r@ == Map::<Seq<char>, (MappingView, Seq<char>)>::empty(),
    {
        let r: MappingSet = MappingSet { mappings: StrMap::new() };
        assert(r@ =~= Map::<Seq<char>, (MappingView, Seq<char>)>::empty());
        r
    }

    /// A one-mapping set with its source mode.
    pub fn of(mapping: CodeListMapping, source: &'static str) -> (r: MappingSet)
        ensures
            r@ == map![mapping@.id => (mapping@, source@)],
    {
        let mut set: MappingSet = MappingSet::empty();
        set.insert(mapping, source);
        set
    }

    /// Add a mapping with its source mode.
    pub fn insert(&mut self, mapping: CodeListMapping, source: &'static str)
        ensures
            final(self)@ == old(self)@.insert(mapping@.id, (mapping@, source@)),
    {
        let ghost m = mapping;
        self.mappings.insert(mapping.id.clone(), (mapping, source));
        assert(self@ =~= old(self)@.insert(m@.id, (m@, source@)));
    }

    /// Look up a mapping by item id together with its sourcing mode.
    pub fn get(&self, id: &str) -> (r: Option<(&CodeListMapping, &'static str)>)
        ensures
            match r {
                Some(found) => self@.contains_key(id@) && self@[id@] == (found.0@, found.1@),
                None => !self@.contains_key(id@),
            },
    {
        match self.mappings.get(id) {
            Some(entry) => Some((&entry.0, entry.1)),
            None => None,
        }
    }
}

/// A found row is in the table, and no earlier row has its source value.
proof fn row_for_found(table: Seq<EntryView>, source: Seq<char>, i: int) -> (k: int)
    requires
        0 <= i,
        row_for(table, source, i) is Some,
    ensures
        i <= k < table.len(),
        table[k] == row_for(table, source, i)->0,
        table[k].source == source,
    decreases table.len() - i,
{
    if table[i].source == source {
        i
    } else {
        row_for_found(table, source, i + 1)
    }
}

/// The row at `k` is found, where no row from `i` on before it has its source
/// value.
proof fn row_for_is(table: Seq<EntryView>, i: int, k: int)
    requires
        0 <= i <= k < table.len(),
        forall|j: int| i <= j < k ==> (#[trigger] table[j]).source != table[k].source,
    ensures
        row_for(table, table[k].source, i) == Some(table[k]),
    decreases k - i,
{
    if i < k {
        row_for_is(table, i + 1, k);
    }
}

proof fn rows_fault_free(m: MappingView, i: int, k: int)
    requires
        0 <= i <= k < m.table.len(),
        rows_fault(m, i) is None,
    ensures
        !is_blank(m.table[k].source),
        !is_blank(m.table[k].target),
        !source_taken(m.table, k, m.table[k].source),
    decreases k - i,
{
    if i < k {
        rows_fault_free(m, i + 1, k);
    }
}

proof fn collision_free(table: Seq<EntryView>, i: int, k: int)
    requires
        0 <= i <= k < table.len(),
        collision(table, i) is None,
    ensures
        !target_taken(table, k, table[k].target),
    decreases k - i,
{
    if i < k {
        collision_free(table, i + 1, k);
    }
}

/// A lookup in the reverse correspondence undoes a lookup in the
/// correspondence: mapping a value and mapping the result back gives the
/// value again.
pub proof fn reversal_undoes_lookup(m: MappingView, value: Seq<char>)
    requires
        reversal(m) is Ok,
        row_for(m.table, value, 0) is Some,
    ensures
        ({
            let target = row_for(m.table, value, 0)->0.target;
            row_for(reversal(m)->Ok_0.table, target, 0) == Some(
                swapped(row_for(m.table, value, 0)->0),
            ) && row_for(reversal(m)->Ok_0.table, target, 0)->0.target == value
        }),
{
    let k = row_for_found(m.table, value, 0);
    let back = reversal(m)->Ok_0.table;
    assert forall|j: int| 0 <= j < k implies (#[trigger] back[j]).source != back[k].source by {
        collision_free(m.table, 0, k);
        assert(m.table[j].target != m.table[k].target);
    }
    row_for_is(back, 0, k);
}

/// The other direction, for a validated mapping: a target value that the
/// reverse correspondence carries maps forward to itself.
pub proof fn lookup_undoes_reversal(m: MappingView, target: Seq<char>)
    requires
        mapping_fault(m) is None,
        reversal(m) is Ok,
        row_for(reversal(m)->Ok_0.table, target, 0) is Some,
    ensures
        ({
            let source = row_for(reversal(m)->Ok_0.table, target, 0)->0.target;
            row_for(m.table, source, 0) is Some && row_for(m.table, source, 0)->0.target == target
        }),
{
    let back = reversal(m)->Ok_0.table;
    let k = row_for_found(back, target, 0);
    assert(back[k] == swapped(m.table[k]));
    rows_fault_free(m, 0, k);
    assert forall|j: int| 0 <= j < k implies (#[trigger] m.table[j]).source != m.table[k].source by {
        assert(!source_taken(m.table, k, m.table[k].source));
    }
    row_for_is(m.table, 0, k);
}

/// The reverse of a validated bijective mapping is a valid mapping.
pub proof fn reversal_is_valid(m: MappingView)
    requires
        mapping_fault(m) is None,
        reversal(m) is Ok,
    ensures
        mapping_fault(reversal(m)->Ok_0) is None,
{
    let back = reversal(m)->Ok_0;
    assert(!is_blank(back.id)) by {
        let i = choose|i: int| 0 <= i < m.id.len() && !is_white(#[trigger] m.id[i]);
        assert(back.id[i] == m.id[i]);
    }
    reversal_rows_valid(m, 0);
}

proof fn reversal_rows_valid(m: MappingView, i: int)
    requires
        mapping_fault(m) is None,
        reversal(m) is Ok,
        0 <= i <= m.table.len(),
    ensures
        rows_fault(reversal(m)->Ok_0, i) is None,
    decreases m.table.len() - i,
{
    let back = reversal(m)->Ok_0;
    if i < m.table.len() {
        rows_fault_free(m, 0, i);
        collision_free(m.table, 0, i);
        assert(!source_taken(back.table, i, back.table[i].source)) by {
            assert forall|j: int| 0 <= j < i implies (#[trigger] back.table[j]).source
                != back.table[i].source by {
                assert(m.table[j].target != m.table[i].target);
            }
        }
        reversal_rows_valid(m, i + 1);
    }
}

/// Reading a reversed table the other way round gives the table back.
pub proof fn reversal_twice_is_identity(m: MappingView)
    requires
        mapping_fault(m) is None,
        reversal(m) is Ok,
    ensures
        reversal(reversal(m)->Ok_0) is Ok,
        reversal(reversal(m)->Ok_0)->Ok_0.table == m.table,
{
    let back = reversal(m)->Ok_0;
    no_collision_back(m, 0);
    assert(reversal(back)->Ok_0.table =~= m.table);
}

proof fn no_collision_back(m: MappingView, i: int)
    requires
        mapping_fault(m) is None,
        reversal(m) is Ok,
        0 <= i <= m.table.len(),
    ensures
        collision(reversal(m)->Ok_0.table, i) is None,
    decreases m.table.len() - i,
{
    let back = reversal(m)->Ok_0.table;
    if i < m.table.len() {
        rows_fault_free(m, 0, i);
        assert(!target_taken(back, i, back[i].target)) by {
            assert forall|j: int| 0 <= j < i implies (#[trigger] back[j]).target
                != back[i].target by {
                assert(m.table[j].source != m.table[i].source);
            }
        }
        no_collision_back(m, i + 1);
    }
}

/// A row is found by its source value: the first of the table's rows that has
/// it, and none exactly where no row has it.
pub proof fn rows_are_found_by_source(table: Seq<EntryView>, source: Seq<char>, i: int)
    requires
        0 <= i <= table.len(),
    ensures
        match row_for(table, source, i) {
            Some(row) => exists|k: int|
                i <= k < table.len() && #[trigger] table[k] == row && row.source == source
                    && forall|j: int| i <= j < k ==> (#[trigger] table[j]).source != source,
            None => forall|j: int| i <= j < table.len() ==> (#[trigger] table[j]).source != source,
        },
    decreases table.len() - i,
{
    if i < table.len() {
        if table[i].source == source {
            assert(table[i] == row_for(table, source, i)->0);
        } else {
            rows_are_found_by_source(table, source, i + 1);
            if row_for(table, source, i + 1) is Some {
                let row = row_for(table, source, i + 1)->0;
                let k = choose|k: int|
                    i + 1 <= k < table.len() && #[trigger] table[k] == row && row.source == source
                        && forall|j: int| i + 1 <= j < k ==> (#[trigger] table[j]).source != source;
                assert(table[k] == row);
            }
        }
    }
}

/// A mapping validates exactly where its id, its version and its schemes are
/// named, its table has rows, no row has a blank value, and no two rows have
/// the same source value.
pub proof fn sound_mappings_validate(m: MappingView)
    ensures
        mapping_fault(m) is None <==> {
            &&& !is_blank(m.id) && !is_blank(m.version)
            &&& !is_blank(m.source_scheme) && !is_blank(m.target_scheme)
            &&& m.table.len() > 0
            &&& forall|i: int|
                0 <= i < m.table.len() ==> !is_blank((#[trigger] m.table[i]).source) && !is_blank(
                    m.table[i].target,
                )
            &&& forall|i: int, j: int|
                0 <= i < j < m.table.len() ==> (#[trigger] m.table[i]).source != (
                #[trigger] m.table[j]).source
        },
{
    if mapping_fault(m) is None {
        assert forall|k: int| 0 <= k < m.table.len() implies !is_blank(
            (#[trigger] m.table[k]).source,
        ) && !is_blank(m.table[k].target) && !source_taken(m.table, k, m.table[k].source) by {
            rows_fault_free(m, 0, k);
        }
    } else if !is_blank(m.id) && !is_blank(m.version) && !is_blank(m.source_scheme) && !is_blank(
        m.target_scheme,
    ) && m.table.len() > 0 {
        rows_fault_means(m, 0);
    }
}

proof fn rows_fault_means(m: MappingView, i: int)
    requires
        0 <= i,
        rows_fault(m, i) is Some,
    ensures
        exists|k: int|
            i <= k < m.table.len() && (is_blank((#[trigger] m.table[k]).source) || is_blank(
                m.table[k].target,
            ) || source_taken(m.table, k, m.table[k].source)),
    decreases m.table.len() - i,
{
    if is_blank(m.table[i].source) || is_blank(m.table[i].target) || source_taken(
        m.table,
        i,
        m.table[i].source,
    ) {
    } else {
        rows_fault_means(m, i + 1);
    }
}

/// A mapping can be reversed exactly where no two rows have the same target
/// value. The reverse carries the rows the other way round, in their order,
/// between the schemes the other way round; version, title and citation stay.
pub proof fn reversal_turns_the_rows_round(m: MappingView)
    ensures
        reversal(m) is Ok <==> forall|i: int, j: int|
            0 <= i < j < m.table.len() ==> (#[trigger] m.table[i]).target != (
            #[trigger] m.table[j]).target,
        reversal(m) matches Ok(r) ==> {
            &&& r.id == m.id + ":reversed"@
            &&& r.version == m.version && r.title == m.title && r.citation == m.citation
            &&& r.source_scheme == m.target_scheme && r.target_scheme == m.source_scheme
            &&& r.table.len() == m.table.len()
            &&& forall|k: int|
                0 <= k < m.table.len() ==> (#[trigger] r.table[k]).source == m.table[k].target
                    && r.table[k].target == m.table[k].source && r.table[k].note == m.table[k].note
        },
{
    if reversal(m) is Ok {
        assert forall|k: int| 0 <= k < m.table.len() implies !target_taken(
            m.table,
            k,
            (#[trigger] m.table[k]).target,
        ) by {
            collision_free(m.table, 0, k);
        }
    } else {
        collision_means(m.table, 0);
    }
}

proof fn collision_means(table: Seq<EntryView>, i: int)
    requires
        0 <= i,
        collision(table, i) is Some,
    ensures
        exists|k: int|
            i <= k < table.len() && target_taken(table, k, (#[trigger] table[k]).target),
    decreases table.len() - i,
{
    if !target_taken(table, i, table[i].target) {
        collision_means(table, i + 1);
    }
}

/// A row as a document.
pub open spec fn written_row(e: EntryView, list: bool) -> JsonView {
    written(
        list,
        map![
            "source_value"@ => JsonView::Str(e.source),
            "target_value"@ => JsonView::Str(e.target),
            "note"@ => written_text(e.note),
        ],
        seq![JsonView::Str(e.source), JsonView::Str(e.target), written_text(e.note)],
    )
}

/// A mapping as a document.
pub open spec fn written_mapping(m: MappingView, list: bool) -> JsonView {
    let table = JsonView::Arr(m.table.map_values(|e: EntryView| written_row(e, list)));
    written(
        list,
        map![
            "id"@ => JsonView::Str(m.id),
            "version"@ => JsonView::Str(m.version),
            "title"@ => written_text(m.title),
            "citation"@ => written_text(m.citation),
            "source_scheme"@ => JsonView::Str(m.source_scheme),
            "target_scheme"@ => JsonView::Str(m.target_scheme),
            "table"@ => table,
        ],
        seq![
            JsonView::Str(m.id),
            JsonView::Str(m.version),
            written_text(m.title),
            written_text(m.citation),
            JsonView::Str(m.source_scheme),
            JsonView::Str(m.target_scheme),
            table,
        ],
    )
}

/// A written row reads back as the row.
#[verifier::rlimit(60)]
#[verifier::spinoff_prover]
pub proof fn rows_read_back(e: EntryView, list: bool)
    ensures
        row_of(written_row(e, list)) == Ok::<EntryView, Seq<char>>(e),
{
    reveal_strlit("source_value");
    reveal_strlit("target_value");
    reveal_strlit("note");
    assert("source_value"@[0] != "target_value"@[0]);
    assert("source_value"@.len() != "note"@.len() && "target_value"@.len() != "note"@.len());
    let j = written_row(e, list);
    let source = field_view(j, 0, "source_value"@);
    let target = field_view(j, 1, "target_value"@);
    let note = field_view(j, 2, "note"@);
    assert(source == Some(JsonView::Str(e.source)));
    assert(target == Some(JsonView::Str(e.target)));
    assert(note == Some(written_text(e.note)));
    sound_records_are_read(
        j,
        "struct MappingEntry"@,
        seq![
            required("source_value"@, source, str_fault(source)),
            required("target_value"@, target, str_fault(target)),
            optional("note"@, note, opt_str_fault(note)),
        ],
    );
}

proof fn tables_read_back(table: Seq<EntryView>, list: bool, n: int)
    requires
        0 <= n <= table.len(),
    ensures
        rows_of(table.map_values(|e: EntryView| written_row(e, list)), n) == Ok::<
            Seq<EntryView>,
            Seq<char>,
        >(table.take(n)),
    decreases n,
{
    if n > 0 {
        tables_read_back(table, list, n - 1);
        rows_read_back(table[n - 1], list);
        assert(table.take(n) =~= table.take(n - 1).push(table[n - 1]));
    } else {
        assert(table.take(0) =~= Seq::<EntryView>::empty());
    }
}

/// A written mapping reads back as the mapping, whether it was written as an
/// object or as a list; and a valid one is accepted.
#[verifier::rlimit(60)]
#[verifier::spinoff_prover]
pub proof fn mappings_read_back(m: MappingView, list: bool)
    ensures
        mapping_of(written_mapping(m, list)) == Ok::<MappingView, Seq<char>>(m),
        accepted_mapping(written_mapping(m, list)) is Ok <==> mapping_fault(m) is None,
        mapping_fault(m) is None ==> accepted_mapping(written_mapping(m, list)) == Ok::<
            MappingView,
            Seq<char>,
        >(m),
{
    reveal_strlit("id");
    reveal_strlit("version");
    reveal_strlit("title");
    reveal_strlit("citation");
    reveal_strlit("source_scheme");
    reveal_strlit("target_scheme");
    reveal_strlit("table");
    assert("id"@.len() == 2 && "version"@.len() == 7 && "title"@.len() == 5 && "citation"@.len() == 8
        && "source_scheme"@.len() == 13 && "target_scheme"@.len() == 13 && "table"@.len() == 5);
    assert("source_scheme"@[0] == 's' && "target_scheme"@[0] == 't');
    assert("title"@[1] == 'i' && "table"@[1] == 'a');
    let j = written_mapping(m, list);
    let rows = m.table.map_values(|e: EntryView| written_row(e, list));
    tables_read_back(m.table, list, m.table.len() as int);
    assert(m.table.take(m.table.len() as int) =~= m.table);
    let id = field_view(j, 0, "id"@);
    let version = field_view(j, 1, "version"@);
    let title = field_view(j, 2, "title"@);
    let citation = field_view(j, 3, "citation"@);
    let source_scheme = field_view(j, 4, "source_scheme"@);
    let target_scheme = field_view(j, 5, "target_scheme"@);
    let table = field_view(j, 6, "table"@);
    assert(id == Some(JsonView::Str(m.id)));
    assert(version == Some(JsonView::Str(m.version)));
    assert(title == Some(written_text(m.title)));
    assert(citation == Some(written_text(m.citation)));
    assert(source_scheme == Some(JsonView::Str(m.source_scheme)));
    assert(target_scheme == Some(JsonView::Str(m.target_scheme)));
    assert(table == Some(JsonView::Arr(rows)));
    assert(rows.len() == m.table.len());
    sound_records_are_read(
        j,
        "struct CodeListMapping"@,
        seq![
            required("id"@, id, str_fault(id)),
            required("version"@, version, str_fault(version)),
            optional("title"@, title, opt_str_fault(title)),
            optional("citation"@, citation, opt_str_fault(citation)),
            required("source_scheme"@, source_scheme, str_fault(source_scheme)),
            required("target_scheme"@, target_scheme, str_fault(target_scheme)),
            required("table"@, table, err_of(table_of(table))),
        ],
    );
}

/// What a mapping item carries: the accepted mapping of its manifest, where
/// the item is of the transform class or states no class, and where the
/// manifest is for the item or the item states no identifier.
pub proof fn items_carry_the_mapping_of_their_manifest(item: JsonView, m: MappingView)
    ensures
        item_mapping(item) == Ok::<MappingView, Seq<char>>(m) <==> {
            &&& member_str(item, "item_class"@) is None || member_str(item, "item_class"@) == Some(
                "transform"@,
            )
            &&& member_view(item, "manifest"@) is Some && member_view(item, "manifest"@)->0 is Obj
            &&& accepted_mapping(member_view(item, "manifest"@)->0) == Ok::<MappingView, Seq<char>>(
                m,
            )
            &&& member_str(item, "identifier"@) is None || member_str(item, "identifier"@) == Some(
                m.id,
            )
        },
{
}

} // verus!
