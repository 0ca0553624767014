//! Editing the `[mcp_servers]` table of a TOML configuration file in place,
//! keeping the rest of the file: adding or replacing a server, and removing one.
//!
//! The document is toml_edit's `DocumentMut`. What the logic reads of it is
//! named by `doc_view`: the root table, each item seen as a table of entries
//! (each entry a table of fields) or as something else.
use toml_edit::{Array, DocumentMut, InlineTable, TomlError};
use vstd::prelude::*;

use crate::mcp_cmd::NewServer;
use crate::server_map::has_key;

verus! {

#[verifier::external_type_specification]
#[verifier::external_body]
pub struct ExDocumentMut(DocumentMut);

#[verifier::external_type_specification]
#[verifier::external_body]
pub struct ExArray(Array);

#[verifier::external_type_specification]
#[verifier::external_body]
pub struct ExInlineTable(InlineTable);

#[verifier::external_type_specification]
#[verifier::external_body]
pub struct ExTomlError(TomlError);

// ------------------------------------------------------------------
// What the logic reads of a document
// ------------------------------------------------------------------

/// A field of an entry: a string, an array of strings, an inline table of
/// strings (its pairs in order), or anything else.
pub enum FieldView {
    Text(Seq<char>),
    TextList(Seq<Seq<char>>),
    TextTable(Seq<(Seq<char>, Seq<char>)>),
    Other,
}

/// An item of a table of entries: a table (`[a.b]`) with its fields and
/// whether it is shown even when empty (not implicit), or anything else.
pub enum EntryView {
    Table(Map<Seq<char>, FieldView>, bool),
    Other,
}

/// An item of the root table: a table (`[a]`) with its entries and whether it
/// is shown even when empty (not implicit), or anything else.
pub enum RootItemView {
    Table(Map<Seq<char>, EntryView>, bool),
    Other,
}

/// The items of the root table of `d`, by key. Keys whose slot holds no item
/// (toml_edit's `Item::None`) are absent.
pub uninterp spec fn doc_view(d: DocumentMut) -> Map<Seq<char>, RootItemView>;

/// The values of `a`, in order: the text of each string value, `None` for others.
pub uninterp spec fn array_texts(a: Array) -> Seq<Option<Seq<char>>>;

/// The pairs of `t`, in order: each key with the text of its value when that
/// is a string, `None` otherwise.
pub uninterp spec fn inline_texts(t: InlineTable) -> Seq<(Seq<char>, Option<Seq<char>>)>;

/// What `text` parses to (`None` when it is not valid TOML).
pub uninterp spec fn parsed_view(text: Seq<char>) -> Option<Map<Seq<char>, RootItemView>>;

/// The text that `d` renders to.
pub uninterp spec fn rendered(d: DocumentMut) -> Seq<char>;

/// The kind of an item found under a key.
#[derive(Debug, Clone, Copy, PartialEq, Eq, Structural)]
pub enum SlotKind {
    Absent,
    Table,
    Other,
}

pub open spec fn root_slot(v: Map<Seq<char>, RootItemView>, key: Seq<char>) -> SlotKind {
    if !v.contains_key(key) {
        SlotKind::Absent
    } else if v[key] is Table {
        SlotKind::Table
    } else {
        SlotKind::Other
    }
}

/// The entries of the table under `key` (none when it is absent or not a table).
pub open spec fn root_entries(v: Map<Seq<char>, RootItemView>, key: Seq<char>) -> Map<Seq<char>, EntryView> {
    if v.contains_key(key) && v[key] is Table {
        v[key]->Table_0
    } else {
        Map::empty()
    }
}

pub open spec fn entry_slot(v: Map<Seq<char>, RootItemView>, key: Seq<char>, name: Seq<char>) -> SlotKind {
    let e = root_entries(v, key);
    if !e.contains_key(name) {
        SlotKind::Absent
    } else if e[name] is Table {
        SlotKind::Table
    } else {
        SlotKind::Other
    }
}

/// The fields of the entry `name` of the table under `key` (none when it is
/// absent or not a table).
pub open spec fn entry_fields(v: Map<Seq<char>, RootItemView>, key: Seq<char>, name: Seq<char>) -> Map<Seq<char>, FieldView> {
    let e = root_entries(v, key);
    if e.contains_key(name) && e[name] is Table {
        e[name]->Table_0
    } else {
        Map::empty()
    }
}

/// Whether the table under `key` is shown even when empty (a table that is
/// not there yet counts as shown, as a new table is).
pub open spec fn root_shown(v: Map<Seq<char>, RootItemView>, key: Seq<char>) -> bool {
    if v.contains_key(key) && v[key] is Table {
        v[key]->Table_1
    } else {
        true
    }
}

/// Whether the entry `name` under `key` is shown even when empty (an entry
/// that is not a table yet counts as shown, as a new table is).
pub open spec fn entry_shown(v: Map<Seq<char>, RootItemView>, key: Seq<char>, name: Seq<char>) -> bool {
    let e = root_entries(v, key);
    if e.contains_key(name) && e[name] is Table {
        e[name]->Table_1
    } else {
        true
    }
}

/// `v` with the table under `key` holding `entries` (keeping whether it is shown).
pub open spec fn with_entries(
    v: Map<Seq<char>, RootItemView>,
    key: Seq<char>,
    entries: Map<Seq<char>, EntryView>,
) -> Map<Seq<char>, RootItemView> {
    v.insert(key, RootItemView::Table(entries, root_shown(v, key)))
}

/// `v` with the entry `name` under `key` holding `fields` (keeping whether the
/// tables are shown).
pub open spec fn with_fields(
    v: Map<Seq<char>, RootItemView>,
    key: Seq<char>,
    name: Seq<char>,
    fields: Map<Seq<char>, FieldView>,
) -> Map<Seq<char>, RootItemView> {
    with_entries(v, key, root_entries(v, key).insert(name, EntryView::Table(fields, entry_shown(v, key, name))))
}

/// The texts of the values.
pub open spec fn some_texts(items: Seq<Option<Seq<char>>>) -> Seq<Seq<char>> {
    items.map_values(|o: Option<Seq<char>>| o->0)
}

/// The field that an array with these values makes.
pub open spec fn list_field(items: Seq<Option<Seq<char>>>) -> FieldView {
    if forall|i: int| 0 <= i < items.len() ==> #[trigger] items[i] is Some {
        FieldView::TextList(some_texts(items))
    } else {
        FieldView::Other
    }
}

/// The pairs with their texts taken out.
pub open spec fn pair_texts(items: Seq<(Seq<char>, Option<Seq<char>>)>) -> Seq<(Seq<char>, Seq<char>)> {
    items.map_values(|p: (Seq<char>, Option<Seq<char>>)| (p.0, p.1->0))
}

/// The field that an inline table with these pairs makes.
pub open spec fn table_field(items: Seq<(Seq<char>, Option<Seq<char>>)>) -> FieldView {
    if forall|i: int| 0 <= i < items.len() ==> (#[trigger] items[i]).1 is Some {
        FieldView::TextTable(pair_texts(items))
    } else {
        FieldView::Other
    }
}

// ------------------------------------------------------------------
// toml_edit calls
// ------------------------------------------------------------------

/// An empty document (`DocumentMut::new`).
#[verifier::external_body]
fn new_document() -> (doc: DocumentMut)
    ensures
        doc_view(doc).dom() == Set::<Seq<char>>::empty(),
{
    DocumentMut::new()
}

/// Parses `text` (`str::parse::<DocumentMut>`).
#[verifier::external_body]
fn parse_document(text: &str) -> (r: Result<DocumentMut, TomlError>)
    ensures
        match r {
            Ok(d) => parsed_view(text@) == Some(doc_view(d)),
            Err(_) => parsed_view(text@) is None,
        },
{
    text.parse::<DocumentMut>()
}

/// The text of `d` (its `Display`).
#[verifier::external_body]
fn render_document(d: &DocumentMut) -> (r: String)
    ensures
        r@ == rendered(*d),
{
    d.to_string()
}

/// What is under `key` in the root table (`Table::get`).
#[verifier::external_body]
fn root_kind(doc: &DocumentMut, key: &str) -> (r: SlotKind)
    ensures
        r == root_slot(doc_view(*doc), key@),
{
    match doc.get(key) {
        None => SlotKind::Absent,
        Some(toml_edit::Item::Table(_)) => SlotKind::Table,
        Some(_) => SlotKind::Other,
    }
}

/// Puts an empty table under `key` (`Table::insert` of `toml_edit::table()`).
#[verifier::external_body]
fn root_insert_table(doc: &mut DocumentMut, key: &str)
    ensures
        doc_view(*final(doc)) == doc_view(*old(doc)).insert(key@, RootItemView::Table(Map::empty(), true)),
{
    doc.insert(key, toml_edit::table());
}

/// Marks the table under `key` as shown even when empty
/// (`Table::set_implicit(false)`).
#[verifier::external_body]
fn root_table_set_explicit(doc: &mut DocumentMut, key: &str)
    requires
        root_slot(doc_view(*old(doc)), key@) == SlotKind::Table,
    ensures
        doc_view(*final(doc)) == doc_view(*old(doc)).insert(
            key@,
            RootItemView::Table(root_entries(doc_view(*old(doc)), key@), true),
        ),
{
    if let Some(t) = doc.get_mut(key).and_then(|i| i.as_table_mut()) {
        t.set_implicit(false);
    }
}

/// What is under `name` in the table under `key` (`Item::get`).
#[verifier::external_body]
fn entry_kind(doc: &DocumentMut, key: &str, name: &str) -> (r: SlotKind)
    requires
        root_slot(doc_view(*doc), key@) == SlotKind::Table,
    ensures
        r == entry_slot(doc_view(*doc), key@, name@),
{
    match doc[key].get(name) {
        None => SlotKind::Absent,
        Some(toml_edit::Item::Table(_)) => SlotKind::Table,
        Some(_) => SlotKind::Other,
    }
}

/// Puts an empty table under `name` in the table under `key`
/// (`Table::insert` of `toml_edit::table()`).
#[verifier::external_body]
fn entry_insert_table(doc: &mut DocumentMut, key: &str, name: &str)
    requires
        root_slot(doc_view(*old(doc)), key@) == SlotKind::Table,
    ensures
        doc_view(*final(doc)) == with_entries(
            doc_view(*old(doc)),
            key@,
            root_entries(doc_view(*old(doc)), key@).insert(name@, EntryView::Table(Map::empty(), true)),
        ),
{
    if let Some(t) = doc.get_mut(key).and_then(|i| i.as_table_mut()) {
        t.insert(name, toml_edit::table());
    }
}

/// Marks the table `name` under `key` as shown even when empty
/// (`Table::set_implicit(false)`).
#[verifier::external_body]
fn entry_table_set_explicit(doc: &mut DocumentMut, key: &str, name: &str)
    requires
        entry_slot(doc_view(*old(doc)), key@, name@) == SlotKind::Table,
    ensures
        doc_view(*final(doc)) == with_entries(
            doc_view(*old(doc)),
            key@,
            root_entries(doc_view(*old(doc)), key@).insert(
                name@,
                EntryView::Table(entry_fields(doc_view(*old(doc)), key@, name@), true),
            ),
        ),
{
    if let Some(t) = doc[key][name].as_table_mut() {
        t.set_implicit(false);
    }
}

/// Removes `name` from the table under `key` (`Table::remove`).
#[verifier::external_body]
fn entry_remove(doc: &mut DocumentMut, key: &str, name: &str)
    requires
        root_slot(doc_view(*old(doc)), key@) == SlotKind::Table,
    ensures
        doc_view(*final(doc)) == with_entries(doc_view(*old(doc)), key@, root_entries(doc_view(*old(doc)), key@).remove(name@)),
{
    if let Some(t) = doc.get_mut(key).and_then(|i| i.as_table_mut()) {
        t.remove(name);
    }
}

/// Whether the entry `name` under `key` has the field `field` (`Item::get`).
#[verifier::external_body]
fn field_present(doc: &DocumentMut, key: &str, name: &str, field: &str) -> (r: bool)
    requires
        entry_slot(doc_view(*doc), key@, name@) == SlotKind::Table,
    ensures
        r == entry_fields(doc_view(*doc), key@, name@).contains_key(field@),
{
    doc[key][name].get(field).is_some()
}

/// Sets the field `field` of the entry `name` under `key` to the string `text`
/// (`IndexMut` and `toml_edit::value`).
#[verifier::external_body]
fn field_set_text(doc: &mut DocumentMut, key: &str, name: &str, field: &str, text: &str)
    requires
        entry_slot(doc_view(*old(doc)), key@, name@) == SlotKind::Table,
    ensures
        doc_view(*final(doc)) == with_fields(
            doc_view(*old(doc)),
            key@,
            name@,
            entry_fields(doc_view(*old(doc)), key@, name@).insert(field@, FieldView::Text(text@)),
        ),
{
    doc[key][name][field] = toml_edit::value(text);
}

/// Sets the field `field` of the entry `name` under `key` to the array `arr`
/// (`IndexMut`).
#[verifier::external_body]
fn field_set_array(doc: &mut DocumentMut, key: &str, name: &str, field: &str, arr: Array)
    requires
        entry_slot(doc_view(*old(doc)), key@, name@) == SlotKind::Table,
    ensures
        doc_view(*final(doc)) == with_fields(
            doc_view(*old(doc)),
            key@,
            name@,
            entry_fields(doc_view(*old(doc)), key@, name@).insert(field@, list_field(array_texts(arr))),
        ),
{
    doc[key][name][field] = toml_edit::Item::Value(toml_edit::Value::Array(arr));
}

/// Sets the field `field` of the entry `name` under `key` to the inline table
/// `t` (`IndexMut`).
#[verifier::external_body]
fn field_set_inline(doc: &mut DocumentMut, key: &str, name: &str, field: &str, t: InlineTable)
    requires
        entry_slot(doc_view(*old(doc)), key@, name@) == SlotKind::Table,
    ensures
        doc_view(*final(doc)) == with_fields(
            doc_view(*old(doc)),
            key@,
            name@,
            entry_fields(doc_view(*old(doc)), key@, name@).insert(field@, table_field(inline_texts(t))),
        ),
{
    doc[key][name][field] = toml_edit::Item::Value(toml_edit::Value::InlineTable(t));
}

/// Removes the field `field` of the entry `name` under `key` (`Table::remove`).
#[verifier::external_body]
fn field_remove(doc: &mut DocumentMut, key: &str, name: &str, field: &str)
    requires
        entry_slot(doc_view(*old(doc)), key@, name@) == SlotKind::Table,
    ensures
        doc_view(*final(doc)) == with_fields(
            doc_view(*old(doc)),
            key@,
            name@,
            entry_fields(doc_view(*old(doc)), key@, name@).remove(field@),
        ),
{
    if let Some(t) = doc[key][name].as_table_mut() {
        t.remove(field);
    }
}

/// An empty array (`Array::new`).
#[verifier::external_body]
fn array_new() -> (r: Array)
    ensures
        array_texts(r) == Seq::<Option<Seq<char>>>::empty(),
{
    Array::new()
}

/// Appends the string `s` to `a` (`Array::push`).
#[verifier::external_body]
fn array_push(a: &mut Array, s: &str)
    ensures
        array_texts(*final(a)) == array_texts(*old(a)).push(Some(s@)),
{
    a.push(s);
}

/// An empty inline table (`InlineTable::new`).
#[verifier::external_body]
fn inline_new() -> (r: InlineTable)
    ensures
        inline_texts(r) == Seq::<(Seq<char>, Option<Seq<char>>)>::empty(),
{
    InlineTable::new()
}

/// Adds the pair `k = v` to `t` unless `t` already has the key `k`
/// (`InlineTable::get_or_insert`).
#[verifier::external_body]
fn inline_get_or_insert(t: &mut InlineTable, k: &str, v: &str)
    requires
        forall|i: int| 0 <= i < inline_texts(*old(t)).len() ==> (#[trigger] inline_texts(*old(t))[i]).1 is Some,
    ensures
        inline_texts(*final(t)) == if exists|i: int| 0 <= i < inline_texts(*old(t)).len() && (#[trigger] inline_texts(*old(t))[i]).0 == k@ {
            inline_texts(*old(t))
        } else {
            inline_texts(*old(t)).push((k@, Some(v@)))
        },
{
    t.get_or_insert(k, v);
}

} // verus!

verus! {

// ------------------------------------------------------------------
// Adding and removing servers
// ------------------------------------------------------------------

/// The key of the servers' table.
pub open spec fn servers_key() -> Seq<char> {
    "mcp_servers"@
}

/// The pairs of `s` with the first occurrence of each key kept, in order.
pub open spec fn first_pairs(s: Seq<(Seq<char>, Seq<char>)>) -> Seq<(Seq<char>, Seq<char>)>
    decreases s.len(),
{
    if s.len() == 0 {
        Seq::empty()
    } else {
        let p = first_pairs(s.drop_last());
        if has_key(p, s.last().0) {
            p
        } else {
            p.push(s.last())
        }
    }
}

/// An environment whose names are distinct is written as it is.
pub proof fn law_distinct_env_written_whole(s: Seq<(Seq<char>, Seq<char>)>)
    requires
        crate::server_map::distinct_keys(s),
    ensures
        first_pairs(s) == s,
    decreases s.len(),
{
    if s.len() > 0 {
        let init = s.drop_last();
        assert(crate::server_map::distinct_keys(init)) by {
            assert forall|i: int, j: int| 0 <= i < j < init.len() implies (#[trigger] init[i]).0 != (#[trigger] init[j]).0 by {
                assert(init[i] == s[i] && init[j] == s[j]);
            }
        }
        law_distinct_env_written_whole(init);
        if has_key(init, s.last().0) {
            let i = choose|i: int| 0 <= i < init.len() && (#[trigger] init[i]).0 == s.last().0;
            assert(s[i].0 != s[s.len() - 1].0);
        }
        assert(init.push(s.last()) =~= s);
    } else {
        assert(s =~= Seq::<(Seq<char>, Seq<char>)>::empty());
    }
}

/// The fields of an entry after writing `server` into it: `command` and
/// `args` set, `env` set to the environment (first value of each name) or
/// removed when the server has none; the entry's other fields are kept.
pub open spec fn written_fields(old_fields: Map<Seq<char>, FieldView>, server: NewServer) -> Map<Seq<char>, FieldView> {
    let f = old_fields.insert("command"@, FieldView::Text(server.command@)).insert(
        "args"@,
        FieldView::TextList(server.args.deep_view()),
    );
    if server.env@.len() == 0 {
        f.remove("env"@)
    } else {
        f.insert("env"@, FieldView::TextTable(first_pairs(server.env.deep_view())))
    }
}

/// Why a server cannot be written into a document.
pub enum ShapeFailure {
    /// `mcp_servers` holds something other than a table.
    ServersNotTable,
    /// The entry of this name holds something other than a table.
    EntryNotTable(Seq<char>),
}

/// Why `server` cannot be written into `v`, if it cannot.
pub open spec fn upsert_failure(v: Map<Seq<char>, RootItemView>, name: Seq<char>) -> Option<ShapeFailure> {
    if root_slot(v, servers_key()) == SlotKind::Other {
        Some(ShapeFailure::ServersNotTable)
    } else if entry_slot(v, servers_key(), name) == SlotKind::Other {
        Some(ShapeFailure::EntryNotTable(name))
    } else {
        None
    }
}

/// `v` after writing `server` into `[mcp_servers.<name>]`.
/// Both the `[mcp_servers]` table and the server's table are shown even when
/// empty (not implicit) afterwards.
pub open spec fn upsert_view(v: Map<Seq<char>, RootItemView>, server: NewServer) -> Map<Seq<char>, RootItemView> {
    let k = servers_key();
    let n = server.name@;
    v.insert(
        k,
        RootItemView::Table(
            root_entries(v, k).insert(n, EntryView::Table(written_fields(entry_fields(v, k, n), server), true)),
            true,
        ),
    )
}

/// The inline table holding the environment `env` (the first value of each name).
fn env_table(env: &Vec<(String, String)>) -> (r: InlineTable)
    ensures
        table_field(inline_texts(r)) == FieldView::TextTable(first_pairs(env.deep_view())),
{
    let ghost e = env.deep_view();
    let mut t = inline_new();
    let mut i: usize = 0;
    assert(e.take(0) =~= Seq::<(Seq<char>, Seq<char>)>::empty());
    while i < env.len()
        invariant
            i <= env@.len(),
            e == env.deep_view(),
            forall|j: int| 0 <= j < inline_texts(t).len() ==> (#[trigger] inline_texts(t)[j]).1 is Some,
            pair_texts(inline_texts(t)) == first_pairs(e.take(i as int)),
        decreases env.len() - i,
    {
        let ghost before = inline_texts(t);
        let ghost fp = first_pairs(e.take(i as int));
        inline_get_or_insert(&mut t, env[i].0.as_str(), env[i].1.as_str());
        proof {
            let k = e[i as int].0;
            assert(e.take(i + 1).drop_last() =~= e.take(i as int));
            assert(e.take(i + 1).last() == e[i as int]);
            assert((exists|j: int| 0 <= j < before.len() && (#[trigger] before[j]).0 == k) == has_key(fp, k)) by {
                if exists|j: int| 0 <= j < before.len() && (#[trigger] before[j]).0 == k {
                    let j = choose|j: int| 0 <= j < before.len() && (#[trigger] before[j]).0 == k;
                    assert(fp[j] == pair_texts(before)[j]);
                }
                if has_key(fp, k) {
                    let j = choose|j: int| 0 <= j < fp.len() && (#[trigger] fp[j]).0 == k;
                    assert(fp[j] == pair_texts(before)[j]);
                }
            }
            if !has_key(fp, k) {
                assert(pair_texts(inline_texts(t)) =~= fp.push(e[i as int]));
            }
        }
        i = i + 1;
    }
    assert(e.take(env@.len() as int) =~= e);
    t
}

/// The array holding the strings `args`, in order.
fn args_array(args: &Vec<String>) -> (r: Array)
    ensures
        list_field(array_texts(r)) == FieldView::TextList(args.deep_view()),
{
    let ghost a = args.deep_view();
    let mut arr = array_new();
    let mut i: usize = 0;
    while i < args.len()
        invariant
            i <= args@.len(),
            a == args.deep_view(),
            forall|j: int| 0 <= j < array_texts(arr).len() ==> #[trigger] array_texts(arr)[j] is Some,
            some_texts(array_texts(arr)) == a.take(i as int),
        decreases args.len() - i,
    {
        let ghost before = array_texts(arr);
        array_push(&mut arr, args[i].as_str());
        proof {
            let now = array_texts(arr);
            assert(a[i as int] == args@[i as int]@);
            assert(now == before.push(Some(a[i as int])));
            assert(some_texts(before) == a.take(i as int));
            assert(some_texts(before).len() == before.len());
            assert(before.len() == i);
            assert(now.len() == i + 1);
            assert forall|j: int| 0 <= j < i + 1 implies some_texts(now)[j] == a.take(i + 1)[j] by {
                if j < i {
                    assert(now[j] == before[j]);
                    assert(some_texts(before)[j] == a.take(i as int)[j]);
                } else {
                    assert(now[j] == Some(a[i as int]));
                }
            }
            assert(some_texts(now) =~= a.take(i + 1));
        }
        i = i + 1;
    }
    assert(a.take(a.len() as int) =~= a);
    arr
}

/// Writes `server` into `[mcp_servers.<name>]` of `doc`, creating the table
/// and the entry when missing: `command` and `args` are set, `env` is set to
/// the environment or removed when the server has none, and everything else
/// in the document is kept.
pub fn upsert_mcp_entry(doc: &mut DocumentMut, server: &NewServer)
    requires
        upsert_failure(doc_view(*old(doc)), server.name@) is None,
    ensures
        doc_view(*final(doc)) == upsert_view(doc_view(*old(doc)), *server),
{
    let ghost v0 = doc_view(*doc);
    let key = "mcp_servers";
    let name = server.name.as_str();
    if root_kind(doc, key) == SlotKind::Absent {
        root_insert_table(doc, key);
    }
    root_table_set_explicit(doc, key);
    let ghost v1 = doc_view(*doc);
    assert(root_entries(v1, key@) == root_entries(v0, key@));
    if entry_kind(doc, key, name) == SlotKind::Absent {
        entry_insert_table(doc, key, name);
    }
    entry_table_set_explicit(doc, key, name);
    let ghost v2 = doc_view(*doc);
    assert(entry_fields(v2, key@, name@) == entry_fields(v0, key@, name@));
    field_set_text(doc, key, name, "command", server.command.as_str());
    let arr = args_array(&server.args);
    field_set_array(doc, key, name, "args", arr);
    if server.env.len() == 0 {
        if field_present(doc, key, name, "env") {
            field_remove(doc, key, name, "env");
        } else {
            let ghost f = entry_fields(doc_view(*doc), key@, name@);
            assert(f.remove("env"@) =~= f);
            let ghost vv = doc_view(*doc);
            assert(root_entries(vv, key@).insert(name@, EntryView::Table(f, true)) =~= root_entries(vv, key@));
            assert(with_fields(vv, key@, name@, f) =~= vv);
        }
    } else {
        let t = env_table(&server.env);
        field_set_inline(doc, key, name, "env", t);
    }
    proof {
        let f = written_fields(entry_fields(v0, key@, name@), *server);
        assert(doc_view(*doc).dom() =~= upsert_view(v0, *server).dom());
        assert(doc_view(*doc) =~= upsert_view(v0, *server)) by {
            assert(root_entries(doc_view(*doc), key@) =~= root_entries(v0, key@).insert(name@, EntryView::Table(f, true)));
        }
    }
}

/// Whether `[mcp_servers]` of `v` is a table with an entry `name`.
pub open spec fn removable(v: Map<Seq<char>, RootItemView>, name: Seq<char>) -> bool {
    root_slot(v, servers_key()) == SlotKind::Table && root_entries(v, servers_key()).contains_key(name)
}

/// `v` after removing `name` from `[mcp_servers]`.
pub open spec fn remove_view(v: Map<Seq<char>, RootItemView>, name: Seq<char>) -> Map<Seq<char>, RootItemView> {
    if removable(v, name) {
        with_entries(v, servers_key(), root_entries(v, servers_key()).remove(name))
    } else {
        v
    }
}

/// Removes `[mcp_servers.<name>]` from `doc`, telling whether it was there
/// (when `mcp_servers` is not a table, nothing is removed).
pub fn remove_mcp_entry(doc: &mut DocumentMut, name: &str) -> (removed: bool)
    ensures
        removed == removable(doc_view(*old(doc)), name@),
        doc_view(*final(doc)) == remove_view(doc_view(*old(doc)), name@),
{
    let key = "mcp_servers";
    if root_kind(doc, key) == SlotKind::Table {
        if entry_kind(doc, key, name) != SlotKind::Absent {
            entry_remove(doc, key, name);
            return true;
        }
    }
    false
}

// ------------------------------------------------------------------
// Whole files
// ------------------------------------------------------------------

/// The document a file's text starts from: its parse, or an empty document
/// when the text is not valid TOML.
pub open spec fn start_view(text: Seq<char>) -> Map<Seq<char>, RootItemView> {
    match parsed_view(text) {
        Some(v) => v,
        None => Map::empty(),
    }
}

/// `v` after writing each server of `ss` in turn.
pub open spec fn upsert_all(v: Map<Seq<char>, RootItemView>, ss: Seq<NewServer>) -> Map<Seq<char>, RootItemView>
    decreases ss.len(),
{
    if ss.len() == 0 {
        v
    } else {
        upsert_view(upsert_all(v, ss.drop_last()), ss.last())
    }
}

/// Why writing the servers of `ss` in turn into `v` fails, at the first
/// server that cannot be written, if any.
pub open spec fn upsert_all_failure(v: Map<Seq<char>, RootItemView>, ss: Seq<NewServer>) -> Option<ShapeFailure>
    decreases ss.len(),
{
    if ss.len() == 0 {
        None
    } else {
        match upsert_all_failure(v, ss.drop_last()) {
            Some(f) => Some(f),
            None => upsert_failure(upsert_all(v, ss.drop_last()), ss.last().name@),
        }
    }
}

proof fn lemma_failure_stays(v: Map<Seq<char>, RootItemView>, ss: Seq<NewServer>, i: int, j: int)
    requires
        0 <= i <= j <= ss.len(),
        upsert_all_failure(v, ss.take(i)) is Some,
    ensures
        upsert_all_failure(v, ss.take(j)) == upsert_all_failure(v, ss.take(i)),
    decreases j - i,
{
    if i < j {
        lemma_failure_stays(v, ss, i, j - 1);
        assert(ss.take(j).drop_last() =~= ss.take(j - 1));
    }
}

/// Why servers cannot be written into a file: `mcp_servers`, or the entry of
/// a server, holds something other than a table.
#[derive(Debug)]
pub enum WriteError {
    ServersNotTable,
    EntryNotTable(String),
}

impl WriteError {
    pub open spec fn describes(&self, f: ShapeFailure) -> bool {
        match (*self, f) {
            (WriteError::ServersNotTable, ShapeFailure::ServersNotTable) => true,
            (WriteError::EntryNotTable(n), ShapeFailure::EntryNotTable(m)) => n@ == m,
            _ => false,
        }
    }
}

/// The new text of a configuration file after writing `servers`, in order,
/// into its `[mcp_servers]` table (text that is not valid TOML is replaced by
/// a new document). Fails where `mcp_servers`, or the entry of a server, holds
/// something other than a table.
pub fn upsert_servers_text(contents: &str, servers: &Vec<NewServer>) -> (r: Result<String, WriteError>)
    ensures
        match r {
            Ok(t) => {
                &&& upsert_all_failure(start_view(contents@), servers@) is None
                &&& exists|d: DocumentMut| #[trigger] rendered(d) == t@ && doc_view(d) == upsert_all(start_view(contents@), servers@)
            },
            Err(e) => upsert_all_failure(start_view(contents@), servers@) matches Some(f) && e.describes(f),
        },
{
    let ghost start = start_view(contents@);
    let mut doc = match parse_document(contents) {
        Ok(d) => d,
        Err(_) => {
            let d = new_document();
            assert(doc_view(d) =~= Map::<Seq<char>, RootItemView>::empty());
            d
        },
    };
    let key = "mcp_servers";
    let mut i: usize = 0;
    assert(servers@.take(0) =~= Seq::<NewServer>::empty());
    while i < servers.len()
        invariant
            i <= servers@.len(),
            start == start_view(contents@),
            key@ == servers_key(),
            doc_view(doc) == upsert_all(start, servers@.take(i as int)),
            upsert_all_failure(start, servers@.take(i as int)) is None,
        decreases servers.len() - i,
    {
        let server = &servers[i];
        proof {
            assert(servers@.take(i + 1).drop_last() =~= servers@.take(i as int));
            assert(servers@.take(i + 1).last() == *server);
        }
        let rk = root_kind(&doc, key);
        if rk == SlotKind::Other {
            proof {
                lemma_failure_stays(start, servers@, i + 1, servers@.len() as int);
                assert(servers@.take(servers@.len() as int) =~= servers@);
            }
            return Err(WriteError::ServersNotTable);
        }
        if rk == SlotKind::Table {
            if entry_kind(&doc, key, server.name.as_str()) == SlotKind::Other {
                proof {
                    lemma_failure_stays(start, servers@, i + 1, servers@.len() as int);
                    assert(servers@.take(servers@.len() as int) =~= servers@);
                }
                return Err(WriteError::EntryNotTable(server.name.clone()));
            }
        }
        upsert_mcp_entry(&mut doc, server);
        i = i + 1;
    }
    assert(servers@.take(servers@.len() as int) =~= servers@);
    let t = render_document(&doc);
    assert(rendered(doc) == t@ && doc_view(doc) == upsert_all(start, servers@));
    Ok(t)
}

/// The text of a configuration file is not valid TOML.
#[derive(Debug)]
pub struct ParseError {
    pub error: TomlError,
}

/// The new text of a configuration file after removing `[mcp_servers.<name>]`:
/// `None` when there is no such entry (the file stays as it is). Text that is
/// not valid TOML is an error.
pub fn remove_server_text(contents: &str, name: &str) -> (r: Result<Option<String>, ParseError>)
    ensures
        match r {
            Err(_) => parsed_view(contents@) is None,
            Ok(None) => parsed_view(contents@) matches Some(v) && !removable(v, name@),
            Ok(Some(t)) => parsed_view(contents@) matches Some(v) && removable(v, name@) && exists|d: DocumentMut|
                #[trigger] rendered(d) == t@ && doc_view(d) == remove_view(v, name@),
        },
{
    let mut doc = match parse_document(contents) {
        Ok(d) => d,
        Err(e) => {
            return Err(ParseError { error: e });
        },
    };
    let ghost v = doc_view(doc);
    if remove_mcp_entry(&mut doc, name) {
        let t = render_document(&doc);
        assert(rendered(doc) == t@ && doc_view(doc) == remove_view(v, name@));
        Ok(Some(t))
    } else {
        Ok(None)
    }
}

} // verus!

verus! {

// ------------------------------------------------------------------
// Laws
// ------------------------------------------------------------------

/// After writing `server`, `[mcp_servers]` and `[mcp_servers.<name>]` are
/// tables shown even when empty, and the latter's `command`
/// and `args` are the server's, and whose `env` is its environment (absent
/// when it has none).
pub proof fn law_upsert_writes_server(v: Map<Seq<char>, RootItemView>, server: NewServer)
    ensures
        ({
            let f = entry_fields(upsert_view(v, server), servers_key(), server.name@);
            &&& root_slot(upsert_view(v, server), servers_key()) == SlotKind::Table
            &&& root_shown(upsert_view(v, server), servers_key())
            &&& entry_slot(upsert_view(v, server), servers_key(), server.name@) == SlotKind::Table
            &&& entry_shown(upsert_view(v, server), servers_key(), server.name@)
            &&& f["command"@] == FieldView::Text(server.command@)
            &&& f["args"@] == FieldView::TextList(server.args.deep_view())
            &&& server.env@.len() == 0 ==> !f.contains_key("env"@)
            &&& server.env@.len() > 0 ==> f["env"@] == FieldView::TextTable(first_pairs(server.env.deep_view()))
        }),
{
    reveal_strlit("command");
    reveal_strlit("args");
    reveal_strlit("env");
    assert("command"@.len() == 7 && "args"@.len() == 4 && "env"@.len() == 3);
    assert("command"@ != "args"@);
    assert("env"@ != "args"@ && "env"@ != "command"@);
}

/// Writing the same server twice leaves the document as writing it once.
pub proof fn law_upsert_idempotent(v: Map<Seq<char>, RootItemView>, server: NewServer)
    ensures
        upsert_view(upsert_view(v, server), server) == upsert_view(v, server),
{
    let k = servers_key();
    let n = server.name@;
    let once = upsert_view(v, server);
    let f1 = written_fields(entry_fields(v, k, n), server);
    assert(entry_fields(once, k, n) == f1);
    assert(written_fields(f1, server) =~= f1);
    assert(root_entries(once, k).insert(n, EntryView::Table(f1, true)) =~= root_entries(once, k));
    assert(upsert_view(once, server) =~= once);
}

/// Removing a server just written takes it out again, and leaves the other
/// servers as they were before it was written.
pub proof fn law_upsert_then_remove(v: Map<Seq<char>, RootItemView>, server: NewServer)
    ensures
        removable(upsert_view(v, server), server.name@),
        root_entries(remove_view(upsert_view(v, server), server.name@), servers_key()) == root_entries(
            v,
            servers_key(),
        ).remove(server.name@),
{
    let k = servers_key();
    let n = server.name@;
    assert(root_entries(remove_view(upsert_view(v, server), n), k) =~= root_entries(v, k).remove(n));
}

/// Removing a server keeps everything outside `[mcp_servers]`.
pub proof fn law_remove_keeps_other_keys(v: Map<Seq<char>, RootItemView>, name: Seq<char>, key: Seq<char>)
    requires
        key != servers_key(),
    ensures
        remove_view(v, name).contains_key(key) == v.contains_key(key),
        v.contains_key(key) ==> remove_view(v, name)[key] == v[key],
{
}

/// Writing a server keeps everything outside `[mcp_servers]`.
pub proof fn law_upsert_keeps_other_keys(v: Map<Seq<char>, RootItemView>, server: NewServer, key: Seq<char>)
    requires
        key != servers_key(),
    ensures
        upsert_view(v, server).contains_key(key) == v.contains_key(key),
        v.contains_key(key) ==> upsert_view(v, server)[key] == v[key],
{
}

} // verus!

verus! {

/// When `[mcp_servers]` is a table, removing `name` reports exactly whether
/// an item of that name was there, whatever its kind (a table, an inline
/// table or any other value), and takes it out, leaving the other entries.
pub proof fn law_remove_takes_any_entry_out(v: Map<Seq<char>, RootItemView>, name: Seq<char>)
    requires
        root_slot(v, servers_key()) == SlotKind::Table,
    ensures
        removable(v, name) == root_entries(v, servers_key()).contains_key(name),
        root_slot(remove_view(v, name), servers_key()) == SlotKind::Table,
        root_entries(remove_view(v, name), servers_key()) == root_entries(v, servers_key()).remove(name),
{
    let k = servers_key();
    if !root_entries(v, k).contains_key(name) {
        assert(root_entries(v, k).remove(name) =~= root_entries(v, k));
    }
}

} // verus!
