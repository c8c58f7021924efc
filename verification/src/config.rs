use vstd::prelude::*;
use toml_edit::DocumentMut;

verus! {

/// The user's saved state: the batch they latched onto, if any.
pub struct Config {
    pub last_batch: Option<String>,
}

impl Default for Config {
    /// No batch latched.
    fn default() -> (res: Self)
        ensures
            res.last_batch is None,
    {
        Config { last_batch: None }
    }
}

/// What a key of a TOML document holds, as far as the saved state needs it.
pub enum TomlEntry {
    /// A table or an inline table, whose keys have entries of their own.
    Table,
    /// A string.
    Text(Seq<char>),
    /// Any other value.
    Other,
}

#[verifier::external_type_specification]
#[verifier::external_body]
pub struct ExDocumentMut(DocumentMut);

/// The entries of a `toml_edit` document, by key path: every key of the root
/// table, and of every table and inline table reached through such keys
/// (keys that hold no item are not entries).
pub uninterp spec fn document_entries(doc: DocumentMut) -> Map<Seq<Seq<char>>, TomlEntry>;

/// The text that `toml_edit` prints for a document without its `state` key:
/// every other entry with its comments, spacing and order.
pub uninterp spec fn document_rest(doc: DocumentMut) -> Seq<char>;

/// What the saved state needs of a TOML document: its entries, and the text
/// printed for everything but `state`.
pub struct TomlModel {
    pub entries: Map<Seq<Seq<char>>, TomlEntry>,
    pub rest: Seq<char>,
}

/// The model of a document.
pub open spec fn document_model(doc: DocumentMut) -> TomlModel {
    TomlModel { entries: document_entries(doc), rest: document_rest(doc) }
}

/// The model of the document that `toml_edit` parses from a TOML text;
/// `None` when the text is not a TOML document.
pub uninterp spec fn toml_model(text: Seq<char>) -> Option<TomlModel>;

/// The entries of the document parsed from a TOML text.
pub open spec fn toml_entries(text: Seq<char>) -> Option<Map<Seq<Seq<char>>, TomlEntry>> {
    match toml_model(text) {
        Some(m) => Some(m.entries),
        None => None,
    }
}

/// The text printed for everything but `state` in the document parsed from a
/// TOML text.
pub open spec fn toml_rest(text: Seq<char>) -> Option<Seq<char>> {
    match toml_model(text) {
        Some(m) => Some(m.rest),
        None => None,
    }
}

/// The entries without `path` and the entries under it.
pub open spec fn without_under(m: Map<Seq<Seq<char>>, TomlEntry>, path: Seq<Seq<char>>) -> Map<Seq<Seq<char>>, TomlEntry> {
    m.remove_keys(Set::new(|p: Seq<Seq<char>>| p.len() >= path.len() && p.take(path.len() as int) == path))
}

/// The entries of an empty document: none.
pub open spec fn no_entries() -> Map<Seq<Seq<char>>, TomlEntry> {
    Map::empty()
}

/// The key path of the saved state's table.
pub open spec fn state_path() -> Seq<Seq<char>> {
    seq!["state"@]
}

/// The key path of the latched batch.
pub open spec fn last_batch_path() -> Seq<Seq<char>> {
    seq!["state"@, "last_batch"@]
}

/// Whether the entries hold a `state` key that is not a table (where
/// `toml_edit` cannot index into it).
pub open spec fn state_not_table(m: Map<Seq<Seq<char>>, TomlEntry>) -> bool {
    m.contains_key(state_path()) && !(m[state_path()] is Table)
}

/// Whether the `state` table holds any entry.
pub open spec fn state_has_entries(m: Map<Seq<Seq<char>>, TomlEntry>) -> bool {
    exists|p: Seq<Seq<char>>| #[trigger] m.contains_key(p) && p.len() == 2 && p[0] == "state"@
}

/// The entries with the latched batch set to `v`: a `state` table (made when
/// there is none) whose `last_batch` is the string `v`.
pub open spec fn entries_with_batch(m: Map<Seq<Seq<char>>, TomlEntry>, v: Seq<char>) -> Map<Seq<Seq<char>>, TomlEntry> {
    without_under(m, last_batch_path()).insert(state_path(), TomlEntry::Table).insert(last_batch_path(), TomlEntry::Text(v))
}

/// The entries without a latched batch: `state.last_batch` goes, and so does
/// the `state` table when nothing is left in it; entries are unchanged when
/// `state` is no table.
pub open spec fn entries_without_batch(m: Map<Seq<Seq<char>>, TomlEntry>) -> Map<Seq<Seq<char>>, TomlEntry> {
    if m.contains_key(state_path()) && m[state_path()] is Table {
        let rest = without_under(m, last_batch_path());
        if state_has_entries(rest) {
            rest
        } else {
            without_under(rest, state_path())
        }
    } else {
        m
    }
}

/// Parses a TOML text into a document (`str::parse::<toml_edit::DocumentMut>`).
#[verifier::external_body]
fn parse_document(text: &str) -> (res: Option<DocumentMut>)
    ensures
        res is None <==> toml_model(text@) is None,
        res matches Some(d) ==> toml_model(text@) == Some(document_model(d)),
{
    text.parse::<DocumentMut>().ok()
}

/// An empty document (`toml_edit::DocumentMut::new`).
#[verifier::external_body]
fn new_document() -> (res: DocumentMut)
    ensures
        document_entries(res) == no_entries(),
        document_rest(res) == Seq::<char>::empty(),
{
    DocumentMut::new()
}

/// The document's text (`Display`). `toml_edit` prints a document so that it
/// parses back to the same entries, with every item's comments and spacing
/// kept, so the part without `state` prints as before.
#[verifier::external_body]
fn document_text(doc: &DocumentMut) -> (res: String)
    ensures
        toml_model(res@) == Some(document_model(*doc)),
{
    doc.to_string()
}

/// What the `state` key holds: 0 nothing, 1 a table or inline table, 2
/// anything else (`Table::get` with `Item::is_table_like`).
#[verifier::external_body]
fn state_kind(doc: &DocumentMut) -> (res: u8)
    ensures
        res == 0 <==> !document_entries(*doc).contains_key(state_path()),
        res == 1 <==> (document_entries(*doc).contains_key(state_path()) && document_entries(*doc)[state_path()] is Table),
        res <= 2,
{
    match doc.get("state") {
        None => 0,
        Some(item) => if item.is_table_like() { 1 } else { 2 },
    }
}

/// Sets `state.last_batch` to the string `v` (`doc["state"]["last_batch"] =
/// toml_edit::value(v)`): a missing `state` becomes an inline table, and
/// whatever `last_batch` held is replaced.
#[verifier::external_body]
fn set_last_batch(doc: &mut DocumentMut, v: &str)
    requires
        !state_not_table(document_entries(*old(doc))),
    ensures
        document_entries(*final(doc)) == entries_with_batch(document_entries(*old(doc)), v@),
        document_rest(*final(doc)) == document_rest(*old(doc)),
{
    doc["state"]["last_batch"] = toml_edit::value(v);
}

/// Removes `last_batch` from the `state` table or inline table
/// (`Table::remove` or `InlineTable::remove`).
#[verifier::external_body]
fn remove_last_batch(doc: &mut DocumentMut)
    requires
        document_entries(*old(doc)).contains_key(state_path()),
        document_entries(*old(doc))[state_path()] is Table,
    ensures
        document_entries(*final(doc)) == without_under(document_entries(*old(doc)), last_batch_path()),
        document_rest(*final(doc)) == document_rest(*old(doc)),
{
    if let Some(state) = doc.get_mut("state") {
        if let Some(t) = state.as_table_mut() {
            t.remove("last_batch");
        } else if let Some(t) = state.as_inline_table_mut() {
            t.remove("last_batch");
        }
    }
}

/// Whether the `state` table holds no item (`Item::as_table_like` then
/// `TableLike::is_empty`).
#[verifier::external_body]
fn state_is_empty(doc: &DocumentMut) -> (res: bool)
    requires
        document_entries(*doc).contains_key(state_path()),
        document_entries(*doc)[state_path()] is Table,
    ensures
        res == !state_has_entries(document_entries(*doc)),
{
    doc.get("state").and_then(|s| s.as_table_like()).map(|t| t.is_empty()).unwrap_or(true)
}

/// Removes the `state` key (`Table::remove` on the root table).
#[verifier::external_body]
fn remove_state(doc: &mut DocumentMut)
    ensures
        document_entries(*final(doc)) == without_under(document_entries(*old(doc)), state_path()),
        document_rest(*final(doc)) == document_rest(*old(doc)),
{
    doc.remove("state");
}

/// The saved configuration's text after latching onto `last_batch`, or
/// forgetting it: `content` (an empty document where it is no TOML) with
/// `state.last_batch` set to the batch, or removed together with a `state`
/// table left empty; every other entry stays, and so does the text of
/// everything but `state` (comments and spacing included). `None` where a batch is to be
/// set but `state` holds something other than a table, which `toml_edit`
/// cannot index into.
pub fn config_text_with_last_batch(content: &str, last_batch: Option<&str>) -> (res: Option<String>)
    ensures
        ({
            let m = match toml_entries(content@) {
                Some(m) => m,
                None => Map::empty(),
            };
            match last_batch {
                Some(v) => if state_not_table(m) {
                    res is None
                } else {
                    res matches Some(t) && toml_entries(t@) == Some(entries_with_batch(m, v@))
                },
                None => res matches Some(t) && toml_entries(t@) == Some(entries_without_batch(m)),
            }
        }),
        res matches Some(t) ==> toml_rest(t@) == Some(
            match toml_rest(content@) {
                Some(r) => r,
                None => Seq::<char>::empty(),
            },
        ),
{
    let mut doc = match parse_document(content) {
        Some(d) => d,
        None => new_document(),
    };
    match last_batch {
        Some(v) => {
            if state_kind(&doc) == 2 {
                return None;
            }
            set_last_batch(&mut doc, v);
        },
        None => {
            if state_kind(&doc) == 1 {
                remove_last_batch(&mut doc);
                if state_is_empty(&doc) {
                    remove_state(&mut doc);
                }
            }
        },
    }
    Some(document_text(&doc))
}

} // verus!
