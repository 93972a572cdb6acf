//! The configuration file as an editable document.
//!
//! The document is `toml_edit`'s, which keeps the comments and the layout of the
//! file. What it holds is described by one map from paths to items; layout and
//! comments are not part of that description.
use crate::ids::option_text;
use crate::text::{copy_texts, views};
use toml_edit::DocumentMut;
use vstd::prelude::*;

verus! {

/// An editable TOML document.
#[verifier::external_type_specification]
#[verifier::external_body]
pub struct ExDocumentMut(toml_edit::DocumentMut);

/// Why `toml_edit` could not read a text as TOML.
#[verifier::external_type_specification]
#[verifier::external_body]
pub struct ExTomlError(toml_edit::TomlError);

/// What stands at a path of a document.
pub enum TomlItem {
    /// A table, inline or not.
    Table,
    Bool(bool),
    Text(Seq<char>),
    Integer(int),
    /// An array of strings.
    Texts(Seq<Seq<char>>),
    /// Any other item.
    Other,
}

/// What a document holds: the item that `get` finds at each path of keys, the
/// document itself standing at the empty path.
pub uninterp spec fn document_items(document: DocumentMut) -> Map<Seq<Seq<char>>, TomlItem>;

/// The text that a document is written as.
pub uninterp spec fn document_text(document: DocumentMut) -> Seq<char>;

/// What the document holds that a text is read as, or `None` when the text is
/// not TOML.
pub uninterp spec fn text_items(text: Seq<char>) -> Option<Map<Seq<Seq<char>>, TomlItem>>;

/// The text of the document is TOML and reads as what the document holds, but for the
/// tables that leave no trace in it.
pub uninterp spec fn document_intact(document: DocumentMut) -> bool;

/// The tables of the document that leave no trace in its text: tables without a header
/// or braces of their own in which nothing leaves a trace.
pub uninterp spec fn document_untraced(document: DocumentMut) -> Set<Seq<Seq<char>>>;

/// The document itself is a table.
pub open spec fn rooted(items: Map<Seq<Seq<char>>, TomlItem>) -> bool {
    items.contains_key(Seq::empty()) && items[Seq::empty()] is Table
}

/// A table stands at the path.
pub open spec fn table_at(items: Map<Seq<Seq<char>>, TomlItem>, path: Seq<Seq<char>>) -> bool {
    items.contains_key(path) && items[path] is Table
}

/// The items without what stands at the path or below it.
pub open spec fn without(items: Map<Seq<Seq<char>>, TomlItem>, path: Seq<Seq<char>>) -> Map<
    Seq<Seq<char>>,
    TomlItem,
> {
    Map::new(
        |p: Seq<Seq<char>>| items.contains_key(p) && !path.is_prefix_of(p),
        |p: Seq<Seq<char>>| items[p],
    )
}

/// The items with one item put at the path, in place of what stood there.
pub open spec fn put(
    items: Map<Seq<Seq<char>>, TomlItem>,
    path: Seq<Seq<char>>,
    item: TomlItem,
) -> Map<Seq<Seq<char>>, TomlItem> {
    without(items, path).insert(path, item)
}

/// The items with a key of a section set. A section that is not there yet
/// becomes a table.
pub open spec fn put_in_section(
    items: Map<Seq<Seq<char>>, TomlItem>,
    section: Seq<char>,
    key: Seq<char>,
    item: TomlItem,
) -> Map<Seq<Seq<char>>, TomlItem> {
    put(items.insert(seq![section], TomlItem::Table), seq![section, key], item)
}

/// A section that is not there, or is a table.
pub open spec fn open_section(items: Map<Seq<Seq<char>>, TomlItem>, section: Seq<char>) -> bool {
    items.contains_key(seq![section]) ==> items[seq![section]] is Table
}

/// `str::parse` into a `DocumentMut`: reads a text as TOML. What the document
/// holds depends on the text alone and is named by `text_items`; a document that
/// was read is a table, is intact, and has no table without a trace.
#[verifier::external_body]
fn parse_document(text: &str) -> (r: Result<DocumentMut, toml_edit::TomlError>)
    ensures
        match r {
            Ok(document) => {
                &&& text_items(text@) == Some(document_items(document))
                &&& rooted(document_items(document))
                &&& document_intact(document)
                &&& document_untraced(document) == Set::<Seq<Seq<char>>>::empty()
            },
            Err(_) => text_items(text@) is None,
        },
{
    text.parse::<DocumentMut>()
}

/// `DocumentMut`'s `to_string`: the text is named by `document_text`. The text of an
/// intact document reads as what the document holds, without the tables that leave no
/// trace. Of other documents nothing more is claimed: an inline table with a trailing
/// comma in which nothing else leaves a trace is not even written as TOML.
#[verifier::external_body]
fn write_document(document: &DocumentMut) -> (r: String)
    requires
        rooted(document_items(*document)),
    ensures
        r@ == document_text(*document),
        document_intact(*document) ==> text_items(r@) == Some(
            document_items(*document).remove_keys(document_untraced(*document)),
        ),
{
    document.to_string()
}

/// `Table::get` on the document: whether it has a section.
#[verifier::external_body]
fn has_section(document: &DocumentMut, section: &str) -> (r: bool)
    requires
        rooted(document_items(*document)),
    ensures
        r == document_items(*document).contains_key(seq![section@]),
{
    document.get(section).is_some()
}

/// `Item::is_table_like` on a section of the document.
#[verifier::external_body]
fn section_is_table(document: &DocumentMut, section: &str) -> (r: bool)
    requires
        rooted(document_items(*document)),
    ensures
        r == table_at(document_items(*document), seq![section@]),
{
    document.get(section).is_some_and(|item| item.is_table_like())
}

/// `TableLike::get` on a section of the document: whether it has an item under
/// a key.
#[verifier::external_body]
fn section_has(document: &DocumentMut, section: &str, key: &str) -> (r: bool)
    requires
        rooted(document_items(*document)),
        table_at(document_items(*document), seq![section@]),
    ensures
        r == document_items(*document).contains_key(seq![section@, key@]),
{
    let section_table = document.get(section).and_then(|item| item.as_table_like());
    section_table.is_some_and(|table| table.get(key).is_some())
}

/// `Item::is_table_like` on an item of a section of the document.
#[verifier::external_body]
fn nested_is_table(document: &DocumentMut, section: &str, key: &str) -> (r: bool)
    requires
        rooted(document_items(*document)),
        table_at(document_items(*document), seq![section@]),
    ensures
        r == table_at(document_items(*document), seq![section@, key@]),
{
    let section_table = document.get(section).and_then(|item| item.as_table_like());
    section_table.and_then(|table| table.get(key)).is_some_and(|item| item.is_table_like())
}

/// Indexed assignment to the document, of a section that another document has: the
/// section is there afterwards with everything below it, and nothing else
/// changes. With a section of an intact document, an intact document stays intact, and
/// what is without a trace was so in one of the two.
#[verifier::external_body]
fn copy_section(document: &mut DocumentMut, defaults: &DocumentMut, section: &str)
    requires
        rooted(document_items(*old(document))),
        rooted(document_items(*defaults)),
        document_items(*defaults).contains_key(seq![section@]),
    ensures
        document_items(*final(document)) == with_section_of(
            document_items(*old(document)),
            document_items(*defaults),
            section@,
        ),
        document_intact(*old(document)) && document_intact(*defaults) ==> document_intact(
            *final(document),
        ) && document_untraced(*final(document)).subset_of(
            document_untraced(*old(document)).union(document_untraced(*defaults)),
        ),
{
    document[section] = defaults[section].clone();
}

/// `TableLike::insert` of an empty table into a section of the document. An intact
/// document stays intact, and the table leaves a trace: it has a header, or braces, of
/// its own.
#[verifier::external_body]
fn insert_table(document: &mut DocumentMut, section: &str, key: &str)
    requires
        rooted(document_items(*old(document))),
        table_at(document_items(*old(document)), seq![section@]),
    ensures
        document_items(*final(document)) == put(
            document_items(*old(document)),
            seq![section@, key@],
            TomlItem::Table,
        ),
        document_intact(*old(document)) ==> document_intact(*final(document))
            && document_untraced(*final(document)).subset_of(document_untraced(*old(document))),
{
    if let Some(table) = document[section].as_table_like_mut() {
        table.insert(key, toml_edit::table());
    }
}

/// `TableLike::insert` of a string into a table of a section of the document. An
/// intact document stays intact, and the table leaves a trace.
#[verifier::external_body]
fn insert_nested(document: &mut DocumentMut, section: &str, table: &str, key: &str, value: &str)
    requires
        rooted(document_items(*old(document))),
        table_at(document_items(*old(document)), seq![section@]),
        table_at(document_items(*old(document)), seq![section@, table@]),
    ensures
        document_items(*final(document)) == put(
            document_items(*old(document)),
            seq![section@, table@, key@],
            TomlItem::Text(value@),
        ),
        document_intact(*old(document)) ==> document_intact(*final(document))
            && document_untraced(*final(document)).subset_of(
                document_untraced(*old(document)).remove(seq![section@, table@]),
            ),
{
    let outer = document[section].as_table_like_mut();
    let inner = outer.and_then(|t| t.get_mut(table)).and_then(|item| item.as_table_like_mut());
    if let Some(nested) = inner {
        nested.insert(key, toml_edit::value(value));
    }
}

/// Removing the key takes the last one from the nested table.
pub open spec fn empties(
    items: Map<Seq<Seq<char>>, TomlItem>,
    section: Seq<char>,
    table: Seq<char>,
    key: Seq<char>,
) -> bool {
    &&& items.contains_key(seq![section, table, key])
    &&& forall|other: Seq<char>|
        other != key ==> !items.contains_key(#[trigger] seq![section, table, other])
}

/// A section has a key other than one of its tables, and this key leaves a trace.
pub open spec fn section_keeps(
    items: Map<Seq<Seq<char>>, TomlItem>,
    untraced: Set<Seq<Seq<char>>>,
    section: Seq<char>,
    table: Seq<char>,
) -> bool {
    exists|other: Seq<char>|
        other != table && items.contains_key(#[trigger] seq![section, other])
            && !untraced.contains(seq![section, other])
}

/// The paths lead to sections and to their tables, and no deeper.
pub open spec fn shallow(paths: Set<Seq<Seq<char>>>) -> bool {
    forall|path: Seq<Seq<char>>| #[trigger] paths.contains(path) ==> path.len() <= 2
}

/// `TableLike::remove` on a table of a section of the document.
///
/// An intact document in which nothing deeper than the tables of sections is without a
/// trace stays intact when the table keeps a key, and then no table more is without a
/// trace. It also stays intact when the section keeps another key; the table, if it has
/// no keys left, may then be without a trace.
#[verifier::external_body]
fn remove_nested(document: &mut DocumentMut, section: &str, table: &str, key: &str)
    requires
        rooted(document_items(*old(document))),
        table_at(document_items(*old(document)), seq![section@]),
        table_at(document_items(*old(document)), seq![section@, table@]),
    ensures
        document_items(*final(document)) == without(
            document_items(*old(document)),
            seq![section@, table@, key@],
        ),
        document_intact(*old(document)) && shallow(document_untraced(*old(document))) && !empties(
            document_items(*old(document)),
            section@,
            table@,
            key@,
        ) ==> document_intact(*final(document)) && document_untraced(*final(document)).subset_of(
            document_untraced(*old(document)),
        ),
        document_intact(*old(document)) && shallow(document_untraced(*old(document)))
            && section_keeps(
            document_items(*old(document)),
            document_untraced(*old(document)),
            section@,
            table@,
        ) ==> document_intact(*final(document)) && document_untraced(*final(document)).subset_of(
            document_untraced(*old(document)).insert(seq![section@, table@]),
        ),
{
    let outer = document[section].as_table_like_mut();
    let inner = outer.and_then(|t| t.get_mut(table)).and_then(|item| item.as_table_like_mut());
    if let Some(nested) = inner {
        nested.remove(key);
    }
}

/// Indexed assignment of a boolean to a key of a section, which must be a table
/// where there is one. An intact document stays intact, and the key leaves a
/// trace.
#[verifier::external_body]
pub fn set_bool(document: &mut DocumentMut, section: &str, key: &str, value: bool)
    requires
        rooted(document_items(*old(document))),
        open_section(document_items(*old(document)), section@),
    ensures
        document_items(*final(document)) == put_in_section(
            document_items(*old(document)),
            section@,
            key@,
            TomlItem::Bool(value),
        ),
        document_intact(*old(document)) ==> document_intact(*final(document))
            && document_untraced(*final(document)).subset_of(
                document_untraced(*old(document)).remove(seq![section@, key@]),
            ),
{
    document[section][key] = toml_edit::value(value);
}

/// Indexed assignment of a string to a key of a section, which must be a table
/// where there is one. An intact document stays intact, and the key leaves a
/// trace.
#[verifier::external_body]
pub fn set_string(document: &mut DocumentMut, section: &str, key: &str, value: &str)
    requires
        rooted(document_items(*old(document))),
        open_section(document_items(*old(document)), section@),
    ensures
        document_items(*final(document)) == put_in_section(
            document_items(*old(document)),
            section@,
            key@,
            TomlItem::Text(value@),
        ),
        document_intact(*old(document)) ==> document_intact(*final(document))
            && document_untraced(*final(document)).subset_of(
                document_untraced(*old(document)).remove(seq![section@, key@]),
            ),
{
    document[section][key] = toml_edit::value(value);
}

/// Indexed assignment of an integer to a key of a section, which must be a table
/// where there is one. An intact document stays intact, and the key leaves a
/// trace.
#[verifier::external_body]
fn set_signed(document: &mut DocumentMut, section: &str, key: &str, value: i64)
    requires
        rooted(document_items(*old(document))),
        open_section(document_items(*old(document)), section@),
    ensures
        document_items(*final(document)) == put_in_section(
            document_items(*old(document)),
            section@,
            key@,
            TomlItem::Integer(value as int),
        ),
        document_intact(*old(document)) ==> document_intact(*final(document))
            && document_untraced(*final(document)).subset_of(
                document_untraced(*old(document)).remove(seq![section@, key@]),
            ),
{
    document[section][key] = toml_edit::value(value);
}

/// Sets a number. TOML integers are signed, so a number beyond their range
/// wraps around.
pub fn set_integer(document: &mut DocumentMut, section: &str, key: &str, value: u64)
    requires
        rooted(document_items(*old(document))),
        open_section(document_items(*old(document)), section@),
    ensures
        document_items(*final(document)) == put_in_section(
            document_items(*old(document)),
            section@,
            key@,
            TomlItem::Integer((value as i64) as int),
        ),
        document_intact(*old(document)) ==> document_intact(*final(document))
            && document_untraced(*final(document)).subset_of(
                document_untraced(*old(document)).remove(seq![section@, key@]),
            ),
{
    set_signed(document, section, key, #[verifier::truncate] (value as i64));
}

/// Indexed assignment of an array, filled by `Array`'s `FromIterator`, to a key of
/// a section, which must be a table where there is one. An intact document stays
/// intact, and the key leaves a trace.
#[verifier::external_body]
pub fn set_string_array(document: &mut DocumentMut, section: &str, key: &str, values: Vec<String>)
    requires
        rooted(document_items(*old(document))),
        open_section(document_items(*old(document)), section@),
    ensures
        document_items(*final(document)) == put_in_section(
            document_items(*old(document)),
            section@,
            key@,
            TomlItem::Texts(views(values@)),
        ),
        document_intact(*old(document)) ==> document_intact(*final(document))
            && document_untraced(*final(document)).subset_of(
                document_untraced(*old(document)).remove(seq![section@, key@]),
            ),
{
    document[section][key] = toml_edit::value(toml_edit::Array::from_iter(values));
}

/// The items with a section of other items in place of their own.
pub open spec fn with_section_of(
    items: Map<Seq<Seq<char>>, TomlItem>,
    source: Map<Seq<Seq<char>>, TomlItem>,
    section: Seq<char>,
) -> Map<Seq<Seq<char>>, TomlItem> {
    Map::new(
        |p: Seq<Seq<char>>|
            if seq![section].is_prefix_of(p) {
                source.contains_key(p)
            } else {
                items.contains_key(p)
            },
        |p: Seq<Seq<char>>|
            if seq![section].is_prefix_of(p) {
                source[p]
            } else {
                items[p]
            },
    )
}

/// One change to the configuration.
#[allow(inconsistent_fields)]
#[derive(Debug)]
pub enum ConfigEdit {
    SetBool { section: String, key: String, value: bool },
    SetString { section: String, key: String, value: String },
    SetInteger { section: String, key: String, value: u64 },
    SetStringArray { section: String, key: String, values: Vec<String> },
    /// Sets or removes a key in a nested table such as `[mission.bindings]`.
    SetNestedString { section: String, table: String, key: String, value: Option<String> },
}

/// A configuration edit as a mathematical value.
#[verifier::ext_equal]
pub enum ConfigEditView {
    SetKey { section: Seq<char>, key: Seq<char>, item: TomlItem },
    SetNested {
        section: Seq<char>,
        table: Seq<char>,
        key: Seq<char>,
        value: Option<Seq<char>>,
    },
}

impl View for ConfigEdit {
    type V = ConfigEditView;

    open spec fn view(&self) -> ConfigEditView {
        match self {
            ConfigEdit::SetBool { section, key, value } => ConfigEditView::SetKey {
                section: section@,
                key: key@,
                item: TomlItem::Bool(*value),
            },
            ConfigEdit::SetString { section, key, value } => ConfigEditView::SetKey {
                section: section@,
                key: key@,
                item: TomlItem::Text(value@),
            },
            ConfigEdit::SetInteger { section, key, value } => ConfigEditView::SetKey {
                section: section@,
                key: key@,
                item: TomlItem::Integer((*value as i64) as int),
            },
            ConfigEdit::SetStringArray { section, key, values } => ConfigEditView::SetKey {
                section: section@,
                key: key@,
                item: TomlItem::Texts(views(values@)),
            },
            ConfigEdit::SetNestedString { section, table, key, value } => ConfigEditView::SetNested {
                section: section@,
                table: table@,
                key: key@,
                value: option_text(*value),
            },
        }
    }
}

/// The edits as mathematical values.
pub open spec fn edit_views(edits: Seq<ConfigEdit>) -> Seq<ConfigEditView> {
    edits.map_values(|edit: ConfigEdit| edit@)
}

/// Why a configuration was not edited.
pub enum ConfigEditError {
    /// The configuration is not TOML.
    Unreadable(toml_edit::TomlError),
    /// The default configuration is not TOML.
    UnreadableDefaults(toml_edit::TomlError),
    /// Neither the configuration nor the defaults have a section.
    MissingSection(String),
    /// Something other than a table stands where a table is needed.
    NotATable(String),
}

/// Why a configuration was not edited, as a mathematical value.
pub enum EditFault {
    Unreadable,
    UnreadableDefaults,
    MissingSection(Seq<char>),
    NotATable(Seq<char>),
}

impl View for ConfigEditError {
    type V = EditFault;

    open spec fn view(&self) -> EditFault {
        match self {
            ConfigEditError::Unreadable(_) => EditFault::Unreadable,
            ConfigEditError::UnreadableDefaults(_) => EditFault::UnreadableDefaults,
            ConfigEditError::MissingSection(section) => EditFault::MissingSection(section@),
            ConfigEditError::NotATable(name) => EditFault::NotATable(name@),
        }
    }
}

/// The items with a section that is missing taken from the defaults.
pub open spec fn with_default_section(
    items: Map<Seq<Seq<char>>, TomlItem>,
    defaults: Map<Seq<Seq<char>>, TomlItem>,
    section: Seq<char>,
) -> Result<Map<Seq<Seq<char>>, TomlItem>, EditFault> {
    if items.contains_key(seq![section]) {
        Ok(items)
    } else if defaults.contains_key(seq![section]) {
        Ok(with_section_of(items, defaults, section))
    } else {
        Err(EditFault::MissingSection(section))
    }
}

/// The items with the first `n` of the listed sections taken from the defaults
/// where they are missing.
pub open spec fn with_default_sections(
    items: Map<Seq<Seq<char>>, TomlItem>,
    defaults: Map<Seq<Seq<char>>, TomlItem>,
    sections: Seq<Seq<char>>,
) -> Result<Map<Seq<Seq<char>>, TomlItem>, EditFault>
    decreases sections.len(),
{
    if sections.len() == 0 {
        Ok(items)
    } else {
        match with_default_sections(items, defaults, sections.drop_last()) {
            Ok(filled) => with_default_section(filled, defaults, sections.last()),
            Err(fault) => Err(fault),
        }
    }
}

/// The sections of a configuration file.
pub open spec fn section_names() -> Seq<Seq<char>> {
    seq!["presets"@, "hotkey"@, "mission"@, "window"@]
}

/// The items after one edit.
pub open spec fn after_edit(items: Map<Seq<Seq<char>>, TomlItem>, edit: ConfigEditView) -> Result<
    Map<Seq<Seq<char>>, TomlItem>,
    EditFault,
> {
    match edit {
        ConfigEditView::SetKey { section, key, item } => if open_section(items, section) {
            Ok(put_in_section(items, section, key, item))
        } else {
            Err(EditFault::NotATable(section))
        },
        ConfigEditView::SetNested { section, table, key, value } => if !table_at(
            items,
            seq![section],
        ) {
            Err(EditFault::NotATable(section))
        } else {
            let ready = if items.contains_key(seq![section, table]) {
                items
            } else {
                put(items, seq![section, table], TomlItem::Table)
            };
            if !table_at(ready, seq![section, table]) {
                Err(EditFault::NotATable(section + "."@ + table))
            } else {
                Ok(
                    match value {
                        Some(value) => put(ready, seq![section, table, key], TomlItem::Text(value)),
                        None => without(ready, seq![section, table, key]),
                    },
                )
            }
        },
    }
}

/// The items after edits, one after the other, up to the first that fails.
pub open spec fn after_edits(
    items: Map<Seq<Seq<char>>, TomlItem>,
    edits: Seq<ConfigEditView>,
) -> Result<Map<Seq<Seq<char>>, TomlItem>, EditFault>
    decreases edits.len(),
{
    if edits.len() == 0 {
        Ok(items)
    } else {
        match after_edits(items, edits.drop_last()) {
            Ok(edited) => after_edit(edited, edits.last()),
            Err(fault) => Err(fault),
        }
    }
}

/// An edit takes the last key from a nested table.
pub open spec fn edit_empties(items: Map<Seq<Seq<char>>, TomlItem>, edit: ConfigEditView) -> bool {
    match edit {
        ConfigEditView::SetKey { .. } => false,
        ConfigEditView::SetNested { section, table, key, value } => value is None && empties(
            items,
            section,
            table,
            key,
        ),
    }
}

/// An edit takes the last key from a nested table, and its section keeps no other key
/// that leaves a trace.
pub open spec fn edit_bares(
    items: Map<Seq<Seq<char>>, TomlItem>,
    emptied: Set<Seq<Seq<char>>>,
    edit: ConfigEditView,
) -> bool {
    match edit {
        ConfigEditView::SetKey { .. } => false,
        ConfigEditView::SetNested { section, table, .. } => edit_empties(items, edit)
            && !section_keeps(items, emptied, section, table),
    }
}

/// The tables that have lost their last key, after one more edit.
pub open spec fn then_emptied(
    items: Map<Seq<Seq<char>>, TomlItem>,
    emptied: Set<Seq<Seq<char>>>,
    edit: ConfigEditView,
) -> Set<Seq<Seq<char>>> {
    match edit {
        ConfigEditView::SetKey { section, key, .. } => emptied.remove(seq![section, key]),
        ConfigEditView::SetNested { section, table, value, .. } => if value is Some {
            emptied.remove(seq![section, table])
        } else if edit_empties(items, edit) {
            emptied.insert(seq![section, table])
        } else {
            emptied
        },
    }
}

/// The tables that lost their last key by edits, and were not filled again.
pub open spec fn emptied_by(
    items: Map<Seq<Seq<char>>, TomlItem>,
    edits: Seq<ConfigEditView>,
) -> Set<Seq<Seq<char>>>
    decreases edits.len(),
{
    if edits.len() == 0 {
        Set::empty()
    } else {
        match after_edits(items, edits.drop_last()) {
            Ok(edited) => then_emptied(edited, emptied_by(items, edits.drop_last()), edits.last()),
            Err(_) => emptied_by(items, edits.drop_last()),
        }
    }
}

/// Some edit takes the last key from a nested table whose section keeps no other.
pub open spec fn edits_bare(
    items: Map<Seq<Seq<char>>, TomlItem>,
    edits: Seq<ConfigEditView>,
) -> bool
    decreases edits.len(),
{
    if edits.len() == 0 {
        false
    } else {
        edits_bare(items, edits.drop_last()) || match after_edits(items, edits.drop_last()) {
            Ok(edited) => edit_bares(edited, emptied_by(items, edits.drop_last()), edits.last()),
            Err(_) => false,
        }
    }
}

/// A text that reads as items, but for some of the tables that were emptied.
pub open spec fn reads_as(
    text: Seq<char>,
    items: Map<Seq<Seq<char>>, TomlItem>,
    emptied: Set<Seq<Seq<char>>>,
) -> bool {
    exists|lost: Set<Seq<Seq<char>>>| #[trigger]
        lost.subset_of(emptied) && text_items(text) == Some(items.remove_keys(lost))
}

/// The items of a configuration with its missing sections taken from the defaults.
pub open spec fn filled_items(text: Seq<char>, defaults: Seq<char>) -> Result<
    Map<Seq<Seq<char>>, TomlItem>,
    EditFault,
> {
    match text_items(text) {
        None => Err(EditFault::Unreadable),
        Some(items) => match text_items(defaults) {
            None => Err(EditFault::UnreadableDefaults),
            Some(default_items) => with_default_sections(items, default_items, section_names()),
        },
    }
}

/// What an edited configuration holds.
pub open spec fn edited_items(
    text: Seq<char>,
    defaults: Seq<char>,
    edits: Seq<ConfigEditView>,
) -> Result<Map<Seq<Seq<char>>, TomlItem>, EditFault> {
    match filled_items(text, defaults) {
        Ok(filled) => after_edits(filled, edits),
        Err(fault) => Err(fault),
    }
}

/// A text that an edited configuration is saved as. It is the text of a document with
/// the edited items, and reads as these items, but for nested tables that lost their
/// last key. Nothing is said of what it reads as when a section lost its last key with
/// such a table.
pub open spec fn saved_as(
    text: Seq<char>,
    defaults: Seq<char>,
    edits: Seq<ConfigEditView>,
    out: Seq<char>,
) -> bool {
    &&& edited_items(text, defaults, edits) is Ok
    &&& exists|document: DocumentMut|
        out == #[trigger] document_text(document) && document_items(document) == edited_items(
            text,
            defaults,
            edits,
        )->Ok_0
    &&& !edits_bare(filled_items(text, defaults)->Ok_0, edits) ==> reads_as(
        out,
        edited_items(text, defaults, edits)->Ok_0,
        emptied_by(filled_items(text, defaults)->Ok_0, edits),
    )
}

proof fn lemma_put_keeps_root(
    items: Map<Seq<Seq<char>>, TomlItem>,
    path: Seq<Seq<char>>,
    item: TomlItem,
)
    requires
        rooted(items),
        path.len() > 0,
    ensures
        rooted(put(items, path, item)),
        rooted(without(items, path)),
{
    let root = Seq::<Seq<char>>::empty();
    assert(!path.is_prefix_of(root));
    assert(root != path);
}

/// An edit leaves a document a document.
pub proof fn lemma_edit_keeps_root(items: Map<Seq<Seq<char>>, TomlItem>, edit: ConfigEditView)
    requires
        rooted(items),
    ensures
        match after_edit(items, edit) {
            Ok(edited) => rooted(edited),
            Err(_) => true,
        },
{
    let root = Seq::<Seq<char>>::empty();
    match edit {
        ConfigEditView::SetKey { section, key, item } => {
            assert(seq![section].len() == 1 && root.len() == 0);
            assert(rooted(items.insert(seq![section], TomlItem::Table)));
            lemma_put_keeps_root(
                items.insert(seq![section], TomlItem::Table),
                seq![section, key],
                item,
            );
        },
        ConfigEditView::SetNested { section, table, key, value } => {
            lemma_put_keeps_root(items, seq![section, table], TomlItem::Table);
            let ready = if items.contains_key(seq![section, table]) {
                items
            } else {
                put(items, seq![section, table], TomlItem::Table)
            };
            lemma_put_keeps_root(ready, seq![section, table, key], TomlItem::Other);
            if let Some(text) = value {
                lemma_put_keeps_root(ready, seq![section, table, key], TomlItem::Text(text));
            }
        },
    }
}

/// Sets or removes `key` in a nested table such as `[mission.bindings]`. A
/// missing table is created; nothing is changed where the section or the table is
/// something else.
pub fn set_nested_string(
    document: &mut DocumentMut,
    section: &str,
    table: &str,
    key: &str,
    value: Option<&str>,
) -> (r: Result<(), ConfigEditError>)
    requires
        rooted(document_items(*old(document))),
    ensures
        ({
            let edit = ConfigEditView::SetNested {
                section: section@,
                table: table@,
                key: key@,
                value: match value {
                    Some(value) => Some(value@),
                    None => None,
                },
            };
            &&& match after_edit(document_items(*old(document)), edit) {
                Ok(items) => r is Ok && document_items(*final(document)) == items,
                Err(fault) => r matches Err(error) && error@ == fault && *final(document) == *old(
                    document,
                ),
            }
            &&& r is Ok && document_intact(*old(document)) && shallow(
                document_untraced(*old(document)),
            ) && !edit_bares(
                document_items(*old(document)),
                document_untraced(*old(document)),
                edit,
            ) ==> document_intact(*final(document)) && document_untraced(
                *final(document),
            ).subset_of(
                then_emptied(
                    document_items(*old(document)),
                    document_untraced(*old(document)),
                    edit,
                ),
            )
        }),
{
    if !section_is_table(document, section) {
        return Err(ConfigEditError::NotATable(section.to_string()));
    }
    let ghost items = document_items(*document);
    if !section_has(document, section, table) {
        insert_table(document, section, table);
        proof {
            lemma_put_keeps_root(items, seq![section@, table@], TomlItem::Table);
            assert(!seq![section@, table@].is_prefix_of(seq![section@]));
            assert(seq![section@, table@] != seq![section@]);
        }
    }
    if !nested_is_table(document, section, table) {
        let mut name = section.to_string();
        name.push_str(".");
        name.push_str(table);
        return Err(ConfigEditError::NotATable(name));
    }
    match value {
        Some(value) => insert_nested(document, section, table, key, value),
        None => remove_nested(document, section, table, key),
    }
    Ok(())
}

/// Whether a section is not there, or is a table.
fn is_open_section(document: &DocumentMut, section: &str) -> (r: bool)
    requires
        rooted(document_items(*document)),
    ensures
        r == open_section(document_items(*document), section@),
{
    !has_section(document, section) || section_is_table(document, section)
}

/// Makes one change to a document. A change that fails changes nothing.
fn apply_edit(document: &mut DocumentMut, edit: &ConfigEdit) -> (r: Result<(), ConfigEditError>)
    requires
        rooted(document_items(*old(document))),
    ensures
        match after_edit(document_items(*old(document)), edit@) {
            Ok(items) => r is Ok && document_items(*final(document)) == items,
            Err(fault) => r matches Err(error) && error@ == fault,
        },
        r is Ok && document_intact(*old(document)) && shallow(document_untraced(*old(document)))
            && !edit_bares(
            document_items(*old(document)),
            document_untraced(*old(document)),
            edit@,
        ) ==> document_intact(*final(document)) && document_untraced(*final(document)).subset_of(
            then_emptied(
                document_items(*old(document)),
                document_untraced(*old(document)),
                edit@,
            ),
        ),
{
    match edit {
        ConfigEdit::SetNestedString { section, table, key, value } => {
            let value = match value {
                Some(value) => Some(value.as_str()),
                None => None,
            };
            return set_nested_string(
                document,
                section.as_str(),
                table.as_str(),
                key.as_str(),
                value,
            );
        },
        ConfigEdit::SetBool { section, key, value } => {
            if !is_open_section(document, section.as_str()) {
                return Err(ConfigEditError::NotATable(section.clone()));
            }
            set_bool(document, section.as_str(), key.as_str(), *value);
        },
        ConfigEdit::SetString { section, key, value } => {
            if !is_open_section(document, section.as_str()) {
                return Err(ConfigEditError::NotATable(section.clone()));
            }
            set_string(document, section.as_str(), key.as_str(), value.as_str());
        },
        ConfigEdit::SetInteger { section, key, value } => {
            if !is_open_section(document, section.as_str()) {
                return Err(ConfigEditError::NotATable(section.clone()));
            }
            set_integer(document, section.as_str(), key.as_str(), *value);
        },
        ConfigEdit::SetStringArray { section, key, values } => {
            if !is_open_section(document, section.as_str()) {
                return Err(ConfigEditError::NotATable(section.clone()));
            }
            set_string_array(document, section.as_str(), key.as_str(), copy_texts(values));
        },
    }
    Ok(())
}

/// Takes a section from the defaults when it is missing.
fn fill_section(document: &mut DocumentMut, defaults: &DocumentMut, section: &str) -> (r: Result<
    (),
    ConfigEditError,
>)
    requires
        rooted(document_items(*old(document))),
        rooted(document_items(*defaults)),
    ensures
        match with_default_section(
            document_items(*old(document)),
            document_items(*defaults),
            section@,
        ) {
            Ok(items) => r is Ok && document_items(*final(document)) == items && rooted(items),
            Err(fault) => r matches Err(error) && error@ == fault,
        },
        document_intact(*old(document)) && document_intact(*defaults) ==> document_intact(
            *final(document),
        ) && document_untraced(*final(document)).subset_of(
            document_untraced(*old(document)).union(document_untraced(*defaults)),
        ),
{
    if !has_section(document, section) {
        if !has_section(defaults, section) {
            return Err(ConfigEditError::MissingSection(section.to_string()));
        }
        copy_section(document, defaults, section);
        assert(!seq![section@].is_prefix_of(Seq::<Seq<char>>::empty()));
    }
    Ok(())
}

/// Applies edits to the text of a configuration. Sections that are missing are
/// taken from the defaults first.
///
/// The new text is that of the edited document; its comments and layout are
/// `toml_edit`'s to keep and are not described here.
pub fn edit_config(text: &str, defaults: &str, edits: &Vec<ConfigEdit>) -> (r: Result<
    String,
    ConfigEditError,
>)
    ensures
        match edited_items(text@, defaults@, edit_views(edits@)) {
            Ok(_) => r matches Ok(out) && saved_as(text@, defaults@, edit_views(edits@), out@),
            Err(fault) => r matches Err(error) && error@ == fault,
        },
{
    let mut document = match parse_document(text) {
        Ok(document) => document,
        Err(error) => {
            return Err(ConfigEditError::Unreadable(error));
        },
    };
    let default_document = match parse_document(defaults) {
        Ok(document) => document,
        Err(error) => {
            return Err(ConfigEditError::UnreadableDefaults(error));
        },
    };
    let ghost items = document_items(document);
    let ghost default_items = document_items(default_document);
    let ghost names = section_names();
    proof {
        assert(names.drop_last() == seq!["presets"@, "hotkey"@, "mission"@]);
        assert(names.drop_last().drop_last() == seq!["presets"@, "hotkey"@]);
        assert(names.drop_last().drop_last().drop_last() == seq!["presets"@]);
        assert(names.drop_last().drop_last().drop_last().drop_last() == Seq::<Seq<char>>::empty());
        reveal_with_fuel(with_default_sections, 5);
    }
    match fill_section(&mut document, &default_document, "presets") {
        Ok(_) => {},
        Err(error) => {
            return Err(error);
        },
    }
    match fill_section(&mut document, &default_document, "hotkey") {
        Ok(_) => {},
        Err(error) => {
            return Err(error);
        },
    }
    match fill_section(&mut document, &default_document, "mission") {
        Ok(_) => {},
        Err(error) => {
            return Err(error);
        },
    }
    match fill_section(&mut document, &default_document, "window") {
        Ok(_) => {},
        Err(error) => {
            return Err(error);
        },
    }
    let ghost filled = document_items(document);
    let ghost changes = edit_views(edits@);
    let mut i: usize = 0;
    assert(changes.take(0) == Seq::<ConfigEditView>::empty());
    while i < edits.len()
        invariant
            i <= edits@.len(),
            changes == edit_views(edits@),
            rooted(document_items(document)),
            after_edits(filled, changes.take(i as int)) == Ok::<
                Map<Seq<Seq<char>>, TomlItem>,
                EditFault,
            >(document_items(document)),
            filled_items(text@, defaults@) == Ok::<Map<Seq<Seq<char>>, TomlItem>, EditFault>(filled),
            !edits_bare(filled, changes.take(i as int)) ==> document_intact(document)
                && document_untraced(document).subset_of(
                emptied_by(filled, changes.take(i as int)),
            ),
        decreases edits@.len() - i,
    {
        proof {
            assert(changes.take(i + 1).drop_last() == changes.take(i as int));
            assert(changes.take(i + 1).last() == edits@[i as int]@);
            lemma_edit_keeps_root(document_items(document), edits@[i as int]@);
            lemma_emptied_shallow(filled, changes.take(i as int));
        }
        match apply_edit(&mut document, &edits[i]) {
            Ok(_) => {},
            Err(error) => {
                proof {
                    lemma_edits_stop(filled, changes, i + 1);
                }
                return Err(error);
            },
        }
        i = i + 1;
    }
    assert(changes.take(changes.len() as int) == changes);
    let out = write_document(&document);
    proof {
        if !edits_bare(filled, changes) {
            assert(document_untraced(document).subset_of(emptied_by(filled, changes)));
        }
        assert(saved_as(text@, defaults@, changes, out@));
    }
    Ok(out)
}

proof fn lemma_emptied_shallow(
    items: Map<Seq<Seq<char>>, TomlItem>,
    edits: Seq<ConfigEditView>,
)
    ensures
        shallow(emptied_by(items, edits)),
    decreases edits.len(),
{
    if edits.len() > 0 {
        lemma_emptied_shallow(items, edits.drop_last());
    }
}

proof fn lemma_edits_stop(
    items: Map<Seq<Seq<char>>, TomlItem>,
    edits: Seq<ConfigEditView>,
    n: int,
)
    requires
        0 <= n <= edits.len(),
        after_edits(items, edits.take(n)) is Err,
    ensures
        after_edits(items, edits) == after_edits(items, edits.take(n)),
    decreases edits.len() - n,
{
    if n < edits.len() {
        assert(edits.take(n + 1).drop_last() == edits.take(n));
        lemma_edits_stop(items, edits, n + 1);
    } else {
        assert(edits.take(n) == edits);
    }
}

/// A key that is set holds what it was set to, and everything else stays as it
/// was.
pub proof fn lemma_set_key(
    items: Map<Seq<Seq<char>>, TomlItem>,
    section: Seq<char>,
    key: Seq<char>,
    item: TomlItem,
    other: Seq<Seq<char>>,
)
    requires
        open_section(items, section),
    ensures
        ({
            let edited = put_in_section(items, section, key, item);
            &&& after_edit(items, (ConfigEditView::SetKey { section, key, item })) == Ok::<
                Map<Seq<Seq<char>>, TomlItem>,
                EditFault,
            >(edited)
            &&& edited.contains_key(seq![section, key])
            &&& edited[seq![section, key]] == item
            &&& table_at(edited, seq![section])
            &&& !seq![section, key].is_prefix_of(other) && other != seq![section] ==> (
            edited.contains_key(other) == items.contains_key(other) && (items.contains_key(other)
                ==> edited[other] == items[other]))
        }),
{
    assert(seq![section].len() == 1 && seq![section, key].len() == 2);
    assert(!seq![section, key].is_prefix_of(seq![section]));
}

/// A key of a nested table that is set holds its new text, one that is removed is
/// gone, and everything else stays as it was.
pub proof fn lemma_set_nested(
    items: Map<Seq<Seq<char>>, TomlItem>,
    section: Seq<char>,
    table: Seq<char>,
    key: Seq<char>,
    value: Option<Seq<char>>,
    other: Seq<Seq<char>>,
)
    ensures
        match after_edit(items, (ConfigEditView::SetNested { section, table, key, value })) {
            Ok(edited) => {
                &&& match value {
                    Some(text) => edited.contains_key(seq![section, table, key]) && edited[seq![
                        section,
                        table,
                        key,
                    ]] == TomlItem::Text(text),
                    None => !edited.contains_key(seq![section, table, key]),
                }
                &&& table_at(edited, seq![section, table])
                &&& !seq![section, table].is_prefix_of(other) ==> (edited.contains_key(other)
                    == items.contains_key(other) && (items.contains_key(other) ==> edited[other]
                    == items[other]))
            },
            Err(_) => true,
        },
{
    let inner = seq![section, table, key];
    let outer = seq![section, table];
    assert(inner.len() == 3 && outer.len() == 2);
    assert(!inner.is_prefix_of(outer));
    if inner.is_prefix_of(other) {
        assert(outer == inner.take(2));
        assert(outer.is_prefix_of(other));
    }
    if other == inner {
        assert(outer.is_prefix_of(other));
    }
    if other == outer {
        assert(outer.is_prefix_of(other));
    }
}

/// The key that an edit sets in a section.
pub open spec fn sets_in(edit: ConfigEditView, section: Seq<char>) -> bool {
    edit matches ConfigEditView::SetKey { section: s, .. } && s == section
}

/// Edits of different keys of one section all take hold.
pub proof fn lemma_keys_set(
    items: Map<Seq<Seq<char>>, TomlItem>,
    section: Seq<char>,
    edits: Seq<ConfigEditView>,
)
    requires
        open_section(items, section),
        forall|i: int| 0 <= i < edits.len() ==> sets_in(#[trigger] edits[i], section),
        forall|i: int, j: int|
            0 <= i < j < edits.len() ==> (#[trigger] edits[i])->SetKey_key != (
            #[trigger] edits[j])->SetKey_key,
    ensures
        after_edits(items, edits) is Ok,
        open_section(after_edits(items, edits)->Ok_0, section),
        forall|i: int|
            #![trigger edits[i]]
            0 <= i < edits.len() ==> after_edits(items, edits)->Ok_0.contains_key(
                seq![section, edits[i]->SetKey_key],
            ) && after_edits(items, edits)->Ok_0[seq![section, edits[i]->SetKey_key]]
                == edits[i]->item,
    decreases edits.len(),
{
    if edits.len() > 0 {
        let rest = edits.drop_last();
        assert forall|i: int| 0 <= i < rest.len() implies sets_in(#[trigger] rest[i], section) by {
            assert(rest[i] == edits[i]);
        }
        assert forall|i: int, j: int| 0 <= i < j < rest.len() implies (
        #[trigger] rest[i])->SetKey_key != (#[trigger] rest[j])->SetKey_key by {
            assert(rest[i] == edits[i] && rest[j] == edits[j]);
        }
        lemma_keys_set(items, section, rest);
        let before = after_edits(items, rest)->Ok_0;
        let n: int = edits.len() - 1;
        assert(sets_in(edits[n], section));
        let key = edits[n]->SetKey_key;
        lemma_set_key(before, section, key, edits[n]->item, seq![section]);
        let after = after_edits(items, edits)->Ok_0;
        assert(edits[n] == (ConfigEditView::SetKey { section, key, item: edits[n]->item }));
        assert(edits.last() == edits[n]);
        assert forall|i: int|
            #![trigger edits[i]]
            0 <= i < edits.len() implies after.contains_key(seq![section, edits[i]->SetKey_key])
            && after[seq![section, edits[i]->SetKey_key]] == edits[i]->item by {
            if i < n {
                assert(rest[i] == edits[i]);
                let other = seq![section, edits[i]->SetKey_key];
                assert(edits[i]->SetKey_key != edits[n]->SetKey_key);
                assert(other.len() == 2 && other[1] == edits[i]->SetKey_key);
                assert(seq![section, key].len() == 2 && seq![section, key][1] == key);
                if seq![section, key].is_prefix_of(other) {
                    assert(seq![section, key][1] == other[1]);
                }
                assert(other.len() != seq![section].len());
                lemma_set_key(before, section, key, edits[n]->item, other);
            }
        }
    }
}

/// A text that reads as items of which no table was emptied reads exactly as these
/// items.
pub proof fn lemma_reads_exactly(text: Seq<char>, items: Map<Seq<Seq<char>>, TomlItem>)
    requires
        reads_as(text, items, Set::empty()),
    ensures
        text_items(text) == Some(items),
{
    let lost = choose|lost: Set<Seq<Seq<char>>>| #[trigger]
        lost.subset_of(Set::empty()) && text_items(text) == Some(items.remove_keys(lost));
    assert(items.remove_keys(lost) =~= items);
}

/// A key that was set is read back from the saved text as what it was set to, and every
/// other key outside of it as it was.
pub proof fn lemma_saved_key_is_read(
    text: Seq<char>,
    defaults: Seq<char>,
    section: Seq<char>,
    key: Seq<char>,
    item: TomlItem,
    out: Seq<char>,
    other: Seq<Seq<char>>,
)
    requires
        saved_as(text, defaults, seq![ConfigEditView::SetKey { section, key, item }], out),
        !seq![section, key].is_prefix_of(other),
        other != seq![section],
    ensures
        ({
            let filled = filled_items(text, defaults)->Ok_0;
            let read = text_items(out)->0;
            &&& text_items(out) is Some
            &&& read.contains_key(seq![section, key])
            &&& read[seq![section, key]] == item
            &&& read.contains_key(other) == filled.contains_key(other)
            &&& filled.contains_key(other) ==> read[other] == filled[other]
        }),
{
    let filled = filled_items(text, defaults)->Ok_0;
    let edit = ConfigEditView::SetKey { section, key, item };
    lemma_one_edit(filled, edit);
    assert(emptied_by(filled, seq![edit]) =~= Set::<Seq<Seq<char>>>::empty());
    lemma_reads_exactly(out, after_edit(filled, edit)->Ok_0);
    lemma_set_key(filled, section, key, item, other);
}

proof fn lemma_one_edit(items: Map<Seq<Seq<char>>, TomlItem>, edit: ConfigEditView)
    ensures
        after_edits(items, seq![edit]) == after_edit(items, edit),
        edits_bare(items, seq![edit]) == edit_bares(items, Set::empty(), edit),
        emptied_by(items, seq![edit]) == then_emptied(items, Set::empty(), edit),
{
    let edits = seq![edit];
    assert(edits.drop_last() =~= Seq::<ConfigEditView>::empty());
    assert(edits.last() == edit);
    assert(after_edits(items, edits.drop_last()) == Ok::<Map<Seq<Seq<char>>, TomlItem>, EditFault>(
        items,
    ));
    assert(!edits_bare(items, edits.drop_last()));
    assert(emptied_by(items, edits.drop_last()) == Set::<Seq<Seq<char>>>::empty());
}

/// A key of a nested table that was set is read back from the saved text as its new
/// text, and one that was removed is gone, even when it was the last of its table, as
/// long as its section keeps another key. Everything outside of the table is read as it
/// was.
pub proof fn lemma_saved_nested_is_read(
    text: Seq<char>,
    defaults: Seq<char>,
    section: Seq<char>,
    table: Seq<char>,
    key: Seq<char>,
    value: Option<Seq<char>>,
    out: Seq<char>,
    other: Seq<Seq<char>>,
)
    requires
        saved_as(
            text,
            defaults,
            seq![ConfigEditView::SetNested { section, table, key, value }],
            out,
        ),
        value is None ==> section_keeps(
            filled_items(text, defaults)->Ok_0,
            Set::empty(),
            section,
            table,
        ),
        !seq![section, table].is_prefix_of(other),
    ensures
        ({
            let filled = filled_items(text, defaults)->Ok_0;
            let read = text_items(out)->0;
            &&& text_items(out) is Some
            &&& match value {
                Some(text) => read.contains_key(seq![section, table, key]) && read[seq![
                    section,
                    table,
                    key,
                ]] == TomlItem::Text(text),
                None => !read.contains_key(seq![section, table, key]),
            }
            &&& read.contains_key(other) == filled.contains_key(other)
            &&& filled.contains_key(other) ==> read[other] == filled[other]
        }),
{
    let filled = filled_items(text, defaults)->Ok_0;
    let edit = ConfigEditView::SetNested { section, table, key, value };
    lemma_one_edit(filled, edit);
    lemma_set_nested(filled, section, table, key, value, other);
    let items = after_edit(filled, edit)->Ok_0;
    let emptied = then_emptied(filled, Set::empty(), edit);
    let lost = choose|lost: Set<Seq<Seq<char>>>| #[trigger]
        lost.subset_of(emptied) && text_items(out) == Some(items.remove_keys(lost));
    assert(!lost.contains(other)) by {
        if lost.contains(other) {
            assert(emptied.contains(other));
            assert(seq![section, table].is_prefix_of(other));
        }
    }
    if value is Some {
        assert(!lost.contains(seq![section, table, key])) by {
            if lost.contains(seq![section, table, key]) {
                assert(emptied.contains(seq![section, table, key]));
            }
        }
    }
}

/// A key of a section can be set unless something other than a table stands where the section
/// should. A key of a nested table can be set or removed exactly when its section is a table
/// and the nested table is one or is not there yet.
pub proof fn lemma_edit_succeeds(items: Map<Seq<Seq<char>>, TomlItem>, edit: ConfigEditView)
    ensures
        edit matches ConfigEditView::SetKey { section, key, item } ==> (after_edit(
            items,
            edit,
        ) is Ok <==> !items.contains_key(seq![section]) || items[seq![section]] is Table),
        edit matches ConfigEditView::SetNested { section, table, key, value } ==> (after_edit(
            items,
            edit,
        ) is Ok <==> {
            &&& items.contains_key(seq![section])
            &&& items[seq![section]] is Table
            &&& items.contains_key(seq![section, table]) ==> items[seq![section, table]] is Table
        }),
        after_edit(items, edit) matches Err(fault) ==> fault is NotATable,
{
    if edit is SetNested {
        let outer = seq![edit->SetNested_section, edit->table];
        let ready = put(items, outer, TomlItem::Table);
        assert(ready.contains_key(outer) && ready[outer] is Table);
    }
}

/// Setting or removing a key of a nested table leaves the other keys of that table.
pub proof fn lemma_nested_siblings(
    items: Map<Seq<Seq<char>>, TomlItem>,
    section: Seq<char>,
    table: Seq<char>,
    key: Seq<char>,
    value: Option<Seq<char>>,
    other: Seq<Seq<char>>,
)
    requires
        items.contains_key(seq![section, table]),
        !seq![section, table, key].is_prefix_of(other),
    ensures
        after_edit(items, (ConfigEditView::SetNested { section, table, key, value })) matches Ok(
            edited,
        ) ==> edited.contains_key(other) == items.contains_key(other) && (items.contains_key(other)
            ==> edited[other] == items[other]),
{
    let inner = seq![section, table, key];
    if other == inner {
        assert(inner.is_prefix_of(other));
    }
}

/// Edits stop at the first that fails, with its fault; edits that all succeed build on each
/// other.
pub proof fn lemma_edits_in_order(
    items: Map<Seq<Seq<char>>, TomlItem>,
    edits: Seq<ConfigEditView>,
    edit: ConfigEditView,
)
    ensures
        after_edits(items, Seq::empty()) == Ok::<Map<Seq<Seq<char>>, TomlItem>, EditFault>(items),
        after_edits(items, edits) matches Ok(edited) ==> after_edits(items, edits.push(edit))
            == after_edit(edited, edit),
        after_edits(items, edits) is Err ==> after_edits(items, edits.push(edit)) == after_edits(
            items,
            edits,
        ),
{
    assert(edits.push(edit).drop_last() =~= edits);
}

#[verifier::spinoff_prover]
#[verifier::rlimit(30)]
proof fn lemma_sections_filled(
    items: Map<Seq<Seq<char>>, TomlItem>,
    defaults: Map<Seq<Seq<char>>, TomlItem>,
    sections: Seq<Seq<char>>,
)
    requires
        forall|i: int, j: int|
            0 <= i < j < sections.len() ==> (#[trigger] sections[i]) != (#[trigger] sections[j]),
    ensures
        match with_default_sections(items, defaults, sections) {
            Ok(filled) => {
                &&& forall|i: int|
                    0 <= i < sections.len() ==> items.contains_key(seq![#[trigger] sections[i]])
                        || defaults.contains_key(seq![sections[i]])
                &&& forall|p: Seq<Seq<char>>|
                    p.len() == 0 || !sections.contains(p[0]) || items.contains_key(seq![p[0]])
                        ==> (#[trigger] filled.contains_key(p) <==> items.contains_key(p)) && (
                    items.contains_key(p) ==> filled[p] == items[p])
                &&& forall|p: Seq<Seq<char>>|
                    p.len() > 0 && sections.contains(p[0]) && !items.contains_key(seq![p[0]])
                        && defaults.contains_key(p) ==> #[trigger] filled.contains_key(p)
                        && filled[p] == defaults[p]
            },
            Err(fault) => exists|i: int|
                0 <= i < sections.len() && !items.contains_key(seq![#[trigger] sections[i]])
                    && !defaults.contains_key(seq![sections[i]]) && fault
                    == EditFault::MissingSection(sections[i]),
        },
    decreases sections.len(),
{
    if sections.len() > 0 {
        let before = sections.drop_last();
        let last: int = sections.len() - 1;
        let name = sections[last];
        assert forall|i: int| 0 <= i < before.len() implies #[trigger] sections[i]
            == before[i] by {}
        assert forall|i: int, j: int| 0 <= i < j < before.len() implies (#[trigger] before[i]) != (
        #[trigger] before[j]) by {
            assert(sections[i] != sections[j]);
        }
        lemma_sections_filled(items, defaults, before);
        assert(!before.contains(name)) by {
            if before.contains(name) {
                let i = choose|i: int| 0 <= i < before.len() && before[i] == name;
                assert(sections[i] != sections[last]);
            }
        }
        match with_default_sections(items, defaults, before) {
            Ok(held) => {
                let here = seq![name];
                assert(here[0] == name);
                assert(held.contains_key(here) <==> items.contains_key(here));
                match with_default_sections(items, defaults, sections) {
                    Ok(filled) => {
                        assert forall|i: int| 0 <= i < sections.len() implies items.contains_key(
                            seq![#[trigger] sections[i]],
                        ) || defaults.contains_key(seq![sections[i]]) by {
                            if i < last {
                                assert(before[i] == sections[i]);
                            }
                        }
                        assert forall|p: Seq<Seq<char>>|
                            p.len() == 0 || !sections.contains(p[0]) || items.contains_key(
                                seq![p[0]],
                            ) implies (#[trigger] filled.contains_key(p) <==> items.contains_key(
                            p,
                        )) && (items.contains_key(p) ==> filled[p] == items[p]) by {
                            assert(held.contains_key(p) <==> items.contains_key(p)) by {
                                if p.len() > 0 && before.contains(p[0]) {
                                    let i = choose|i: int|
                                        0 <= i < before.len() && before[i] == p[0];
                                    assert(sections[i] == p[0]);
                                }
                            }
                            if p.len() > 0 && p[0] == name {
                                assert(sections[last] == p[0]);
                            }
                            assert(filled.contains_key(p) <==> held.contains_key(p)) by {
                                if here.is_prefix_of(p) {
                                    assert(p[0] == here[0]);
                                }
                            }
                            if p.len() > 0 && before.contains(p[0]) {
                                let i = choose|i: int| 0 <= i < before.len() && before[i] == p[0];
                                assert(sections[i] == p[0]);
                            }
                            if here.is_prefix_of(p) {
                                assert(p[0] == here[0]);
                            }
                        }
                        assert forall|p: Seq<Seq<char>>|
                            p.len() > 0 && sections.contains(p[0]) && !items.contains_key(
                                seq![p[0]],
                            ) && defaults.contains_key(p) implies #[trigger] filled.contains_key(p)
                            && filled[p] == defaults[p] by {
                            if p[0] == name {
                                assert(here == seq![p[0]]);
                                assert(p.take(1) =~= here);
                                assert(here.is_prefix_of(p));
                            } else {
                                let i = choose|i: int|
                                    0 <= i < sections.len() && sections[i] == p[0];
                                assert(before[i] == p[0]);
                                assert(held.contains_key(p));
                                if here.is_prefix_of(p) {
                                    assert(p[0] == here[0]);
                                }
                            }
                        }
                    },
                    Err(_) => {
                        assert(sections[last] == sections.last());
                    },
                }
            },
            Err(fault) => {
                let i = choose|i: int|
                    0 <= i < before.len() && !items.contains_key(seq![#[trigger] before[i]])
                        && !defaults.contains_key(seq![before[i]]) && fault
                        == EditFault::MissingSection(before[i]);
                assert(sections[i] == before[i]);
            },
        }
    }
}

/// A configuration is completed by what it lacks: what stands in one of its own sections
/// stays as it is, and a section that is missing is taken from the defaults. It fails only
/// for a section that neither has.
#[verifier::spinoff_prover]
#[verifier::rlimit(30)]
pub proof fn lemma_missing_sections_filled(text: Seq<char>, defaults: Seq<char>)
    requires
        text_items(text) is Some,
        text_items(defaults) is Some,
    ensures
        ({
            let items = text_items(text)->0;
            let given = text_items(defaults)->0;
            let names = seq!["presets"@, "hotkey"@, "mission"@, "window"@];
            match filled_items(text, defaults) {
                Ok(filled) => {
                    &&& forall|p: Seq<Seq<char>>|
                        p.len() == 0 || !names.contains(p[0]) || items.contains_key(seq![p[0]])
                            ==> (#[trigger] filled.contains_key(p) <==> items.contains_key(p)) && (
                        items.contains_key(p) ==> filled[p] == items[p])
                    &&& forall|p: Seq<Seq<char>>|
                        p.len() > 0 && names.contains(p[0]) && !items.contains_key(seq![p[0]])
                            && given.contains_key(p) ==> #[trigger] filled.contains_key(p)
                            && filled[p] == given[p]
                },
                Err(fault) => exists|i: int|
                    0 <= i < 4 && !items.contains_key(seq![#[trigger] names[i]])
                        && !given.contains_key(seq![names[i]]) && fault
                        == EditFault::MissingSection(names[i]),
            }
        }),
{
    reveal_strlit("presets");
    reveal_strlit("hotkey");
    reveal_strlit("mission");
    reveal_strlit("window");
    let names = section_names();
    assert("presets"@[0] == 'p' && "hotkey"@[0] == 'h' && "mission"@[0] == 'm' && "window"@[0]
        == 'w');
    assert forall|i: int, j: int| 0 <= i < j < names.len() implies (#[trigger] names[i]) != (
    #[trigger] names[j]) by {
        assert(names[i][0] != names[j][0]);
    }
    lemma_sections_filled(text_items(text)->0, text_items(defaults)->0, names);
}

} // verus!
