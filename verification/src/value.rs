//! The tree of a parsed TOML value and its mathematical model.
use vstd::prelude::*;
use crate::error::Span;
use crate::integer::TomlInteger;
use crate::datetime::DatetimeParts;
use crate::env::{EnvVar, opt_view};

verus! {

/// A float literal, kept as its text with the underscores removed (for
/// example `-1.5e3`, `inf`, `+nan`).
#[derive(Debug)]
pub struct TomlFloat {
    pub text: Vec<u8>,
}

/// The text of a string value: borrowed from the input when the string's
/// text is exactly the input's bytes between its delimiters, owned when
/// reading it changed something (an escape, a trimmed line ending).
#[derive(Debug)]
pub enum Text<'a> {
    Borrowed(&'a str),
    Owned(String),
}

impl<'a> Text<'a> {
    /// The characters of the text.
    pub open spec fn chars(&self) -> Seq<char> {
        match self {
            Text::Borrowed(s) => s@,
            Text::Owned(s) => s@,
        }
    }

    /// Whether the text is borrowed from the input.
    pub open spec fn is_borrowed(&self) -> bool {
        self is Borrowed
    }

    /// The text as a string slice.
    pub fn as_str(&self) -> (r: &str)
        ensures
            r@ == self.chars(),
    {
        match self {
            Text::Borrowed(s) => s,
            Text::Owned(s) => s.as_str(),
        }
    }
}

/// A parsed TOML value; strings may borrow from the input `'a`.
#[derive(Debug)]
pub enum TomlValue<'a> {
    String(Text<'a>),
    Integer(TomlInteger),
    Float(TomlFloat),
    Boolean(bool),
    Datetime(DatetimeParts),
    Array(Vec<SpannedValue<'a>>),
    Table(Vec<TableEntry<'a>>),
    EnvVar(EnvVar),
}

/// A value together with the byte range it was read from.
#[derive(Debug)]
pub struct SpannedValue<'a> {
    pub value: TomlValue<'a>,
    pub span: Span,
}

/// An entry of a table: its key, the key's range, and its value.
/// `implicit` marks a table that only exists because a dotted key
/// (`a.b = 1`) named it.
#[derive(Debug)]
pub struct TableEntry<'a> {
    pub key: String,
    pub key_span: Span,
    pub item: SpannedValue<'a>,
    pub implicit: bool,
}

/// The model of a value: strings as characters and whether they are
/// borrowed from the input, integers as sign, radix
/// and digits, floats as their text.
pub enum ValueModel {
    String(Seq<char>, bool),
    Integer(bool, u32, Seq<u8>),
    Float(Seq<u8>),
    Boolean(bool),
    Datetime(DatetimeParts),
    Array(Seq<ItemModel>),
    Table(Seq<EntryModel>),
    EnvVar(Seq<char>, Option<Seq<char>>),
}

/// The model of a value with its range.
pub struct ItemModel {
    pub value: ValueModel,
    pub span: Span,
}

/// The model of a table entry.
pub struct EntryModel {
    pub key: Seq<char>,
    pub key_span: Span,
    pub item: ItemModel,
    pub implicit: bool,
}

impl<'a> TomlValue<'a> {
    /// The model of the value.
    pub open spec fn model(&self) -> ValueModel
        decreases self,
    {
        match self {
            TomlValue::String(t) => ValueModel::String(t.chars(), t.is_borrowed()),
            TomlValue::Integer(i) => ValueModel::Integer(i.negative, i.radix, i.digits@),
            TomlValue::Float(f) => ValueModel::Float(f.text@),
            TomlValue::Boolean(b) => ValueModel::Boolean(*b),
            TomlValue::Datetime(d) => ValueModel::Datetime(*d),
            TomlValue::Array(items) => ValueModel::Array(items_model(items@)),
            TomlValue::Table(entries) => ValueModel::Table(entries_model(entries@)),
            TomlValue::EnvVar(v) => ValueModel::EnvVar(v.name@, opt_view(v.default)),
        }
    }

    /// Integers have a TOML radix and digits below it.
    pub open spec fn wf(&self) -> bool
        decreases self,
    {
        match self {
            TomlValue::Integer(i) => i.wf(),
            TomlValue::Array(items) => items_wf(items@),
            TomlValue::Table(entries) => entries_wf(entries@),
            _ => true,
        }
    }
}

/// The models of a sequence of spanned values.
pub open spec fn items_model<'a>(items: Seq<SpannedValue<'a>>) -> Seq<ItemModel>
    decreases items,
{
    if items.len() == 0 {
        seq![]
    } else {
        let last = items[items.len() - 1];
        items_model(items.subrange(0, items.len() - 1)).push(
            ItemModel { value: last.value.model(), span: last.span },
        )
    }
}

/// The models of a sequence of table entries.
pub open spec fn entries_model<'a>(entries: Seq<TableEntry<'a>>) -> Seq<EntryModel>
    decreases entries,
{
    if entries.len() == 0 {
        seq![]
    } else {
        let last = entries[entries.len() - 1];
        entries_model(entries.subrange(0, entries.len() - 1)).push(
            EntryModel {
                key: last.key@,
                key_span: last.key_span,
                item: ItemModel { value: last.item.value.model(), span: last.item.span },
                implicit: last.implicit,
            },
        )
    }
}

/// Every value of the sequence is well formed.
pub open spec fn items_wf<'a>(items: Seq<SpannedValue<'a>>) -> bool
    decreases items,
{
    if items.len() == 0 {
        true
    } else {
        items_wf(items.subrange(0, items.len() - 1)) && items[items.len() - 1].value.wf()
    }
}

/// Every value of the table is well formed.
pub open spec fn entries_wf<'a>(entries: Seq<TableEntry<'a>>) -> bool
    decreases entries,
{
    if entries.len() == 0 {
        true
    } else {
        entries_wf(entries.subrange(0, entries.len() - 1)) && entries[entries.len()
            - 1].item.value.wf()
    }
}

/// The model of one spanned value.
pub open spec fn item_model<'a>(v: SpannedValue<'a>) -> ItemModel {
    ItemModel { value: v.value.model(), span: v.span }
}

/// The model of one table entry.
pub open spec fn entry_model<'a>(e: TableEntry<'a>) -> EntryModel {
    EntryModel { key: e.key@, key_span: e.key_span, item: item_model(e.item), implicit: e.implicit }
}

} // verus!

verus! {

/// Pushing a value pushes its model.
pub proof fn lemma_items_model_push<'a>(items: Seq<SpannedValue<'a>>, v: SpannedValue<'a>)
    ensures
        items_model(items.push(v)) == items_model(items).push(item_model(v)),
        items_wf(items.push(v)) == (items_wf(items) && v.value.wf()),
{
    assert(items.push(v).subrange(0, items.len() as int) =~= items);
}

/// The models of a table line up with the table.
pub proof fn lemma_entries_model<'a>(entries: Seq<TableEntry<'a>>)
    ensures
        entries_model(entries).len() == entries.len(),
        forall|k: int|
            0 <= k < entries.len() ==> #[trigger] entries_model(entries)[k] == entry_model(entries[k]),
    decreases entries.len(),
{
    if entries.len() > 0 {
        let p = entries.subrange(0, entries.len() - 1);
        lemma_entries_model(p);
        assert forall|k: int| 0 <= k < entries.len() implies #[trigger] entries_model(entries)[k]
            == entry_model(entries[k]) by {
            if k < entries.len() - 1 {
                assert(entries[k] == p[k]);
            }
        }
    }
}

/// A table is well formed exactly when each of its values is.
pub proof fn lemma_entries_wf<'a>(entries: Seq<TableEntry<'a>>)
    ensures
        entries_wf(entries) <==> forall|k: int|
            0 <= k < entries.len() ==> (#[trigger] entries[k]).item.value.wf(),
    decreases entries.len(),
{
    if entries.len() > 0 {
        let p = entries.subrange(0, entries.len() - 1);
        lemma_entries_wf(p);
        assert forall|k: int| 0 <= k < entries.len() - 1 implies #[trigger] p[k] == entries[k] by {}
        if entries_wf(entries) {
            assert forall|k: int| 0 <= k < entries.len() implies (#[trigger] entries[k]).item.value.wf() by {
                if k < entries.len() - 1 {
                    assert(p[k] == entries[k]);
                }
            }
        }
        if forall|k: int| 0 <= k < entries.len() ==> (#[trigger] entries[k]).item.value.wf() {
            assert forall|k: int| 0 <= k < p.len() implies (#[trigger] p[k]).item.value.wf() by {
                assert(p[k] == entries[k]);
            }
        }
    }
}

} // verus!
