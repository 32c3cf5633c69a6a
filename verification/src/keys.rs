//! Checking the keys of a table against the fields of a struct.
use vstd::prelude::*;
use crate::error::{Error, Span};
use crate::value::{TableEntry, EntryModel, entries_model, entry_model, lemma_entries_model};
use crate::text::same_text;

verus! {

/// The texts of a list of names.
pub open spec fn names_view(names: Seq<&str>) -> Seq<Seq<char>> {
    names.map_values(|n: &str| n@)
}

/// The entries whose key is none of `fields`, in table order.
pub open spec fn extra_entries(entries: Seq<EntryModel>, fields: Seq<Seq<char>>) -> Seq<EntryModel>
    decreases entries.len(),
{
    if entries.len() == 0 {
        seq![]
    } else {
        let rest = extra_entries(entries.drop_last(), fields);
        if fields.contains(entries.last().key) {
            rest
        } else {
            rest.push(entries.last())
        }
    }
}

/// No entry is extra exactly when every key is one of the fields.
pub proof fn lemma_no_extra_entries(entries: Seq<EntryModel>, fields: Seq<Seq<char>>)
    ensures
        extra_entries(entries, fields).len() == 0 <==> forall|k: int|
            0 <= k < entries.len() ==> fields.contains(#[trigger] entries[k].key),
    decreases entries.len(),
{
    if entries.len() > 0 {
        let p = entries.drop_last();
        lemma_no_extra_entries(p, fields);
        assert forall|k: int| 0 <= k < p.len() implies #[trigger] p[k] == entries[k] by {}
        if forall|k: int| 0 <= k < entries.len() ==> fields.contains(#[trigger] entries[k].key) {
            assert forall|k: int| 0 <= k < p.len() implies fields.contains(#[trigger] p[k].key) by {
                assert(p[k] == entries[k]);
            }
        }
        if extra_entries(entries, fields).len() == 0 {
            assert forall|k: int| 0 <= k < entries.len() implies fields.contains(#[trigger] entries[k].key) by {
                if k < p.len() {
                    assert(p[k] == entries[k]);
                }
            }
        }
    }
}

/// The keys of some entries.
pub open spec fn keys_of(entries: Seq<EntryModel>) -> Seq<Seq<char>> {
    entries.map_values(|e: EntryModel| e.key)
}

/// The parts joined with `sep` between each two.
pub open spec fn join(parts: Seq<Seq<char>>, sep: Seq<char>) -> Seq<char>
    decreases parts.len(),
{
    if parts.len() == 0 {
        seq![]
    } else if parts.len() == 1 {
        parts[0]
    } else {
        join(parts.drop_last(), sep) + sep + parts.last()
    }
}

/// The message for keys that match no field.
pub open spec fn unexpected_keys_message(extra: Seq<Seq<char>>, fields: Seq<Seq<char>>) -> Seq<char> {
    "unexpected keys in table: "@ + join(extra, ", "@) + ", available keys: "@ + join(fields, ", "@)
}

/// Joins `parts` with `sep`.
pub fn join_strings(parts: &Vec<String>, sep: &str) -> (res: String)
    ensures
        res@ == join(parts@.map_values(|p: String| p@), sep@),
{
    let ghost pv = parts@.map_values(|p: String| p@);
    let mut res = String::new();
    let mut i: usize = 0;
    while i < parts.len()
        invariant
            i <= parts@.len(),
            pv == parts@.map_values(|p: String| p@),
            res@ == join(pv.take(i as int), sep@),
        decreases parts@.len() - i,
    {
        proof {
            assert(pv.take(i + 1).drop_last() =~= pv.take(i as int));
            assert(pv.take(i + 1).last() == parts@[i as int]@);
        }
        if i > 0 {
            res.append(sep);
        } else {
            assert(res@ + parts@[i as int]@ =~= parts@[i as int]@);
        }
        res.append(parts[i].as_str());
        i = i + 1;
    }
    proof {
        assert(pv.take(parts@.len() as int) =~= pv);
    }
    res
}

/// Joins `parts` with `sep`.
pub fn join_strs(parts: &[&str], sep: &str) -> (res: String)
    ensures
        res@ == join(names_view(parts@), sep@),
{
    let ghost pv = names_view(parts@);
    let mut res = String::new();
    let mut i: usize = 0;
    while i < parts.len()
        invariant
            i <= parts@.len(),
            pv == names_view(parts@),
            res@ == join(pv.take(i as int), sep@),
        decreases parts@.len() - i,
    {
        proof {
            assert(pv.take(i + 1).drop_last() =~= pv.take(i as int));
            assert(pv.take(i + 1).last() == parts@[i as int]@);
        }
        if i > 0 {
            res.append(sep);
        } else {
            assert(res@ + parts@[i as int]@ =~= parts@[i as int]@);
        }
        res.append(parts[i]);
        i = i + 1;
    }
    proof {
        assert(pv.take(parts@.len() as int) =~= pv);
    }
    res
}

/// Whether `key` is one of `fields`.
pub fn is_field(key: &str, fields: &[&str]) -> (res: bool)
    ensures
        res == names_view(fields@).contains(key@),
{
    let ghost fv = names_view(fields@);
    let mut i: usize = 0;
    while i < fields.len()
        invariant
            i <= fields@.len(),
            fv == names_view(fields@),
            forall|k: int| 0 <= k < i ==> fv[k] != key@,
        decreases fields@.len() - i,
    {
        if same_text(fields[i], key) {
            assert(fv[i as int] == key@);
            return true;
        }
        i = i + 1;
    }
    false
}

/// Checks that every key of `table` is one of `fields`. Otherwise the error
/// lists the unexpected keys (in table order) and the available ones, and
/// points at the first unexpected key.
pub fn validate_struct_keys(table: &Vec<TableEntry<'_>>, fields: &[&str]) -> (res: Result<(), Error>)
    ensures
        ({
            let extra = extra_entries(entries_model(table@), names_view(fields@));
            &&& res is Ok <==> extra.len() == 0
            &&& res is Ok <==> forall|k: int| 0 <= k < table@.len() ==> names_view(fields@).contains(
                #[trigger] table@[k].key@)
            &&& res matches Err(e) ==> e.message@ == unexpected_keys_message(keys_of(extra), names_view(fields@))
                && e.span == Some(extra[0].key_span)
        }),
{
    let ghost em = entries_model(table@);
    let ghost fv = names_view(fields@);
    proof {
        lemma_entries_model(table@);
    }
    let mut extra: Vec<String> = Vec::new();
    let mut first_span: Option<Span> = None;
    let mut i: usize = 0;
    while i < table.len()
        invariant
            i <= table@.len(),
            em == entries_model(table@),
            em.len() == table@.len(),
            forall|k: int| 0 <= k < table@.len() ==> #[trigger] em[k] == entry_model(table@[k]),
            fv == names_view(fields@),
            extra@.map_values(|p: String| p@) == keys_of(extra_entries(em.take(i as int), fv)),
            first_span is None <==> extra_entries(em.take(i as int), fv).len() == 0,
            first_span matches Some(sp) ==> extra_entries(em.take(i as int), fv).len() > 0 && sp
                == extra_entries(em.take(i as int), fv)[0].key_span,
        decreases table@.len() - i,
    {
        let ghost prev = extra_entries(em.take(i as int), fv);
        proof {
            assert(em.take(i + 1).drop_last() =~= em.take(i as int));
            assert(em.take(i + 1).last() == em[i as int]);
        }
        let key = &table[i].key;
        if !is_field(key.as_str(), fields) {
            let ghost before = extra@;
            extra.push(key.clone());
            proof {
                assert(extra@.map_values(|p: String| p@) =~= before.map_values(|p: String| p@).push(em[i as int].key));
                assert(keys_of(prev.push(em[i as int])) =~= keys_of(prev).push(em[i as int].key));
            }
            if first_span.is_none() {
                first_span = Some(table[i].key_span);
            }
        }
        i = i + 1;
    }
    proof {
        assert(em.take(table@.len() as int) =~= em);
        lemma_no_extra_entries(em, fv);
        assert forall|k: int| 0 <= k < table@.len() implies em[k].key == #[trigger] table@[k].key@ by {}
    }
    match first_span {
        None => Ok(()),
        Some(sp) => {
            let mut msg = String::from_str("unexpected keys in table: ");
            let listed = join_strings(&extra, ", ");
            msg.append(listed.as_str());
            msg.append(", available keys: ");
            let avail = join_strs(fields, ", ");
            msg.append(avail.as_str());
            Err(Error::custom(msg, Some(sp)))
        },
    }
}

} // verus!
