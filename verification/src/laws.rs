//! What holds of saving and loading together, stated over the outline that a
//! saved registry has.

use vstd::prelude::*;
use crate::module::ModuleView;
use crate::reader::{
    all_texts, document_outcome, find_field, load_outcome, loaded, module_of, parsed_outline,
    EntryView, FieldView, LoadError, OutlineView,
};
use crate::writer::{document, element, text_elements};

verus! {

/// The text that an element holds when `t` was written into it: none where
/// `t` is empty, since nothing was written then.
pub open spec fn held_text(t: Seq<char>) -> Option<Seq<char>> {
    if t.len() == 0 {
        None
    } else {
        Some(t)
    }
}

/// The element that holds a list of entries.
pub open spec fn list_field(name: Seq<char>, entries: Seq<Seq<char>>) -> FieldView {
    FieldView { name, text: None, items: Seq::new(entries.len(), |i: int| held_text(entries[i])) }
}

/// The `module` element that a module is saved as.
pub open spec fn entry_of(m: ModuleView) -> EntryView {
    EntryView {
        name: "module"@,
        fields: seq![
            FieldView { name: "name"@, text: held_text(m.name), items: Seq::empty() },
            list_field("inputs"@, m.inputs),
            list_field("outputs"@, m.outputs),
        ],
    }
}

/// The `module` elements that a list of modules is saved as.
pub open spec fn entries_of(ms: Seq<ModuleView>) -> Seq<EntryView> {
    Seq::new(ms.len(), |i: int| entry_of(ms[i]))
}

/// The outline of the document that a list of modules is saved as.
pub open spec fn outline_of(ms: Seq<ModuleView>) -> OutlineView {
    OutlineView { name: "modules"@, entries: entries_of(ms) }
}

/// Whether the name and every entry of a module hold at least one character.
pub open spec fn texts_present(m: ModuleView) -> bool {
    &&& m.name.len() > 0
    &&& forall|i: int| 0 <= i < m.inputs.len() ==> (#[trigger] m.inputs[i]).len() > 0
    &&& forall|i: int| 0 <= i < m.outputs.len() ==> (#[trigger] m.outputs[i]).len() > 0
}

/// The children of the root that are called `module`, in order.
pub open spec fn module_entries(entries: Seq<EntryView>) -> Seq<EntryView>
    decreases entries.len(),
{
    if entries.len() == 0 {
        Seq::empty()
    } else if entries.last().name == "module"@ {
        module_entries(entries.drop_last()).push(entries.last())
    } else {
        module_entries(entries.drop_last())
    }
}

proof fn lemma_list_texts(name: Seq<char>, entries: Seq<Seq<char>>)
    requires
        forall|i: int| 0 <= i < entries.len() ==> (#[trigger] entries[i]).len() > 0,
    ensures
        all_texts(list_field(name, entries).items) == Some(entries),
{
    let items = list_field(name, entries).items;
    assert forall|i: int| 0 <= i < items.len() implies (#[trigger] items[i]) is Some by {
        assert(entries[i].len() > 0);
    }
    assert(Seq::new(items.len(), |i: int| items[i]->0) =~= entries) by {
        assert forall|i: int| 0 <= i < items.len() implies items[i]->0 == entries[i] by {
            assert(entries[i].len() > 0);
        }
    }
}

/// Each of the three children of a saved module is found under its name.
proof fn lemma_entry_fields(m: ModuleView)
    ensures
        find_field(entry_of(m).fields, "name"@) == Some(entry_of(m).fields[0]),
        find_field(entry_of(m).fields, "inputs"@) == Some(entry_of(m).fields[1]),
        find_field(entry_of(m).fields, "outputs"@) == Some(entry_of(m).fields[2]),
{
    reveal_strlit("name");
    reveal_strlit("inputs");
    reveal_strlit("outputs");
    let fields = entry_of(m).fields;
    let rest = fields.drop_first();
    assert(rest[0] == fields[1]);
    assert(rest.drop_first()[0] == fields[2]);
    assert("name"@.len() != "inputs"@.len());
    assert("name"@.len() != "outputs"@.len());
    assert("inputs"@.len() != "outputs"@.len());
    assert(find_field(fields, "inputs"@) == Some(fields[1])) by {
        reveal_with_fuel(find_field, 3);
    }
    assert(find_field(fields, "outputs"@) == Some(fields[2])) by {
        reveal_with_fuel(find_field, 4);
    }
}

proof fn lemma_entry_reads_back(m: ModuleView)
    requires
        texts_present(m),
    ensures
        module_of(entry_of(m)) == Ok::<ModuleView, LoadError>(m),
{
    lemma_entry_fields(m);
    lemma_list_texts("inputs"@, m.inputs);
    lemma_list_texts("outputs"@, m.outputs);
}

proof fn lemma_entries_read_back(ms: Seq<ModuleView>)
    requires
        forall|i: int| 0 <= i < ms.len() ==> texts_present(#[trigger] ms[i]),
    ensures
        loaded(entries_of(ms)) == (ms, None::<LoadError>),
    decreases ms.len(),
{
    if ms.len() == 0 {
        assert(loaded(entries_of(ms)).0 =~= ms);
    } else {
        let front = ms.drop_last();
        assert(entries_of(ms).drop_last() =~= entries_of(front));
        lemma_entries_read_back(front);
        lemma_entry_reads_back(ms.last());
        assert(front.push(ms.last()) =~= ms);
    }
}

/// Round trip. Loading the outline of a saved list of modules into a
/// registry appends exactly that list, names and entries in their order,
/// provided that every name and every entry holds at least one character.
/// (An element with nothing written into it reads back as one without text,
/// which loading reports as a fault.)
pub proof fn law_round_trip(before: Seq<ModuleView>, ms: Seq<ModuleView>)
    requires
        forall|i: int| 0 <= i < ms.len() ==> texts_present(#[trigger] ms[i]),
    ensures
        load_outcome(before, outline_of(ms)) == (before + ms, Ok::<(), LoadError>(())),
{
    lemma_entries_read_back(ms);
}

proof fn lemma_entry_without_text(m: ModuleView)
    requires
        !texts_present(m),
    ensures
        module_of(entry_of(m)) is Err,
{
    lemma_entry_fields(m);
    let fields = entry_of(m).fields;
    if m.name.len() > 0 {
        if exists|i: int| 0 <= i < m.inputs.len() && (#[trigger] m.inputs[i]).len() == 0 {
            let i = choose|i: int| 0 <= i < m.inputs.len() && (#[trigger] m.inputs[i]).len() == 0;
            assert(fields[1].items[i] is None);
        } else {
            let i = choose|i: int| 0 <= i < m.outputs.len() && (#[trigger] m.outputs[i]).len() == 0;
            assert(fields[2].items[i] is None);
        }
    }
}

/// The proviso of `law_round_trip` cannot be dropped: where the name or an
/// entry of one of the modules is empty, loading the outline of the saved
/// list reports a fault.
pub proof fn law_empty_text_is_lost(before: Seq<ModuleView>, ms: Seq<ModuleView>)
    requires
        exists|i: int| 0 <= i < ms.len() && !texts_present(#[trigger] ms[i]),
    ensures
        load_outcome(before, outline_of(ms)).1 is Err,
    decreases ms.len(),
{
    let front = ms.drop_last();
    assert(entries_of(ms).drop_last() =~= entries_of(front));
    if exists|i: int| 0 <= i < front.len() && !texts_present(#[trigger] front[i]) {
        law_empty_text_is_lost(before, front);
    } else {
        let i = choose|i: int| 0 <= i < ms.len() && !texts_present(#[trigger] ms[i]);
        if i < front.len() {
            assert(front[i] == ms[i]);
        }
        lemma_entry_without_text(ms.last());
    }
}

/// Round trip through the bytes. Saving writes `document(ms)`, and loading
/// goes by what the parser makes of the bytes. Where the parser reads that
/// document as the outline it was written as, loading it appends exactly
/// `ms`, under the same proviso as in `law_round_trip`. Whether the parser
/// does so is the parser's matter and is not decided here: a text of nothing
/// but spaces, for one, does not come back.
pub proof fn law_save_then_load(before: Seq<ModuleView>, ms: Seq<ModuleView>)
    requires
        forall|i: int| 0 <= i < ms.len() ==> texts_present(#[trigger] ms[i]),
    ensures
        parsed_outline(document(ms)) == Some(Some(outline_of(ms))) ==> document_outcome(
            before,
            document(ms),
        ) == (before + ms, Ok::<(), LoadError>(())),
{
    law_round_trip(before, ms);
}

/// Empty lists. A list without entries is written as an element without
/// content, and an element without children is read as a list without
/// entries, not as a fault.
pub proof fn law_empty_list(depth: nat, name: Seq<char>, item: Seq<char>)
    ensures
        element(depth, name, text_elements(depth + 1, item, Seq::empty())) == element(
            depth,
            name,
            Seq::empty(),
        ),
        list_field(name, Seq::empty()).items == Seq::<Option<Seq<char>>>::empty(),
        all_texts(Seq::empty()) == Some(Seq::<Seq<char>>::empty()),
{
    assert(list_field(name, Seq::empty()).items =~= Seq::<Option<Seq<char>>>::empty());
    let none = Seq::<Option<Seq<char>>>::empty();
    assert(Seq::new(none.len(), |i: int| none[i]->0) =~= Seq::<Seq<char>>::empty());
}

/// Appending. Where a registry holds `held`, a module is created and then a
/// document is loaded without a fault, the registry holds `held` first, then
/// the created module, then the modules of the document in document order:
/// one for each child of the root that is called `module`.
pub proof fn law_create_then_load(held: Seq<ModuleView>, created: ModuleView, o: OutlineView)
    requires
        load_outcome(held.push(created), o).1 is Ok,
    ensures
        ({
            let after = load_outcome(held.push(created), o).0;
            let file = loaded(o.entries).0;
            &&& file.len() == module_entries(o.entries).len()
            &&& after.len() == held.len() + 1 + file.len()
            &&& after.take(held.len() as int) == held
            &&& after[held.len() as int] == created
            &&& after.skip(held.len() as int + 1) == file
        }),
{
    let after = load_outcome(held.push(created), o).0;
    let file = loaded(o.entries).0;
    lemma_one_module_each(o.entries);
    assert(after =~= held.push(created) + file);
    assert(after.take(held.len() as int) =~= held);
    assert(after.skip(held.len() as int + 1) =~= file);
}

proof fn lemma_one_module_each(entries: Seq<EntryView>)
    requires
        loaded(entries).1 is None,
    ensures
        loaded(entries).0.len() == module_entries(entries).len(),
    decreases entries.len(),
{
    if entries.len() > 0 {
        lemma_one_module_each(entries.drop_last());
    }
}

/// Unknown children of the root. Loading gives the same modules and the same
/// result as it would if the children that are not called `module` were not
/// there.
pub proof fn law_other_children_ignored(entries: Seq<EntryView>)
    ensures
        loaded(entries) == loaded(module_entries(entries)),
    decreases entries.len(),
{
    if entries.len() > 0 {
        let front = entries.drop_last();
        law_other_children_ignored(front);
        if entries.last().name == "module"@ {
            let kept = module_entries(front).push(entries.last());
            assert(kept.drop_last() =~= module_entries(front));
            assert(kept.last() == entries.last());
        }
    }
}

} // verus!
