//! Reading a registry back from XML, through the `treexml` crate.
//!
//! `treexml` parses the bytes into a tree of elements. The format only looks
//! at the top of that tree: the root, its children, their children, and the
//! text of the elements one level further down. `Outline` holds that much as
//! plain values, and the rules of the format are stated and proved on it.

use vstd::prelude::*;
use vstd::string::*;
use crate::module::{Module, ModuleView};
use crate::state::State;

verus! {

/// `treexml::Error`, the error of `treexml::Document::parse`. Nothing is read
/// from it.
#[verifier::external_type_specification]
#[verifier::external_body]
pub struct ExTreeError(treexml::Error);

/// A child of a child of the root: its name, its own text, and the text of
/// each of its children.
#[derive(Debug, PartialEq, Eq)]
pub struct Field {
    pub name: String,
    pub text: Option<String>,
    pub items: Vec<Option<String>>,
}

/// A child of the root: its name and its children.
#[derive(Debug, PartialEq, Eq)]
pub struct Entry {
    pub name: String,
    pub fields: Vec<Field>,
}

/// The top of a document's element tree: the root's name and its children.
#[derive(Debug, PartialEq, Eq)]
pub struct Outline {
    pub name: String,
    pub entries: Vec<Entry>,
}

/// A `Field`, as mathematics.
pub struct FieldView {
    pub name: Seq<char>,
    pub text: Option<Seq<char>>,
    pub items: Seq<Option<Seq<char>>>,
}

/// An `Entry`, as mathematics.
pub struct EntryView {
    pub name: Seq<char>,
    pub fields: Seq<FieldView>,
}

/// An `Outline`, as mathematics.
pub struct OutlineView {
    pub name: Seq<char>,
    pub entries: Seq<EntryView>,
}

/// The view of an optional text.
pub open spec fn text_view(t: Option<String>) -> Option<Seq<char>> {
    match t {
        Some(s) => Some(s@),
        None => None,
    }
}

/// The views of a list of optional texts, in the same order.
pub open spec fn texts_view(v: Seq<Option<String>>) -> Seq<Option<Seq<char>>> {
    Seq::new(v.len(), |i: int| text_view(v[i]))
}

/// The views of a list of fields, in the same order.
pub open spec fn fields_view(v: Seq<Field>) -> Seq<FieldView> {
    Seq::new(v.len(), |i: int| v[i]@)
}

/// The views of a list of entries, in the same order.
pub open spec fn entries_view(v: Seq<Entry>) -> Seq<EntryView> {
    Seq::new(v.len(), |i: int| v[i]@)
}

/// The view of a root that may be missing.
pub open spec fn root_view(root: Option<Outline>) -> Option<OutlineView> {
    match root {
        Some(o) => Some(o@),
        None => None,
    }
}

impl View for Field {
    type V = FieldView;

    open spec fn view(&self) -> FieldView {
        FieldView { name: self.name@, text: text_view(self.text), items: texts_view(self.items@) }
    }
}

impl View for Entry {
    type V = EntryView;

    open spec fn view(&self) -> EntryView {
        EntryView { name: self.name@, fields: fields_view(self.fields@) }
    }
}

impl View for Outline {
    type V = OutlineView;

    open spec fn view(&self) -> OutlineView {
        OutlineView { name: self.name@, entries: entries_view(self.entries@) }
    }
}

/// Why a document could not be loaded.
#[derive(Clone, Copy, Debug, PartialEq, Eq, Structural)]
pub enum LoadError {
    /// The bytes are not a well-formed XML document.
    Syntax,
    /// The document has no root element.
    NoRoot,
    /// The root element is not called `modules`.
    RootName,
    /// A `module` element has no `name` child.
    MissingName,
    /// The `name` child of a `module` element holds no text.
    EmptyName,
    /// A `module` element has no `inputs` child.
    MissingInputs,
    /// A child of an `inputs` element holds no text.
    EmptyInput,
    /// A `module` element has no `outputs` child.
    MissingOutputs,
    /// A child of an `outputs` element holds no text.
    EmptyOutput,
}

/// What `treexml::Document::parse` makes of the bytes: `None` where it
/// reports an error, else the outline of the root element, if there is one.
pub uninterp spec fn parsed_outline(bytes: Seq<u8>) -> Option<Option<OutlineView>>;

/// Parses the bytes with `treexml::Document::parse` and copies the top of the
/// tree. The result is the one that `parsed_outline` names.
///
/// `treexml` descends into nested elements by recursion, so the depth to
/// which a document may nest is bounded by the stack.
#[verifier::external_body]
fn parse_outline(bytes: &[u8]) -> (r: Result<Option<Outline>, treexml::Error>)
    ensures
        match r {
            Ok(root) => parsed_outline(bytes@) == Some(root_view(root)),
            Err(_) => parsed_outline(bytes@) is None,
        },
{
    Ok(treexml::Document::parse(bytes)?.root.map(|root| Outline {
        name: root.name,
        entries: root.children.into_iter().map(|e| Entry {
            name: e.name,
            fields: e.children.into_iter().map(|f| Field {
                name: f.name,
                text: f.text,
                items: f.children.into_iter().map(|i| i.text).collect(),
            }).collect(),
        }).collect(),
    }))
}

/// The first of `fields` that is called `name`.
pub open spec fn find_field(fields: Seq<FieldView>, name: Seq<char>) -> Option<FieldView>
    decreases fields.len(),
{
    if fields.len() == 0 {
        None
    } else if fields[0].name == name {
        Some(fields[0])
    } else {
        find_field(fields.drop_first(), name)
    }
}

/// The texts of `items`, if every one of them has a text.
pub open spec fn all_texts(items: Seq<Option<Seq<char>>>) -> Option<Seq<Seq<char>>> {
    if forall|i: int| 0 <= i < items.len() ==> (#[trigger] items[i]) is Some {
        Some(Seq::new(items.len(), |i: int| items[i]->0))
    } else {
        None
    }
}

/// The module that a `module` element describes, or what it lacks. The name
/// is looked at first, then the inputs, then the outputs.
pub open spec fn module_of(e: EntryView) -> Result<ModuleView, LoadError> {
    match find_field(e.fields, "name"@) {
        None => Err(LoadError::MissingName),
        Some(n) => match n.text {
            None => Err(LoadError::EmptyName),
            Some(name) => match find_field(e.fields, "inputs"@) {
                None => Err(LoadError::MissingInputs),
                Some(i) => match all_texts(i.items) {
                    None => Err(LoadError::EmptyInput),
                    Some(inputs) => match find_field(e.fields, "outputs"@) {
                        None => Err(LoadError::MissingOutputs),
                        Some(o) => match all_texts(o.items) {
                            None => Err(LoadError::EmptyOutput),
                            Some(outputs) => Ok(ModuleView { name, inputs, outputs }),
                        },
                    },
                },
            },
        },
    }
}

/// What loading the children of the root yields: the modules of the `module`
/// elements, in order, up to the first one that is faulty, and that one's
/// fault. Children with another name are passed over.
pub open spec fn loaded(entries: Seq<EntryView>) -> (Seq<ModuleView>, Option<LoadError>)
    decreases entries.len(),
{
    if entries.len() == 0 {
        (Seq::empty(), None)
    } else {
        let (modules, fault) = loaded(entries.drop_last());
        let e = entries.last();
        if fault is Some || e.name != "module"@ {
            (modules, fault)
        } else {
            match module_of(e) {
                Ok(m) => (modules.push(m), None),
                Err(x) => (modules, Some(x)),
            }
        }
    }
}

/// The registry after loading an outline into one that held `before`, and
/// the result reported.
pub open spec fn load_outcome(before: Seq<ModuleView>, o: OutlineView) -> (
    Seq<ModuleView>,
    Result<(), LoadError>,
) {
    if o.name != "modules"@ {
        (before, Err(LoadError::RootName))
    } else {
        let (modules, fault) = loaded(o.entries);
        (
            before + modules,
            match fault {
                None => Ok(()),
                Some(x) => Err(x),
            },
        )
    }
}

/// The registry after loading what a parsed document has for a root into
/// one that held `before`, and the result reported.
pub open spec fn root_outcome(before: Seq<ModuleView>, root: Option<OutlineView>) -> (
    Seq<ModuleView>,
    Result<(), LoadError>,
) {
    match root {
        None => (before, Err(LoadError::NoRoot)),
        Some(o) => load_outcome(before, o),
    }
}

/// The registry after loading a document into one that held `before`, and
/// the result reported.
pub open spec fn document_outcome(before: Seq<ModuleView>, bytes: Seq<u8>) -> (
    Seq<ModuleView>,
    Result<(), LoadError>,
) {
    match parsed_outline(bytes) {
        None => (before, Err(LoadError::Syntax)),
        Some(root) => root_outcome(before, root),
    }
}

/// A fault, once met, is what loading reports, whatever follows.
proof fn lemma_fault_stops(entries: Seq<EntryView>, k: int)
    requires
        0 <= k <= entries.len(),
        loaded(entries.take(k)).1 is Some,
    ensures
        loaded(entries) == loaded(entries.take(k)),
    decreases entries.len(),
{
    if k == entries.len() {
        assert(entries.take(k) =~= entries);
    } else {
        assert(entries.drop_last().take(k) =~= entries.take(k));
        lemma_fault_stops(entries.drop_last(), k);
    }
}

/// The first of `fields` that is called `name`.
fn find<'a>(fields: &'a Vec<Field>, name: &str) -> (r: Option<&'a Field>)
    ensures
        match r {
            Some(f) => find_field(fields_view(fields@), name@) == Some(f@),
            None => find_field(fields_view(fields@), name@) is None,
        },
{
    let ghost all = fields_view(fields@);
    let key = String::from_str(name);
    let mut i: usize = 0;
    assert(all.skip(0) =~= all);
    while i < fields.len()
        invariant
            i <= fields.len(),
            key@ == name@,
            all == fields_view(fields@),
            find_field(all, name@) == find_field(all.skip(i as int), name@),
        decreases fields.len() - i,
    {
        if fields[i].name == key {
            return Some(&fields[i]);
        }
        assert(all.skip(i as int).drop_first() =~= all.skip(i + 1));
        i += 1;
    }
    None
}

/// Reads the module that a `module` element describes.
#[verifier::loop_isolation(false)]
fn read_module(e: &Entry) -> (r: Result<Module, LoadError>)
    ensures
        match r {
            Ok(m) => module_of(e@) == Ok::<ModuleView, LoadError>(m@),
            Err(x) => module_of(e@) == Err::<ModuleView, LoadError>(x),
        },
{
    let name = match find(&e.fields, "name") {
        None => { return Err(LoadError::MissingName); },
        Some(n) => match &n.text {
            None => { return Err(LoadError::EmptyName); },
            Some(t) => t,
        },
    };
    let mut m = Module::new(name.as_str());
    let inputs = match find(&e.fields, "inputs") {
        None => { return Err(LoadError::MissingInputs); },
        Some(f) => f,
    };
    let mut i: usize = 0;
    while i < inputs.items.len()
        invariant
            i <= inputs.items.len(),
            m@.name == name@,
            m@.outputs == Seq::<Seq<char>>::empty(),
            m@.inputs == Seq::new(i as nat, |j: int| inputs@.items[j]->0),
            forall|j: int| 0 <= j < i ==> (#[trigger] inputs@.items[j]) is Some,
        decreases inputs.items.len() - i,
    {
        match &inputs.items[i] {
            None => {
                assert(inputs@.items[i as int] is None);
                return Err(LoadError::EmptyInput);
            },
            Some(t) => {
                assert(inputs@.items[i as int] == Some(t@));
                m.add_input(t.as_str());
            },
        }
        i += 1;
        assert(m@.inputs =~= Seq::new(i as nat, |j: int| inputs@.items[j]->0));
    }
    let outputs = match find(&e.fields, "outputs") {
        None => { return Err(LoadError::MissingOutputs); },
        Some(f) => f,
    };
    let mut i: usize = 0;
    while i < outputs.items.len()
        invariant
            i <= outputs.items.len(),
            m@.name == name@,
            m@.inputs == all_texts(inputs@.items)->0,
            m@.outputs == Seq::new(i as nat, |j: int| outputs@.items[j]->0),
            forall|j: int| 0 <= j < i ==> (#[trigger] outputs@.items[j]) is Some,
        decreases outputs.items.len() - i,
    {
        match &outputs.items[i] {
            None => {
                assert(outputs@.items[i as int] is None);
                return Err(LoadError::EmptyOutput);
            },
            Some(t) => {
                assert(outputs@.items[i as int] == Some(t@));
                m.add_output(t.as_str());
            },
        }
        i += 1;
        assert(m@.outputs =~= Seq::new(i as nat, |j: int| outputs@.items[j]->0));
    }
    Ok(m)
}

/// Loads an outline: if the root is called `modules`, appends the module of
/// each `module` child to the registry, in document order, and passes over
/// children with another name. At the first faulty `module` child it stops
/// and reports the fault; the modules before it stay appended.
pub fn load_outline(st: &mut State, o: &Outline) -> (r: Result<(), LoadError>)
    ensures
        (final(st)@, r) == load_outcome(old(st)@, o@),
{
    if o.name != String::from_str("modules") {
        return Err(LoadError::RootName);
    }
    let tag = String::from_str("module");
    let mut i: usize = 0;
    assert(o@.entries.take(0) =~= Seq::<EntryView>::empty());
    while i < o.entries.len()
        invariant
            i <= o.entries.len(),
            tag@ == "module"@,
            o@.name == "modules"@,
            loaded(o@.entries.take(i as int)).1 is None,
            st@ == old(st)@ + loaded(o@.entries.take(i as int)).0,
        decreases o.entries.len() - i,
    {
        let e = &o.entries[i];
        proof {
            assert(o@.entries.take(i + 1).drop_last() =~= o@.entries.take(i as int));
            assert(o@.entries.take(i + 1).last() == e@);
        }
        if e.name == tag {
            match read_module(e) {
                Ok(m) => {
                    st.add(m);
                    assert(st@ =~= old(st)@ + loaded(o@.entries.take(i + 1)).0);
                },
                Err(x) => {
                    proof {
                        assert(loaded(o@.entries.take(i + 1)) == (
                            loaded(o@.entries.take(i as int)).0,
                            Some(x),
                        ));
                        lemma_fault_stops(o@.entries, i + 1);
                    }
                    return Err(x);
                },
            }
        }
        i += 1;
    }
    assert(o@.entries.take(o.entries.len() as int) =~= o@.entries);
    Ok(())
}

/// Loads what a parsed document has for a root: the outline, if there is
/// one. Without a root the registry stays as it is.
pub fn load_root(st: &mut State, root: &Option<Outline>) -> (r: Result<(), LoadError>)
    ensures
        (final(st)@, r) == root_outcome(old(st)@, root_view(*root)),
{
    match root {
        None => Err(LoadError::NoRoot),
        Some(o) => load_outline(st, o),
    }
}

/// Loads a document: parses the bytes and loads the outline of the root. On
/// bytes that are no XML document the registry stays as it is.
///
/// The parser descends into nested elements by recursion, one call for each
/// level. A document that nests deeper than the stack allows ends the
/// process, where one that is merely ill-formed gives `LoadError::Syntax`.
pub fn load(st: &mut State, bytes: &[u8]) -> (r: Result<(), LoadError>)
    ensures
        (final(st)@, r) == document_outcome(old(st)@, bytes@),
{
    match parse_outline(bytes) {
        Err(_) => Err(LoadError::Syntax),
        Ok(root) => load_root(st, &root),
    }
}

} // verus!
