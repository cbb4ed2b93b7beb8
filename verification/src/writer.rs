//! Writing the registry as XML, through the `xml_writer` crate.
//!
//! The document is one `modules` element with one `module` element per
//! module, in registry order. Each `module` holds a `name`, an `inputs` and an
//! `outputs` element; the latter two hold one `input` or `output` element per
//! entry. Every element but the root starts on a line of its own, indented by
//! two spaces per level.

use vstd::prelude::*;
use vstd::utf8::encode_utf8;
use xml_writer::XmlWriter;
use crate::module::{Module, ModuleView};
use crate::text::names_view;
use crate::state::{modules_view, State};

verus! {

/// An `xml_writer::XmlWriter` that writes into a byte vector.
///
/// The only way to make one is `XmlSink::start`, and nothing changes the
/// writer's public settings afterwards: it indents, and it uses no namespace.
#[verifier::external_body]
pub struct XmlSink {
    inner: XmlWriter<'static, Vec<u8>>,
}

/// The bytes that the writer has handed to its vector so far.
pub uninterp spec fn written(w: XmlSink) -> Seq<u8>;

/// The names of the elements that were begun and not yet ended, outermost
/// first.
pub uninterp spec fn open_elements(w: XmlSink) -> Seq<Seq<char>>;

/// Whether the start tag written last still lacks its closing `>`.
pub uninterp spec fn tag_pending(w: XmlSink) -> bool;

/// The `>` that the writer owes when a start tag is pending.
pub open spec fn pending_close(pending: bool) -> Seq<u8> {
    if pending {
        encode_utf8(">"@)
    } else {
        Seq::empty()
    }
}

/// A line break and two spaces per level; nothing at level 0.
pub open spec fn indent(depth: nat) -> Seq<u8> {
    if depth == 0 {
        Seq::empty()
    } else {
        encode_utf8("\n"@) + Seq::new(2 * depth, |i: int| 0x20u8)
    }
}

/// How one character of text is written: the five characters that XML
/// reserves become entities, every other one its UTF-8 encoding.
pub open spec fn escaped_char(c: char) -> Seq<u8> {
    if c == '"' {
        encode_utf8("&quot;"@)
    } else if c == '\'' {
        encode_utf8("&apos;"@)
    } else if c == '&' {
        encode_utf8("&amp;"@)
    } else if c == '<' {
        encode_utf8("&lt;"@)
    } else if c == '>' {
        encode_utf8("&gt;"@)
    } else {
        encode_utf8(seq![c])
    }
}

/// How a text is written: its characters, each as `escaped_char` has it.
pub open spec fn escaped(text: Seq<char>) -> Seq<u8>
    decreases text.len(),
{
    if text.len() == 0 {
        Seq::empty()
    } else {
        escaped(text.drop_last()) + escaped_char(text.last())
    }
}

impl XmlSink {
    /// `XmlWriter::new` on an empty vector: nothing is written and no element
    /// is open.
    #[verifier::external_body]
    fn start() -> (w: XmlSink)
        ensures
            written(w) == Seq::<u8>::empty(),
            open_elements(w) == Seq::<Seq<char>>::empty(),
            !tag_pending(w),
    {
        XmlSink { inner: XmlWriter::new(Vec::new()) }
    }

    /// `XmlWriter::begin_elem`: closes a pending start tag, breaks the line
    /// and indents by the number of open elements (not for the outermost
    /// one), then writes `<` and the name and leaves that tag pending.
    #[verifier::external_body]
    fn begin_elem(&mut self, name: &'static str)
        ensures
            written(*final(self)) == written(*old(self)) + pending_close(tag_pending(*old(self)))
                + indent(open_elements(*old(self)).len()) + encode_utf8("<"@) + encode_utf8(name@),
            open_elements(*final(self)) == open_elements(*old(self)).push(name@),
            tag_pending(*final(self)),
    {
        let _ = self.inner.begin_elem(name);
    }

    /// `XmlWriter::text`: closes a pending start tag, then writes the text
    /// with the reserved characters escaped.
    #[verifier::external_body]
    fn text(&mut self, text: &str)
        ensures
            written(*final(self)) == written(*old(self)) + pending_close(tag_pending(*old(self)))
                + escaped(text@),
            open_elements(*final(self)) == open_elements(*old(self)),
            !tag_pending(*final(self)),
    {
        let _ = self.inner.text(text);
    }

    /// `XmlWriter::end_elem`: closes a pending start tag, then writes the end
    /// tag of the innermost open element. With no element open it panics.
    #[verifier::external_body]
    fn end_elem(&mut self)
        requires
            open_elements(*old(self)).len() > 0,
        ensures
            written(*final(self)) == written(*old(self)) + pending_close(tag_pending(*old(self)))
                + encode_utf8("</"@) + encode_utf8(open_elements(*old(self)).last()) + encode_utf8(
                ">"@,
            ),
            open_elements(*final(self)) == open_elements(*old(self)).drop_last(),
            !tag_pending(*final(self)),
    {
        let _ = self.inner.end_elem();
    }

    /// `XmlWriter::close`, which ends every open element: with none open it
    /// does nothing.
    #[verifier::external_body]
    fn close(&mut self)
        requires
            open_elements(*old(self)).len() == 0,
        ensures
            written(*final(self)) == written(*old(self)),
            open_elements(*final(self)) == open_elements(*old(self)),
            tag_pending(*final(self)) == tag_pending(*old(self)),
    {
        let _ = self.inner.close();
    }

    /// `XmlWriter::flush`, which flushes the vector: that changes nothing.
    #[verifier::external_body]
    fn flush(&mut self)
        ensures
            written(*final(self)) == written(*old(self)),
            open_elements(*final(self)) == open_elements(*old(self)),
            tag_pending(*final(self)) == tag_pending(*old(self)),
    {
        let _ = self.inner.flush();
    }

    /// `XmlWriter::into_inner`: the vector, which holds what was written.
    #[verifier::external_body]
    fn into_inner(self) -> (bytes: Vec<u8>)
        ensures
            bytes@ == written(self),
    {
        self.inner.into_inner()
    }
}

/// An element on a line of its own at the given level: the indentation, the
/// start tag, the content, the end tag.
pub open spec fn element(depth: nat, name: Seq<char>, content: Seq<u8>) -> Seq<u8> {
    indent(depth) + encode_utf8("<"@) + encode_utf8(name) + encode_utf8(">"@) + content
        + encode_utf8("</"@) + encode_utf8(name) + encode_utf8(">"@)
}

/// One element called `name` for each of `texts`, in order, each holding its
/// text.
pub open spec fn text_elements(depth: nat, name: Seq<char>, texts: Seq<Seq<char>>) -> Seq<u8>
    decreases texts.len(),
{
    if texts.len() == 0 {
        Seq::empty()
    } else {
        text_elements(depth, name, texts.drop_last()) + element(depth, name, escaped(texts.last()))
    }
}

/// The `module` element of one module.
pub open spec fn module_element(depth: nat, m: ModuleView) -> Seq<u8> {
    element(
        depth,
        "module"@,
        element(depth + 1, "name"@, escaped(m.name)) + element(
            depth + 1,
            "inputs"@,
            text_elements(depth + 2, "input"@, m.inputs),
        ) + element(depth + 1, "outputs"@, text_elements(depth + 2, "output"@, m.outputs)),
    )
}

/// The `module` elements of a list of modules, in order.
pub open spec fn module_elements(depth: nat, ms: Seq<ModuleView>) -> Seq<u8>
    decreases ms.len(),
{
    if ms.len() == 0 {
        Seq::empty()
    } else {
        module_elements(depth, ms.drop_last()) + module_element(depth, ms.last())
    }
}

/// The whole document for a list of modules.
pub open spec fn document(ms: Seq<ModuleView>) -> Seq<u8> {
    element(0, "modules"@, module_elements(1, ms))
}

/// What the writer has put out, with a pending start tag taken as closed.
spec fn settled(w: XmlSink) -> Seq<u8> {
    written(w) + pending_close(tag_pending(w))
}

/// Begins an element; the text so far then ends in its complete start tag.
fn open_element(w: &mut XmlSink, name: &'static str)
    ensures
        settled(*final(w)) == settled(*old(w)) + indent(open_elements(*old(w)).len()) + encode_utf8(
            "<"@,
        ) + encode_utf8(name@) + encode_utf8(">"@),
        open_elements(*final(w)) == open_elements(*old(w)).push(name@),
{
    w.begin_elem(name);
    assert(settled(*w) =~= settled(*old(w)) + indent(open_elements(*old(w)).len()) + encode_utf8(
        "<"@,
    ) + encode_utf8(name@) + encode_utf8(">"@));
}

/// Ends the innermost element; the text so far then ends in its end tag.
fn close_element(w: &mut XmlSink)
    requires
        open_elements(*old(w)).len() > 0,
    ensures
        settled(*final(w)) == settled(*old(w)) + encode_utf8("</"@) + encode_utf8(
            open_elements(*old(w)).last(),
        ) + encode_utf8(">"@),
        open_elements(*final(w)) == open_elements(*old(w)).drop_last(),
        !tag_pending(*final(w)),
{
    w.end_elem();
    assert(settled(*w) =~= settled(*old(w)) + encode_utf8("</"@) + encode_utf8(
        open_elements(*old(w)).last(),
    ) + encode_utf8(">"@));
}

/// Writes one element that holds a text.
fn write_text_element(w: &mut XmlSink, name: &'static str, text: &str)
    ensures
        settled(*final(w)) == settled(*old(w)) + element(
            open_elements(*old(w)).len(),
            name@,
            escaped(text@),
        ),
        open_elements(*final(w)) == open_elements(*old(w)),
        !tag_pending(*final(w)),
{
    open_element(w, name);
    let ghost opened = settled(*w);
    w.text(text);
    assert(settled(*w) =~= opened + escaped(text@));
    close_element(w);
    assert(open_elements(*w) =~= open_elements(*old(w)));
    assert(settled(*w) =~= settled(*old(w)) + element(
        open_elements(*old(w)).len(),
        name@,
        escaped(text@),
    ));
}

/// Writes an element called `name` that holds one `item` element for each of
/// `items`.
fn write_list(w: &mut XmlSink, name: &'static str, item: &'static str, items: &Vec<String>)
    ensures
        settled(*final(w)) == settled(*old(w)) + element(
            open_elements(*old(w)).len(),
            name@,
            text_elements(open_elements(*old(w)).len() + 1, item@, names_view(items@)),
        ),
        open_elements(*final(w)) == open_elements(*old(w)),
        !tag_pending(*final(w)),
{
    let ghost depth = open_elements(*w).len();
    let ghost texts = names_view(items@);
    open_element(w, name);
    let ghost opened = settled(*w);
    let mut i: usize = 0;
    while i < items.len()
        invariant
            i <= items.len(),
            texts == names_view(items@),
            open_elements(*w) == open_elements(*old(w)).push(name@),
            depth == open_elements(*old(w)).len(),
            settled(*w) == opened + text_elements(depth + 1, item@, texts.take(i as int)),
        decreases items.len() - i,
    {
        let ghost before = settled(*w);
        write_text_element(w, item, items[i].as_str());
        proof {
            let done = texts.take(i as int);
            let more = texts.take(i + 1);
            assert(more.drop_last() =~= done);
            assert(more.last() == items@[i as int]@);
            assert(settled(*w) =~= opened + text_elements(depth + 1, item@, more));
        }
        i += 1;
    }
    assert(texts.take(items.len() as int) =~= texts);
    close_element(w);
    assert(open_elements(*w) =~= open_elements(*old(w)));
    assert(settled(*w) =~= settled(*old(w)) + element(
        depth,
        name@,
        text_elements(depth + 1, item@, texts),
    ));
}

/// Writes the `module` element of `m`.
fn write_module(w: &mut XmlSink, m: &Module)
    ensures
        settled(*final(w)) == settled(*old(w)) + module_element(open_elements(*old(w)).len(), m@),
        open_elements(*final(w)) == open_elements(*old(w)),
        !tag_pending(*final(w)),
{
    let ghost depth = open_elements(*w).len();
    open_element(w, "module");
    let ghost opened = settled(*w);
    write_text_element(w, "name", m.name());
    write_list(w, "inputs", "input", m.inputs());
    write_list(w, "outputs", "output", m.outputs());
    let ghost content = element(depth + 1, "name"@, escaped(m@.name)) + element(
        depth + 1,
        "inputs"@,
        text_elements(depth + 2, "input"@, m@.inputs),
    ) + element(depth + 1, "outputs"@, text_elements(depth + 2, "output"@, m@.outputs));
    assert(settled(*w) =~= opened + content);
    close_element(w);
    assert(open_elements(*w) =~= open_elements(*old(w)));
    assert(settled(*w) =~= settled(*old(w)) + module_element(depth, m@));
}

/// The registry as an XML document: the bytes to keep on disk.
pub fn save(st: &State) -> (bytes: Vec<u8>)
    ensures
        bytes@ == document(st@),
{
    let modules = st.modules();
    let mut w = XmlSink::start();
    open_element(&mut w, "modules");
    let ghost opened = settled(w);
    let mut i: usize = 0;
    while i < modules.len()
        invariant
            i <= modules.len(),
            modules_view(modules@) == st@,
            open_elements(w) == Seq::<Seq<char>>::empty().push("modules"@),
            settled(w) == opened + module_elements(1, st@.take(i as int)),
        decreases modules.len() - i,
    {
        write_module(&mut w, &modules[i]);
        proof {
            let done = st@.take(i as int);
            let more = st@.take(i + 1);
            assert(more.drop_last() =~= done);
            assert(more.last() == modules@[i as int]@);
            assert(settled(w) =~= opened + module_elements(1, more));
        }
        i += 1;
    }
    assert(st@.take(modules.len() as int) =~= st@);
    close_element(&mut w);
    w.close();
    w.flush();
    assert(written(w) =~= document(st@));
    w.into_inner()
}

} // verus!
