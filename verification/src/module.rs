//! The module: a name, its inputs and its outputs, each list in the order in
//! which the entries were added.

use vstd::prelude::*;
use vstd::string::*;
use crate::text::{joined, names_view};

verus! {

/// What a module is, as mathematics: its name and its two lists of names.
pub struct ModuleView {
    pub name: Seq<char>,
    pub inputs: Seq<Seq<char>>,
    pub outputs: Seq<Seq<char>>,
}

/// The line that shows a module: `name {in1,in2} -> {out1}`.
pub open spec fn display_text(m: ModuleView) -> Seq<char> {
    m.name + seq![' ', '{'] + joined(m.inputs, ',') + seq!['}', ' ', '-', '>', ' ', '{']
        + joined(m.outputs, ',') + seq!['}']
}

/// Appends the names of `v` to `out`, separated by commas.
fn append_joined(out: &mut String, v: &Vec<String>)
    ensures
        final(out)@ == old(out)@ + joined(names_view(v@), ','),
{
    let ghost names = names_view(v@);
    let mut i: usize = 0;
    while i < v.len()
        invariant
            i <= v.len(),
            names == names_view(v@),
            out@ == old(out)@ + joined(names.take(i as int), ','),
        decreases v.len() - i,
    {
        if i > 0 {
            out.append(",");
        }
        out.append(v[i].as_str());
        proof {
            reveal_strlit(",");
            let before = names.take(i as int);
            let after = names.take(i + 1);
            assert(after.last() == v@[i as int]@);
            assert(after.drop_last() =~= before);
            if i > 0 {
                assert(","@ =~= seq![',']);
                assert(out@ =~= old(out)@ + (joined(before, ',') + seq![','] + after.last()));
            } else {
                assert(out@ =~= old(out)@ + after[0]);
            }
        }
        i += 1;
    }
    assert(names.take(v.len() as int) =~= names);
}

/// A named unit with ordered inputs and outputs.
#[derive(Debug, PartialEq, Eq)]
pub struct Module {
    name: String,
    inputs: Vec<String>,
    outputs: Vec<String>,
}

impl View for Module {
    type V = ModuleView;

    closed spec fn view(&self) -> ModuleView {
        ModuleView {
            name: self.name@,
            inputs: names_view(self.inputs@),
            outputs: names_view(self.outputs@),
        }
    }
}

impl Module {
    /// A module called `s` with no inputs and no outputs.
    pub fn new(s: &str) -> (m: Module)
        ensures
            m@.name == s@,
            m@.inputs == Seq::<Seq<char>>::empty(),
            m@.outputs == Seq::<Seq<char>>::empty(),
    {
        let m = Module { name: String::from_str(s), inputs: Vec::new(), outputs: Vec::new() };
        assert(names_view(m.inputs@) =~= Seq::<Seq<char>>::empty());
        assert(names_view(m.outputs@) =~= Seq::<Seq<char>>::empty());
        m
    }

    /// The module with the given name, inputs and outputs. Nothing is asked of
    /// the texts: any of them may be empty, and names need not differ.
    pub fn create(name: &str, inputs: Vec<String>, outputs: Vec<String>) -> (m: Module)
        ensures
            m@ == (ModuleView {
                name: name@,
                inputs: names_view(inputs@),
                outputs: names_view(outputs@),
            }),
    {
        Module { name: String::from_str(name), inputs, outputs }
    }

    /// Adds `s` as the last input.
    pub fn add_input(&mut self, s: &str)
        ensures
            final(self)@.name == old(self)@.name,
            final(self)@.inputs == old(self)@.inputs.push(s@),
            final(self)@.outputs == old(self)@.outputs,
    {
        self.inputs.push(String::from_str(s));
        assert(names_view(self.inputs@) =~= names_view(old(self).inputs@).push(s@));
    }

    /// Adds `s` as the last output.
    pub fn add_output(&mut self, s: &str)
        ensures
            final(self)@.name == old(self)@.name,
            final(self)@.inputs == old(self)@.inputs,
            final(self)@.outputs == old(self)@.outputs.push(s@),
    {
        self.outputs.push(String::from_str(s));
        assert(names_view(self.outputs@) =~= names_view(old(self).outputs@).push(s@));
    }

    /// The module's name.
    pub fn name(&self) -> (s: &str)
        ensures
            s@ == self@.name,
    {
        self.name.as_str()
    }

    /// The inputs, first added first.
    pub fn inputs(&self) -> (v: &Vec<String>)
        ensures
            names_view(v@) == self@.inputs,
    {
        &self.inputs
    }

    /// The outputs, first added first.
    pub fn outputs(&self) -> (v: &Vec<String>)
        ensures
            names_view(v@) == self@.outputs,
    {
        &self.outputs
    }

    /// The line that shows the module to a reader: the name, a space, the
    /// inputs in braces, ` -> `, the outputs in braces. Entries are separated
    /// by single commas, with none before the first or after the last.
    pub fn to_text(&self) -> (s: String)
        ensures
            s@ == display_text(self@),
    {
        let mut s = self.name.clone();
        s.append(" {");
        append_joined(&mut s, &self.inputs);
        s.append("} -> {");
        append_joined(&mut s, &self.outputs);
        s.append("}");
        proof {
            reveal_strlit(" {");
            reveal_strlit("} -> {");
            reveal_strlit("}");
            assert(" {"@ =~= seq![' ', '{']);
            assert("} -> {"@ =~= seq!['}', ' ', '-', '>', ' ', '{']);
            assert("}"@ =~= seq!['}']);
            assert(s@ =~= display_text(self@));
        }
        s
    }

}

} // verus!
