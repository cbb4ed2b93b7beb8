//! The registry: the modules of a session, in the order in which they were
//! added. It only ever grows at its end.

use vstd::prelude::*;
use crate::module::{display_text, Module, ModuleView};
use crate::text::names_view;

verus! {

/// The views of a list of modules, in the same order.
pub open spec fn modules_view(v: Seq<Module>) -> Seq<ModuleView> {
    Seq::new(v.len(), |i: int| v[i]@)
}

/// The lines that show a list of modules, one for each, in order.
pub open spec fn listed(ms: Seq<ModuleView>) -> Seq<Seq<char>> {
    Seq::new(ms.len(), |i: int| display_text(ms[i]))
}

/// The ordered collection of all modules.
#[derive(Debug, PartialEq, Eq)]
pub struct State {
    modules: Vec<Module>,
}

impl View for State {
    type V = Seq<ModuleView>;

    closed spec fn view(&self) -> Seq<ModuleView> {
        modules_view(self.modules@)
    }
}

impl State {
    /// The empty registry.
    pub fn new() -> (st: State)
        ensures
            st@ == Seq::<ModuleView>::empty(),
    {
        let st = State { modules: Vec::new() };
        assert(modules_view(st.modules@) =~= Seq::<ModuleView>::empty());
        st
    }

    /// Puts `m` behind the modules already held.
    pub fn add(&mut self, m: Module)
        ensures
            final(self)@ == old(self)@.push(m@),
    {
        self.modules.push(m);
        assert(modules_view(self.modules@) =~= modules_view(old(self).modules@).push(m@));
    }

    /// One line for each module, in registry order, as `Module::to_text`
    /// writes it.
    pub fn listing(&self) -> (lines: Vec<String>)
        ensures
            names_view(lines@) == listed(self@),
    {
        let mut lines: Vec<String> = Vec::new();
        let mut i: usize = 0;
        while i < self.modules.len()
            invariant
                i <= self.modules.len(),
                names_view(lines@) == listed(self@.take(i as int)),
            decreases self.modules.len() - i,
        {
            let ghost before = names_view(lines@);
            let line = self.modules[i].to_text();
            lines.push(line);
            proof {
                let shown = display_text(self@[i as int]);
                assert(names_view(lines@) =~= before.push(shown));
                assert(listed(self@.take(i + 1)) =~= listed(self@.take(i as int)).push(shown));
            }
            i += 1;
        }
        assert(self@.take(self.modules.len() as int) =~= self@);
        lines
    }

    /// The modules held, first added first.
    pub fn modules(&self) -> (v: &Vec<Module>)
        ensures
            modules_view(v@) == self@,
    {
        &self.modules
    }
}

} // verus!
