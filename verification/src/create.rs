//! Creating a module in a dialogue: the operator is asked for the name, for
//! the number of inputs, for each input, for the number of outputs, and for
//! each output. `Draft` is the state of that dialogue. The caller puts the
//! question that `prompt` names and hands the answer to `answer`.

use vstd::prelude::*;
use vstd::string::*;
use crate::module::{Module, ModuleView};
use crate::text::{count_of, first_or_empty, names_view, parse_count};

verus! {

/// What to ask the operator for. Inputs and outputs are numbered from 1.
#[derive(Clone, Copy, Debug, PartialEq, Eq, Structural)]
pub enum Prompt {
    Name,
    InputCount,
    Input(u32),
    OutputCount,
    Output(u32),
}

/// Why a dialogue ended without a module.
#[derive(Clone, Copy, Debug, PartialEq, Eq, Structural)]
pub enum CreateError {
    /// The answer to the number of inputs writes no count.
    InputCount,
    /// The answer to the number of outputs writes no count.
    OutputCount,
}

/// The state of a dialogue, as mathematics.
pub enum DraftView {
    /// Nothing was asked yet.
    Name,
    /// The name is known; the number of inputs is due.
    InputCount { name: Seq<char> },
    /// Some of the `total` inputs are still to come.
    Inputs { module: ModuleView, total: u32 },
    /// The inputs are complete; the number of outputs is due.
    OutputCount { module: ModuleView },
    /// Some of the `total` outputs are still to come.
    Outputs { module: ModuleView, total: u32 },
}

/// What an answer leads to, as mathematics.
pub enum StepView {
    Ask(DraftView),
    Done(ModuleView),
}

/// The module called `name` that has no entries yet.
pub open spec fn bare(name: Seq<char>) -> ModuleView {
    ModuleView { name, inputs: Seq::empty(), outputs: Seq::empty() }
}

impl DraftView {
    /// While entries are asked for, at least one is still to come, and no
    /// output is held before the inputs are complete.
    pub open spec fn wf(self) -> bool {
        match self {
            DraftView::Inputs { module, total } => module.inputs.len() < total
                && module.outputs.len() == 0,
            DraftView::OutputCount { module } => module.outputs.len() == 0,
            DraftView::Outputs { module, total } => module.outputs.len() < total,
            _ => true,
        }
    }

    /// What to ask for in this state.
    pub open spec fn prompt(self) -> Prompt {
        match self {
            DraftView::Name => Prompt::Name,
            DraftView::InputCount { .. } => Prompt::InputCount,
            DraftView::Inputs { module, .. } => Prompt::Input((module.inputs.len() + 1) as u32),
            DraftView::OutputCount { .. } => Prompt::OutputCount,
            DraftView::Outputs { module, .. } => Prompt::Output((module.outputs.len() + 1) as u32),
        }
    }

    /// The state after `token` was given as the answer. A count is read from
    /// the answer that gives it: one that writes no count ends the dialogue
    /// there, and a count of 0 passes over the entries.
    pub open spec fn answered(self, token: Seq<char>) -> Result<StepView, CreateError> {
        match self {
            DraftView::Name => Ok(StepView::Ask(DraftView::InputCount { name: token })),
            DraftView::InputCount { name } => match count_of(token) {
                None => Err(CreateError::InputCount),
                Some(total) => if total == 0 {
                    Ok(StepView::Ask(DraftView::OutputCount { module: bare(name) }))
                } else {
                    Ok(StepView::Ask(DraftView::Inputs { module: bare(name), total }))
                },
            },
            DraftView::Inputs { module, total } => {
                let module = ModuleView { inputs: module.inputs.push(token), ..module };
                if module.inputs.len() < total {
                    Ok(StepView::Ask(DraftView::Inputs { module, total }))
                } else {
                    Ok(StepView::Ask(DraftView::OutputCount { module }))
                }
            },
            DraftView::OutputCount { module } => match count_of(token) {
                None => Err(CreateError::OutputCount),
                Some(total) => if total == 0 {
                    Ok(StepView::Done(module))
                } else {
                    Ok(StepView::Ask(DraftView::Outputs { module, total }))
                },
            },
            DraftView::Outputs { module, total } => {
                let module = ModuleView { outputs: module.outputs.push(token), ..module };
                if module.outputs.len() < total {
                    Ok(StepView::Ask(DraftView::Outputs { module, total }))
                } else {
                    Ok(StepView::Done(module))
                }
            },
        }
    }
}

/// Where a dialogue stands after a row of answers, given in order. Answers
/// beyond the one that ends the dialogue are not looked at.
pub open spec fn run(d: DraftView, answers: Seq<Seq<char>>) -> Result<StepView, CreateError>
    decreases answers.len(),
{
    if answers.len() == 0 {
        Ok(StepView::Ask(d))
    } else {
        match d.answered(answers[0]) {
            Ok(StepView::Ask(next)) => run(next, answers.drop_first()),
            ended => ended,
        }
    }
}

proof fn lemma_run_outputs(module: ModuleView, total: u32, outs: Seq<Seq<char>>)
    requires
        module.outputs.len() < total,
        module.outputs.len() + outs.len() == total,
    ensures
        run(DraftView::Outputs { module, total }, outs) == Ok::<StepView, CreateError>(
            StepView::Done(ModuleView { outputs: module.outputs + outs, ..module }),
        ),
    decreases outs.len(),
{
    let next = ModuleView { outputs: module.outputs.push(outs[0]), ..module };
    assert(next.outputs + outs.drop_first() =~= module.outputs + outs);
    if next.outputs.len() < total {
        lemma_run_outputs(next, total, outs.drop_first());
    }
}

proof fn lemma_run_output_count(module: ModuleView, count: Seq<char>, outs: Seq<Seq<char>>)
    requires
        module.outputs.len() == 0,
        outs.len() <= u32::MAX,
        count_of(count) == Some(outs.len() as u32),
    ensures
        run(DraftView::OutputCount { module }, seq![count] + outs) == Ok::<StepView, CreateError>(
            StepView::Done(ModuleView { outputs: outs, ..module }),
        ),
{
    let answers = seq![count] + outs;
    assert(answers[0] == count);
    assert(answers.drop_first() =~= outs);
    if outs.len() == 0 {
        assert(module.outputs =~= outs);
    } else {
        lemma_run_outputs(module, outs.len() as u32, outs);
        assert(module.outputs + outs =~= outs);
    }
}

proof fn lemma_run_inputs(
    module: ModuleView,
    total: u32,
    ins: Seq<Seq<char>>,
    count: Seq<char>,
    outs: Seq<Seq<char>>,
)
    requires
        module.outputs.len() == 0,
        module.inputs.len() < total,
        module.inputs.len() + ins.len() == total,
        outs.len() <= u32::MAX,
        count_of(count) == Some(outs.len() as u32),
    ensures
        run(DraftView::Inputs { module, total }, ins + seq![count] + outs) == Ok::<
            StepView,
            CreateError,
        >(StepView::Done(ModuleView { inputs: module.inputs + ins, outputs: outs, ..module })),
    decreases ins.len(),
{
    let answers = ins + seq![count] + outs;
    let next = ModuleView { inputs: module.inputs.push(ins[0]), ..module };
    assert(answers[0] == ins[0]);
    assert(answers.drop_first() =~= ins.drop_first() + seq![count] + outs);
    assert(next.inputs + ins.drop_first() =~= module.inputs + ins);
    if next.inputs.len() < total {
        lemma_run_inputs(next, total, ins.drop_first(), count, outs);
    } else {
        assert(ins.drop_first() + seq![count] + outs =~= seq![count] + outs);
        lemma_run_output_count(next, count, outs);
    }
}

/// A whole dialogue. Where the operator gives the name, a count of inputs,
/// as many inputs as that count says, a count of outputs and as many outputs
/// as that count says, the dialogue ends with the last of these answers, in
/// the module that has that name, those inputs and those outputs, each list
/// in the order given.
pub proof fn law_dialogue_builds_module(
    name: Seq<char>,
    input_count: Seq<char>,
    ins: Seq<Seq<char>>,
    output_count: Seq<char>,
    outs: Seq<Seq<char>>,
)
    requires
        ins.len() <= u32::MAX,
        outs.len() <= u32::MAX,
        count_of(input_count) == Some(ins.len() as u32),
        count_of(output_count) == Some(outs.len() as u32),
    ensures
        run(DraftView::Name, seq![name, input_count] + ins + seq![output_count] + outs) == Ok::<
            StepView,
            CreateError,
        >(StepView::Done(ModuleView { name, inputs: ins, outputs: outs })),
{
    let answers = seq![name, input_count] + ins + seq![output_count] + outs;
    let a1 = answers.drop_first();
    let a2 = a1.drop_first();
    assert(a2 =~= ins + seq![output_count] + outs);
    assert(answers[0] == name && a1[0] == input_count);
    assert(run(DraftView::Name, answers) == run(DraftView::InputCount { name }, a1));
    if ins.len() == 0 {
        assert(a2 =~= seq![output_count] + outs);
        lemma_run_output_count(bare(name), output_count, outs);
        assert(bare(name).inputs =~= ins);
    } else {
        lemma_run_inputs(bare(name), ins.len() as u32, ins, output_count, outs);
        assert(bare(name).inputs + ins =~= ins);
    }
}

#[derive(Debug)]
enum Stage {
    Name,
    InputCount { name: String },
    Inputs { module: Module, total: u32 },
    OutputCount { module: Module },
    Outputs { module: Module, total: u32 },
}

/// The state of a dialogue that creates a module.
#[derive(Debug)]
pub struct Draft {
    stage: Stage,
}

/// What an answer leads to: another question, or the finished module.
#[derive(Debug)]
pub enum Step {
    Ask(Draft),
    Done(Module),
}

impl View for Draft {
    type V = DraftView;

    closed spec fn view(&self) -> DraftView {
        match self.stage {
            Stage::Name => DraftView::Name,
            Stage::InputCount { name } => DraftView::InputCount { name: name@ },
            Stage::Inputs { module, total } => DraftView::Inputs { module: module@, total },
            Stage::OutputCount { module } => DraftView::OutputCount { module: module@ },
            Stage::Outputs { module, total } => DraftView::Outputs { module: module@, total },
        }
    }
}

impl View for Step {
    type V = StepView;

    open spec fn view(&self) -> StepView {
        match self {
            Step::Ask(d) => StepView::Ask(d@),
            Step::Done(m) => StepView::Done(m@),
        }
    }
}

/// The views of the two sides of a result are the same.
pub open spec fn step_is(r: Result<Step, CreateError>, v: Result<StepView, CreateError>) -> bool {
    match r {
        Ok(s) => v == Ok::<StepView, CreateError>(s@),
        Err(e) => v == Err::<StepView, CreateError>(e),
    }
}

impl Draft {
    #[verifier::type_invariant]
    spec fn inv(self) -> bool {
        self@.wf()
    }

    /// The dialogue before the first question.
    pub fn start() -> (d: Draft)
        ensures
            d@ == DraftView::Name,
    {
        Draft { stage: Stage::Name }
    }

    /// What to ask the operator for next.
    pub fn prompt(&self) -> (p: Prompt)
        ensures
            self@.wf(),
            p == self@.prompt(),
    {
        proof {
            use_type_invariant(self);
        }
        match &self.stage {
            Stage::Name => Prompt::Name,
            Stage::InputCount { .. } => Prompt::InputCount,
            Stage::Inputs { module, .. } => Prompt::Input(module.inputs().len() as u32 + 1),
            Stage::OutputCount { .. } => Prompt::OutputCount,
            Stage::Outputs { module, .. } => Prompt::Output(module.outputs().len() as u32 + 1),
        }
    }

    /// Takes the operator's answer to the question that `prompt` names. An
    /// answer to a count that writes no count ends the dialogue with the
    /// error of that count; a count of 0 passes over the entries. Any text
    /// is taken as a name or an entry, the empty one too.
    pub fn answer(self, token: &str) -> (r: Result<Step, CreateError>)
        ensures
            step_is(r, self@.answered(token@)),
            r matches Ok(Step::Ask(d)) ==> d@.wf(),
    {
        proof {
            use_type_invariant(&self);
        }
        match self.stage {
            Stage::Name => Ok(
                Step::Ask(Draft { stage: Stage::InputCount { name: String::from_str(token) } }),
            ),
            Stage::InputCount { name } => match parse_count(token) {
                None => Err(CreateError::InputCount),
                Some(total) => {
                    let module = Module::new(name.as_str());
                    assert(module@ == bare(name@));
                    if total == 0 {
                        Ok(Step::Ask(Draft { stage: Stage::OutputCount { module } }))
                    } else {
                        Ok(Step::Ask(Draft { stage: Stage::Inputs { module, total } }))
                    }
                },
            },
            Stage::Inputs { module, total } => {
                let mut module = module;
                module.add_input(token);
                if module.inputs().len() < total as usize {
                    Ok(Step::Ask(Draft { stage: Stage::Inputs { module, total } }))
                } else {
                    Ok(Step::Ask(Draft { stage: Stage::OutputCount { module } }))
                }
            },
            Stage::OutputCount { module } => match parse_count(token) {
                None => Err(CreateError::OutputCount),
                Some(total) => if total == 0 {
                    Ok(Step::Done(module))
                } else {
                    Ok(Step::Ask(Draft { stage: Stage::Outputs { module, total } }))
                },
            },
            Stage::Outputs { module, total } => {
                let mut module = module;
                module.add_output(token);
                if module.outputs().len() < total as usize {
                    Ok(Step::Ask(Draft { stage: Stage::Outputs { module, total } }))
                } else {
                    Ok(Step::Done(module))
                }
            },
        }
    }

    /// Takes the tokens of the line that the operator typed as the answer:
    /// the first token counts, and a line without tokens gives the empty
    /// text.
    pub fn answer_line(self, tokens: &Vec<String>) -> (r: Result<Step, CreateError>)
        ensures
            step_is(r, self@.answered(first_or_empty(names_view(tokens@)))),
            r matches Ok(Step::Ask(d)) ==> d@.wf(),
    {
        if tokens.len() == 0 {
            let r = self.answer("");
            proof {
                reveal_strlit("");
                assert(""@ =~= Seq::<char>::empty());
            }
            r
        } else {
            self.answer(tokens[0].as_str())
        }
    }
}

} // verus!
