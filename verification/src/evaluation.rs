//! Evaluating a program step by step: the phases of a run, and what its buttons
//! do.

use crate::model::node::{self, ENode};
use crate::text;
use std::collections::HashMap;
use vstd::prelude::*;

verus! {

broadcast use vstd::std_specs::hash::group_hash_axioms;

/// What a run has found out so far: for every node it has resolved, its value as
/// it is written. By the number of the node's id.
pub struct Snapshot {
    pub values: HashMap<usize, String>,
}

impl View for Snapshot {
    type V = Map<usize, String>;

    open spec fn view(&self) -> Map<usize, String> {
        self.values@
    }
}

/// The values of a history.
pub open spec fn snapshot_views(states: Seq<Snapshot>) -> Seq<Map<usize, String>> {
    states.map_values(|state: Snapshot| state@)
}

impl Snapshot {
    /// A run at rest: nothing has been read yet.
    pub fn nothing_yet() -> (state: Self)
        ensures
            state@ == Map::<usize, String>::empty(),
    {
        Snapshot { values: HashMap::new() }
    }

    /// The sink has a value, which is what being evaluated *is*.
    pub fn is_evaluated(&self, sink: &node::Id) -> (res: bool)
        ensures
            res == self@.contains_key(sink.0),
    {
        self.values.contains_key(&sink.0)
    }
}

pub enum EvalPhase {
    Idle,
    ErrorModal(String),
    ControlsModal,
    /// The question before a New. It carries nothing: the only thing this phase
    /// remembers is that the question is on screen.
    ConfirmNew,
    SourcePrompt {
        /// The Sources that are asked for, with what has been typed so far.
        inputs: Vec<(node::Id, String)>,
    },
    Running {
        /// Full step history; `current` indexes the snapshot on screen.
        states: Vec<Snapshot>,
        current: usize,
        /// Source values from the prompt modal, needed to keep stepping.
        answers: HashMap<usize, String>,
    },
}

/// The mathematical value of an [`EvalPhase`].
pub enum EvalPhaseView {
    Idle,
    ErrorModal(Seq<char>),
    ControlsModal,
    ConfirmNew,
    SourcePrompt { inputs: Seq<(node::Id, Seq<char>)> },
    Running { states: Seq<Map<usize, String>>, current: nat, answers: Map<usize, String> },
}

/// The values of a list of inputs.
pub open spec fn input_views(inputs: Seq<(node::Id, String)>) -> Seq<(node::Id, Seq<char>)> {
    inputs.map_values(|input: (node::Id, String)| (input.0, input.1@))
}

impl View for EvalPhase {
    type V = EvalPhaseView;

    open spec fn view(&self) -> EvalPhaseView {
        match self {
            EvalPhase::Idle => EvalPhaseView::Idle,
            EvalPhase::ErrorModal(message) => EvalPhaseView::ErrorModal(message@),
            EvalPhase::ControlsModal => EvalPhaseView::ControlsModal,
            EvalPhase::ConfirmNew => EvalPhaseView::ConfirmNew,
            EvalPhase::SourcePrompt { inputs } => EvalPhaseView::SourcePrompt {
                inputs: input_views(inputs@),
            },
            EvalPhase::Running { states, current, answers } => EvalPhaseView::Running {
                states: snapshot_views(states@),
                current: *current as nat,
                answers: answers@,
            },
        }
    }
}

/// The evaluation, whatever phase it is in.
pub struct EvalState {
    pub phase: EvalPhase,
    /// A standing wish to reach the end of the run, rather than a phase of it:
    /// it has to survive the values modal that a run may start with.
    pub run_to_end: bool,
}

/// The mathematical value of an [`EvalState`].
pub struct EvalStateView {
    pub phase: EvalPhaseView,
    pub run_to_end: bool,
}

impl View for EvalState {
    type V = EvalStateView;

    open spec fn view(&self) -> EvalStateView {
        EvalStateView { phase: self.phase@, run_to_end: self.run_to_end }
    }
}

/// A history in order: it starts with nothing, and every step found out more
/// than the one before.
pub open spec fn in_order(states: Seq<Map<usize, String>>) -> bool {
    &&& states.len() > 0
    &&& states[0].dom() == Set::<usize>::empty()
    &&& forall|i: int|
        0 <= i < states.len() ==> (#[trigger] states[i]).dom().finite()
    &&& forall|i: int, j: int|
        0 <= i < j < states.len() ==> (#[trigger] states[i]).len() < (#[trigger] states[j]).len()
}

impl EvalPhaseView {
    /// A run shows one of its own snapshots, and its history is in order.
    pub open spec fn well_formed(self) -> bool {
        match self {
            EvalPhaseView::Running { states, current, .. } => current < states.len() && in_order(
                states,
            ),
            _ => true,
        }
    }

    /// A run at step 0.
    pub open spec fn started(answers: Map<usize, String>) -> EvalPhaseView {
        EvalPhaseView::Running { states: seq![Map::empty()], current: 0, answers }
    }

    /// A modal owns the screen.
    pub open spec fn is_modal(self) -> bool {
        self is ErrorModal || self is ControlsModal || self is ConfirmNew || self is SourcePrompt
    }
}

impl EvalState {
    /// The run, if one is going, shows one of its own snapshots, and its history
    /// is in order.
    pub open spec fn well_formed(&self) -> bool {
        self@.phase.well_formed()
    }
}

impl Default for EvalState {
    fn default() -> (state: Self)
        ensures
            state@ == (EvalStateView { phase: EvalPhaseView::Idle, run_to_end: false }),
    {
        EvalState { phase: EvalPhase::Idle, run_to_end: false }
    }
}

/// Whether anything but editing is going on.
pub fn is_evaluating(eval: &EvalState) -> (res: bool)
    ensures
        res == !(eval@.phase is Idle),
{
    match eval.phase {
        EvalPhase::Idle => false,
        _ => true,
    }
}

/// Whether a modal owns the screen.
pub fn modal_is_open(eval: &EvalState) -> (res: bool)
    ensures
        res == eval@.phase.is_modal(),
{
    match eval.phase {
        EvalPhase::ErrorModal(_)
        | EvalPhase::ControlsModal
        | EvalPhase::ConfirmNew
        | EvalPhase::SourcePrompt { .. } => true,
        EvalPhase::Idle | EvalPhase::Running { .. } => false,
    }
}

/// Something other than the graph owns the keyboard.
pub open spec fn has_the_keys(eval: EvalStateView, field_focused: bool) -> bool {
    !(eval.phase is Idle) || field_focused
}

/// Whether something other than the graph owns the keyboard: a modal, a running
/// evaluation, or a text field.
pub fn keyboard_captured(eval: &EvalState, field_focused: bool) -> (res: bool)
    ensures
        res == has_the_keys(eval@, field_focused),
{
    modal_is_open(eval) || is_evaluating(eval) || field_focused
}

/// Which modal is on screen.
#[derive(Clone, Copy, Debug, PartialEq, Eq, Structural)]
pub enum ModalKind {
    NoModal,
    Error,
    Controls,
    ConfirmNew,
    SourcePrompt,
}

/// Which modal is on screen in the given phase.
pub fn modal_kind(phase: &EvalPhase) -> (kind: ModalKind)
    ensures
        kind == match phase@ {
            EvalPhaseView::ErrorModal(_) => ModalKind::Error,
            EvalPhaseView::ControlsModal => ModalKind::Controls,
            EvalPhaseView::ConfirmNew => ModalKind::ConfirmNew,
            EvalPhaseView::SourcePrompt { .. } => ModalKind::SourcePrompt,
            EvalPhaseView::Idle => ModalKind::NoModal,
            EvalPhaseView::Running { .. } => ModalKind::NoModal,
        },
        (kind == ModalKind::NoModal) == !phase@.is_modal(),
{
    match phase {
        EvalPhase::ErrorModal(_) => ModalKind::Error,
        EvalPhase::ControlsModal => ModalKind::Controls,
        EvalPhase::ConfirmNew => ModalKind::ConfirmNew,
        EvalPhase::SourcePrompt { .. } => ModalKind::SourcePrompt,
        EvalPhase::Idle | EvalPhase::Running { .. } => ModalKind::NoModal,
    }
}

/// The prompt for the given Sources, with nothing typed yet.
pub open spec fn asking_for(sources: Seq<node::Id>) -> EvalPhaseView {
    EvalPhaseView::SourcePrompt {
        inputs: sources.map_values(|id: node::Id| (id, Seq::<char>::empty())),
    }
}

/// The phase a press on "evaluate" leads to.
pub open spec fn begun(phase: EvalPhaseView, blocking: bool, sources: Seq<node::Id>) -> EvalPhaseView {
    if !(phase is Idle) || blocking {
        phase
    } else if sources.len() > 0 {
        asking_for(sources)
    } else {
        EvalPhaseView::started(Map::empty())
    }
}

proof fn lemma_started(states: Seq<Snapshot>, state: Snapshot)
    requires
        states == seq![state],
        state@ == Map::<usize, String>::empty(),
    ensures
        snapshot_views(states) == seq![Map::<usize, String>::empty()],
        in_order(snapshot_views(states)),
{
    assert(snapshot_views(states) =~= seq![Map::<usize, String>::empty()]);
}

fn start_run(answers: HashMap<usize, String>) -> (phase: EvalPhase)
    ensures
        phase@ == EvalPhaseView::started(answers@),
        phase@.well_formed(),
{
    let state = Snapshot::nothing_yet();
    let ghost first = state;
    let states = vec![state];
    proof {
        assert(states@ =~= seq![first]);
        lemma_started(states@, first);
    }
    EvalPhase::Running { states, current: 0, answers }
}

impl EvalState {
    /// Begin a run: the checks a press has to pass, and whichever phase comes of
    /// them, the values modal where there are Sources to answer for, otherwise
    /// the run itself, at step 0.
    ///
    /// `blocking` says that something is wrong with the graph that keeps it from
    /// running. Says whether the list of what is wrong has to be unfolded: that
    /// is where such a press is answered.
    pub fn begin_evaluation(&mut self, blocking: bool, sources: &Vec<node::Id>) -> (unfold: bool)
        requires
            old(self).well_formed(),
        ensures
            final(self).well_formed(),
            unfold == (old(self)@.phase is Idle && blocking),
            final(self)@ == (EvalStateView {
                phase: begun(old(self)@.phase, blocking, sources@),
                ..old(self)@
            }),
    {
        if is_evaluating(self) {
            return false;
        }
        if blocking {
            return true;
        }
        if sources.len() > 0 {
            let mut inputs: Vec<(node::Id, String)> = Vec::new();
            let mut i: usize = 0;
            while i < sources.len()
                invariant
                    i <= sources.len(),
                    input_views(inputs@) == sources@.take(i as int).map_values(
                        |id: node::Id| (id, Seq::<char>::empty()),
                    ),
                decreases sources.len() - i,
            {
                let ghost before = input_views(inputs@);
                inputs.push((sources[i], String::new()));
                assert(input_views(inputs@) =~= before.push(
                    (sources@[i as int], Seq::<char>::empty()),
                ));
                assert(sources@.take(i + 1).map_values(|id: node::Id| (id, Seq::<char>::empty()))
                    =~= before.push((sources@[i as int], Seq::<char>::empty())));
                i = i + 1;
            }
            assert(sources@.take(i as int) == sources@);
            self.phase = EvalPhase::SourcePrompt { inputs };
            return false;
        }
        self.phase = start_run(HashMap::new());
        false
    }

    /// Open the controls list, unless something else is going on.
    pub fn open_controls(&mut self)
        requires
            old(self).well_formed(),
        ensures
            final(self).well_formed(),
            final(self)@ == (EvalStateView {
                phase: if old(self)@.phase is Idle {
                    EvalPhaseView::ControlsModal
                } else {
                    old(self)@.phase
                },
                ..old(self)@
            }),
    {
        if !is_evaluating(self) {
            self.phase = EvalPhase::ControlsModal;
        }
    }

    /// Ask before resetting, unless something else is going on.
    pub fn ask_for_new(&mut self)
        requires
            old(self).well_formed(),
        ensures
            final(self).well_formed(),
            final(self)@ == (EvalStateView {
                phase: if old(self)@.phase is Idle {
                    EvalPhaseView::ConfirmNew
                } else {
                    old(self)@.phase
                },
                ..old(self)@
            }),
    {
        if !is_evaluating(self) {
            self.phase = EvalPhase::ConfirmNew;
        }
    }

    /// Close whatever is open, and leave whatever is running: the modal's OK and
    /// Cancel, the answered New, and the run's Exit.
    pub fn close(&mut self)
        ensures
            final(self).well_formed(),
            final(self)@ == (EvalStateView { phase: EvalPhaseView::Idle, ..old(self)@ }),
    {
        self.phase = EvalPhase::Idle;
    }
}

// ── Answering for the Sources ──

/// One field of the values modal: the Source it is for, what was typed, and what
/// came of reading that as a value of the Source's type.
pub struct Answer {
    pub node_id: node::Id,
    pub typed: String,
    pub parsed: Result<(), String>,
}

/// What is wrong with an answer, if something is. A Source that declares nothing
/// has nothing to read the answer as; an answer for what is no Source counts for
/// nothing.
pub open spec fn complaint(nodes: Map<usize, ENode>, answer: Answer) -> Option<Seq<char>> {
    if nodes.contains_key(answer.node_id.0) {
        match nodes[answer.node_id.0] {
            ENode::Source { name, etype, .. } => match etype {
                None => Some(name@ + ": no type declared"@),
                Some(_) => match answer.parsed {
                    Ok(_) => None,
                    Err(error) => Some(name@ + ": "@ + error@),
                },
            },
            _ => None,
        }
    } else {
        None
    }
}

/// The answer is one to a Source that declares a type, and can be read.
pub open spec fn is_accepted(nodes: Map<usize, ENode>, answer: Answer) -> bool {
    &&& nodes.contains_key(answer.node_id.0)
    &&& nodes[answer.node_id.0] matches ENode::Source { etype, .. } && etype is Some
    &&& answer.parsed is Ok
}

/// Everything that is wrong with the answers, in their order.
pub open spec fn complaints(nodes: Map<usize, ENode>, answers: Seq<Answer>) -> Seq<Seq<char>>
    decreases answers.len(),
{
    if answers.len() == 0 {
        Seq::empty()
    } else {
        let before = complaints(nodes, answers.drop_last());
        match complaint(nodes, answers.last()) {
            Some(complaint) => before.push(complaint),
            None => before,
        }
    }
}

/// The answers that can be read, by the Sources they are for. Where a Source is
/// answered twice the last answer stays.
pub open spec fn accepted(nodes: Map<usize, ENode>, answers: Seq<Answer>) -> Map<usize, String>
    decreases answers.len(),
{
    if answers.len() == 0 {
        Map::empty()
    } else {
        let before = accepted(nodes, answers.drop_last());
        if is_accepted(nodes, answers.last()) {
            before.insert(answers.last().node_id.0, answers.last().typed)
        } else {
            before
        }
    }
}

/// The phase the answered values modal leads to: the complaints, one to a line,
/// or the run at step 0.
pub open spec fn answered(nodes: Map<usize, ENode>, answers: Seq<Answer>) -> EvalPhaseView {
    let wrong = complaints(nodes, answers);
    if wrong.len() > 0 {
        EvalPhaseView::ErrorModal(text::joined(wrong, "\n"@))
    } else {
        EvalPhaseView::started(accepted(nodes, answers))
    }
}

/// The messages with a line break between each two.
pub fn lines(messages: &Vec<String>) -> (text: String)
    ensures
        text@ == text::joined(messages@.map_values(|message: String| message@), "\n"@),
{
    let ghost parts = messages@.map_values(|message: String| message@);
    let mut text = String::new();
    let mut i: usize = 0;
    while i < messages.len()
        invariant
            i <= messages.len(),
            parts == messages@.map_values(|message: String| message@),
            text@ == text::joined(parts.take(i as int), "\n"@),
        decreases messages.len() - i,
    {
        if i > 0 {
            text = text.concat("\n");
        }
        text = text.concat(messages[i].as_str());
        assert(parts.take(i + 1).drop_last() == parts.take(i as int));
        assert(text@ == text::joined(parts.take(i + 1), "\n"@));
        i = i + 1;
    }
    assert(parts.take(i as int) == parts);
    text
}

impl EvalState {
    /// Take the answers of the values modal.
    pub fn submit_answers(&mut self, nodes: &HashMap<usize, ENode>, answers: &Vec<Answer>)
        ensures
            final(self).well_formed(),
            final(self)@ == (EvalStateView {
                phase: answered(nodes@, answers@),
                ..old(self)@
            }),
    {
        let mut values: HashMap<usize, String> = HashMap::new();
        let mut errors: Vec<String> = Vec::new();
        let mut i: usize = 0;
        while i < answers.len()
            invariant
                i <= answers.len(),
                values@ == accepted(nodes@, answers@.take(i as int)),
                errors@.map_values(|message: String| message@) == complaints(
                    nodes@,
                    answers@.take(i as int),
                ),
            decreases answers.len() - i,
        {
            let answer = &answers[i];
            let ghost before = errors@.map_values(|message: String| message@);
            assert(answers@.take(i + 1).drop_last() == answers@.take(i as int));
            if let Some(ENode::Source { name, etype, .. }) = nodes.get(&answer.node_id.0) {
                match etype {
                    None => {
                        let message = name.clone().concat(": no type declared");
                        let ghost said = message@;
                        errors.push(message);
                        assert(errors@.map_values(|message: String| message@) =~= before.push(
                            said,
                        ));
                    },
                    Some(_) => match &answer.parsed {
                        Ok(_) => {
                            values.insert(answer.node_id.0, answer.typed.clone());
                        },
                        Err(error) => {
                            let message = name.clone().concat(": ").concat(error.as_str());
                            let ghost said = message@;
                            errors.push(message);
                            assert(errors@.map_values(|message: String| message@) =~= before.push(
                                said,
                            ));
                        },
                    },
                }
            }
            i = i + 1;
        }
        assert(answers@.take(i as int) == answers@);
        if errors.len() > 0 {
            self.phase = EvalPhase::ErrorModal(lines(&errors));
        } else {
            assert(complaints(nodes@, answers@).len() == 0);
            self.phase = start_run(values);
        }
    }
}

/// A run starts from the values modal exactly if nothing is wrong with the
/// answers, and then every answer that belongs to a Source was taken.
pub proof fn law_no_complaint_means_all_taken(nodes: Map<usize, ENode>, answers: Seq<Answer>, i: int)
    requires
        0 <= i < answers.len(),
        complaints(nodes, answers).len() == 0,
        nodes.contains_key(answers[i].node_id.0),
        nodes[answers[i].node_id.0] is Source,
    ensures
        answered(nodes, answers) is Running,
        is_accepted(nodes, answers[i]),
        accepted(nodes, answers).contains_key(answers[i].node_id.0),
    decreases answers.len(),
{
    let shorter = answers.drop_last();
    assert(complaints(nodes, shorter).len() == 0);
    if i < shorter.len() {
        law_no_complaint_means_all_taken(nodes, shorter, i);
    }
}

// ── Stepping ──

/// The run after a step, or a failed step. A step that resolved nothing new
/// leaves it as it is; a productive one is recorded behind the snapshot on
/// screen, in place of whatever stood there.
pub open spec fn stepped(
    phase: EvalPhaseView,
    result: Result<Map<usize, String>, Seq<char>>,
) -> EvalPhaseView {
    match phase {
        EvalPhaseView::Running { states, current, answers } => match result {
            Ok(next) => if next.len() > states[current as int].len() {
                EvalPhaseView::Running {
                    states: states.take((current + 1) as int).push(next),
                    current: current + 1,
                    answers,
                }
            } else {
                phase
            },
            Err(errors) => EvalPhaseView::ErrorModal(errors),
        },
        _ => phase,
    }
}

/// A step went on: a run was going, and the step resolved anything new.
pub open spec fn found_more(
    phase: EvalPhaseView,
    result: Result<Map<usize, String>, Seq<char>>,
) -> bool {
    phase matches EvalPhaseView::Running { states, current, .. } && result matches Ok(next)
        && next.len() > states[current as int].len()
}

/// The evaluation after all the way was asked for, and whether the list of what is
/// wrong has to be unfolded.
pub open spec fn full_run_asked(
    eval: EvalStateView,
    blocking: bool,
    sources: Seq<node::Id>,
) -> (EvalStateView, bool) {
    let unfold = eval.phase is Idle && blocking;
    (
        EvalStateView {
            phase: begun(eval.phase, blocking, sources),
            run_to_end: if unfold {
                eval.run_to_end
            } else {
                true
            },
        },
        unfold,
    )
}

/// The run after going back: one snapshot earlier, where there is one.
pub open spec fn gone_back(phase: EvalPhaseView) -> EvalPhaseView {
    match phase {
        EvalPhaseView::Running { states, current, answers } => EvalPhaseView::Running {
            states,
            current: if current > 0 {
                (current - 1) as nat
            } else {
                0
            },
            answers,
        },
        phase => phase,
    }
}

/// The evaluation after its standing wish was looked at, and whether it is to be
/// carried out now.
pub open spec fn granted(eval: EvalStateView) -> (EvalStateView, bool) {
    (
        EvalStateView { run_to_end: eval.run_to_end && eval.phase is SourcePrompt, ..eval },
        eval.run_to_end && eval.phase is Running,
    )
}

/// A run to the end takes another step.
pub open spec fn goes_on(phase: EvalPhaseView, sink: node::Id, rounds: nat, nodes: nat) -> bool {
    match phase {
        EvalPhaseView::Running { states, current, .. } => rounds <= nodes
            && !states[current as int].contains_key(sink.0),
        _ => false,
    }
}

/// The value of what a step came to.
pub open spec fn result_view(result: Result<Snapshot, Vec<String>>) -> Result<
    Map<usize, String>,
    Seq<char>,
> {
    match result {
        Ok(next) => Ok(next@),
        Err(errors) => Err(
            text::joined(errors@.map_values(|message: String| message@), "\n"@),
        ),
    }
}

/// A step keeps a history in order.
proof fn lemma_step_in_order(states: Seq<Map<usize, String>>, current: int, next: Map<usize, String>)
    requires
        in_order(states),
        0 <= current < states.len(),
        next.dom().finite(),
        next.len() > states[current].len(),
    ensures
        in_order(states.take(current + 1).push(next)),
{
    let grown = states.take(current + 1).push(next);
    assert forall|i: int, j: int| 0 <= i < j < grown.len() implies (#[trigger] grown[i]).len() < (
    #[trigger] grown[j]).len() by {
        if j == current + 1 {
            assert(grown[j] == next);
            assert(grown[i] == states[i]);
            if i < current {
                assert(states[i].len() < states[current].len());
            }
        } else {
            assert(grown[i] == states[i] && grown[j] == states[j]);
        }
    }
}

impl EvalState {
    /// Go back one snapshot, where there is one.
    pub fn press_prev(&mut self)
        requires
            old(self).well_formed(),
        ensures
            final(self).well_formed(),
            final(self)@ == (EvalStateView {
                phase: gone_back(old(self)@.phase),
                ..old(self)@
            }),
    {
        let mut phase = EvalPhase::Idle;
        std::mem::swap(&mut phase, &mut self.phase);
        self.phase = match phase {
            EvalPhase::Running { states, current, answers } => EvalPhase::Running {
                states,
                current: if current > 0 {
                    current - 1
                } else {
                    current
                },
                answers,
            },
            phase => phase,
        };
    }

    /// Take what a step from the snapshot on screen came to. Says whether the
    /// run went on: whether the step resolved anything new.
    ///
    /// A new snapshot is only recorded if the step actually resolved more nodes,
    /// so a dead press does not grow the history; an error ends the run.
    pub fn take_step(&mut self, result: Result<Snapshot, Vec<String>>) -> (went_on: bool)
        requires
            old(self).well_formed(),
        ensures
            final(self).well_formed(),
            final(self)@ == (EvalStateView {
                phase: stepped(old(self)@.phase, result_view(result)),
                ..old(self)@
            }),
            went_on == found_more(old(self)@.phase, result_view(result)),
    {
        let mut phase = EvalPhase::Idle;
        std::mem::swap(&mut phase, &mut self.phase);
        match phase {
            EvalPhase::Running { states, current, answers } => match result {
                Ok(next) => {
                    let ghost views = snapshot_views(states@);
                    assert(views[current as int] == states@[current as int]@);
                    if next.values.len() > states[current].values.len() {
                        let mut states = states;
                        assert(current < states.len());
                        let ghost found = next@;
                        proof {
                            lemma_step_in_order(views, current as int, found);
                        }
                        states.truncate(current + 1);
                        states.push(next);
                        assert(snapshot_views(states@) =~= views.take(current + 1).push(found));
                        self.phase = EvalPhase::Running { states, current: current + 1, answers };
                        true
                    } else {
                        self.phase = EvalPhase::Running { states, current, answers };
                        false
                    }
                },
                Err(errors) => {
                    self.phase = EvalPhase::ErrorModal(lines(&errors));
                    false
                },
            },
            phase => {
                self.phase = phase;
                false
            },
        }
    }

    /// The snapshot a step starts from; `None` while nothing runs.
    pub fn current_state(&self) -> (state: Option<&Snapshot>)
        requires
            self.well_formed(),
        ensures
            match state {
                Some(state) => self@.phase matches EvalPhaseView::Running { states, current, .. }
                    && states[current as int] == state@,
                None => !(self@.phase is Running),
            },
    {
        match &self.phase {
            EvalPhase::Running { states, current, .. } => {
                assert(snapshot_views(states@)[*current as int] == states@[*current as int]@);
                Some(&states[*current])
            },
            _ => None,
        }
    }

    /// Say that the run should reach its end, and start one if none is going.
    ///
    /// Only ever says it: the wish is carried across the values modal. A graph
    /// that will not run must not be left with a standing wish to run to its
    /// end. Says whether the list of what is wrong has to be unfolded.
    pub fn press_full_run(&mut self, blocking: bool, sources: &Vec<node::Id>) -> (unfold: bool)
        requires
            old(self).well_formed(),
        ensures
            final(self).well_formed(),
            (final(self)@, unfold) == full_run_asked(old(self)@, blocking, sources@),
    {
        let unfold = self.begin_evaluation(blocking, sources);
        if unfold {
            return true;
        }
        self.run_to_end = true;
        false
    }

    /// Whether a standing wish to reach the end is to be carried out now. While
    /// the values modal is open it waits; in every other phase it is spent, and
    /// there is something to carry out only where a run is going.
    pub fn grant_run_to_end(&mut self) -> (run: bool)
        requires
            old(self).well_formed(),
        ensures
            final(self).well_formed(),
            (final(self)@, run) == granted(old(self)@),
    {
        if !self.run_to_end {
            return false;
        }
        if let EvalPhase::SourcePrompt { .. } = self.phase {
            return false;
        }
        self.run_to_end = false;
        match self.phase {
            EvalPhase::Running { .. } => true,
            _ => false,
        }
    }

    /// Whether a run to the end takes another step: `rounds` have been taken, of
    /// a graph with `nodes` nodes, and the sink has no value yet. A productive
    /// round resolves at least one node, so there cannot be more rounds than
    /// there are nodes.
    pub fn wants_step(&self, sink: &node::Id, rounds: usize, nodes: usize) -> (res: bool)
        requires
            self.well_formed(),
        ensures
            res == goes_on(self@.phase, *sink, rounds as nat, nodes as nat),
    {
        if rounds > nodes {
            return false;
        }
        match self.current_state() {
            Some(state) => !state.is_evaluated(sink),
            None => false,
        }
    }
}

/// The run after what a list of steps came to, taken one after the other.
pub open spec fn run_along(
    phase: EvalPhaseView,
    results: Seq<Result<Map<usize, String>, Seq<char>>>,
) -> EvalPhaseView
    decreases results.len(),
{
    if results.len() == 0 {
        phase
    } else {
        run_along(stepped(phase, results[0]), results.drop_first())
    }
}

/// Taking steps in one go is taking them one by one: it does not matter where
/// the pressing stops and the running begins.
pub proof fn law_running_is_pressing(
    phase: EvalPhaseView,
    first: Seq<Result<Map<usize, String>, Seq<char>>>,
    rest: Seq<Result<Map<usize, String>, Seq<char>>>,
)
    ensures
        run_along(phase, first + rest) == run_along(run_along(phase, first), rest),
    decreases first.len(),
{
    if first.len() == 0 {
        assert(first + rest =~= rest);
    } else {
        assert((first + rest).drop_first() =~= first.drop_first() + rest);
        assert((first + rest)[0] == first[0]);
        law_running_is_pressing(stepped(phase, first[0]), first.drop_first(), rest);
    }
}

/// Every snapshot of a run holds at least as many values as steps were taken to
/// it, so a run over `nodes` nodes has at most `nodes + 1` snapshots.
pub proof fn law_history_is_bounded(states: Seq<Map<usize, String>>, nodes: Set<usize>)
    requires
        in_order(states),
        nodes.finite(),
        forall|i: int| 0 <= i < states.len() ==> (#[trigger] states[i]).dom().subset_of(nodes),
    ensures
        forall|i: int| 0 <= i < states.len() ==> i <= (#[trigger] states[i]).len(),
        states.len() <= nodes.len() + 1,
{
    assert forall|i: int| 0 <= i < states.len() implies i <= (#[trigger] states[i]).len() by {
        lemma_history_grows(states, i);
    }
    let last = states[states.len() - 1];
    vstd::set_lib::lemma_len_subset(last.dom(), nodes);
}

proof fn lemma_history_grows(states: Seq<Map<usize, String>>, i: int)
    requires
        in_order(states),
        0 <= i < states.len(),
    ensures
        i <= states[i].len(),
    decreases i,
{
    if i > 0 {
        lemma_history_grows(states, i - 1);
        assert(states[i - 1].len() < states[i].len());
    }
}

/// Going back and taking the same step again comes to the same snapshot, and
/// going back never changes the history.
pub proof fn law_prev_then_next(
    states: Seq<Map<usize, String>>,
    current: nat,
    answers: Map<usize, String>,
)
    requires
        in_order(states),
        0 < current < states.len(),
    ensures
        ({
            let back = EvalPhaseView::Running { states, current: (current - 1) as nat, answers };
            stepped(back, Ok(states[current as int])) matches EvalPhaseView::Running {
                states: again,
                current: at,
                ..
            } && at == current && again == states.take((current + 1) as int)
        }),
{
    assert(states[current - 1].len() < states[current as int].len());
    assert(states.take(current as int).push(states[current as int]) =~= states.take((current + 1) as int));
}

/// A step that resolves nothing new, and any step while nothing runs, leaves
/// everything as it is.
pub proof fn law_dead_step_changes_nothing(phase: EvalPhaseView, next: Map<usize, String>)
    requires
        phase matches EvalPhaseView::Running { states, current, .. } ==> next.len()
            <= states[current as int].len(),
    ensures
        stepped(phase, Ok(next)) == phase,
{
}

/// Once a run has started from the values modal, the value held for each Source
/// is the text that was typed in a field for that very Source: the last accepted
/// answer to it. Nothing is held for anything else, and the run stands at its
/// beginning with nothing found out.
pub proof fn law_a_source_holds_what_was_typed_for_it(
    nodes: Map<usize, ENode>,
    answers: Seq<Answer>,
)
    requires
        answered(nodes, answers) is Running,
    ensures
        answered(nodes, answers) matches EvalPhaseView::Running { states, current, answers: held }
            && {
            &&& states.len() == 1
            &&& states[0].dom() == Set::<usize>::empty()
            &&& current == 0
            &&& forall|i: int|
                #![trigger answers[i]]
                0 <= i < answers.len() && is_accepted(nodes, answers[i]) && (forall|j: int|
                    i < j < answers.len() ==> (#[trigger] answers[j]).node_id
                        != answers[i].node_id) ==> {
                    &&& held.contains_key(answers[i].node_id.0)
                    &&& held[answers[i].node_id.0] == answers[i].typed
                }
            &&& forall|key: usize| #[trigger]
                held.contains_key(key) ==> exists|i: int|
                    {
                        &&& 0 <= i < answers.len()
                        &&& (#[trigger] answers[i]).node_id.0 == key
                        &&& is_accepted(nodes, answers[i])
                        &&& held[key] == answers[i].typed
                    }
        },
{
    lemma_accepted(nodes, answers);
}

proof fn lemma_accepted(nodes: Map<usize, ENode>, answers: Seq<Answer>)
    ensures
        forall|i: int|
            #![trigger answers[i]]
            0 <= i < answers.len() && is_accepted(nodes, answers[i]) && (forall|j: int|
                i < j < answers.len() ==> (#[trigger] answers[j]).node_id != answers[i].node_id)
                ==> accepted(nodes, answers).contains_key(answers[i].node_id.0) && accepted(
                nodes,
                answers,
            )[answers[i].node_id.0] == answers[i].typed,
        forall|key: usize| #[trigger]
            accepted(nodes, answers).contains_key(key) ==> exists|i: int|
                {
                    &&& 0 <= i < answers.len()
                    &&& (#[trigger] answers[i]).node_id.0 == key
                    &&& is_accepted(nodes, answers[i])
                    &&& accepted(nodes, answers)[key] == answers[i].typed
                },
    decreases answers.len(),
{
    if answers.len() > 0 {
        let shorter = answers.drop_last();
        let last = answers.len() - 1;
        lemma_accepted(nodes, shorter);
        let held = accepted(nodes, answers);
        assert forall|i: int|
            #![trigger answers[i]]
            0 <= i < answers.len() && is_accepted(nodes, answers[i]) && (forall|j: int|
                i < j < answers.len() ==> (#[trigger] answers[j]).node_id
                    != answers[i].node_id) implies held.contains_key(answers[i].node_id.0)
            && held[answers[i].node_id.0] == answers[i].typed by {
            if i < last {
                assert(shorter[i] == answers[i]);
                assert forall|j: int| i < j < shorter.len() implies (#[trigger] shorter[j]).node_id
                    != shorter[i].node_id by {
                    assert(answers[j] == shorter[j]);
                }
                assert(answers[last].node_id != answers[i].node_id);
            }
        }
        assert forall|key: usize| #[trigger] held.contains_key(key) implies exists|i: int|
            {
                &&& 0 <= i < answers.len()
                &&& (#[trigger] answers[i]).node_id.0 == key
                &&& is_accepted(nodes, answers[i])
                &&& held[key] == answers[i].typed
            } by {
            if is_accepted(nodes, answers[last]) && answers[last].node_id.0 == key {
                assert(answers[last].node_id.0 == key);
            } else {
                assert(accepted(nodes, shorter).contains_key(key));
                let i = choose|i: int|
                    {
                        &&& 0 <= i < shorter.len()
                        &&& (#[trigger] shorter[i]).node_id.0 == key
                        &&& is_accepted(nodes, shorter[i])
                        &&& accepted(nodes, shorter)[key] == shorter[i].typed
                    };
                assert(answers[i] == shorter[i]);
            }
        }
    }
}

/// An answer is objected to exactly if it is one to a Source that declares no
/// type, or that it cannot be read for, and the objection names the Source by its
/// name and says which of the two it is. What is not objected to and belongs to a
/// Source is accepted.
pub proof fn law_what_is_objected_to(nodes: Map<usize, ENode>, answer: Answer)
    ensures
        (!nodes.contains_key(answer.node_id.0) || !(nodes[answer.node_id.0] is Source))
            ==> complaint(nodes, answer) is None && !is_accepted(nodes, answer),
        nodes.contains_key(answer.node_id.0) ==> {
            &&& nodes[answer.node_id.0] matches ENode::Source { name, etype: None, .. }
                ==> complaint(nodes, answer) == Some(name@ + ": no type declared"@)
                && !is_accepted(nodes, answer)
            &&& nodes[answer.node_id.0] matches ENode::Source { name, etype: Some(_), .. } ==> {
                &&& answer.parsed is Ok ==> complaint(nodes, answer) is None && is_accepted(
                    nodes,
                    answer,
                )
                &&& answer.parsed matches Err(error) ==> complaint(nodes, answer) == Some(
                    name@ + ": "@ + error@,
                ) && !is_accepted(nodes, answer)
            }
        },
{
}

/// The complaints are those of the answers, one for every answer that is objected
/// to and no other, in the order of the answers. `from` names the answers.
pub proof fn law_every_complaint_is_listed(nodes: Map<usize, ENode>, answers: Seq<Answer>) -> (from:
    Seq<int>)
    ensures
        from.len() == complaints(nodes, answers).len(),
        forall|k: int, l: int| 0 <= k < l < from.len() ==> from[k] < from[l],
        forall|k: int|
            0 <= k < from.len() ==> {
                &&& 0 <= #[trigger] from[k] < answers.len()
                &&& complaint(nodes, answers[from[k]]) == Some(complaints(nodes, answers)[k])
            },
        forall|i: int|
            0 <= i < answers.len() && complaint(nodes, #[trigger] answers[i]) is Some
                ==> from.contains(i),
        from.len() == 0 <==> answered(nodes, answers) is Running,
        from.len() > 0 <==> answered(nodes, answers) is ErrorModal,
        from.len() == 1 ==> answered(nodes, answers) == EvalPhaseView::ErrorModal(
            complaint(nodes, answers[from[0]])->0,
        ),
    decreases answers.len(),
{
    if answers.len() == 0 {
        Seq::empty()
    } else {
        let shorter = answers.drop_last();
        let last = answers.len() - 1;
        let before = law_every_complaint_is_listed(nodes, shorter);
        let from = if complaint(nodes, answers[last]) is Some {
            before.push(last)
        } else {
            before
        };
        assert forall|k: int| 0 <= k < from.len() implies {
            &&& 0 <= #[trigger] from[k] < answers.len()
            &&& complaint(nodes, answers[from[k]]) == Some(complaints(nodes, answers)[k])
        } by {
            if k < before.len() {
                assert(from[k] == before[k]);
                assert(shorter[before[k]] == answers[before[k]]);
            }
        }
        assert forall|i: int|
            0 <= i < answers.len() && complaint(nodes, #[trigger] answers[i])
                is Some implies from.contains(i) by {
            if i < last {
                assert(shorter[i] == answers[i]);
                assert(before.contains(i));
                let k = choose|k: int| 0 <= k < before.len() && before[k] == i;
                assert(from[k] == i);
            } else {
                assert(from[before.len() as int] == i);
            }
        }
        if from.len() == 1 {
            assert(from[0] == from[0]);
        }
        from
    }
}

/// A press on "evaluate" asks for a value of every Source, in their order and
/// with every field empty; with no Source to ask for it starts the run, at its
/// beginning; and while something else is going on, or something keeps the graph
/// from running, it changes nothing.
pub proof fn law_how_a_run_begins(phase: EvalPhaseView, blocking: bool, sources: Seq<node::Id>)
    ensures
        !(phase is Idle) || blocking ==> begun(phase, blocking, sources) == phase,
        phase is Idle && !blocking && sources.len() > 0 ==> {
            &&& begun(phase, blocking, sources) matches EvalPhaseView::SourcePrompt { inputs }
            &&& inputs.len() == sources.len()
            &&& forall|i: int|
                0 <= i < inputs.len() ==> (#[trigger] inputs[i]).0 == sources[i]
                    && inputs[i].1.len() == 0
        },
        phase is Idle && !blocking && sources.len() == 0 ==> {
            &&& begun(phase, blocking, sources) matches EvalPhaseView::Running {
                states,
                current,
                answers,
            }
            &&& states.len() == 1
            &&& states[0].dom() == Set::<usize>::empty()
            &&& current == 0
            &&& answers.dom() == Set::<usize>::empty()
        },
{
}

/// A step that found out more is the one on screen from then on: everything up to
/// the snapshot it started from stays, whatever stood behind that is gone, and the
/// answers to the Sources stay as they were. A step that fails ends the run with
/// its own complaints.
pub proof fn law_what_a_step_leaves(
    states: Seq<Map<usize, String>>,
    current: nat,
    answers: Map<usize, String>,
    next: Map<usize, String>,
    errors: Seq<char>,
)
    requires
        current < states.len(),
    ensures
        next.len() > states[current as int].len() ==> {
            &&& stepped(
                EvalPhaseView::Running { states, current, answers },
                Ok(next),
            ) matches EvalPhaseView::Running { states: now, current: at, answers: held }
            &&& at == current + 1
            &&& now.len() == current + 2
            &&& now[at as int] == next
            &&& forall|i: int| 0 <= i <= current ==> #[trigger] now[i] == states[i]
            &&& held == answers
        },
        stepped(EvalPhaseView::Running { states, current, answers }, Err(errors))
            == EvalPhaseView::ErrorModal(errors),
        forall|phase: EvalPhaseView, result: Result<Map<usize, String>, Seq<char>>|
            !(phase is Running) ==> #[trigger] stepped(phase, result) == phase,
{
}

// ── What the buttons show ──

/// Which of the run's buttons can be pressed.
#[derive(Clone, Copy, Debug, PartialEq, Eq, Structural)]
pub struct StepButtons {
    pub prev: bool,
    pub next: bool,
    pub full: bool,
    pub start: bool,
}

/// Which of the run's buttons can be pressed in the given phase.
pub open spec fn buttons_in(phase: EvalPhaseView, sink: node::Id, blocking: bool) -> StepButtons {
    match phase {
        EvalPhaseView::Running { states, current, .. } => StepButtons {
            prev: current > 0,
            next: !states[current as int].contains_key(sink.0),
            full: !states[current as int].contains_key(sink.0),
            start: !blocking,
        },
        EvalPhaseView::Idle => StepButtons {
            prev: false,
            next: false,
            full: !blocking,
            start: !blocking,
        },
        _ => StepButtons { prev: false, next: false, full: false, start: false },
    }
}

/// Which of the run's buttons can be pressed. Running to the end is the one that
/// can be asked for with no run going: it starts one.
pub fn step_buttons(eval: &EvalState, sink: &node::Id, blocking: bool) -> (buttons: StepButtons)
    requires
        eval.well_formed(),
    ensures
        buttons == buttons_in(eval@.phase, *sink, blocking),
{
    match &eval.phase {
        EvalPhase::Running { states, current, .. } => {
            assert(snapshot_views(states@)[*current as int] == states@[*current as int]@);
            let next_possible = !states[*current].is_evaluated(sink);
            StepButtons {
                prev: *current > 0,
                next: next_possible,
                full: next_possible,
                start: !blocking,
            }
        },
        EvalPhase::Idle => StepButtons {
            prev: false,
            next: false,
            full: !blocking,
            start: !blocking,
        },
        _ => StepButtons { prev: false, next: false, full: false, start: false },
    }
}

/// The step a run is standing on, written out.
pub open spec fn counter_in(phase: EvalPhaseView) -> Seq<char> {
    match phase {
        EvalPhaseView::Running { current, .. } => "Step "@ + text::decimal_of(current),
        _ => Seq::empty(),
    }
}

/// The step the run is standing on, written out. A number and no total: the
/// history grows one press at a time.
pub fn step_counter(eval: &EvalState) -> (counted: String)
    ensures
        counted@ == counter_in(eval@.phase),
{
    match &eval.phase {
        EvalPhase::Running { current, .. } => "Step ".to_owned().concat(
            text::decimal(*current as u64).as_str(),
        ),
        _ => String::new(),
    }
}

/// Whether a run is going, and the step it stands on.
pub open spec fn marked(eval: EvalStateView) -> (bool, nat) {
    match eval.phase {
        EvalPhaseView::Running { current, .. } => (true, current),
        _ => (false, 0),
    }
}

/// What the drawing reads out of the evaluation: whether a run is going, and on
/// which step it stands.
pub fn run_mark(eval: &EvalState) -> (mark: (bool, usize))
    ensures
        (mark.0, mark.1 as nat) == marked(eval@),
{
    match &eval.phase {
        EvalPhase::Running { current, .. } => (true, *current),
        _ => (false, 0),
    }
}

/// One part of the row the run is steered by.
#[derive(Clone, Copy, Debug, PartialEq, Eq, Structural)]
pub enum Control {
    Counter,
    Evaluate,
    Prev,
    Exit,
    Next,
    FullRun,
}

/// The row the run is steered by in the given phase.
pub open spec fn controls_in(phase: EvalPhaseView) -> Seq<Control> {
    if phase is Running {
        seq![Control::Counter, Control::Prev, Control::Exit, Control::Next, Control::FullRun]
    } else {
        seq![Control::Evaluate, Control::FullRun]
    }
}

/// The row the run is steered by: begin, or begin and go all the way; and while
/// a run is going, the way back, the end, the way on and all the way. What stops
/// the run is where the thing that started it stood.
pub fn player_controls(eval: &EvalState) -> (row: Vec<Control>)
    ensures
        row@ == controls_in(eval@.phase),
{
    match eval.phase {
        EvalPhase::Running { .. } => vec![
            Control::Counter,
            Control::Prev,
            Control::Exit,
            Control::Next,
            Control::FullRun,
        ],
        _ => vec![Control::Evaluate, Control::FullRun],
    }
}

/// Going back shows the snapshot before the one on screen and changes nothing else,
/// and after a step that found out more it shows what was on screen before the step.
/// At the first snapshot, and while nothing runs, it does nothing.
pub proof fn law_what_going_back_shows(phase: EvalPhaseView, next: Map<usize, String>)
    requires
        phase.well_formed(),
    ensures
        phase matches EvalPhaseView::Running { states, current, answers } ==> {
            &&& current == 0 ==> gone_back(phase) == phase
            &&& current > 0 ==> gone_back(phase) == (EvalPhaseView::Running {
                states,
                current: (current - 1) as nat,
                answers,
            })
            &&& next.len() > states[current as int].len() ==> {
                &&& gone_back(stepped(phase, Ok(next))) matches EvalPhaseView::Running {
                    states: then,
                    current: at,
                    answers: held,
                }
                &&& at == current
                &&& then[at as int] == states[current as int]
                &&& held == answers
            }
        },
        !(phase is Running) ==> gone_back(phase) == phase,
{
}

/// A button can be pressed exactly if the press would do something: the way back
/// where there is an earlier snapshot, the way on and all the way while the Sink has
/// no value, and where nothing runs the start of a run, by either button, exactly if
/// nothing blocks it.
pub proof fn law_a_live_button_does_something(
    phase: EvalPhaseView,
    sink: node::Id,
    blocking: bool,
    sources: Seq<node::Id>,
    nodes: nat,
)
    requires
        phase.well_formed(),
    ensures
        buttons_in(phase, sink, blocking).prev <==> gone_back(phase) != phase,
        buttons_in(phase, sink, blocking).next <==> goes_on(phase, sink, 0, nodes),
        phase is Running ==> buttons_in(phase, sink, blocking).full == buttons_in(
            phase,
            sink,
            blocking,
        ).next,
        phase is Idle ==> {
            &&& buttons_in(phase, sink, blocking).start <==> begun(phase, blocking, sources)
                != phase
            &&& buttons_in(phase, sink, blocking).full <==> begun(phase, blocking, sources) != phase
        },
        phase.is_modal() ==> !buttons_in(phase, sink, blocking).prev && !buttons_in(
            phase,
            sink,
            blocking,
        ).next && !buttons_in(phase, sink, blocking).full && !buttons_in(phase, sink, blocking).start,
{
}

/// A run to the end goes on while it runs, the Sink has no value and no more rounds
/// were taken than there are nodes; and it stops as soon as one of the three fails.
pub proof fn law_when_a_run_goes_on(
    states: Seq<Map<usize, String>>,
    current: nat,
    answers: Map<usize, String>,
    sink: node::Id,
    rounds: nat,
    nodes: nat,
)
    requires
        current < states.len(),
    ensures
        ({
            let phase = EvalPhaseView::Running { states, current, answers };
            &&& states[current as int].contains_key(sink.0) ==> !goes_on(phase, sink, rounds, nodes)
            &&& rounds > nodes ==> !goes_on(phase, sink, rounds, nodes)
            &&& !states[current as int].contains_key(sink.0) && rounds <= nodes ==> goes_on(
                phase,
                sink,
                rounds,
                nodes,
            )
        }),
        !goes_on(EvalPhaseView::Idle, sink, rounds, nodes),
{
}

/// The standing wish to reach the end waits while Sources are asked for, is carried
/// out once where a run goes, and is dropped everywhere else. Nothing else changes.
pub proof fn law_a_wish_is_granted_once(eval: EvalStateView)
    ensures
        granted(eval).0.phase == eval.phase,
        !eval.run_to_end ==> granted(eval) == (eval, false),
        eval.run_to_end && eval.phase is SourcePrompt ==> granted(eval) == (eval, false),
        eval.run_to_end && eval.phase is Running ==> granted(eval).1 && !granted(
            eval,
        ).0.run_to_end,
        eval.run_to_end && !(eval.phase is SourcePrompt || eval.phase is Running) ==> !granted(
            eval,
        ).1 && !granted(eval).0.run_to_end,
        !granted(granted(eval).0).1,
{
}

/// A run is steered by four buttons behind its counter, the way back on the one side
/// of the end and the way on at the other; outside a run there are the two that begin
/// one. Going all the way is always the last.
pub proof fn law_what_a_run_is_steered_by(phase: EvalPhaseView)
    ensures
        controls_in(phase).last() == Control::FullRun,
        phase is Running ==> {
            &&& controls_in(phase).len() == 5
            &&& controls_in(phase)[0] == Control::Counter
            &&& controls_in(phase)[1] == Control::Prev
            &&& controls_in(phase)[2] == Control::Exit
            &&& controls_in(phase)[3] == Control::Next
        },
        !(phase is Running) ==> controls_in(phase).len() == 2 && controls_in(phase)[0]
            == Control::Evaluate,
{
}

/// A step went on exactly if the run is still going and stands one snapshot further
/// than before.
pub proof fn law_when_a_step_went_on(
    phase: EvalPhaseView,
    result: Result<Map<usize, String>, Seq<char>>,
)
    requires
        phase.well_formed(),
    ensures
        !(phase is Running) ==> !found_more(phase, result),
        result is Err ==> !found_more(phase, result),
        phase matches EvalPhaseView::Running { current, .. } ==> {
            &&& found_more(phase, result) ==> {
                &&& stepped(phase, result) matches EvalPhaseView::Running { current: at, .. }
                &&& at == current + 1
            }
            &&& !found_more(phase, result) ==> stepped(phase, result) == phase || stepped(
                phase,
                result,
            ) is ErrorModal
        },
{
}

/// Asking for all the way begins a run as "evaluate" does, and leaves a standing wish
/// behind unless the graph will not run; then nothing changes and the list of what is
/// wrong is unfolded. While a run is going it only leaves the wish.
pub proof fn law_what_asking_for_all_the_way_does(
    eval: EvalStateView,
    blocking: bool,
    sources: Seq<node::Id>,
)
    ensures
        ({
            let (now, unfold) = full_run_asked(eval, blocking, sources);
            &&& unfold <==> eval.phase is Idle && blocking
            &&& unfold ==> now == eval
            &&& !unfold ==> now.run_to_end
            &&& eval.phase is Running ==> now.phase == eval.phase
            &&& eval.phase is Idle && !blocking && sources.len() > 0 ==> now.phase is SourcePrompt
            &&& eval.phase is Idle && !blocking && sources.len() == 0 ==> now.phase is Running
        }),
{
}

/// The counter shows the number of steps taken to the snapshot on screen, and nothing
/// outside a run.
pub proof fn law_what_the_counter_shows(
    states: Seq<Map<usize, String>>,
    current: nat,
    answers: Map<usize, String>,
    phase: EvalPhaseView,
)
    ensures
        ({
            let shown = counter_in(EvalPhaseView::Running { states, current, answers });
            &&& shown.take(5) == seq!['S', 't', 'e', 'p', ' ']
            &&& text::number_of(shown.skip(5)) == current
        }),
        !(phase is Running) ==> counter_in(phase).len() == 0,
{
    reveal_strlit("Step ");
    let shown = counter_in(EvalPhaseView::Running { states, current, answers });
    assert(shown.take(5) =~= "Step "@);
    assert(shown.skip(5) =~= text::decimal_of(current));
    text::law_a_number_reads_back(current);
}

/// The drawing sees a change where a run begins, ends or stands on another step, and
/// nowhere else.
pub proof fn law_what_the_drawing_sees_of_a_run(one: EvalStateView, other: EvalStateView)
    ensures
        marked(one).0 <==> one.phase is Running,
        one.phase is Running ==> marked(one).1 == one.phase->current,
        marked(one) == marked(other) <==> {
            ||| !(one.phase is Running) && !(other.phase is Running)
            ||| one.phase is Running && other.phase is Running && one.phase->current
                == other.phase->current
        },
{
}

/// A modal, a run and a text field each keep the keys from the graph, and nothing else
/// does.
pub proof fn law_what_keeps_the_keys(eval: EvalStateView, field_focused: bool)
    ensures
        field_focused ==> has_the_keys(eval, field_focused),
        eval.phase is Running ==> has_the_keys(eval, field_focused),
        eval.phase is ErrorModal || eval.phase is ControlsModal || eval.phase is ConfirmNew
            || eval.phase is SourcePrompt ==> has_the_keys(eval, field_focused),
        eval.phase is Idle && !field_focused ==> !has_the_keys(eval, field_focused),
{
}

/// Complaints stand one to a line: another answer that is objected to adds a line with
/// its complaint below those that are there, and one that is not adds nothing.
pub proof fn law_complaints_stand_one_to_a_line(
    nodes: Map<usize, ENode>,
    answers: Seq<Answer>,
    answer: Answer,
)
    ensures
        answered(nodes, answers) matches EvalPhaseView::ErrorModal(said) ==> {
            &&& complaint(nodes, answer) matches Some(more) ==> answered(
                nodes,
                answers.push(answer),
            ) == EvalPhaseView::ErrorModal(said + seq!['\n'] + more)
            &&& complaint(nodes, answer) is None ==> answered(nodes, answers.push(answer))
                == EvalPhaseView::ErrorModal(said)
        },
        answered(nodes, answers) is Running ==> (complaint(nodes, answer) matches Some(said)
            ==> answered(nodes, answers.push(answer)) == EvalPhaseView::ErrorModal(said)),
{
    let wrong = complaints(nodes, answers);
    assert(answers.push(answer).drop_last() =~= answers);
    reveal_strlit("\n");
    assert("\n"@ =~= seq!['\n']);
    if let Some(more) = complaint(nodes, answer) {
        text::law_how_texts_are_joined(wrong, more, "\n"@);
        assert(complaints(nodes, answers.push(answer)) == wrong.push(more));
        if wrong.len() == 0 {
            assert(wrong.push(more) =~= seq![more]);
        }
    }
}

} // verus!
