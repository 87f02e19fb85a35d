//! The task-dispatch wrapper's decisions: which compaction strategy to run
//! and which explicit instruction text, if any, the task input carries.

use vstd::prelude::*;

use crate::items::copy_bytes;

verus! {

/// The kinds of session tasks this subsystem knows.
#[derive(Clone, Copy, PartialEq, Eq, Structural, Debug)]
pub enum TaskKind {
    Compact,
    Other,
}

/// The compaction strategy, picked once per invocation and not
/// re-evaluated mid-run.
#[derive(Clone, Copy, PartialEq, Eq, Structural, Debug)]
pub enum CompactionStrategy {
    Remote,
    Local,
}

/// One input item handed to a task.
#[derive(Clone, PartialEq, Eq, Debug)]
pub enum TaskInput {
    /// A textual instruction.
    Text { text: Vec<u8> },
    /// An image; carries no instruction text.
    Image { url: Vec<u8> },
    /// Any other input kind; carries no instruction text.
    Other,
}

/// Ghost mirror of `TaskInput`.
pub enum TaskInputView {
    Text { text: Seq<u8> },
    Image { url: Seq<u8> },
    Other,
}

impl DeepView for TaskInput {
    type V = TaskInputView;

    open spec fn deep_view(&self) -> TaskInputView {
        match self {
            TaskInput::Text { text } => TaskInputView::Text { text: text@ },
            TaskInput::Image { url } => TaskInputView::Image { url: url@ },
            TaskInput::Other => TaskInputView::Other,
        }
    }
}

/// The task registered with the scheduler for compaction. It reports no
/// terminal output: its result is History mutation and emitted events.
#[derive(Clone, Copy, Default)]
pub struct CompactTask;

impl CompactTask {
    /// The single task kind this wrapper is registered under.
    pub fn kind(&self) -> (k: TaskKind)
        ensures
            k == TaskKind::Compact,
    {
        TaskKind::Compact
    }

    /// Pick the strategy from the capability predicate's verdict, once per
    /// invocation.
    pub fn select_strategy(&self, supports_remote_compaction: bool) -> (s: CompactionStrategy)
        ensures
            s == if supports_remote_compaction {
                CompactionStrategy::Remote
            } else {
                CompactionStrategy::Local
            },
    {
        if supports_remote_compaction {
            CompactionStrategy::Remote
        } else {
            CompactionStrategy::Local
        }
    }
}

/// The text of the first text-bearing input, if any.
pub open spec fn spec_first_text(inputs: Seq<TaskInputView>) -> Option<Seq<u8>>
    decreases inputs.len(),
{
    if inputs.len() == 0 {
        Option::None
    } else {
        match inputs[0] {
            TaskInputView::Text { text } => Option::Some(text),
            _ => spec_first_text(inputs.drop_first()),
        }
    }
}

/// Extract the explicit compaction instructions from the task input: the
/// first text-bearing item; non-text inputs are ignored.
pub fn first_text_input(inputs: &Vec<TaskInput>) -> (r: Option<Vec<u8>>)
    ensures
        r.deep_view() == spec_first_text(inputs.deep_view()),
{
    let ghost iv = inputs.deep_view();
    let mut i: usize = 0;
    proof {
        assert(iv.skip(0) =~= iv);
    }
    while i < inputs.len()
        invariant
            i <= inputs@.len(),
            iv == inputs.deep_view(),
            iv.len() == inputs@.len(),
            spec_first_text(iv) == spec_first_text(iv.skip(i as int)),
        decreases inputs.len() - i,
    {
        match &inputs[i] {
            TaskInput::Text { text } => {
                proof {
                    assert(iv.skip(i as int)[0] == iv[i as int]);
                }
                return Option::Some(copy_bytes(text));
            },
            _ => {
                proof {
                    assert(iv.skip(i as int)[0] == iv[i as int]);
                    assert(iv.skip(i as int).drop_first() =~= iv.skip(i as int + 1));
                }
            },
        }
        i = i + 1;
    }
    Option::None
}

} // verus!
