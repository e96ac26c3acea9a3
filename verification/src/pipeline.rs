//! From source files to models and transitions.

use crate::analysis;
use crate::catalog::outcome;
use crate::evidence::{is_backed, is_honest, transitions_are_told};
use crate::front;
use crate::model::{Model, ModelView};
use crate::ordered;
use crate::ordered::SortedMap;
use crate::stillness::same_sources_have_no_transition;
use crate::summary;
use crate::text::Text;
use crate::transition;
use crate::transition::{Transition, TransitionView};
use vstd::prelude::*;

verus! {

/// The model of a set of files, under the rules that its `merak.toml` declares.
pub open spec fn model_of(files: Seq<(Text, Text)>) -> Result<ModelView, Text> {
    analysis::analyzed(front::program_of(files), ordered::lookup(files, "merak.toml"@))
}

/// The transition between two sets of files. The first error is reported.
pub open spec fn transition_of(before: Seq<(Text, Text)>, after: Seq<(Text, Text)>) -> Result<
    TransitionView,
    Text,
> {
    match model_of(before) {
        Ok(a) => match model_of(after) {
            Ok(b) => Ok(transition::transition(a, b)),
            Err(e) => Err(e),
        },
        Err(e) => Err(e),
    }
}

/// The model of a set of files.
pub fn model(files: &SortedMap<String, String>) -> (r: Result<Model, String>)
    ensures
        outcome(r) == model_of(files.deep_view()),
        r is Ok ==> analysis::keyed(r->Ok_0.deep_view()) && summary::complete(r->Ok_0.deep_view()),
{
    let program = front::lower_program(files);
    match files.find("merak.toml") {
        Some(t) => analysis::analyze(&program, Some(t.as_str())),
        None => analysis::analyze(&program, None),
    }
}

/// The transition between two sets of files.
pub fn diff(before: &SortedMap<String, String>, after: &SortedMap<String, String>) -> (r: Result<
    Transition,
    String,
>)
    ensures
        outcome(r) == transition_of(before.deep_view(), after.deep_view()),
        before.deep_view() == after.deep_view() && r is Ok ==> r->Ok_0.deep_view().ops.len() == 0
            && r->Ok_0.deep_view().contracts.len() == 0,
        r is Ok ==> forall|i: int|
            0 <= i < r->Ok_0.deep_view().ops.len() ==> is_honest(
                #[trigger] r->Ok_0.deep_view().ops[i],
            ) && (is_backed(r->Ok_0.deep_view().ops[i]) || r->Ok_0.deep_view().ops[i].kind
                == "PURE_REFACTOR"@),
{
    proof {
        transitions_are_told(before.deep_view(), after.deep_view());
        if before.deep_view() == after.deep_view() {
            same_sources_have_no_transition(before.deep_view());
        }
    }
    let a = match model(before) {
        Ok(m) => m,
        Err(e) => {
            return Err(e);
        },
    };
    let b = match model(after) {
        Ok(m) => m,
        Err(e) => {
            return Err(e);
        },
    };
    Ok(transition::diff(&a, &b))
}

} // verus!
