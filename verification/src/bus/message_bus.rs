//! Routing tables of the message bus: which expert a message category goes
//! to, which expert type a routing target is, and how many causal paths the
//! causal layer considers for a category.
use vstd::prelude::*;
use crate::models::ExpertType;
use crate::utils::text::str_eq;

verus! {

/// The expert that messages of a category are routed to.
pub open spec fn spec_route_target(category: Seq<char>) -> Seq<char> {
    if category == "security"@ {
        "textcnn"@
    } else if category == "semantic"@ {
        "encoder"@
    } else if category == "language"@ {
        "transformer"@
    } else if category == "causal"@ {
        "gnn"@
    } else {
        "textcnn"@
    }
}

/// The expert type of a routing target; unknown targets are TextCNN.
pub open spec fn spec_expert_for_target(target: Seq<char>) -> ExpertType {
    if target == "textcnn"@ {
        ExpertType::TextCNN
    } else if target == "snn"@ {
        ExpertType::SNN
    } else if target == "transformer"@ {
        ExpertType::Transformer
    } else if target == "encoder"@ {
        ExpertType::SemanticEncoder
    } else {
        ExpertType::TextCNN
    }
}

/// The number of causal paths the causal layer considers for a category.
pub open spec fn spec_causal_path_count(category: Seq<char>) -> nat {
    if category == "security"@ {
        4
    } else if category == "semantic"@ {
        3
    } else if category == "causal"@ {
        5
    } else {
        2
    }
}

/// The expert that messages of `category` are routed to.
pub fn route_target(category: &str) -> (target: &'static str)
    ensures
        target@ == spec_route_target(category@),
{
    if str_eq(category, "security") {
        "textcnn"
    } else if str_eq(category, "semantic") {
        "encoder"
    } else if str_eq(category, "language") {
        "transformer"
    } else if str_eq(category, "causal") {
        "gnn"
    } else {
        "textcnn"
    }
}

/// The expert type of a routing target.
pub fn expert_for_target(target: &str) -> (e: ExpertType)
    ensures
        e == spec_expert_for_target(target@),
{
    if str_eq(target, "textcnn") {
        ExpertType::TextCNN
    } else if str_eq(target, "snn") {
        ExpertType::SNN
    } else if str_eq(target, "transformer") {
        ExpertType::Transformer
    } else if str_eq(target, "encoder") {
        ExpertType::SemanticEncoder
    } else {
        ExpertType::TextCNN
    }
}

/// The number of causal paths the causal layer considers for `category`.
pub fn causal_path_count(category: &str) -> (n: usize)
    ensures
        n == spec_causal_path_count(category@),
{
    if str_eq(category, "security") {
        4
    } else if str_eq(category, "semantic") {
        3
    } else if str_eq(category, "causal") {
        5
    } else {
        2
    }
}

} // verus!
