//! Model identifiers shared by all model components.
pub mod gnn;
pub mod mamba;
pub mod moe_router;
pub mod textcnn;
pub mod vae;

use vstd::prelude::*;

verus! {

/// The layers of the ten-layer architecture that the models belong to.
#[derive(Debug, Clone, Copy, PartialEq, Eq, Structural)]
pub enum Layer {
    /// L1 perception / routing / fusion
    L1,
    /// L1 memory
    L1Memory,
    /// L1.5 language / semantic encoding
    L1_5,
    /// L3.5 causal discovery / reasoning
    L3_5,
    /// L4.5 decision search
    L4_5,
    /// L5 memory consolidation / semantic network
    L5,
    /// L6 ethics / defence evolution
    L6,
}

/// The experts that the mixture-of-experts router can route to.
#[derive(Debug, Clone, Copy, PartialEq, Eq, Structural)]
pub enum ExpertType {
    TextCNN,
    SNN,
    Transformer,
    SemanticEncoder,
}

} // verus!
