//! Local (Smith–Waterman) alignment of integer token sequences: single-pair
//! alignment with deterministic tie-breaks, contiguous-match-block
//! extraction, and parallel batch top-K ranking of one query against many
//! candidates.
#![verifier::loop_isolation(false)]

pub mod model;
pub mod lemmas;
pub mod engine;
pub mod batch;
pub mod api;
pub mod laws;

pub use batch::align_best;
pub use batch::align_topk;
pub use engine::smith_waterman;
pub use engine::smith_waterman_match_blocks;
pub use model::Alignment;
pub use model::CandidateAlignment;
pub use model::ScoreParams;
