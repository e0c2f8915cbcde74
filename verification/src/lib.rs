//! A poker equity toolkit built around a precomputed hand-strength table.
//!
//! Cards pack into six bits and five-card hands into thirty, every distinct
//! five-card hand is ranked once against a reference evaluator, and a hash
//! index then answers "how strong is this hand" in constant time.  On top of
//! that sit a best-five-of-seven selector and a simulator that completes a
//! partially known hand from the residual deck, either exhaustively or by
//! random sampling.

pub mod binomial;
pub mod card;
pub mod combos;
pub mod compact;
pub mod game_repr;
pub mod hand;
pub mod hand_lookup;
pub mod model;
pub mod montecarlo;
pub mod oracle;
pub mod sampling;
pub mod table;
