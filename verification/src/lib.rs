//! Two-player, perfect-information board games behind one game contract,
//! with agents that choose moves by random playouts.

pub mod agents;
pub mod checkers;
pub mod contest;
pub mod play;
pub mod tic_tac_toe;
pub mod utils;
