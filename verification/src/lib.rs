//! Tabular reinforcement-learning library: every-visit Monte-Carlo and TD(0)
//! agents over integer-identified states and actions, epsilon-greedy policies
//! with decay and an evaluation mode, and two small example worlds.

pub mod agent;
pub mod env;
pub mod laws;
pub mod policy;
pub mod rat;
pub mod sample;
pub mod table;

pub use agent::QEveryVisitMC;
pub use agent::QTD0;
pub use agent::QTD0Min;
pub use agent::UpdateError;
pub use agent::VEveryVisitMC;
pub use env::Env;
pub use env::gridworld::GridWorld;
pub use env::gridworld::GridWorldAction;
pub use env::lineworld::LineWorld;
pub use env::lineworld::LineWorldAction;
pub use policy::EGreedyPolicy;
pub use policy::EGreedyPolicyMin;
pub use policy::Policy;
pub use rat::Overflow;
pub use rat::Rat;
pub use table::QTable;
pub use table::VTable;
