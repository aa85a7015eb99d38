//! Decision logic of an ant-colony simulation: ant behaviour states,
//! food kinds and their assets, collision bookkeeping between ants, food
//! and ant hills, the ground tiling, and the food toolbar.

pub mod behavior;
pub mod food;
pub mod collision;
pub mod ground;
pub mod toolbar;
