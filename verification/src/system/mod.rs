//! The stages of a tick. Each reads the columns and resources that it takes
//! by shared reference and writes those that it takes by mutable reference.

pub mod create_command;
pub mod create_socket;
pub mod outbox;
pub mod position;
pub mod sheep_behavior;
pub mod sheep_heading;
pub mod sheep_rtree;
pub mod sheep_velocity;

pub use create_command::CreateCommandSystem;
pub use create_socket::CreateSocketSystem;
pub use outbox::OutboxSystem;
pub use position::PositionSystem;
pub use sheep_behavior::SheepBehaviorSystem;
pub use sheep_heading::SheepHeadingSystem;
pub use sheep_rtree::SheepRTreeSystem;
pub use sheep_velocity::SheepVelocitySystem;
