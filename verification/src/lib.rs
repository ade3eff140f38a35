pub mod collatz;
pub mod counter;
pub mod elevator;
pub mod logger;
pub mod matrix;
pub mod message;
pub mod rot;
pub mod wire;
