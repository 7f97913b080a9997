pub mod display;
pub mod text;
pub mod mouse;
pub mod nvidia;
pub mod codec;
pub mod pubg;
pub mod cs2;
pub mod release;
