pub mod display;
pub mod emulator;
pub mod error;
pub mod instruction;
pub mod stack;

pub use crate::display::Display;
pub use crate::emulator::Emulator;
pub use crate::emulator::RandomSource;
pub use crate::emulator::ZeroSource;
pub use crate::error::Error;
pub use crate::instruction::Instruction;
pub use crate::stack::Stack;
