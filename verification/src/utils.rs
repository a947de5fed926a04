pub mod debug;
pub mod math;
pub mod result;
pub mod string;
