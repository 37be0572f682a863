pub mod logic_gates;
pub mod parsing;
