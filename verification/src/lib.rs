pub mod harvest;
pub mod naming;
pub mod relay;
pub mod session;
pub mod text;
