pub mod codegen;
pub mod definition;
pub mod dispatch;
pub mod pattern;
pub mod route;
pub mod status;
pub mod stream;
