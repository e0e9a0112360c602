pub mod a;
pub mod protocol;

pub use a::A;
