pub mod io;
pub mod isa;
pub mod machine;
pub mod parser;
pub mod translator;
