//! The Whimper decompiler: an x86_64 PE loader and a tower of seven
//! intermediate representations, each lifted from the one below it.
pub mod irt0;
pub mod irt1;
pub mod irt2;
pub mod irt3;
pub mod irt4;
pub mod irt5;
pub mod irt6;
pub mod numbers;
pub mod partitions;
pub mod pe;
pub mod rounds;
pub mod table;
pub mod text;
pub mod x86;
