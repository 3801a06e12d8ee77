pub mod lib;
pub mod macro_soup;
pub mod sfp;
