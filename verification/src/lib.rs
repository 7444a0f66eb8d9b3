pub mod lang;
