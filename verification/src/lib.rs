//! A password generator: command-line tokens are parsed into a [`args::Config`],
//! and [`generate::generate_password`] draws a password that holds at least one
//! character of every selected class.

pub mod args;
pub mod generate;
pub mod selection;
pub mod text;
