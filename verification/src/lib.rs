//! An interpreter for USM, a minimal stack-machine language: a flat sequence
//! of one-character instructions run against one integer stack and a program
//! counter that the program itself may overwrite.

pub mod vm;
