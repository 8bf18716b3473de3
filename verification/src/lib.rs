//! Finds the directories of a tree that a backup should leave out: those that
//! an ignore rule of an ancestor directory matches.
//!
//! The walk itself is a state machine without any input or output of its own
//! ([`walk`]): it says what it needs to know next, and the caller answers.
//! What the machine reports is defined by a recursive description of the walk
//! over a model of the tree ([`model`]). The machine is proved to do what the
//! description says ([`refinement`]) and to come to an end on every tree
//! ([`progress`]), and the laws of the walk are proved of the description
//! ([`laws`]).
//!
//! Around the walk stand the paths that it works on ([`path`]), the matchers
//! that the `ignore` crate compiles from the rules of a directory
//! ([`matcher`]), the guard that keeps a shared stack in step with the scopes
//! that push onto it ([`stack_vec`]), the list of paths as the settings store
//! prints it ([`config`]), and the choice of the marker file for a reported
//! directory ([`marker`]).

pub mod config;
pub mod laws;
pub mod marker;
pub mod matcher;
pub mod model;
pub mod path;
pub mod progress;
pub mod refinement;
pub mod stack_vec;
pub mod walk;
