//! Codec for the SemDoc binary document format.
//!
//! A document is a tree of [`Block`]s. It is stored in three steps: the
//! blocks become a [`Molecule`], a tree of kinded nodes and byte leaves; the
//! molecule becomes a run of [`Atom`]s in depth-first order; and each atom
//! becomes a whole number of words of eight bytes. Reading takes the same
//! steps back, and leaves an error in the tree wherever bytes cannot be read.
//!
//! Around the codec stand what tools need of it: [`inspect`] tells what each
//! word, atom, molecule and block of a stored document is shown as,
//! [`markdown`] makes documents of Markdown trees, and [`view`] tells what a
//! viewer shows of a document.

pub mod atoms;
pub mod blocks;
pub mod doc;
pub mod inspect;
pub mod markdown;
pub mod memory;
pub mod molecule;
pub mod source;
pub mod utils;
pub mod view;

pub use atoms::{Atom, AtomError};
pub use blocks::{Block, BlockError};
pub use doc::{SemDoc, SemDocError};
pub use memory::{Memory, MemoryError};
pub use molecule::Molecule;
pub use source::{Pure, Source};
