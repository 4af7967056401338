//! The kinds of the molecules that blocks are stored as.

use vstd::prelude::*;

verus! {

/// The kind of [`Block::Empty`](crate::blocks::Block::Empty).
pub const EMPTY: u64 = 0;

/// The kind of [`Block::Text`](crate::blocks::Block::Text).
pub const TEXT: u64 = 1;

/// The kind of [`Block::Section`](crate::blocks::Block::Section).
pub const SECTION: u64 = 2;

/// The kind of [`Block::Flow`](crate::blocks::Block::Flow).
pub const FLOW: u64 = 3;

/// The kind of [`Block::Paragraphs`](crate::blocks::Block::Paragraphs).
pub const PARAGRAPHS: u64 = 4;

/// The kind of [`Block::BulletList`](crate::blocks::Block::BulletList).
pub const BULLET_LIST: u64 = 5;

/// The kind of [`Block::OrderedList`](crate::blocks::Block::OrderedList).
pub const ORDERED_LIST: u64 = 6;

} // verus!
