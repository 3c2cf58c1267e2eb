//! Dynamic DOM properties.
//!
//! A parent component holds a bundle of attributes and event listeners for
//! an element that a child component owns. The parent mutates the bundle
//! after the component tree has been declared; on every render the child
//! receives a snapshot of it, and an injector drives the element to match
//! the snapshot without leaving attributes or listeners of earlier
//! snapshots behind.
//!
//! - [`attribute`], [`attribute_bag`] and [`listener`] hold the data: typed
//!   attributes, and the two ordered bags.
//! - [`bundle`] is the container that the parent mutates, with its
//!   generation counter and its snapshots.
//! - [`element`] is the element as the injector sees it, reduced to the
//!   four DOM primitives.
//! - [`injector`] is the reconciler; [`mount`] is its mathematical model.
//! - [`host`] is the parent of the demo page.
//! - [`laws`] states what holds of all of this together; [`steps`] and
//!   [`keyed`] hold the lemmas behind the laws.

pub mod attribute;
pub mod attribute_bag;
pub mod bundle;
pub mod element;
pub mod host;
pub mod injector;
pub mod keyed;
pub mod laws;
pub mod listener;
pub mod mount;
pub mod steps;
pub mod text;
