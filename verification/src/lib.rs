//! Registration and dispatch of entity observers.
//!
//! An observer is a component that an entity owns and that names a callback
//! to run when an event of one type is aimed at one watched entity. This
//! crate keeps the observers, routes queued events to them, and defers
//! structural changes to sync points, in such a way that a callback is never
//! run on behalf of an observer whose component is gone.
//!
//! * [`store`] holds the entities and their components; it alone says what
//!   exists.
//! * [`registry`] indexes the observers by what they watch.
//! * [`scene`] keeps the two in step.
//! * [`queue`] holds the events that wait for dispatch.
//! * [`commands`] holds the structural changes that wait for a sync point.
//! * [`dispatch`] is the state machine that takes a batch of events through
//!   resolution and invocation.
//! * [`world`] puts all of these behind one interface and runs whole cycles.
//! * [`laws`] states what holds of the mechanism whatever is asked of it.
//! * [`picking`] is a small scene that presses a pointer on a pick target.

pub mod commands;
pub mod dispatch;
pub mod ids;
pub mod laws;
pub mod picking;
pub mod queue;
pub mod registry;
pub mod scene;
pub mod store;
pub mod world;
