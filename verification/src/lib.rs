//! A thread-safe doubly linked list and a handful of small companions, each
//! with machine-checked contracts.
//!
//! * [`doubly_linked_list`]: the list, from the node arena up to the shared
//!   handle, and the laws of its operations.
//! * [`vending_machine`]: a machine that is stocked in one state and sells
//!   in another.
//! * [`format_spec`]: reading sign, width and precision out of a format
//!   specification, by hand and with a regular expression.
//! * [`solver`]: triples that a rotation solves.
//! * [`conf_path`]: the choice of the configuration file.
//! * [`convert`]: conversions of an e-mail string and of a random triple.
//! * [`error`]: an error value built step by step.

pub mod conf_path;
pub mod convert;
pub mod doubly_linked_list;
pub mod error;
pub mod format_spec;
pub mod solver;
pub mod vending_machine;

pub use doubly_linked_list::dll::DoublyLinkedList;
pub use doubly_linked_list::nodes::DoublyLinkedNodes;
