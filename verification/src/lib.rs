//! Keeps the connections between sequencer ports across restarts.
//!
//! Ports come and go, and the addresses under which the registry knows them
//! change from one run to the next. What lasts is a port's name. This
//! library keeps an index from names to the addresses of the moment, keeps
//! the set of connections by name, and decides from each event of the
//! registry which subscriptions to ask for and whether the set is to be
//! written again. It talks neither to the registry nor to the disk: its
//! caller hands it what was seen and read, and carries out what it answers.
//!
//! - [`address`]: the transient address of a port.
//! - [`name`]: the stable name of a port, and its numeric fallback.
//! - [`endpoint`]: what the registry tells about one port.
//! - [`order`]: the order of names.
//! - [`connection`]: a connection, and the order of connections.
//! - [`store`]: the set of connections, in the form in which it is written.
//! - [`index`]: the index from names to addresses.
//! - [`plan`]: which subscriptions to ask for.
//! - [`engine`]: the state and how each event changes it.
//! - [`trace`]: what holds along every run of events.
//! - [`failure`]: the kinds of failure and what is done about each.

pub mod address;
pub mod connection;
pub mod endpoint;
pub mod engine;
pub mod failure;
pub mod index;
pub mod name;
pub mod order;
pub mod plan;
pub mod store;
pub mod trace;
