//! Decoder for a self-describing binary event stream.
//!
//! A stream is a sequence of events.  Every event starts with a fixed header
//! and is then decoded field by field according to the class that the header
//! names.  Classes live in a registry that is seeded with four reserved
//! classes and grows while the stream is decoded: events of two of the
//! reserved classes define new classes and their fields.
//!
//! Every function states what it computes over mathematical models of the
//! data: a stream is a `Seq<u8>`, an event is a map from field names to
//! values, a registry is the sequence of its classes in the order of their
//! registration.
pub mod data_provider;
pub mod data_struct_reader;
pub mod event;
pub mod event_klass;
pub mod event_reader;
pub mod integers;
pub mod registry;
pub mod registry_updater;
pub mod test_utilities;
pub mod text;
pub mod wire;

pub use crate::data_struct_reader::ReadEventError;
pub use crate::event::DataType;
pub use crate::event::Event;
pub use crate::event::Value;
pub use crate::event_reader::EventReader;
pub use crate::registry::CoreEventKlassId;
pub use crate::registry::EventKlassRegistry;
