//! Coordination of device state across a fleet of network-attached control
//! nodes (RTUs), driven by one shared declarative document, the fleet model.
//!
//! The crate holds the data model and the two protocols that act on it:
//! reconciliation, which runs on a node and touches only the devices that the
//! node owns, and propagation, which runs on the master and threads the model
//! through the nodes in order. Hardware and network are not reached from here:
//! both protocols are written as engines that hand out one request at a time
//! and take back what the collaborator answered.

pub mod dispatch;
pub mod error;
pub mod model;
pub mod propagate;
pub mod reconcile;

pub use dispatch::{Command, DriverError, DriverRequest, Reading};
pub use error::{Error, ErrorKind, ErrorView, Fault, FaultView};
pub use model::device::{Device, DeviceView};
pub use model::model::{Metadata, MetadataView, Model, ModelView};
pub use model::rtu::{NetworkAddress, RtuView, RTU};
pub use model::{get_rtu_id, local_identity, Driver, Mode, State};
pub use propagate::{propagate, Hop, Propagation};
pub use reconcile::Reconciliation;
