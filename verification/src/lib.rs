//! An in-memory inventory of a smart home: thermometers and powered
//! sockets, grouped into named rooms, grouped into a home, each level
//! able to render a textual status report.

pub mod decimal;
pub mod error;
pub mod keyed;
pub mod order;
pub mod reading;
pub mod report;
pub mod room;
pub mod smart_device;
pub mod smart_home;
pub mod socket;
pub mod thermometer;

pub use error::SmartHomeError;
pub use reading::Reading;
pub use report::Report;
pub use room::Room;
pub use smart_device::SmartDevice;
pub use smart_home::SmartHome;
pub use socket::Socket;
pub use thermometer::Thermometer;
