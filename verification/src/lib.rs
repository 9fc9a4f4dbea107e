//! Verified protocol logic of the communication service: frame codecs,
//! address parsers, configuration defaults and small data stores.
pub mod address;
pub mod ble;
pub mod bytes;
pub mod can;
pub mod command_batcher;
pub mod dl645;
pub mod duration;
pub mod factory;
pub mod file_logging;
pub mod http;
pub mod iec104;
pub mod iec61850;
pub mod iec61850_mms;
pub mod iec61850_transport;
pub mod logging;
pub mod modbus_poll;
pub mod mqtt;
pub mod matter;
pub mod modbus_mock;
pub mod point;
pub mod poll;
pub mod script_runner;
pub mod shm_sync;
pub mod slot;
pub mod text;
pub mod voltage485;
pub mod zigbee;
