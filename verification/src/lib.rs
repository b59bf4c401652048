//! Streams that arrive from HART field devices. One command's data is one
//! Stream: a burst-mode device's variable as it comes, or a Stream the
//! device holds, read back a chunk at a time.
//!
//! HART is the 4-20 mA loop's second channel: a 1200-baud FSK signal on
//! the same two wires, a master asking and a transmitter answering, on
//! every process plant built since the eighties. What is here is the frame
//! (preambles, a delimiter, a short or long address, a command, the data
//! and an XOR), commands 0 and 1, and two device-specific commands that
//! carry a Stream in chunks, which is how a device takes anything larger
//! than a frame. A Send Location writes a Stream to a device; a Receive
//! Location takes what the line carries, a burst-mode device's variable
//! included, or reads the Stream a device holds.
//!
//! The carrier is a line: a HART modem on a serial port, framed by
//! [`Frame::measure`], or a multi-drop bus in process, with field devices on
//! it at their own polling addresses, [`loopback::OnTheBus`]. A master's
//! exchange is a value that says what to transmit and is told what was heard;
//! whoever holds the line does the rest.
//!
//! The origin URI carries what the frame knew:
//! `hart://loopback/26-e5-0a1b2c?command=1&burst=true`.
//!
//! Every contract speaks of models (`FrameView`, `DeviceView`, `WriteView` and
//! the like). What the bytes of a line, the text of an address, each command
//! and each step of an exchange mean stands in [`line_laws`], [`text_laws`],
//! [`command_laws`] and [`exchange_laws`]; what holds across functions in
//! [`frame_laws`], [`device_laws`] and [`transport_laws`], beside the laws on
//! bytes, text, addresses and chunks in their own modules.

pub mod address;
pub mod bytes;
pub mod command_laws;
pub mod device;
pub mod device_laws;
pub mod error;
pub mod exchange_laws;
pub mod frame;
pub mod frame_laws;
pub mod line_laws;
pub mod loopback;
pub mod stream;
pub mod text;
pub mod text_laws;
pub mod transport;
pub mod transport_laws;

pub use device::{Device, Identity};
pub use error::HartError;
pub use frame::{Address, Frame, Kind};
pub use transport::HartTransport;
