//! Whisper on a microcontroller: the parts of a layer-streaming speech
//! recogniser that decide, count, address and check.
//!
//! The model image lives on a block device, the network runs on an NPU and
//! the samples come from a microphone; everything in between is here. Each
//! function states what it returns over mathematical models and is proved
//! to do so. Floating-point arithmetic, register access and input/output
//! belong to the programs around the library.

pub mod attention;
pub mod bytes;
pub mod capture;
pub mod cross;
pub mod crossed;
pub mod decode;
pub mod decoder;
pub mod display;
pub mod dsp;
pub mod encoded;
pub mod encoder;
pub mod hal;
pub mod heads;
pub mod host;
pub mod hostdec;
pub mod hostlayer;
pub mod image;
pub mod ioq;
pub mod kernels;
pub mod kvcache;
pub mod layout;
pub mod lm;
pub mod loader;
pub mod mailbox;
pub mod mel;
pub mod mockblk;
pub mod names;
pub mod params;
pub mod pdm;
pub mod pipe;
pub mod plan;
pub mod power;
pub mod probe;
pub mod q4;
pub mod script;
pub mod sd;
pub mod server;
pub mod slot;
pub mod standalone;
pub mod stats;
pub mod storage;
pub mod sums;
pub mod token;
pub mod usb;
pub mod usbdev;
pub mod usbproto;
pub mod utterance;
pub mod window;
