//! An interactive bytebeat synthesizer core.
//!
//! A bytebeat is one integer expression over the sample counter `t`; its low
//! byte, evaluated for successive `t`, is the audio signal. This library holds
//! the expression compiler, the audio rendering decisions and the console's
//! state machines, all with machine-checked contracts.
pub mod audio;
pub mod counter;
pub mod event;
pub mod library_data;
pub mod parser;
pub mod ring;
pub mod scope;
mod text;
pub mod ui;
