mod alphabet;
mod config;
mod machine;
mod plugboard;
mod rotor;
mod tables;
mod text;
mod wiring;

pub use alphabet::{alphabetical_index, alphabetical_letter};
pub use config::{Config, ConfigError, RotorConfig, Slot};
pub use machine::{EnigmaMachine, MachineView};
pub use text::encode_text;
pub use plugboard::Plugboard;
pub use rotor::{Rotor, RotorPosition, RotorView};
pub use tables::RotorConstants;
