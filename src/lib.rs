//! A framebuffer login greeter: colours, a bounds-checked pixel arena,
//! the form layout, the modal input state machine and the decisions of the
//! greetd login exchange, each with a verified contract.

pub mod color;
pub mod region;
pub mod layout;
pub mod greeter;
pub mod settings;
pub mod greetd;
pub mod draw;
