//! The wire protocol of the host side: framing, message codec, sequence
//! window, reactor and event fan-out.

pub mod calls;
pub mod codec;
pub mod decode;
pub mod dictionary_laws;
pub mod encode;
pub mod enums;
pub mod event_laws;
pub mod events;
pub mod format;
pub mod format_laws;
pub mod identify;
pub mod identify_laws;
pub mod interceptor;
pub mod kalico_native;
pub mod laws;
pub mod minimal;
pub mod native_laws;
pub mod output_laws;
pub mod parse_error;
pub mod parser;
pub mod reactor;
pub mod reactor_answers;
pub mod reactor_calls;
pub mod reactor_laws;
pub mod reactor_model;
pub mod reactor_queue;
pub mod reactor_reliable;
pub mod reactor_types;
pub mod rtt;
pub mod runtime_events;
pub mod vlq;
pub mod window;
pub mod wire;
pub mod wire_laws;
