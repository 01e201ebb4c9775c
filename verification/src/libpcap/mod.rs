pub mod deadline_laws;
pub mod decoder;
pub mod decoder_laws;
pub mod flow;
pub mod flush;
pub mod laws;
pub mod packet_laws;
pub mod provider;
pub mod record_laws;
pub mod stream;
pub mod tcp_seq;
pub mod wire;
