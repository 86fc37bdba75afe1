//! A DNS forwarding resolver's logic: the wire format, the response cache,
//! the query handling decisions, TCP framing, the upstream query-ID table and
//! the configuration checks. The I/O runtime lives in `app/`.

pub mod cache;
pub mod cli;
pub mod config;
pub mod net;
pub mod proto;
pub mod resolver;
pub mod server;
pub mod testing;
pub mod text;

pub use cache::{Cache, CacheKey};
pub use config::{
    CacheConfig, Config, ConfigError, IpAddress, LogFormat, LogLevel, LoggingConfig, ResolverConfig,
    ServerConfig, SocketAddress, DEFAULT_PORT,
};
pub use net::{frame, frame_body_len, read_frame, FrameTooLong};
pub use proto::{
    Class, EdnsOption, Header, Message, Opcode, ParseError, Question, RData, Rcode, Reader,
    RecordType, ResourceRecord, WriteError, Writer, MAX_UDP_SIZE,
};
pub use resolver::{InFlight, Race, ResolveError, UdpReply};
