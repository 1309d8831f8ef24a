//! Self-extracting executable packer: the container byte format shared by the
//! producer and the self-extraction runtime, the producer pipeline that turns a
//! target file into a container, and the runtime logic that parses a container
//! back into a launchable program.

pub mod codec;
pub mod compress;
pub mod digest;
pub mod producer;
pub mod runtime;
pub mod table;
