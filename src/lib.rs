//! Verified core of a mass-spring cloth simulation draped over a sphere:
//! mesh topology generation, grid neighbourhoods of the spring model, the
//! step scheduler and the ping-pong pair of vertex buffers.
pub mod buffers;
pub mod grid;
pub mod scheduler;
pub mod topology;
