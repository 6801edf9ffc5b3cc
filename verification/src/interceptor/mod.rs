//! One interceptor in each direction of a connection: it takes frames out of the
//! byte stream, reads each as the packet that is expected, asks a policy
//! what to do with it, and says what is to be sent to whom.

pub mod gate;
pub mod interceptor;
