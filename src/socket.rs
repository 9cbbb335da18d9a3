//! The name of the daemon's local socket.
use vstd::prelude::*;

verus! {

/// The socket's name where local sockets are file-system paths.
pub const SOCKET_PATH: &'static str = "/tmp/simple-process-tracker.sock";

/// The socket's name where local sockets may live in their own namespace.
pub const SOCKET_NAMESPACED: &'static str = "@simple-process-tracker.sock";

/// Relies on interprocess's `NameTypeSupport::query` and
/// `NameTypeSupport::namespace_supported`: whether this platform, as it is
/// now, names local sockets in a namespace of their own.
#[verifier::external_body]
fn namespaced_names_supported() -> bool {
    interprocess::local_socket::NameTypeSupport::query().namespace_supported()
}

/// The socket name to use, given whether namespaced names are supported.
pub fn socket_name_for(namespaced: bool) -> (r: &'static str)
    ensures
        r@ == if namespaced {
            SOCKET_NAMESPACED@
        } else {
            SOCKET_PATH@
        },
{
    if namespaced {
        SOCKET_NAMESPACED
    } else {
        SOCKET_PATH
    }
}

/// The socket name for this platform: namespaced where that is supported,
/// a path under `/tmp` otherwise.
pub fn get_socket_name() -> (r: &'static str)
    ensures
        r@ == SOCKET_NAMESPACED@ || r@ == SOCKET_PATH@,
{
    socket_name_for(namespaced_names_supported())
}

} // verus!
