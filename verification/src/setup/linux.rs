//! Unit files installed on hosts with a systemd service manager.

use vstd::prelude::*;
use vstd::string::*;

use crate::text;

verus! {

/// The socket-activation unit: the supervisor listens on port 80 and hands
/// the socket to the server.
pub fn systemd_socket_unit() -> (r: String)
    ensures
        r@
            == "[Unit]\nDescription=Oxidux Server Activation Socket\n\n[Socket]\nListenStream=80\n\n[Install]\nWantedBy=default.target"@,
{
    String::from_str(
        "[Unit]\nDescription=Oxidux Server Activation Socket\n\n[Socket]\nListenStream=80\n\n[Install]\nWantedBy=default.target",
    )
}

/// The service unit that runs the proxy server for a user.
pub fn systemd_service(
    user: &str,
    home: &str,
    path: &str,
    exe_path: &str,
    config_file: &str,
) -> (r: String)
    ensures
        r@ == "[Unit]\nDescription=Oxidux\nAfter=network.target\n\n[Service]\nUser="@ + user@
            + "\nEnvironment=HOME="@ + home@ + "\nEnvironment=PATH="@ + path@ + "\nExecStart="@
            + exe_path@ + " server "@ + config_file@
            + "\n\n[Install]\nWantedBy=multi-user.target"@,
{
    let mut v = text::chars_of("[Unit]\nDescription=Oxidux\nAfter=network.target\n\n[Service]\nUser=");
    text::append_str(&mut v, user);
    text::append_str(&mut v, "\nEnvironment=HOME=");
    text::append_str(&mut v, home);
    text::append_str(&mut v, "\nEnvironment=PATH=");
    text::append_str(&mut v, path);
    text::append_str(&mut v, "\nExecStart=");
    text::append_str(&mut v, exe_path);
    text::append_str(&mut v, " server ");
    text::append_str(&mut v, config_file);
    text::append_str(&mut v, "\n\n[Install]\nWantedBy=multi-user.target");
    proof {
        assert(v@ =~= "[Unit]\nDescription=Oxidux\nAfter=network.target\n\n[Service]\nUser="@
            + user@ + "\nEnvironment=HOME="@ + home@ + "\nEnvironment=PATH="@ + path@
            + "\nExecStart="@ + exe_path@ + " server "@ + config_file@
            + "\n\n[Install]\nWantedBy=multi-user.target"@);
    }
    text::string_of(&v)
}

} // verus!
