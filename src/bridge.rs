//! The commands that are sent to the device bridge tool.
use vstd::prelude::*;
use vstd::string::StringExecFns;
use crate::order::texts;

verus! {

/// A request to the bridge tool.
pub enum BridgeCommand {
    /// List the connected devices.
    ListDevices,
    /// Read the connected device's model name.
    ReadModel,
    /// List the installed packages.
    ListPackages,
    /// Uninstall a package for the current user.
    Uninstall(String),
}

/// The arguments that the bridge tool is started with for a command.
pub open spec fn command_args(c: BridgeCommand) -> Seq<Seq<char>> {
    match c {
        BridgeCommand::ListDevices => seq!["devices"@],
        BridgeCommand::ReadModel => seq!["shell"@, "getprop"@, "ro.product.model"@],
        BridgeCommand::ListPackages => seq!["shell"@, "pm"@, "list"@, "packages"@],
        BridgeCommand::Uninstall(name) => seq![
            "shell"@,
            "pm"@,
            "uninstall"@,
            "--user"@,
            "0"@,
            name@,
        ],
    }
}

impl BridgeCommand {
    /// The argument list of this command.
    pub fn args(&self) -> (r: Vec<String>)
        ensures
            texts(r@) == command_args(*self),
    {
        let mut r: Vec<String> = Vec::new();
        match self {
            BridgeCommand::ListDevices => {
                r.push(String::from_str("devices"));
            },
            BridgeCommand::ReadModel => {
                r.push(String::from_str("shell"));
                r.push(String::from_str("getprop"));
                r.push(String::from_str("ro.product.model"));
            },
            BridgeCommand::ListPackages => {
                r.push(String::from_str("shell"));
                r.push(String::from_str("pm"));
                r.push(String::from_str("list"));
                r.push(String::from_str("packages"));
            },
            BridgeCommand::Uninstall(name) => {
                r.push(String::from_str("shell"));
                r.push(String::from_str("pm"));
                r.push(String::from_str("uninstall"));
                r.push(String::from_str("--user"));
                r.push(String::from_str("0"));
                r.push(name.clone());
            },
        }
        assert(texts(r@) =~= command_args(*self));
        r
    }
}

} // verus!
