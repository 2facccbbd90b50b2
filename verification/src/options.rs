//! Connection settings for the node that the block scanner talks to.

use vstd::prelude::*;
use std::path::PathBuf;

verus! {

/// `std::path::PathBuf`, a file-system path. The library carries such a
/// value through and never looks inside it.
#[verifier::external_type_specification]
#[verifier::external_body]
pub struct ExPathBuf(PathBuf);

/// Where the node listens and what the client may present to it.
pub struct BitcoinRpcOptions {
    pub rpc_url: String,
    pub rpc_user: Option<String>,
    pub rpc_pass: Option<String>,
    pub cookie_file: Option<PathBuf>,
}

/// The credentials a client presents to the node.
pub enum RpcAuth<'a> {
    /// A user name and its password.
    UserPass(&'a String, &'a String),
    /// The cookie file that the node wrote.
    CookieFile(&'a PathBuf),
}

impl BitcoinRpcOptions {
    /// The credentials these options select: user and password where both
    /// are set, otherwise the cookie file where it is set, otherwise none.
    pub open spec fn selected_auth(&self) -> Option<RpcAuth<'_>> {
        match (self.rpc_user, self.rpc_pass, self.cookie_file) {
            (Some(user), Some(pass), _) => Some(RpcAuth::UserPass(&user, &pass)),
            (_, _, Some(cookie_file)) => Some(RpcAuth::CookieFile(&cookie_file)),
            _ => None,
        }
    }

    /// Selects the credentials; `None` means that the options hold no
    /// complete set and no client can be made from them.
    pub fn auth(&self) -> (auth: Option<RpcAuth<'_>>)
        ensures
            auth == self.selected_auth(),
    {
        match (&self.rpc_user, &self.rpc_pass, &self.cookie_file) {
            (Some(user), Some(pass), _) => Some(RpcAuth::UserPass(user, pass)),
            (_, _, Some(cookie_file)) => Some(RpcAuth::CookieFile(cookie_file)),
            _ => None,
        }
    }
}

} // verus!
