//! Startup configuration resolution.
//!
//! The command line supplies an optional listen address and a required
//! base directory path. Resolution is fatal when the path is missing;
//! a missing listen address falls back to the default. Whether the
//! listen address actually parses as a socket address is checked by the
//! binary afterwards, before anything is printed or bound.

use vstd::prelude::*;

verus! {

/// The resolved startup configuration.
pub struct Config {
    pub path: String,
    pub listen: String,
}

/// Why startup configuration fails.
#[derive(Debug)]
pub enum ConfigError {
    MissingPath,
}

/// The listen address used when none is given.
pub open spec fn default_listen() -> Seq<char> {
    "127.0.0.1:8888"@
}

/// Resolves the command-line values: the path is required, the listen
/// address defaults to `127.0.0.1:8888`.
pub fn resolve_config(path: Option<String>, listen: Option<String>) -> (r: Result<
    Config,
    ConfigError,
>)
    ensures
        r is Ok <==> path is Some,
        r is Ok ==> r->Ok_0.path@ == path->Some_0@,
        r is Ok ==> r->Ok_0.listen@ == (if listen is Some {
            listen->Some_0@
        } else {
            default_listen()
        }),
        r is Err ==> r->Err_0 == ConfigError::MissingPath,
{
    let p = match path {
        Some(p) => p,
        None => {
            return Err(ConfigError::MissingPath);
        },
    };
    let l = match listen {
        Some(l) => l,
        None => String::from_str("127.0.0.1:8888"),
    };
    Ok(Config { path: p, listen: l })
}

/// The startup banner: what is printed once the server is about to
/// listen.
pub open spec fn banner_text(addr: Seq<char>, path: Seq<char>) -> Seq<char> {
    "Listening on http://"@ + addr + ", serving "@ + path
}

/// Builds the startup banner for the resolved address and path.
pub fn banner(addr: &str, path: &str) -> (r: String)
    ensures
        r@ == banner_text(addr@, path@),
{
    let mut out = String::from_str("Listening on http://");
    out.append(addr);
    out.append(", serving ");
    out.append(path);
    proof {
        assert(out@ =~= banner_text(addr@, path@));
    }
    out
}

} // verus!
