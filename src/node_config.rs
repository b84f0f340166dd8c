//! Settings of the blockchain-service command-line tool: the settings file's values,
//! where the file is looked for, and how an endpoint is completed.
use crate::text::{contains_char, has_prefix, starts_with};
use vstd::prelude::*;

verus! {

/// Settings read from a settings file; an absent value leaves the default in place.
#[derive(Debug, Clone, Default)]
pub struct Config {
    /// Blockchain service endpoint.
    pub blockchain_endpoint: Option<String>,
    /// Verbose logging.
    pub verbose: Option<bool>,
}

/// `base` and `name` joined by one path separator.
pub open spec fn path_joined(base: Seq<char>, name: Seq<char>) -> Seq<char> {
    if base.len() > 0 && base.last() == '/' {
        base + name
    } else {
        base + "/"@ + name
    }
}

/// The settings files looked for, in order: `<home>/.config/tnode/config.yml` when a
/// home directory is known (an empty one counts as unknown), then `tnode.yml` in the
/// current directory.
pub open spec fn config_paths_for(home: Option<Seq<char>>) -> Seq<Seq<char>> {
    match home {
        Some(h) => if h.len() > 0 {
            seq![path_joined(h, ".config/tnode/config.yml"@), "tnode.yml"@]
        } else {
            seq!["tnode.yml"@]
        },
        None => seq!["tnode.yml"@],
    }
}

/// The service's default port.
pub open spec fn default_port() -> Seq<char> {
    "8087"@
}

/// An endpoint completed with the default port: unchanged when it names a scheme
/// (`http://` or `https://`) or already holds a `:`, else `<endpoint>:8087`.
pub open spec fn endpoint_with_port(e: Seq<char>) -> Seq<char> {
    if has_prefix(e, "http://"@) || has_prefix(e, "https://"@) || e.contains(':') {
        e
    } else {
        e + ":"@ + default_port()
    }
}

impl Config {
    /// Overrides each value of `self` with the value of `other` where `other` has one.
    pub fn merge(&mut self, other: &Config)
        ensures
            final(self).blockchain_endpoint == if other.blockchain_endpoint is Some {
                other.blockchain_endpoint
            } else {
                old(self).blockchain_endpoint
            },
            final(self).verbose == if other.verbose is Some {
                other.verbose
            } else {
                old(self).verbose
            },
    {
        match &other.blockchain_endpoint {
            Some(e) => {
                self.blockchain_endpoint = Some(e.clone());
            },
            None => {},
        }
        if other.verbose.is_some() {
            self.verbose = other.verbose;
        }
    }

    /// The settings files to look for, given the home directory.
    pub fn default_config_paths(home: Option<String>) -> (r: Vec<String>)
        ensures
            r.deep_view() == config_paths_for(
                match home {
                    Some(h) => Some(h@),
                    None => None,
                },
            ),
    {
        let mut r: Vec<String> = Vec::new();
        match &home {
            Some(h) => {
                let n = h.as_str().unicode_len();
                if n > 0 {
                    let mut p = String::from_str(h.as_str());
                    if h.as_str().get_char(n - 1) != '/' {
                        p.append("/");
                    }
                    p.append(".config/tnode/config.yml");
                    r.push(p);
                }
            },
            None => {},
        }
        r.push(String::from_str("tnode.yml"));
        proof {
            match home {
                Some(h) => {
                    if h@.len() > 0 {
                        assert(r.deep_view() =~= config_paths_for(Some(h@)));
                    } else {
                        assert(r.deep_view() =~= config_paths_for(Some(h@)));
                    }
                },
                None => {
                    assert(r.deep_view() =~= config_paths_for(None));
                },
            }
        }
        r
    }
}

/// Completes an endpoint with the default port when it names neither a scheme nor a
/// port.
pub fn parse_endpoint(endpoint: &str) -> (r: String)
    ensures
        r@ == endpoint_with_port(endpoint@),
{
    if starts_with(endpoint, "http://") || starts_with(endpoint, "https://") {
        return String::from_str(endpoint);
    }
    if contains_char(endpoint, ':') {
        String::from_str(endpoint)
    } else {
        let mut r = String::from_str(endpoint);
        r.append(":");
        r.append("8087");
        r
    }
}

} // verus!
