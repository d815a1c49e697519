//! Light's three settings and the text of its configuration file.

use vstd::prelude::*;
use crate::text::{dec, decimal};

verus! {

/// The directory a store lives in, inside a project.
pub const STORE_DIR: &'static str = ".cyberbrain";

/// Light's own configuration file, beside the full product's and never touching it.
pub const CONFIG_FILE: &'static str = "light.toml";

/// Everything Light can be configured to do.
#[derive(Debug)]
pub struct LightConfig {
    /// Token cap for rings 0 and 1 together, which ride along in every session.
    pub resident_cap_tokens: usize,
    /// Hits returned by `recall` unless told otherwise.
    pub n: usize,
    /// Candidates BM25 considers before the ranking is cut to `n`.
    pub k_lex: usize,
}

impl Default for LightConfig {
    fn default() -> (c: Self)
        ensures
            c.resident_cap_tokens == 8192,
            c.n == 8,
            c.k_lex == 50,
    {
        LightConfig { resident_cap_tokens: 8192, n: 8, k_lex: 50 }
    }
}

/// The configuration a fresh store gets: the defaults, with the cap `init` was given.
pub fn init_config(cap: usize) -> (c: LightConfig)
    ensures
        c.resident_cap_tokens == cap,
        c.n == 8,
        c.k_lex == 50,
{
    LightConfig { resident_cap_tokens: cap, ..LightConfig::default() }
}

/// The text `write` puts into the configuration file.
pub open spec fn config_text_spec(c: LightConfig) -> Seq<char> {
    "# Cyberbrain Light. Three settings, and you can delete the file to get the\n# defaults back.\n\n# Rings 0 and 1 are injected into every session; this caps what that costs.\nresident_cap_tokens = "@
        + dec(c.resident_cap_tokens as nat)
        + "\n\n# Hits returned by `cbl recall`.\nn = "@ + dec(c.n as nat)
        + "\n\n# Candidates BM25 weighs before the list is cut to `n`.\nk_lex = "@
        + dec(c.k_lex as nat) + "\n"@
}

impl LightConfig {
    /// The file's text: the three settings with a line of explanation each.
    pub fn text(&self) -> (s: String)
        ensures
            s@ == config_text_spec(*self),
    {
        let mut s = String::from_str(
            "# Cyberbrain Light. Three settings, and you can delete the file to get the\n# defaults back.\n\n# Rings 0 and 1 are injected into every session; this caps what that costs.\nresident_cap_tokens = ",
        );
        let a = decimal(self.resident_cap_tokens as u64);
        s.append(a.as_str());
        s.append("\n\n# Hits returned by `cbl recall`.\nn = ");
        let b = decimal(self.n as u64);
        s.append(b.as_str());
        s.append("\n\n# Candidates BM25 weighs before the list is cut to `n`.\nk_lex = ");
        let c = decimal(self.k_lex as u64);
        s.append(c.as_str());
        s.append("\n");
        s
    }
}

/// `init` writes the configuration only where there is none: a second `init` keeps the one
/// the user may have edited.
pub fn config_needs_writing(exists: bool) -> (r: bool)
    ensures
        r == !exists,
{
    !exists
}

} // verus!
