//! Contents written during first-time setup.
//!
//! The interactive prompts, file writes and service activation run outside
//! the core; the texts they install are built here.

use vstd::prelude::*;
use vstd::string::*;

use crate::text;

verus! {

/// The server configuration file that setup writes.
pub fn config_file_contents(domain: &str) -> (r: String)
    ensures
        r@ == "[general]\ndomain = \""@ + domain@ + "\""@,
{
    let mut v = text::chars_of("[general]\ndomain = \"");
    text::append_str(&mut v, domain);
    text::append_str(&mut v, "\"");
    proof {
        assert(v@ =~= "[general]\ndomain = \""@ + domain@ + "\""@);
    }
    text::string_of(&v)
}

} // verus!

pub mod linux;
