//! The page served while an app is starting: it asks the browser to retry
//! after the expected cold-start time.

use vstd::prelude::*;
use vstd::string::*;

verus! {

/// The autostart page: a notice plus a reload a few seconds out, slower
/// than the expected cold start.
pub fn autostart_response() -> (r: String)
    ensures
        r@
            == "<!doctype html>\n<html>\n    <head>\n        <title>Starting app | Oxidux</title>\n        <script>\n            setTimeout(function() { location.reload(); }, 5000);\n        </script>\n    </head>\n    <body>\n        <h1>Starting app&hellip;</h1>\n        <p>This page reloads until the app is reachable.</p>\n    </body>\n</html>\n"@,
{
    String::from_str(
        "<!doctype html>\n<html>\n    <head>\n        <title>Starting app | Oxidux</title>\n        <script>\n            setTimeout(function() { location.reload(); }, 5000);\n        </script>\n    </head>\n    <body>\n        <h1>Starting app&hellip;</h1>\n        <p>This page reloads until the app is reachable.</p>\n    </body>\n</html>\n",
    )
}

} // verus!
