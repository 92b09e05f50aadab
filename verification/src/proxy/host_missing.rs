//! The page served when no app answers to a host: an apology and the table
//! of registered apps with their state.

use vstd::prelude::*;
use vstd::string::*;

use crate::app::App;
use crate::process_manager::ProcessManager;
use crate::text;

verus! {

pub open spec fn prelude_open() -> Seq<char> {
    "\n<!doctype html>\n<html>\n    <head>\n        <title>"@
}

pub open spec fn not_found_needle() -> Seq<char> {
    "App not found"@
}

pub open spec fn prelude_close() -> Seq<char> {
    " | Oxidux</title>\n        <style>\n            h1 {\n                font-size: 1.5em;\n            }\n            .applist th, .applist td {\n                text-align: left;\n                padding: 5px;\n            }\n        </style>\n    </head>\n    <body>\n"@
}

pub open spec fn heading_open() -> Seq<char> {
    "<h1>Couldn't find app "@
}

pub open spec fn heading_close() -> Seq<char> {
    ", did you mean one of these?</h1>"@
}

pub open spec fn table_header() -> Seq<char> {
    "\n<table class=\"applist\">\n    <thead>\n        <tr>\n            <th>App</th>\n            <th>Status</th>\n        </tr>\n    </thead>\n"@
}

pub open spec fn postlude() -> Seq<char> {
    "\n    </body>\n</html>\n"@
}

/// One table row: the app's link and its running state.
pub open spec fn app_row(a: App) -> Seq<char> {
    "<tr><td><a href=\"http://"@ + a.name@ + ".test\">"@ + a.name@ + "</a></td><td>"@ + (if a.spec_is_running() {
        "Running"@
    } else {
        "Stopped"@
    }) + "</td></tr>"@
}

pub open spec fn app_rows(apps: Seq<App>) -> Seq<char>
    decreases apps.len(),
{
    if apps.len() == 0 {
        Seq::empty()
    } else {
        app_rows(apps.drop_last()) + app_row(apps.last())
    }
}

/// The whole page body.
pub open spec fn missing_host_body(host: Seq<char>, apps: Seq<App>) -> Seq<char> {
    prelude_open() + not_found_needle() + prelude_close() + heading_open() + host
        + heading_close() + table_header() + app_rows(apps) + "</table>"@ + postlude()
}

/// Build the page for an unknown host.
pub fn missing_host_response(app_name: &str, manager: &ProcessManager) -> (r: String)
    ensures
        r@ == missing_host_body(app_name@, manager.apps@),
{
    let mut v = text::chars_of(
        "\n<!doctype html>\n<html>\n    <head>\n        <title>",
    );
    text::append_str(&mut v, "App not found");
    text::append_str(
        &mut v,
        " | Oxidux</title>\n        <style>\n            h1 {\n                font-size: 1.5em;\n            }\n            .applist th, .applist td {\n                text-align: left;\n                padding: 5px;\n            }\n        </style>\n    </head>\n    <body>\n",
    );
    text::append_str(&mut v, "<h1>Couldn't find app ");
    text::append_str(&mut v, app_name);
    text::append_str(&mut v, ", did you mean one of these?</h1>");
    text::append_str(
        &mut v,
        "\n<table class=\"applist\">\n    <thead>\n        <tr>\n            <th>App</th>\n            <th>Status</th>\n        </tr>\n    </thead>\n",
    );
    let ghost before_rows = v@;
    let mut i: usize = 0;
    while i < manager.apps.len()
        invariant
            i <= manager.apps@.len(),
            v@ == before_rows + app_rows(manager.apps@.subrange(0, i as int)),
        decreases manager.apps@.len() - i,
    {
        let a = &manager.apps[i];
        text::append_str(&mut v, "<tr><td><a href=\"http://");
        text::append_str(&mut v, a.name.as_str());
        text::append_str(&mut v, ".test\">");
        text::append_str(&mut v, a.name.as_str());
        text::append_str(&mut v, "</a></td><td>");
        if a.is_running() {
            text::append_str(&mut v, "Running");
        } else {
            text::append_str(&mut v, "Stopped");
        }
        text::append_str(&mut v, "</td></tr>");
        i = i + 1;
        proof {
            assert(manager.apps@.subrange(0, i as int).drop_last() =~= manager.apps@.subrange(
                0,
                i - 1,
            ));
            assert(manager.apps@.subrange(0, i as int).last() == manager.apps@[i - 1]);
            assert(v@ =~= before_rows + (app_rows(manager.apps@.subrange(0, i - 1)) + app_row(
                manager.apps@[i - 1],
            )));
        }
    }
    text::append_str(&mut v, "</table>");
    text::append_str(&mut v, "\n    </body>\n</html>\n");
    proof {
        assert(manager.apps@.subrange(0, manager.apps@.len() as int) =~= manager.apps@);
        assert(v@ =~= missing_host_body(app_name@, manager.apps@));
    }
    text::string_of(&v)
}

/// The page always apologizes by name: it holds the words `App not found`
/// and the host that was asked for, whatever the registry holds.
pub proof fn lemma_missing_host_mentions(host: Seq<char>, apps: Seq<App>)
    ensures
        text::contains_seq(missing_host_body(host, apps), not_found_needle()),
        text::contains_seq(missing_host_body(host, apps), host),
{
    let body = missing_host_body(host, apps);
    let k1 = prelude_open().len() as int;
    assert(body.subrange(k1, k1 + not_found_needle().len() as int) =~= not_found_needle());
    let k2 = (prelude_open() + not_found_needle() + prelude_close() + heading_open()).len() as int;
    assert(body.subrange(k2, k2 + host.len() as int) =~= host);
}

} // verus!
