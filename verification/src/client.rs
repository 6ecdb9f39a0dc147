//! The synthetic load generator's decisions: which request to send next,
//! drawn at random. The sleeping, connecting and writing around them is
//! plain I/O and stays with the caller.

use vstd::prelude::*;
use vstd::string::StringExecFns;
use crate::numfmt::{dec_digits, u64_to_string};

verus! {

/// The request text the generator sends for one draw: a list, an add or a
/// delete aimed at `table`, with the fixed host and close headers.
pub open spec fn spec_client_request(kind: u64, table: u64, menu: u64) -> Seq<char> {
    let line = if kind == 0 {
        "GET /tables/"@ + dec_digits(table as nat) + " HTTP/1.0"@
    } else if kind == 1 {
        "POST /tables/"@ + dec_digits(table as nat) + "/AddItem/"@ + dec_digits(menu as nat)
            + " HTTP/1.0"@
    } else {
        "DELETE /tables/"@ + dec_digits(table as nat) + " HTTP/1.0"@
    };
    line + "\r\nHost: localhost:7878\r\nConnection: close\r\n\r\n"@
}

/// Builds the request text for one draw.
pub fn client_request(kind: u64, table: u64, menu: u64) -> (r: String)
    requires
        kind < 3,
    ensures
        r@ == spec_client_request(kind, table, menu),
{
    let mut r: String;
    if kind == 0 {
        r = String::from_str("GET /tables/");
        r.append(u64_to_string(table).as_str());
        r.append(" HTTP/1.0");
    } else if kind == 1 {
        r = String::from_str("POST /tables/");
        r.append(u64_to_string(table).as_str());
        r.append("/AddItem/");
        r.append(u64_to_string(menu).as_str());
        r.append(" HTTP/1.0");
    } else {
        r = String::from_str("DELETE /tables/");
        r.append(u64_to_string(table).as_str());
        r.append(" HTTP/1.0");
    }
    r.append("\r\nHost: localhost:7878\r\nConnection: close\r\n\r\n");
    proof {
        assert(r@ =~= spec_client_request(kind, table, menu));
    }
    r
}

/// Relies on `rand::random_range` over `0..bound`: a sample from the
/// thread-local generator, always inside the half-open range.
#[verifier::external_body]
fn random_below(bound: u64) -> (r: u64)
    requires
        bound > 0,
    ensures
        r < bound,
{
    rand::random_range(0..bound)
}

/// Draws one step of the load generator: how long to sleep, and a request
/// aimed at a random table — a list, an add of a random menu item, or a
/// delete, with the fixed headers.
pub fn random_client_action(table_count: u64) -> (r: (u64, String))
    requires
        table_count > 0,
    ensures
        r.0 < 3000,
        exists|kind: u64, table: u64, menu: u64|
            kind < 3 && table < table_count && menu < 4 && r.1@ == #[trigger] spec_client_request(
                kind,
                table,
                menu,
            ),
{
    let sleep_ms = random_below(3000);
    let kind = random_below(3);
    let table = random_below(table_count);
    let menu = random_below(4);
    let req = client_request(kind, table, menu);
    (sleep_ms, req)
}

} // verus!
