//! The router: pure decision logic from method and path to a store
//! operation, the execution of that decision against a store, and the
//! handling of one raw request head end to end.

use vstd::prelude::*;
use vstd::string::StringExecFns;
use vstd::string::StrSliceExecFns;
use crate::numfmt::{all_digits, digits_val, parse_u64};
use crate::render::{
    get_order_html, get_order_list_html, spec_order_html, spec_order_list_html,
};
use crate::store::{
    spec_add, spec_delete, spec_get, spec_list, ApiError, OrderStore, StoreModel,
};

verus! {

/// The cooking time every new order gets, fixed by policy: five minutes,
/// in seconds.
pub const DEFAULT_COOKING_SECS: u64 = 300;

/// The code point a character compares as under ASCII case folding.
pub open spec fn lower_code(c: char) -> int {
    if 'A' as int <= c as int && c as int <= 'Z' as int {
        c as int + 32
    } else {
        c as int
    }
}

/// Equality up to ASCII case, as the original request matching uses it.
pub open spec fn eq_ignore_case(a: Seq<char>, b: Seq<char>) -> bool {
    a.len() == b.len() && forall|i: int| 0 <= i < a.len() ==> lower_code(a[i]) == lower_code(b[i])
}

fn lower_exec(c: char) -> (r: u32)
    ensures
        r as int == lower_code(c),
{
    let u = c as u32;
    if 65 <= u && u <= 90 {
        u + 32
    } else {
        u
    }
}

fn str_eq_ignore_case(a: &str, b: &str) -> (r: bool)
    ensures
        r == eq_ignore_case(a@, b@),
{
    let n = a.unicode_len();
    if n != b.unicode_len() {
        return false;
    }
    let mut i: usize = 0;
    while i < n
        invariant
            i <= n,
            n == a@.len(),
            n == b@.len(),
            forall|j: int| 0 <= j < i ==> lower_code(a@[j]) == lower_code(b@[j]),
        decreases n - i,
    {
        let la = lower_exec(a.get_char(i));
        let lb = lower_exec(b.get_char(i));
        if la != lb {
            return false;
        }
        i += 1;
    }
    true
}

/// The segments of a path split on `'/'`: each separator closes the segment
/// before it, and the empty path is one empty segment.
pub open spec fn split_seq(s: Seq<char>) -> Seq<Seq<char>>
    decreases s.len(),
{
    if s.len() == 0 {
        seq![Seq::<char>::empty()]
    } else if s.last() == '/' {
        split_seq(s.drop_last()).push(Seq::<char>::empty())
    } else {
        let rest = split_seq(s.drop_last());
        rest.update(rest.len() - 1, rest.last().push(s.last()))
    }
}

proof fn lemma_split_seq_len(s: Seq<char>)
    ensures
        split_seq(s).len() >= 1,
    decreases s.len(),
{
    if s.len() > 0 {
        lemma_split_seq_len(s.drop_last());
    }
}

/// Splits a path on `'/'`, one owned segment per entry.
pub fn split_path(path: &str) -> (segs: Vec<String>)
    ensures
        segs@.len() == split_seq(path@).len(),
        forall|i: int| 0 <= i < segs@.len() ==> (#[trigger] segs@[i])@ == split_seq(path@)[i],
{
    let n = path.unicode_len();
    let mut segs: Vec<String> = Vec::new();
    let mut start: usize = 0;
    let mut i: usize = 0;
    proof {
        assert(path@.subrange(0, 0) =~= Seq::<char>::empty());
    }
    while i < n
        invariant
            start <= i <= n,
            n == path@.len(),
            ({
                let sp = split_seq(path@.subrange(0, i as int));
                &&& sp.len() == segs@.len() + 1
                &&& forall|j: int| 0 <= j < segs@.len() ==> (#[trigger] segs@[j])@ == sp[j]
                &&& sp.last() == path@.subrange(start as int, i as int)
            }),
        decreases n - i,
    {
        let c = path.get_char(i);
        let ghost sp = split_seq(path@.subrange(0, i as int));
        proof {
            lemma_split_seq_len(path@.subrange(0, i as int));
            assert(path@.subrange(0, i as int + 1).drop_last() =~= path@.subrange(0, i as int));
            assert(path@.subrange(0, i as int + 1).last() == path@[i as int]);
        }
        if c == '/' {
            segs.push(String::from_str(path.substring_char(start, i)));
            start = i + 1;
            proof {
                let sp2 = split_seq(path@.subrange(0, i as int + 1));
                assert(sp2 == sp.push(Seq::<char>::empty()));
                assert(path@.subrange(start as int, i as int + 1) =~= Seq::<char>::empty());
            }
        } else {
            proof {
                let sp2 = split_seq(path@.subrange(0, i as int + 1));
                assert(sp2 == sp.update(sp.len() - 1, sp.last().push(path@[i as int])));
                assert(path@.subrange(start as int, i as int).push(path@[i as int]) =~= path@
                    .subrange(start as int, i as int + 1));
                assert(sp2.last() == path@.subrange(start as int, i as int + 1));
            }
        }
        i += 1;
    }
    segs.push(String::from_str(path.substring_char(start, n)));
    proof {
        assert(path@.subrange(0, n as int) =~= path@);
    }
    segs
}


/// What the router decides to do with one request.
#[derive(Clone, Copy, PartialEq, Eq, Structural, Debug)]
pub enum RouteAction {
    /// Render the landing page; no store access.
    Landing,
    /// List one table's orders.
    ListOrders { table: u64 },
    /// Look one order up.
    GetOrder { table: u64, order: u64 },
    /// Delete one order, then list its table.
    DeleteOrder { table: u64, order: u64 },
    /// Add an order with the default cooking time, then list its table.
    AddOrder { table: u64, menu: u64 },
    /// No route matches.
    NotFound,
    /// A numeric path segment is malformed.
    BadRequest,
}

/// A path segment read as a number: defined exactly when it is a non-empty
/// run of digits whose value fits in a `u64`.
pub open spec fn spec_seg_u64(s: Seq<char>) -> Option<u64> {
    if s.len() > 0 && all_digits(s) && digits_val(s) <= u64::MAX as int {
        Some(digits_val(s) as u64)
    } else {
        None
    }
}

/// The routing table. Methods and the word `tables` match up to ASCII case;
/// a pattern whose numeric segment does not parse is a bad request, and
/// everything off the table is not found.
pub open spec fn spec_route(method: Seq<char>, path: Seq<char>) -> RouteAction {
    let segs = split_seq(path);
    if (segs.len() == 1 && segs[0].len() == 0) || (segs.len() == 2 && segs[0].len() == 0
        && segs[1].len() == 0) {
        RouteAction::Landing
    } else if segs.len() >= 2 && segs[0].len() == 0 && eq_ignore_case(segs[1], "tables"@) {
        if segs.len() == 2 {
            if eq_ignore_case(method, "GET"@) {
                RouteAction::Landing
            } else {
                RouteAction::NotFound
            }
        } else if segs.len() == 3 {
            if eq_ignore_case(method, "GET"@) {
                match spec_seg_u64(segs[2]) {
                    Some(t) => RouteAction::ListOrders { table: t },
                    None => RouteAction::BadRequest,
                }
            } else {
                RouteAction::NotFound
            }
        } else if segs.len() == 4 {
            if eq_ignore_case(method, "GET"@) {
                match (spec_seg_u64(segs[2]), spec_seg_u64(segs[3])) {
                    (Some(t), Some(o)) => RouteAction::GetOrder { table: t, order: o },
                    _ => RouteAction::BadRequest,
                }
            } else if eq_ignore_case(method, "DELETE"@) {
                match (spec_seg_u64(segs[2]), spec_seg_u64(segs[3])) {
                    (Some(t), Some(o)) => RouteAction::DeleteOrder { table: t, order: o },
                    _ => RouteAction::BadRequest,
                }
            } else {
                RouteAction::NotFound
            }
        } else if segs.len() == 5 && eq_ignore_case(segs[3], "AddItem"@) && eq_ignore_case(
            method,
            "POST"@,
        ) {
            match (spec_seg_u64(segs[2]), spec_seg_u64(segs[4])) {
                (Some(t), Some(m)) => RouteAction::AddOrder { table: t, menu: m },
                _ => RouteAction::BadRequest,
            }
        } else {
            RouteAction::NotFound
        }
    } else {
        RouteAction::NotFound
    }
}

fn seg_u64(seg: &String) -> (r: Option<u64>)
    ensures
        r == spec_seg_u64(seg@),
{
    parse_u64(seg.as_str())
}

/// Decides what one request asks for, by the routing table alone.
pub fn route(method: &str, path: &str) -> (r: RouteAction)
    ensures
        r == spec_route(method@, path@),
{
    let segs = split_path(path);
    let n = segs.len();
    proof {
        lemma_split_seq_len(path@);
    }
    if (n == 1 && segs[0].as_str().unicode_len() == 0) || (n == 2 && segs[0]
        .as_str()
        .unicode_len() == 0 && segs[1].as_str().unicode_len() == 0) {
        return RouteAction::Landing;
    }
    if n >= 2 && segs[0].as_str().unicode_len() == 0 && str_eq_ignore_case(
        segs[1].as_str(),
        "tables",
    ) {
        if n == 2 {
            if str_eq_ignore_case(method, "GET") {
                RouteAction::Landing
            } else {
                RouteAction::NotFound
            }
        } else if n == 3 {
            if str_eq_ignore_case(method, "GET") {
                match seg_u64(&segs[2]) {
                    Some(t) => RouteAction::ListOrders { table: t },
                    None => RouteAction::BadRequest,
                }
            } else {
                RouteAction::NotFound
            }
        } else if n == 4 {
            if str_eq_ignore_case(method, "GET") {
                match (seg_u64(&segs[2]), seg_u64(&segs[3])) {
                    (Some(t), Some(o)) => RouteAction::GetOrder { table: t, order: o },
                    _ => RouteAction::BadRequest,
                }
            } else if str_eq_ignore_case(method, "DELETE") {
                match (seg_u64(&segs[2]), seg_u64(&segs[3])) {
                    (Some(t), Some(o)) => RouteAction::DeleteOrder { table: t, order: o },
                    _ => RouteAction::BadRequest,
                }
            } else {
                RouteAction::NotFound
            }
        } else if n == 5 && str_eq_ignore_case(segs[3].as_str(), "AddItem") && str_eq_ignore_case(
            method,
            "POST",
        ) {
            match (seg_u64(&segs[2]), seg_u64(&segs[4])) {
                (Some(t), Some(m)) => RouteAction::AddOrder { table: t, menu: m },
                _ => RouteAction::BadRequest,
            }
        } else {
            RouteAction::NotFound
        }
    } else {
        RouteAction::NotFound
    }
}


/// Which page shell the body is embedded in.
#[derive(Clone, Copy, PartialEq, Eq, Structural, Debug)]
pub enum Page {
    Index,
    Table,
}

/// The file each page shell is read from.
pub open spec fn page_file(p: Page) -> Seq<char> {
    match p {
        Page::Index => "index.html"@,
        Page::Table => "table.html"@,
    }
}

impl Page {
    pub fn file_name(&self) -> (r: &'static str)
        ensures
            r@ == page_file(*self),
    {
        match self {
            Page::Index => "index.html",
            Page::Table => "table.html",
        }
    }
}

/// One decision executed against a store whose clock reads `now`: the next
/// store state, and either a page with its rendered body or the error.
pub open spec fn spec_dispatch(s: StoreModel, action: RouteAction, now: u64) -> (
    StoreModel,
    Result<(Page, Seq<char>), ApiError>,
) {
    match action {
        RouteAction::Landing => (s, Ok((Page::Index, Seq::<char>::empty()))),
        RouteAction::ListOrders { table } => match spec_list(s, table) {
            Some(orders) => (s, Ok((Page::Table, spec_order_list_html(orders)))),
            None => (s, Err(ApiError::NotFound)),
        },
        RouteAction::GetOrder { table, order } => match spec_get(s, table, order) {
            Some(o) => (s, Ok((Page::Table, spec_order_html(o)))),
            None => (s, Err(ApiError::NotFound)),
        },
        RouteAction::DeleteOrder { table, order } => match spec_delete(s, table, order) {
            Some(s2) => (s2, Ok((Page::Table, spec_order_list_html(s2.tables[table as int])))),
            None => (s, Err(ApiError::NotFound)),
        },
        RouteAction::AddOrder { table, menu } => if (table as int) < s.tables.len() {
            let s2 = spec_add(s, table, menu, now, DEFAULT_COOKING_SECS).0;
            (s2, Ok((Page::Table, spec_order_list_html(s2.tables[table as int]))))
        } else {
            (s, Err(ApiError::NotFound))
        },
        RouteAction::NotFound => (s, Err(ApiError::NotFound)),
        RouteAction::BadRequest => (s, Err(ApiError::BadRequest)),
    }
}

/// Executes one routing decision against the store and renders the result.
/// The timestamp an add stamps comes from the clock, so the contract binds
/// it existentially.
pub fn dispatch(store: &mut OrderStore, action: RouteAction) -> (r: Result<
    (Page, String),
    ApiError,
>)
    requires
        old(store).wf(),
        old(store)@.next_id < u64::MAX,
    ensures
        final(store).wf(),
        exists|tm: u64|
            #[trigger] spec_dispatch(old(store)@, action, tm) == (
                final(store)@,
                match r {
                    Ok((p, b)) => Ok::<(Page, Seq<char>), ApiError>((p, b@)),
                    Err(e) => Err::<(Page, Seq<char>), ApiError>(e),
                },
            ),
{
    match action {
        RouteAction::Landing => {
            let r = Ok((Page::Index, String::new()));
            proof {
                assert(spec_dispatch(old(store)@, action, 0) == (
                    store@,
                    Ok::<(Page, Seq<char>), ApiError>((Page::Index, Seq::<char>::empty())),
                ));
            }
            r
        },
        RouteAction::ListOrders { table } => match store.list_orders(table) {
            Ok(v) => {
                let body = get_order_list_html(&v);
                proof {
                    assert(spec_dispatch(old(store)@, action, 0) == (
                        store@,
                        Ok::<(Page, Seq<char>), ApiError>((Page::Table, body@)),
                    ));
                }
                Ok((Page::Table, body))
            },
            Err(_) => {
                proof {
                    assert(spec_dispatch(old(store)@, action, 0) == (
                        store@,
                        Err::<(Page, Seq<char>), ApiError>(ApiError::NotFound),
                    ));
                }
                Err(ApiError::NotFound)
            },
        },
        RouteAction::GetOrder { table, order } => match store.get_order(table, order) {
            Ok(o) => {
                let body = get_order_html(&o);
                proof {
                    assert(spec_dispatch(old(store)@, action, 0) == (
                        store@,
                        Ok::<(Page, Seq<char>), ApiError>((Page::Table, body@)),
                    ));
                }
                Ok((Page::Table, body))
            },
            Err(_) => {
                proof {
                    assert(spec_dispatch(old(store)@, action, 0) == (
                        store@,
                        Err::<(Page, Seq<char>), ApiError>(ApiError::NotFound),
                    ));
                }
                Err(ApiError::NotFound)
            },
        },
        RouteAction::DeleteOrder { table, order } => match store.delete_order(table, order) {
            Ok(_) => match store.list_orders(table) {
                Ok(v) => {
                    let body = get_order_list_html(&v);
                    proof {
                        assert(spec_dispatch(old(store)@, action, 0) == (
                            store@,
                            Ok::<(Page, Seq<char>), ApiError>((Page::Table, body@)),
                        ));
                    }
                    Ok((Page::Table, body))
                },
                Err(_) => {
                    proof {
                        assert(false);
                    }
                    Err(ApiError::NotFound)
                },
            },
            Err(_) => {
                proof {
                    assert(spec_dispatch(old(store)@, action, 0) == (
                        store@,
                        Err::<(Page, Seq<char>), ApiError>(ApiError::NotFound),
                    ));
                }
                Err(ApiError::NotFound)
            },
        },
        RouteAction::AddOrder { table, menu } => match store.add_order(
            table,
            menu,
            DEFAULT_COOKING_SECS,
        ) {
            Ok(o) => match store.list_orders(table) {
                Ok(v) => {
                    let body = get_order_list_html(&v);
                    proof {
                        assert(spec_dispatch(old(store)@, action, o.order_time) == (
                            store@,
                            Ok::<(Page, Seq<char>), ApiError>((Page::Table, body@)),
                        ));
                    }
                    Ok((Page::Table, body))
                },
                Err(_) => {
                    proof {
                        assert(false);
                    }
                    Err(ApiError::NotFound)
                },
            },
            Err(_) => {
                proof {
                    assert(spec_dispatch(old(store)@, action, 0) == (
                        store@,
                        Err::<(Page, Seq<char>), ApiError>(ApiError::NotFound),
                    ));
                }
                Err(ApiError::NotFound)
            },
        },
        RouteAction::NotFound => {
            proof {
                assert(spec_dispatch(old(store)@, action, 0) == (
                    store@,
                    Err::<(Page, Seq<char>), ApiError>(ApiError::NotFound),
                ));
            }
            Err(ApiError::NotFound)
        },
        RouteAction::BadRequest => {
            proof {
                assert(spec_dispatch(old(store)@, action, 0) == (
                    store@,
                    Err::<(Page, Seq<char>), ApiError>(ApiError::BadRequest),
                ));
            }
            Err(ApiError::BadRequest)
        },
    }
}


/// One request handled end to end against a store whose clock reads `now`:
/// the next store state, and the status line, page file and body handed
/// back for transmission. Router and store errors both surface as the
/// not-found page, as the error-propagation policy maps them.
pub open spec fn spec_handle(s: StoreModel, method: Seq<char>, path: Seq<char>, now: u64) -> (
    StoreModel,
    (Seq<char>, Seq<char>, Seq<char>),
) {
    let (s2, res) = spec_dispatch(s, spec_route(method, path), now);
    match res {
        Ok((p, body)) => (s2, ("HTTP/1.1 200 OK"@, page_file(p), body)),
        Err(_) => (s2, ("HTTP/1.1 404 NOT FOUND"@, "404.html"@, Seq::<char>::empty())),
    }
}

/// Routes one parsed request and executes it: returns the status line, the
/// page file to embed into, and the rendered body.
pub fn handle_request(store: &mut OrderStore, method: &str, path: &str) -> (r: (
    &'static str,
    &'static str,
    String,
))
    requires
        old(store).wf(),
        old(store)@.next_id < u64::MAX,
    ensures
        final(store).wf(),
        exists|tm: u64|
            #[trigger] spec_handle(old(store)@, method@, path@, tm) == (
                final(store)@,
                (r.0@, r.1@, r.2@),
            ),
{
    let action = route(method, path);
    let out = dispatch(store, action);
    proof {
        let tm = choose|tm: u64|
            #[trigger] spec_dispatch(old(store)@, action, tm) == (
                store@,
                match out {
                    Ok((p, b)) => Ok::<(Page, Seq<char>), ApiError>((p, b@)),
                    Err(e) => Err::<(Page, Seq<char>), ApiError>(e),
                },
            );
        assert(spec_dispatch(old(store)@, action, tm) == (
            store@,
            match out {
                Ok((p, b)) => Ok::<(Page, Seq<char>), ApiError>((p, b@)),
                Err(e) => Err::<(Page, Seq<char>), ApiError>(e),
            },
        ));
        match out {
            Ok((p, ref b)) => {
                assert(spec_handle(old(store)@, method@, path@, tm) == (
                    store@,
                    ("HTTP/1.1 200 OK"@, page_file(p), b@),
                ));
            },
            Err(_) => {
                assert(spec_handle(old(store)@, method@, path@, tm) == (
                    store@,
                    ("HTTP/1.1 404 NOT FOUND"@, "404.html"@, Seq::<char>::empty()),
                ));
            },
        }
    }
    match out {
        Ok((page, body)) => ("HTTP/1.1 200 OK", page.file_name(), body),
        Err(_) => ("HTTP/1.1 404 NOT FOUND", "404.html", String::new()),
    }
}

/// What httparse extracts from a request head: the request line's method
/// and path, a function of the bytes alone; nothing when the head is
/// malformed or incomplete.
pub uninterp spec fn parsed_request(bytes: Seq<u8>) -> Option<(Seq<char>, Seq<char>)>;

/// Relies on `httparse::Request::parse`: deterministic over the buffer, it
/// fills in the request line's method and path when the head parses.
#[verifier::external_body]
fn parse_request(buffer: &[u8]) -> (r: Option<(String, String)>)
    ensures
        match r {
            Some(mp) => parsed_request(buffer@) == Some((mp.0@, mp.1@)),
            None => parsed_request(buffer@) is None,
        },
{
    let mut headers = [httparse::EMPTY_HEADER; 64];
    let mut req = httparse::Request::new(&mut headers);
    match req.parse(buffer) {
        Ok(_) => match (req.method, req.path) {
            (Some(m), Some(p)) => Some((m.to_string(), p.to_string())),
            _ => None,
        },
        Err(_) => None,
    }
}

/// One raw request head handled against a store whose clock reads `now`: a
/// head that parses is handled by the routing table, one that does not gets
/// the not-found page with the store untouched.
pub open spec fn spec_handle_buffer(s: StoreModel, bytes: Seq<u8>, now: u64) -> (
    StoreModel,
    (Seq<char>, Seq<char>, Seq<char>),
) {
    match parsed_request(bytes) {
        Some(mp) => spec_handle(s, mp.0, mp.1, now),
        None => (s, ("HTTP/1.1 404 NOT FOUND"@, "404.html"@, Seq::<char>::empty())),
    }
}

/// Handles one raw request head: parse, route, execute, render.
pub fn handle_buffer(store: &mut OrderStore, buffer: &[u8]) -> (r: (
    &'static str,
    &'static str,
    String,
))
    requires
        old(store).wf(),
        old(store)@.next_id < u64::MAX,
    ensures
        final(store).wf(),
        exists|tm: u64|
            #[trigger] spec_handle_buffer(old(store)@, buffer@, tm) == (
                final(store)@,
                (r.0@, r.1@, r.2@),
            ),
{
    match parse_request(buffer) {
        Some((m, p)) => {
            let r = handle_request(store, m.as_str(), p.as_str());
            proof {
                let tm = choose|tm: u64|
                    #[trigger] spec_handle(old(store)@, m@, p@, tm) == (
                        store@,
                        (r.0@, r.1@, r.2@),
                    );
                assert(spec_handle_buffer(old(store)@, buffer@, tm) == (
                    store@,
                    (r.0@, r.1@, r.2@),
                ));
            }
            r
        },
        None => {
            proof {
                assert(spec_handle_buffer(old(store)@, buffer@, 0) == (
                    store@,
                    ("HTTP/1.1 404 NOT FOUND"@, "404.html"@, Seq::<char>::empty()),
                ));
            }
            ("HTTP/1.1 404 NOT FOUND", "404.html", String::new())
        },
    }
}

} // verus!
