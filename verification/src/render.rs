//! Renders the HTML fragments and the HTTP response text the server sends
//! back: an order-list fragment, a single-order fragment, and the framed
//! response with its `Content-Length` header.

use vstd::prelude::*;
use vstd::string::StringExecFns;
use vstd::string::StrSliceExecFns;
use crate::numfmt::{dec_digits, u64_to_string};
use crate::order::OrderItem;
use crate::timefmt::{
    duration_display_of, format_cooking_time, format_order_time, time_display_of,
};

verus! {

/// One rendered entry, carrying every field of the order in reading order.
pub open spec fn spec_order_line(o: OrderItem) -> Seq<char> {
    "\r\n\t\t\t<li>Order ID: "@ + dec_digits(o.id as nat) + " - Order Table Number: "@
        + dec_digits(o.table_number as nat) + " - Order Menu Reference: "@ + dec_digits(
        o.menu_reference as nat,
    ) + " - Order Time: "@ + time_display_of(o.order_time) + " - Cooking Duration: "@
        + duration_display_of(o.cooking_time) + "</li>"@
}

/// The entries of a listing, in the same order as the orders.
pub open spec fn spec_lines(orders: Seq<OrderItem>) -> Seq<char>
    decreases orders.len(),
{
    if orders.len() == 0 {
        Seq::<char>::empty()
    } else {
        spec_lines(orders.drop_last()) + spec_order_line(orders.last())
    }
}

/// The order-list fragment: all entries between one pair of list tags.
pub open spec fn spec_order_list_html(orders: Seq<OrderItem>) -> Seq<char> {
    "<ul>"@ + spec_lines(orders) + "\r\n\t\t</ul>"@
}

/// The single-order fragment: one entry between the same tags.
pub open spec fn spec_order_html(o: OrderItem) -> Seq<char> {
    "<ul>"@ + spec_order_line(o) + "\r\n\t\t</ul>"@
}

fn push_order_line(html: &mut String, o: &OrderItem)
    ensures
        final(html)@ == old(html)@ + spec_order_line(*o),
{
    html.append("\r\n\t\t\t<li>Order ID: ");
    html.append(u64_to_string(o.id).as_str());
    html.append(" - Order Table Number: ");
    html.append(u64_to_string(o.table_number).as_str());
    html.append(" - Order Menu Reference: ");
    html.append(u64_to_string(o.menu_reference).as_str());
    html.append(" - Order Time: ");
    html.append(format_order_time(o.order_time).as_str());
    html.append(" - Cooking Duration: ");
    html.append(format_cooking_time(o.cooking_time).as_str());
    html.append("</li>");
    proof {
        assert(html@ =~= old(html)@ + spec_order_line(*o));
    }
}

/// Renders the order-list fragment, entries in the order given (insertion
/// order, when the orders come from a listing).
pub fn get_order_list_html(orders: &Vec<OrderItem>) -> (html: String)
    ensures
        html@ == spec_order_list_html(orders@),
{
    let mut html = String::from_str("<ul>");
    let n = orders.len();
    let mut i: usize = 0;
    proof {
        assert(orders@.subrange(0, 0) =~= Seq::<OrderItem>::empty());
        assert(html@ =~= "<ul>"@ + spec_lines(orders@.subrange(0, 0)));
    }
    while i < n
        invariant
            i <= n,
            n == orders@.len(),
            html@ == "<ul>"@ + spec_lines(orders@.subrange(0, i as int)),
        decreases n - i,
    {
        let o = orders[i];
        push_order_line(&mut html, &o);
        proof {
            assert(orders@.subrange(0, i as int + 1).drop_last() =~= orders@.subrange(0, i as int));
            assert(orders@.subrange(0, i as int + 1).last() == orders@[i as int]);
            assert(html@ =~= "<ul>"@ + spec_lines(orders@.subrange(0, i as int + 1)));
        }
        i += 1;
    }
    proof {
        assert(orders@.subrange(0, n as int) =~= orders@);
    }
    html.append("\r\n\t\t</ul>");
    proof {
        assert(html@ =~= spec_order_list_html(orders@));
    }
    html
}

/// Renders the single-order fragment.
pub fn get_order_html(order: &OrderItem) -> (html: String)
    ensures
        html@ == spec_order_html(*order),
{
    let mut html = String::from_str("<ul>");
    push_order_line(&mut html, order);
    html.append("\r\n\t\t</ul>");
    proof {
        assert(html@ =~= spec_order_html(*order));
    }
    html
}

/// The byte count that goes into `Content-Length`: the length of the UTF-8
/// encoding of the body, as the machine's `len` reports it.
pub open spec fn spec_content_length(contents: Seq<char>) -> nat {
    (vstd::utf8::encode_utf8(contents).len() as usize) as nat
}

/// The full response text: status line, `Content-Length` header, blank
/// line, body.
pub open spec fn spec_response(status_line: Seq<char>, contents: Seq<char>) -> Seq<char> {
    status_line + "\r\nContent-Length: "@ + dec_digits(spec_content_length(contents)) + "\r\n\r\n"@
        + contents
}

/// Frames a body under a status line, with the body's byte count as
/// `Content-Length`.
pub fn build_response_string(status_line: String, contents: String) -> (r: String)
    ensures
        r@ == spec_response(status_line@, contents@),
{
    let ghost status_view = status_line@;
    let mut r = status_line;
    r.append("\r\nContent-Length: ");
    let byte_count = contents.as_str().len();
    r.append(u64_to_string(byte_count as u64).as_str());
    r.append("\r\n\r\n");
    r.append(contents.as_str());
    proof {
        assert(r@ =~= spec_response(status_view, contents@));
    }
    r
}

} // verus!
