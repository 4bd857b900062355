//! Guest checkout: the decisions around the browser runner that holds the
//! seats. The runner itself is started and read by the application.
use vstd::prelude::*;

use crate::domain::texts;
use crate::recommendation::CheckoutHandoffV1;
use crate::text::{compare_text, owned, trim, trim_text};

verus! {

/// What the browser runner reports.
#[derive(Clone, Debug)]
pub struct BrowserCheckoutResult {
    pub status: String,
    pub checkout_url: String,
    pub selected_seats: Vec<String>,
    pub hold_expires_approx_seconds: u64,
    pub browser_session_required: bool,
}

/// The checkout answer printed as JSON.
#[derive(Clone, Debug)]
pub struct CheckoutResponseV1 {
    pub version: String,
    pub status: String,
    pub recommendation_id: String,
    pub venue: String,
    pub starts_at: String,
    pub checkout_url: String,
    pub selected_seats: Vec<String>,
    pub hold_expires_approx_seconds: u64,
    pub browser_session_required: bool,
}

pub open spec fn macos_only_message() -> Seq<char> {
    "el checkout Playwright está disponible inicialmente solo en macOS"@
}

/// The browser checkout runs on macOS only.
pub fn ensure_macos(on_macos: bool) -> (r: Result<(), String>)
    ensures
        on_macos <==> r is Ok,
        r matches Err(e) ==> e@ == macos_only_message(),
{
    if on_macos {
        Ok(())
    } else {
        Err(owned("el checkout Playwright está disponible inicialmente solo en macOS"))
    }
}

/// The error of a runner that did not succeed: what it wrote to standard
/// error, trimmed, or a generic message when that is blank.
pub open spec fn runner_failure_text(stderr: Seq<char>) -> Seq<char> {
    if trim_text(stderr).len() == 0 {
        "Playwright no pudo completar el checkout"@
    } else {
        trim_text(stderr)
    }
}

pub fn runner_failure(stderr: &str) -> (r: String)
    ensures
        r@ == runner_failure_text(stderr@),
{
    let message = trim(stderr);
    if message.as_str().is_empty() {
        owned("Playwright no pudo completar el checkout")
    } else {
        message
    }
}

fn same_texts(a: &Vec<String>, b: &Vec<String>) -> (r: bool)
    ensures
        r == (texts(a@) == texts(b@)),
{
    if a.len() != b.len() {
        proof {
            assert(texts(a@).len() != texts(b@).len());
        }
        return false;
    }
    let mut k: usize = 0;
    while k < a.len()
        invariant
            a.len() == b.len(),
            k <= a.len(),
            forall|m: int| 0 <= m < k ==> (#[trigger] a@[m])@ == b@[m]@,
        decreases a.len() - k,
    {
        if compare_text(a[k].as_str(), b[k].as_str()) != 0 {
            proof {
                assert(texts(a@)[k as int] != texts(b@)[k as int]);
            }
            return false;
        }
        k += 1;
    }
    proof {
        assert(texts(a@) =~= texts(b@));
    }
    true
}

/// The checkout answer: the runner's result for the recommendation, when it
/// confirmed exactly the seats that were revalidated, in the same order.
pub fn checkout_response(
    recommendation_id: String,
    venue: String,
    starts_at: String,
    handoff: &CheckoutHandoffV1,
    browser: BrowserCheckoutResult,
) -> (r: Result<CheckoutResponseV1, String>)
    ensures
        r is Ok <==> texts(browser.selected_seats@) == texts(handoff.selected_seat_labels@),
        r matches Err(e) ==> e@ == "Playwright no confirmó exactamente las butacas revalidadas"@,
        r matches Ok(c) ==> {
            &&& c.version@ == "v1"@
            &&& c.status == browser.status
            &&& c.recommendation_id == recommendation_id
            &&& c.venue == venue
            &&& c.starts_at == starts_at
            &&& c.checkout_url == browser.checkout_url
            &&& c.selected_seats == browser.selected_seats
            &&& c.hold_expires_approx_seconds == browser.hold_expires_approx_seconds
            &&& c.browser_session_required == browser.browser_session_required
        },
{
    if !same_texts(&browser.selected_seats, &handoff.selected_seat_labels) {
        return Err(owned("Playwright no confirmó exactamente las butacas revalidadas"));
    }
    Ok(
        CheckoutResponseV1 {
            version: owned("v1"),
            status: browser.status,
            recommendation_id,
            venue,
            starts_at,
            checkout_url: browser.checkout_url,
            selected_seats: browser.selected_seats,
            hold_expires_approx_seconds: browser.hold_expires_approx_seconds,
            browser_session_required: browser.browser_session_required,
        },
    )
}

} // verus!
