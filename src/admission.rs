use crate::addr::{extract_addr, extracted, IpAddress};
use crate::rate_limit::{
    global_limit_reason,
    per_ip_limit_reason,
    InMemoryRateLimit,
    RateLimitError,
    Ticket,
};
use vstd::prelude::*;
use vstd::string::*;

verus! {

pub const STATUS_UNAUTHORIZED: u16 = 401;

pub const STATUS_TOO_MANY_REQUESTS: u16 = 429;

/// The longest key shown whole in telemetry.
pub const KEY_LABEL_CHARS: usize = 8;

pub open spec fn key_required_message() -> Seq<char> {
    "API key required"@
}

pub open spec fn invalid_key_message() -> Seq<char> {
    "Invalid API key"@
}

pub open spec fn opt_view(key: Option<&str>) -> Option<Seq<char>> {
    match key {
        Some(k) => Some(k@),
        None => None,
    }
}

pub open spec fn keys_view(keys: Seq<String>) -> Seq<Seq<char>> {
    keys.map_values(|k: String| k@)
}

/// Why a request was refused before rate limiting: `None` when the key
/// policy lets it through. An empty key list lets every request through.
pub open spec fn auth_refusal(keys: Seq<Seq<char>>, key: Option<Seq<char>>) -> Option<Seq<char>> {
    if keys.len() == 0 {
        None
    } else {
        match key {
            None => Some(key_required_message()),
            Some(k) => if keys.contains(k) {
                None
            } else {
                Some(invalid_key_message())
            },
        }
    }
}

/// The telemetry label of a key: `none` without one, the key itself when it
/// is short, else its first characters followed by an ellipsis.
pub open spec fn key_label_spec(key: Option<Seq<char>>) -> Seq<char> {
    match key {
        None => "none"@,
        Some(k) => if k.len() <= KEY_LABEL_CHARS {
            k
        } else {
            k.subrange(0, KEY_LABEL_CHARS as int) + "..."@
        },
    }
}

/// The address a request is attributed to: the peer address, unless the
/// forwarding header is present and ends in an address.
pub open spec fn client_ip_spec(header: Option<Seq<char>>, peer: IpAddress) -> IpAddress {
    match header {
        None => peer,
        Some(h) => extracted(h, peer),
    }
}

/// Why an upgrade request was refused: an HTTP status and a message.
#[derive(Debug)]
pub struct Rejection {
    pub status: u16,
    pub message: String,
}

/// An admitted client: where it comes from, its reservation, and its key label.
#[derive(Debug)]
pub struct Admission {
    pub client: IpAddress,
    pub ticket: Ticket,
    pub key_label: String,
}

/// Whether `key` passes the key policy of `api_keys`; the error is the
/// message of the refusal.
pub fn authorize(api_keys: &Vec<String>, key: Option<&str>) -> (r: Result<(), String>)
    ensures
        auth_refusal(keys_view(api_keys@), opt_view(key)) == None::<Seq<char>> ==> r is Ok,
        auth_refusal(keys_view(api_keys@), opt_view(key)) matches Some(m) ==> (r matches Err(
            e,
        ) && e@ == m),
{
    let ghost kv = keys_view(api_keys@);
    if api_keys.len() == 0 {
        return Ok(());
    }
    match key {
        None => Err(String::from_str("API key required")),
        Some(k) => {
            let wanted = String::from_str(k);
            let n = api_keys.len();
            let mut i: usize = 0;
            while i < n
                invariant
                    n == api_keys@.len(),
                    kv == keys_view(api_keys@),
                    wanted@ == k@,
                    key == Some(k),
                    n > 0,
                    i <= n,
                    forall|j: int| 0 <= j < i ==> kv[j] != k@,
                decreases n - i,
            {
                if api_keys[i] == wanted {
                    assert(kv[i as int] == k@);
                    assert(kv.contains(k@));
                    return Ok(());
                }
                i = i + 1;
            }
            assert(!kv.contains(k@));
            Err(String::from_str("Invalid API key"))
        },
    }
}

/// The label under which an admitted connection is counted.
pub fn key_label(key: Option<&str>) -> (r: String)
    ensures
        r@ == key_label_spec(opt_view(key)),
{
    match key {
        None => String::from_str("none"),
        Some(k) => {
            if k.unicode_len() <= KEY_LABEL_CHARS {
                String::from_str(k)
            } else {
                let head = String::from_str(k.substring_char(0, KEY_LABEL_CHARS));
                head.concat("...")
            }
        },
    }
}

/// The address a request is attributed to.
pub fn client_ip(header: Option<&str>, peer: IpAddress) -> (r: IpAddress)
    ensures
        r == client_ip_spec(opt_view(header), peer),
{
    match header {
        None => peer,
        Some(h) => extract_addr(h, peer),
    }
}

/// Decides an upgrade request: the key policy first, then the address the
/// request is attributed to, then a reservation with the rate limiter.
pub fn decide_upgrade(
    limiter: &mut InMemoryRateLimit,
    api_keys: &Vec<String>,
    key: Option<&str>,
    header: Option<&str>,
    peer: IpAddress,
) -> (r: Result<Admission, Rejection>)
    requires
        old(limiter).wf(),
    ensures
        final(limiter).wf(),
        ({
            let refusal = auth_refusal(keys_view(api_keys@), opt_view(key));
            let ip = client_ip_spec(opt_view(header), peer);
            let l = old(limiter);
            if refusal is Some {
                (r matches Err(e) && e.status == STATUS_UNAUTHORIZED && e.message@
                    == refusal->0) && *final(limiter) == *l
            } else if l.active() >= l.spec_global_limit() {
                (r matches Err(e) && e.status == STATUS_TOO_MANY_REQUESTS && e.message@
                    == global_limit_reason()) && *final(limiter) == *l
            } else if l.count(ip) >= l.spec_per_ip_limit() {
                (r matches Err(e) && e.status == STATUS_TOO_MANY_REQUESTS && e.message@
                    == per_ip_limit_reason()) && *final(limiter) == *l
            } else {
                (r matches Ok(a) && a.client == ip && a.ticket.ip == ip && a.key_label@
                    == key_label_spec(opt_view(key))) && InMemoryRateLimit::one_more(
                    l,
                    final(limiter),
                    ip,
                )
            }
        }),
{
    match authorize(api_keys, key) {
        Err(message) => {
            return Err(Rejection { status: STATUS_UNAUTHORIZED, message });
        },
        Ok(()) => {},
    }
    let ip = client_ip(header, peer);
    match limiter.try_acquire(ip) {
        Err(RateLimitError::Limit { reason }) => Err(
            Rejection { status: STATUS_TOO_MANY_REQUESTS, message: reason },
        ),
        Ok(ticket) => Ok(Admission { client: ip, ticket, key_label: key_label(key) }),
    }
}

} // verus!
