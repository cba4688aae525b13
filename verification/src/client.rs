//! Request construction for the grid's REST interface.
//!
//! Every operation on a remote queue or map is one HTTP exchange.  The client
//! holds only the target address; each method builds the full request — verb,
//! URL and optional body — for one operation, exactly as the wire protocol
//! lays it out under the fixed `/hazelcast/rest/` prefix.  Performing the
//! exchange and reading the response body back is the transport's business,
//! not this module's: on success the server's body is the operation's result,
//! and a transport failure is handed to the caller unchanged.

use vstd::prelude::*;

use crate::digits::int_dec_str;
use crate::digits::i32_to_decimal;

verus! {

/// The HTTP verb of a request.
#[derive(Clone, Copy, PartialEq, Eq, Structural, Debug)]
pub enum Method {
    Get,
    Post,
    Delete,
}

/// One fully-built HTTP request: verb, URL, and body for the operations that
/// send one.
pub struct RestRequest {
    pub method: Method,
    pub url: String,
    pub body: Option<String>,
}

/// A client of one grid server, holding the address verbatim as given.
pub struct HazelcastRestClient {
    pub ip_address: String,
    pub port: String,
}

/// A character that would alter URL path segmentation or request framing if
/// it stood unescaped inside a path segment.
pub open spec fn forbidden_path_char(c: char) -> bool {
    c == '/' || c == '?' || c == '#' || c == ' '
}

/// A path-safe identifier: non-empty and free of the characters that would
/// alter path segmentation when concatenated unescaped.  The builders place
/// names into URLs verbatim — the wire protocol performs no escaping — so
/// callers are responsible for offering only path-safe queue, map and key
/// names; this predicate is that responsibility, stated.
pub open spec fn path_safe(s: Seq<char>) -> bool {
    s.len() > 0 && forall|i: int| 0 <= i < s.len() ==> !forbidden_path_char(s[i])
}

/// Decides path-safety of a name, exactly as `path_safe` states it.
pub fn is_path_safe(name: &str) -> (r: bool)
    ensures
        r == path_safe(name@),
{
    let len = name.unicode_len();
    if len == 0 {
        return false;
    }
    let mut i: usize = 0;
    while i < len
        invariant
            len == name@.len(),
            i <= len,
            forall|j: int| 0 <= j < i ==> !forbidden_path_char(name@[j]),
        decreases len - i,
    {
        let c = name.get_char(i);
        if c == '/' || c == '?' || c == '#' || c == ' ' {
            return false;
        }
        i += 1;
    }
    true
}

/// The URL prefix shared by every operation against a given server.
pub open spec fn url_prefix(host: Seq<char>, port: Seq<char>) -> Seq<char> {
    "http://"@ + host + ":"@ + port + "/hazelcast/rest/"@
}

/// The URL of a named queue.
pub open spec fn queue_url(host: Seq<char>, port: Seq<char>, queue: Seq<char>) -> Seq<char> {
    url_prefix(host, port) + "queues/"@ + queue
}

/// The URL that polls a named queue with a timeout in seconds.
pub open spec fn queue_poll_url(
    host: Seq<char>,
    port: Seq<char>,
    queue: Seq<char>,
    timeout: int,
) -> Seq<char> {
    queue_url(host, port, queue) + "/"@ + int_dec_str(timeout)
}

/// The URL that asks for a named queue's size.
pub open spec fn queue_size_url(host: Seq<char>, port: Seq<char>, queue: Seq<char>) -> Seq<char> {
    queue_url(host, port, queue) + "/size"@
}

/// The URL of a named map.
pub open spec fn map_url(host: Seq<char>, port: Seq<char>, map: Seq<char>) -> Seq<char> {
    url_prefix(host, port) + "maps/"@ + map
}

/// The URL of one key of a named map.
pub open spec fn map_entry_url(
    host: Seq<char>,
    port: Seq<char>,
    map: Seq<char>,
    key: Seq<char>,
) -> Seq<char> {
    map_url(host, port, map) + "/"@ + key
}

impl HazelcastRestClient {
    /// Creates a client for the given address and port.  The address is
    /// stored verbatim: no resolution, no validation, no I/O.
    pub fn new(ip_address: &str, port: &str) -> (c: HazelcastRestClient)
        ensures
            c.ip_address@ == ip_address@,
            c.port@ == port@,
    {
        HazelcastRestClient { ip_address: ip_address.to_owned(), port: port.to_owned() }
    }

    /// The shared URL prefix for this client's server.
    fn base_url(&self) -> (r: String)
        ensures
            r@ == url_prefix(self.ip_address@, self.port@),
    {
        let mut s = String::from_str("http://");
        s.append(self.ip_address.as_str());
        s.append(":");
        s.append(self.port.as_str());
        s.append("/hazelcast/rest/");
        proof {
            assert(s@ =~= url_prefix(self.ip_address@, self.port@));
        }
        s
    }

    /// The request that offers `value` at the tail of the named queue:
    /// a POST to the queue's URL whose body is the value itself.
    pub fn queue_offer(&self, queue_name: &str, value: &str) -> (r: RestRequest)
        ensures
            r.method == Method::Post,
            r.url@ == queue_url(self.ip_address@, self.port@, queue_name@),
            r.body matches Some(b) && b@ == value@,
    {
        let mut url = self.base_url();
        url.append("queues/");
        url.append(queue_name);
        proof {
            assert(url@ =~= queue_url(self.ip_address@, self.port@, queue_name@));
        }
        RestRequest { method: Method::Post, url, body: Some(value.to_owned()) }
    }

    /// The request that polls the head of the named queue, waiting on the
    /// server for at most `timeout` seconds: a DELETE with no body.  The
    /// response body is the polled element, or empty when none arrived in
    /// time.
    pub fn queue_delete(&self, queue_name: &str, timeout: i32) -> (r: RestRequest)
        ensures
            r.method == Method::Delete,
            r.url@ == queue_poll_url(self.ip_address@, self.port@, queue_name@, timeout as int),
            r.body is None,
    {
        let mut url = self.base_url();
        url.append("queues/");
        url.append(queue_name);
        url.append("/");
        url.append(i32_to_decimal(timeout).as_str());
        proof {
            assert(url@ =~= queue_poll_url(
                self.ip_address@,
                self.port@,
                queue_name@,
                timeout as int,
            ));
        }
        RestRequest { method: Method::Delete, url, body: None }
    }

    /// The request that asks for the named queue's size: a GET with no body.
    /// The response body is the size as a decimal string.
    pub fn queue_size(&self, queue_name: &str) -> (r: RestRequest)
        ensures
            r.method == Method::Get,
            r.url@ == queue_size_url(self.ip_address@, self.port@, queue_name@),
            r.body is None,
    {
        let mut url = self.base_url();
        url.append("queues/");
        url.append(queue_name);
        url.append("/size");
        proof {
            assert(url@ =~= queue_size_url(self.ip_address@, self.port@, queue_name@));
        }
        RestRequest { method: Method::Get, url, body: None }
    }

    /// The request that binds `key_name` to `value` in the named map,
    /// overwriting any earlier binding: a POST to the entry's URL whose body
    /// is the value itself.
    pub fn map_put(&self, map_name: &str, key_name: &str, value: &str) -> (r: RestRequest)
        ensures
            r.method == Method::Post,
            r.url@ == map_entry_url(self.ip_address@, self.port@, map_name@, key_name@),
            r.body matches Some(b) && b@ == value@,
    {
        let url = self.entry_url(map_name, key_name);
        RestRequest { method: Method::Post, url, body: Some(value.to_owned()) }
    }

    /// The request that reads the value bound to `key_name` in the named map:
    /// a GET with no body.  The response body is the value, or empty when the
    /// key is absent.
    pub fn map_get(&self, map_name: &str, key_name: &str) -> (r: RestRequest)
        ensures
            r.method == Method::Get,
            r.url@ == map_entry_url(self.ip_address@, self.port@, map_name@, key_name@),
            r.body is None,
    {
        let url = self.entry_url(map_name, key_name);
        RestRequest { method: Method::Get, url, body: None }
    }

    /// The request that removes `key_name` from the named map: a DELETE with
    /// no body.
    pub fn map_remove(&self, map_name: &str, key_name: &str) -> (r: RestRequest)
        ensures
            r.method == Method::Delete,
            r.url@ == map_entry_url(self.ip_address@, self.port@, map_name@, key_name@),
            r.body is None,
    {
        let url = self.entry_url(map_name, key_name);
        RestRequest { method: Method::Delete, url, body: None }
    }

    /// The request that removes every entry of the named map: a DELETE on the
    /// map's own URL.
    pub fn map_remove_all(&self, map_name: &str) -> (r: RestRequest)
        ensures
            r.method == Method::Delete,
            r.url@ == map_url(self.ip_address@, self.port@, map_name@),
            r.body is None,
    {
        let mut url = self.base_url();
        url.append("maps/");
        url.append(map_name);
        proof {
            assert(url@ =~= map_url(self.ip_address@, self.port@, map_name@));
        }
        RestRequest { method: Method::Delete, url, body: None }
    }

    /// The URL of one key of a named map, shared by put, get and remove.
    fn entry_url(&self, map_name: &str, key_name: &str) -> (r: String)
        ensures
            r@ == map_entry_url(self.ip_address@, self.port@, map_name@, key_name@),
    {
        let mut url = self.base_url();
        url.append("maps/");
        url.append(map_name);
        url.append("/");
        url.append(key_name);
        proof {
            assert(url@ =~= map_entry_url(self.ip_address@, self.port@, map_name@, key_name@));
        }
        url
    }
}

} // verus!

