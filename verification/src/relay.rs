//! The HTTP relay: where a request goes, which headers travel, and what comes
//! back.

use vstd::prelude::*;

use crate::app_config::RelayTarget;
use crate::assoc_map::StringMap;
use crate::http_outcome;
use crate::ip;
use crate::ip::Ipv4Addr;
use crate::network_scanner;
use crate::network_scanner::{DeviceInfo, NetworkScanner};
use crate::outside;
use crate::outside::is_method;
use crate::reply;
use crate::reply::Reply;
use crate::text;
use crate::text::{
    chars_of, join3, join5, same_ignoring_case, same_text, string_of, to_lower, trim_end_of,
    write_decimal, CharClass,
};

verus! {

/// The named upstream targets.
pub struct RelayState {
    pub targets: StringMap<RelayTarget>,
}

impl RelayState {
    /// Relays to the given targets.
    pub fn new(targets: StringMap<RelayTarget>) -> (r: Self)
        ensures
            r.targets == targets,
    {
        RelayState { targets }
    }
}

// ---------------------------------------------------------------------------
// Headers
// ---------------------------------------------------------------------------
/// A header field.
#[derive(Debug)]
pub struct Header {
    pub name: String,
    pub value: Vec<u8>,
}

/// A header field as characters and bytes.
pub struct HeaderView {
    pub name: Seq<char>,
    pub value: Seq<u8>,
}

impl View for Header {
    type V = HeaderView;

    open spec fn view(&self) -> HeaderView {
        HeaderView { name: self.name@, value: self.value@ }
    }
}

/// Header fields as characters and bytes.
pub open spec fn fields(headers: Seq<Header>) -> Seq<HeaderView> {
    headers.map_values(|h: Header| h@)
}

/// A header that concerns one connection only and must not be forwarded.
pub open spec fn hop_by_hop(name: Seq<char>) -> bool {
    let n = text::lower(name);
    ||| n == "connection"@
    ||| n == "keep-alive"@
    ||| n == "proxy-authenticate"@
    ||| n == "proxy-authorization"@
    ||| n == "te"@
    ||| n == "trailers"@
    ||| n == "transfer-encoding"@
    ||| n == "upgrade"@
    ||| n == "host"@
    ||| n == "proxy-connection"@
}

/// Tells whether a header must not be forwarded between hops.
pub fn is_hop_by_hop(name: &str) -> (r: bool)
    ensures
        r == hop_by_hop(name@),
{
    let lowered = to_lower(name);
    let n = lowered.as_str();
    same_text(n, "connection") || same_text(n, "keep-alive") || same_text(n, "proxy-authenticate")
        || same_text(n, "proxy-authorization") || same_text(n, "te") || same_text(n, "trailers")
        || same_text(n, "transfer-encoding") || same_text(n, "upgrade") || same_text(n, "host")
        || same_text(n, "proxy-connection")
}

/// The headers of a request that are forwarded, in order.
pub open spec fn forwarded(headers: Seq<HeaderView>) -> Seq<HeaderView> {
    headers.filter(|h: HeaderView| !hop_by_hop(h.name))
}

/// A header of an upstream answer that is handed on. The body is streamed, so
/// the length that the target announced is not.
pub open spec fn handed_on(name: Seq<char>) -> bool {
    !hop_by_hop(name) && text::lower(name) != "content-length"@
}

/// Two spellings of one header name.
pub open spec fn same_name(a: Seq<char>, b: Seq<char>) -> bool {
    text::lower(a) == text::lower(b)
}

/// The headers that have another name.
pub open spec fn without(headers: Seq<HeaderView>, name: Seq<char>) -> Seq<HeaderView> {
    headers.filter(|h: HeaderView| !same_name(h.name, name))
}

/// The headers of an upstream answer that are handed on: of several with one
/// name, the last.
pub open spec fn returned(headers: Seq<HeaderView>) -> Seq<HeaderView>
    decreases headers.len(),
{
    if headers.len() == 0 {
        Seq::empty()
    } else {
        let before = returned(headers.drop_last());
        let h = headers.last();
        if handed_on(h.name) {
            without(before, h.name).push(h)
        } else {
            before
        }
    }
}

/// A copy of bytes.
fn copy_bytes(b: &Vec<u8>) -> (r: Vec<u8>)
    ensures
        r@ == b@,
{
    let mut out: Vec<u8> = Vec::new();
    out.extend_from_slice(b.as_slice());
    proof {
        assert(out@ =~= b@);
    }
    out
}

/// A copy of a header.
fn copy_header(h: &Header) -> (r: Header)
    ensures
        r@ == h@,
{
    Header { name: h.name.clone(), value: copy_bytes(&h.value) }
}

/// Selects the headers of a request that are forwarded.
pub fn forward_headers(headers: &Vec<Header>) -> (r: Vec<Header>)
    ensures
        fields(r@) == forwarded(fields(headers@)),
{
    let ghost all = fields(headers@);
    let ghost keep = |h: HeaderView| !hop_by_hop(h.name);
    let mut out: Vec<Header> = Vec::new();
    let mut i: usize = 0;
    proof {
        reveal(Seq::filter);
        assert(fields(out@) == all.take(0).filter(keep));
    }
    while i < headers.len()
        invariant
            i <= headers@.len(),
            all == fields(headers@),
            keep == (|h: HeaderView| !hop_by_hop(h.name)),
            fields(out@) == all.take(i as int).filter(keep),
        decreases headers.len() - i,
    {
        let ghost out0 = out@;
        proof {
            reveal(Seq::filter);
            assert(all.take(i + 1).drop_last() == all.take(i as int));
            assert(all.take(i + 1).last() == headers@[i as int]@);
        }
        if !is_hop_by_hop(headers[i].name.as_str()) {
            let h = copy_header(&headers[i]);
            out.push(h);
            proof {
                assert(fields(out@) == fields(out0).push(h@));
            }
        }
        i += 1;
    }
    proof {
        assert(all.take(all.len() as int) == all);
    }
    out
}

/// Drops the headers that have a name.
fn drop_name(headers: &Vec<Header>, name: &str) -> (r: Vec<Header>)
    ensures
        fields(r@) == without(fields(headers@), name@),
{
    let ghost all = fields(headers@);
    let ghost keep = |h: HeaderView| !same_name(h.name, name@);
    let mut out: Vec<Header> = Vec::new();
    let mut i: usize = 0;
    proof {
        reveal(Seq::filter);
        assert(fields(out@) == all.take(0).filter(keep));
    }
    while i < headers.len()
        invariant
            i <= headers@.len(),
            all == fields(headers@),
            keep == (|h: HeaderView| !same_name(h.name, name@)),
            fields(out@) == all.take(i as int).filter(keep),
        decreases headers.len() - i,
    {
        let ghost out0 = out@;
        proof {
            reveal(Seq::filter);
            assert(all.take(i + 1).drop_last() == all.take(i as int));
            assert(all.take(i + 1).last() == headers@[i as int]@);
        }
        if !same_ignoring_case(headers[i].name.as_str(), name) {
            let h = copy_header(&headers[i]);
            out.push(h);
            proof {
                assert(fields(out@) == fields(out0).push(h@));
            }
        }
        i += 1;
    }
    proof {
        assert(all.take(all.len() as int) == all);
    }
    out
}

/// Selects the headers of an upstream answer that are handed on.
pub fn return_headers(headers: &Vec<Header>) -> (r: Vec<Header>)
    ensures
        fields(r@) == returned(fields(headers@)),
{
    let ghost all = fields(headers@);
    let mut out: Vec<Header> = Vec::new();
    let mut i: usize = 0;
    proof {
        assert(fields(out@) == returned(all.take(0)));
    }
    while i < headers.len()
        invariant
            i <= headers@.len(),
            all == fields(headers@),
            fields(out@) == returned(all.take(i as int)),
        decreases headers.len() - i,
    {
        proof {
            assert(all.take(i + 1).drop_last() == all.take(i as int));
            assert(all.take(i + 1).last() == headers@[i as int]@);
        }
        let name = headers[i].name.as_str();
        let length = same_text(to_lower(name).as_str(), "content-length");
        if !is_hop_by_hop(name) && !length {
            let mut rest = drop_name(&out, name);
            let ghost rest0 = rest@;
            let h = copy_header(&headers[i]);
            rest.push(h);
            proof {
                assert(fields(rest@) == fields(rest0).push(h@));
            }
            out = rest;
        }
        i += 1;
    }
    proof {
        assert(all.take(all.len() as int) == all);
    }
    out
}

// ---------------------------------------------------------------------------
// The upstream request
// ---------------------------------------------------------------------------
/// The base URL of a service at an address and port.
pub open spec fn address_url(address: Ipv4Addr, port: u16) -> Seq<char> {
    "http://"@ + ip::dotted(address) + ":"@ + text::decimal(port as nat)
}

/// Writes the base URL of a service at an address and port.
pub fn write_address_url(address: &Ipv4Addr, port: u16) -> (r: String)
    ensures
        r@ == address_url(*address, port),
{
    let mut s = join3("http://", address.to_text().as_str(), ":");
    s.append(write_decimal(port as u64).as_str());
    s
}

/// The base URL of a target can be told: it is fixed, or the device is on the
/// network.
pub open spec fn resolvable(target: RelayTarget, devices: Map<Ipv4Addr, DeviceInfo>) -> bool {
    match target {
        RelayTarget::Mac { mac, .. } => network_scanner::on_network(devices, mac@),
        _ => true,
    }
}

/// A base URL of a target: the fixed URL without trailing slashes, or the
/// current address of the device with the port.
pub open spec fn is_base_url(
    target: RelayTarget,
    devices: Map<Ipv4Addr, DeviceInfo>,
    url: Seq<char>,
) -> bool {
    match target {
        RelayTarget::Static(u) => url == text::trim_end(u@, CharClass::Only('/')),
        RelayTarget::StaticManaged { url: u, .. } => url == text::trim_end(
            u@,
            CharClass::Only('/'),
        ),
        RelayTarget::Mac { mac, port, .. } => exists|address: Ipv4Addr| #[trigger]
            network_scanner::is_address_of(devices, mac@, address) && url == address_url(
                address,
                port,
            ),
    }
}

/// Finds the base URL of a target, if it can be told.
pub fn base_url(target: &RelayTarget, scanner: &NetworkScanner) -> (r: Option<String>)
    ensures
        match r {
            Some(url) => is_base_url(*target, scanner.devices(), url@),
            None => !resolvable(*target, scanner.devices()),
        },
{
    match target {
        RelayTarget::Static(url) => Some(
            string_of(&trim_end_of(&chars_of(url.as_str()), &CharClass::Only('/'))),
        ),
        RelayTarget::StaticManaged { url, .. } => Some(
            string_of(&trim_end_of(&chars_of(url.as_str()), &CharClass::Only('/'))),
        ),
        RelayTarget::Mac { mac, port, .. } => match scanner.get_ip_by_mac(mac.as_str()) {
            Some(address) => Some(write_address_url(&address, *port)),
            None => None,
        },
    }
}

/// Text after a mark; nothing where the text is empty.
pub open spec fn marked(mark: Seq<char>, s: Seq<char>) -> Seq<char> {
    if s.len() == 0 {
        Seq::empty()
    } else {
        mark + s
    }
}

/// The URL of a request upstream: base, path and query.
pub open spec fn upstream_url(base: Seq<char>, sub_path: Seq<char>, query: Seq<char>) -> Seq<char> {
    base + marked("/"@, sub_path) + marked("?"@, query)
}

/// Builds the URL of a request upstream.
pub fn build_upstream_url(base: &str, sub_path: &str, query: &str) -> (r: String)
    ensures
        r@ == upstream_url(base@, sub_path@, query@),
{
    let mut s = base.to_owned();
    if !sub_path.is_empty() {
        s.append("/");
        s.append(sub_path);
    }
    proof {
        assert(s@ == base@ + marked("/"@, sub_path@));
    }
    if !query.is_empty() {
        s.append("?");
        s.append(query);
    }
    proof {
        assert(s@ == upstream_url(base@, sub_path@, query@));
    }
    s
}

/// A request to send upstream.
#[derive(Debug)]
pub struct UpstreamRequest {
    pub method: String,
    pub url: String,
    pub headers: Vec<Header>,
    pub body: Vec<u8>,
}

/// What to do with a request to the relay.
#[derive(Debug)]
pub enum ProxyStep {
    /// Answer without asking upstream.
    Answer(Reply),
    /// Collect the body and send the request upstream.
    Forward(UpstreamRequest),
}

/// A method that can be sent upstream.
pub open spec fn valid_method(method: Seq<char>) -> bool {
    let b = vstd::utf8::encode_utf8(method);
    b.len() > 0 && forall|i: int| 0 <= i < b.len() ==> outside::is_method_byte(#[trigger] b[i])
}

/// The answer for a name that no target has.
pub open spec fn unknown_target(name: Seq<char>) -> Seq<char> {
    "Unknown relay target: '"@ + name + "'"@
}

/// The answer for a device that is not on the network.
pub open spec fn not_found(name: Seq<char>, mac: Seq<char>) -> Seq<char> {
    "Target '"@ + name + "': MAC "@ + mac
        + " not found on the network (scan may still be running)"@
}

/// What is done with a request to a target: it is answered for a name that no
/// target has, for a device that is not on the network and for a method that
/// cannot be sent, in this order; else it goes to the target.
pub open spec fn is_proxied(
    targets: Map<Seq<char>, RelayTarget>,
    devices: Map<Ipv4Addr, DeviceInfo>,
    name: Seq<char>,
    sub_path: Seq<char>,
    query: Seq<char>,
    method: Seq<char>,
    headers: Seq<HeaderView>,
    step: ProxyStep,
) -> bool {
    if !targets.contains_key(name) {
        &&& step matches ProxyStep::Answer(a)
        &&& a.is_text(404, unknown_target(name))
    } else if !resolvable(targets[name], devices) {
        &&& step matches ProxyStep::Answer(a)
        &&& a.is_text(502, not_found(name, targets[name]->Mac_mac@))
    } else if !valid_method(method) {
        &&& step matches ProxyStep::Answer(a)
        &&& a.is_cause(400, "invalid HTTP method"@)
    } else {
        &&& step matches ProxyStep::Forward(u)
        &&& u.method@ == method
        &&& fields(u.headers@) == forwarded(headers)
        &&& u.body@ == Seq::<u8>::empty()
        &&& exists|base: Seq<char>| #[trigger]
            is_base_url(targets[name], devices, base) && u.url@ == upstream_url(
                base,
                sub_path,
                query,
            )
    }
}

/// Decides what to do with a request to a target: where it goes and with which
/// headers, or why it goes nowhere.
pub fn proxy(
    state: &RelayState,
    scanner: &NetworkScanner,
    target_name: &str,
    sub_path: &str,
    query: &str,
    method: &str,
    headers: &Vec<Header>,
) -> (r: ProxyStep)
    ensures
        is_proxied(
            state.targets@,
            scanner.devices(),
            target_name@,
            sub_path@,
            query@,
            method@,
            fields(headers@),
            r,
        ),
{
    let target = match state.targets.get(&target_name.to_owned()) {
        Some(t) => t,
        None => {
            return ProxyStep::Answer(
                Reply::text(404, join3("Unknown relay target: '", target_name, "'")),
            );
        },
    };
    let base = match base_url(target, scanner) {
        Some(b) => b,
        None => {
            let mac = match target {
                RelayTarget::Mac { mac, .. } => mac.as_str(),
                _ => "",
            };
            return ProxyStep::Answer(
                Reply::text(
                    502,
                    join5(
                        "Target '",
                        target_name,
                        "': MAC ",
                        mac,
                        " not found on the network (scan may still be running)",
                    ),
                ),
            );
        },
    };
    if !is_method(method.as_bytes()) {
        return ProxyStep::Answer(Reply::cause(400, "invalid HTTP method".to_owned()));
    }
    let url = build_upstream_url(base.as_str(), sub_path, query);
    proof {
        assert(is_base_url(*target, scanner.devices(), base@));
    }
    ProxyStep::Forward(
        UpstreamRequest {
            method: method.to_owned(),
            url,
            headers: forward_headers(headers),
            body: Vec::new(),
        },
    )
}

/// Decides what to do with a request to `/relay/{target}/{path}`.
pub fn relay_handler(
    state: &RelayState,
    scanner: &NetworkScanner,
    path: (String, String),
    query: &str,
    method: &str,
    headers: &Vec<Header>,
) -> (r: ProxyStep)
    ensures
        is_proxied(
            state.targets@,
            scanner.devices(),
            path.0@,
            path.1@,
            query@,
            method@,
            fields(headers@),
            r,
        ),
{
    let (target, sub_path) = path;
    proxy(state, scanner, target.as_str(), sub_path.as_str(), query, method, headers)
}

/// Decides what to do with a request to `/relay/{target}`.
pub fn relay_root_handler(
    state: &RelayState,
    scanner: &NetworkScanner,
    target: String,
    query: &str,
    method: &str,
    headers: &Vec<Header>,
) -> (r: ProxyStep)
    ensures
        is_proxied(
            state.targets@,
            scanner.devices(),
            target@,
            Seq::empty(),
            query@,
            method@,
            fields(headers@),
            r,
        ),
{
    proof {
        reveal_strlit("");
        assert(""@ == Seq::<char>::empty());
    }
    proxy(state, scanner, target.as_str(), "", query, method, headers)
}

impl UpstreamRequest {
    /// Adds a part of the body.
    pub fn push_chunk(&mut self, chunk: &[u8])
        ensures
            final(self).body@ == old(self).body@ + chunk@,
            final(self).method == old(self).method,
            final(self).url == old(self).url,
            final(self).headers == old(self).headers,
    {
        self.body.extend_from_slice(chunk);
        proof {
            assert(self.body@ =~= old(self).body@ + chunk@);
        }
    }

    /// The body to send: none where nothing was collected.
    pub fn body_to_send(self) -> (r: Option<Vec<u8>>)
        ensures
            r == (if self.body@.len() == 0 {
                None
            } else {
                Some(self.body)
            }),
    {
        if self.body.is_empty() {
            None
        } else {
            Some(self.body)
        }
    }
}

// ---------------------------------------------------------------------------
// The answer
// ---------------------------------------------------------------------------
/// The answer when the body of the request could not be read.
pub fn body_unreadable(error: String) -> (r: Reply)
    ensures
        r.is_cause(400, error@),
{
    Reply::cause(400, error)
}

/// The answer when the target could not be reached.
pub fn upstream_unreachable(error: String) -> (r: Reply)
    ensures
        r.is_cause(502, error@),
{
    Reply::cause(502, error)
}

/// Status and headers of an answer whose body is streamed.
#[derive(Debug)]
pub struct ResponseHead {
    pub status: u16,
    pub headers: Vec<Header>,
}

/// Makes the head of the answer from the head of the upstream answer.
pub fn relay_response(status: u16, headers: &Vec<Header>) -> (r: ResponseHead)
    ensures
        r.status == (if http_outcome::is_status(status) {
            status
        } else {
            502
        }),
        fields(r.headers@) == returned(fields(headers@)),
{
    let code: u16 = if 100 <= status && status <= 999 {
        status
    } else {
        502
    };
    ResponseHead { status: code, headers: return_headers(headers) }
}

// ---------------------------------------------------------------------------
// Laws
// ---------------------------------------------------------------------------
/// Exactly the headers that concern more than one connection are forwarded
/// with a request, none of them changed.
pub proof fn request_headers_are_forwarded(headers: Seq<HeaderView>, h: HeaderView)
    ensures
        forwarded(headers).contains(h) <==> headers.contains(h) && !hop_by_hop(h.name),
{
    lemma_filter_contains(headers, |x: HeaderView| !hop_by_hop(x.name), h);
}

/// What a filter keeps.
proof fn lemma_filter_contains(s: Seq<HeaderView>, keep: spec_fn(HeaderView) -> bool, h: HeaderView)
    ensures
        s.filter(keep).contains(h) <==> s.contains(h) && keep(h),
    decreases s.len(),
{
    reveal(Seq::filter);
    if s.len() > 0 {
        let front = s.drop_last();
        let last = s.last();
        lemma_filter_contains(front, keep, h);
        lemma_push_contains(front, last, h);
        lemma_push_contains(front.filter(keep), last, h);
        assert(s == front.push(last));
    }
}

/// What a longer sequence holds.
proof fn lemma_push_contains(s: Seq<HeaderView>, last: HeaderView, h: HeaderView)
    ensures
        s.push(last).contains(h) <==> s.contains(h) || h == last,
{
    let t = s.push(last);
    if s.contains(h) {
        let i = choose|i: int| 0 <= i < s.len() && s[i] == h;
        assert(t[i] == h);
    }
    assert(t[s.len() as int] == last);
}

/// Whether a header is forwarded or handed on does not depend on the case of
/// its name.
pub proof fn header_names_ignore_case(a: Seq<char>, b: Seq<char>)
    requires
        same_name(a, b),
    ensures
        hop_by_hop(a) == hop_by_hop(b),
        handed_on(a) == handed_on(b),
{
}

/// Forwarding headers that were forwarded already drops nothing more.
pub proof fn forwarding_twice_is_forwarding_once(headers: Seq<HeaderView>)
    ensures
        forwarded(forwarded(headers)) == forwarded(headers),
    decreases headers.len(),
{
    let keep = |x: HeaderView| !hop_by_hop(x.name);
    reveal(Seq::filter);
    if headers.len() > 0 {
        forwarding_twice_is_forwarding_once(headers.drop_last());
        let front = headers.drop_last().filter(keep);
        if keep(headers.last()) {
            assert(front.push(headers.last()).drop_last() == front);
        }
    }
}

/// The header at a place is the last of its name.
pub open spec fn last_of_its_name(headers: Seq<HeaderView>, at: int) -> bool {
    forall|j: int|
        at < j < headers.len() ==> !same_name(#[trigger] headers[j].name, headers[at].name)
}

/// An answer hands on exactly the last header of each name that may be handed
/// on, none of them changed.
pub proof fn answer_hands_on_the_last_of_each_name(headers: Seq<HeaderView>, h: HeaderView)
    ensures
        returned(headers).contains(h) <==> exists|i: int|
            0 <= i < headers.len() && #[trigger] headers[i] == h && handed_on(h.name)
                && last_of_its_name(headers, i),
    decreases headers.len(),
{
    if headers.len() > 0 {
        let front = headers.drop_last();
        let last = headers.last();
        let n = headers.len() - 1;
        answer_hands_on_the_last_of_each_name(front, h);
        let before = returned(front);
        lemma_filter_contains(before, |x: HeaderView| !same_name(x.name, last.name), h);
        lemma_push_contains(without(before, last.name), last, h);
        assert(headers[n] == last);
        assert(last_of_its_name(headers, n));
        assert forall|i: int| 0 <= i < n implies last_of_its_name(headers, i) == (
        last_of_its_name(front, i) && !same_name(last.name, (#[trigger] headers[i]).name)) by {
            assert(front[i] == headers[i]);
            assert(headers[n].name == last.name);
            if last_of_its_name(headers, i) {
                assert forall|j: int| i < j < front.len() implies !same_name(
                    (#[trigger] front[j]).name,
                    front[i].name,
                ) by {
                    assert(headers[j] == front[j]);
                }
            }
            if last_of_its_name(front, i) && !same_name(last.name, headers[i].name) {
                assert forall|j: int| i < j < headers.len() implies !same_name(
                    (#[trigger] headers[j]).name,
                    headers[i].name,
                ) by {
                    if j < n {
                        assert(front[j] == headers[j]);
                    }
                }
            }
        }
        if returned(headers).contains(h) {
            if handed_on(last.name) && h == last {
                assert(headers[n] == h);
            } else {
                assert(before.contains(h));
                let i = choose|i: int|
                    0 <= i < front.len() && #[trigger] front[i] == h && handed_on(h.name)
                        && last_of_its_name(front, i);
                assert(headers[i] == h);
                if same_name(last.name, h.name) {
                    assert(handed_on(last.name));
                }
                assert(last_of_its_name(headers, i));
            }
        }
        if exists|i: int|
            0 <= i < headers.len() && #[trigger] headers[i] == h && handed_on(h.name)
                && last_of_its_name(headers, i) {
            let i = choose|i: int|
                0 <= i < headers.len() && #[trigger] headers[i] == h && handed_on(h.name)
                    && last_of_its_name(headers, i);
            if i < n {
                assert(front[i] == h);
                assert(last_of_its_name(front, i));
                assert(before.contains(h));
            }
        }
    }
}

/// An answer never carries a header that concerns one connection, nor the
/// length that the target announced.
pub proof fn answer_keeps_connection_headers_back(headers: Seq<HeaderView>, h: HeaderView)
    requires
        returned(headers).contains(h),
    ensures
        !hop_by_hop(h.name),
        text::lower(h.name) != "content-length"@,
{
    answer_hands_on_the_last_of_each_name(headers, h);
}

/// A request to the root of a target without a query goes to its base URL.
pub proof fn root_request_goes_to_the_base(base: Seq<char>)
    ensures
        upstream_url(base, Seq::empty(), Seq::empty()) == base,
{
    assert(base + Seq::<char>::empty() + Seq::<char>::empty() == base);
}

/// Of a request, exactly the headers are forwarded whose name is none of the
/// ten that concern one connection, in their order and unchanged.
pub proof fn all_but_ten_names_are_forwarded(headers: Vec<Header>, result: Vec<Header>)
    requires
        call_ensures(forward_headers, (&headers,), result),
    ensures
        fields(result@) == fields(headers@).filter(
            |h: HeaderView|
                {
                    let n = text::lower(h.name);
                    &&& n != "connection"@
                    &&& n != "keep-alive"@
                    &&& n != "proxy-authenticate"@
                    &&& n != "proxy-authorization"@
                    &&& n != "te"@
                    &&& n != "trailers"@
                    &&& n != "transfer-encoding"@
                    &&& n != "upgrade"@
                    &&& n != "host"@
                    &&& n != "proxy-connection"@
                },
        ),
{
    let all = fields(headers@);
    let keep = |h: HeaderView|
        {
            let n = text::lower(h.name);
            &&& n != "connection"@
            &&& n != "keep-alive"@
            &&& n != "proxy-authenticate"@
            &&& n != "proxy-authorization"@
            &&& n != "te"@
            &&& n != "trailers"@
            &&& n != "transfer-encoding"@
            &&& n != "upgrade"@
            &&& n != "host"@
            &&& n != "proxy-connection"@
        };
    assert forall|h: HeaderView| #[trigger] keep(h) == !hop_by_hop(h.name) by {}
    assert(keep =~= |h: HeaderView| !hop_by_hop(h.name));
}

/// Whether a name is one of those that concern one connection is decided by
/// ten names, in any case.
pub proof fn ten_names_concern_one_connection(name: &str, result: bool)
    requires
        call_ensures(is_hop_by_hop, (name,), result),
    ensures
        result <==> {
            let n = text::lower(name@);
            ||| n == "connection"@
            ||| n == "keep-alive"@
            ||| n == "proxy-authenticate"@
            ||| n == "proxy-authorization"@
            ||| n == "te"@
            ||| n == "trailers"@
            ||| n == "transfer-encoding"@
            ||| n == "upgrade"@
            ||| n == "host"@
            ||| n == "proxy-connection"@
        },
{
}

/// Of an answer, a header is handed on exactly when its name is none of the ten
/// that concern one connection and not that of the length, and no later header
/// has the same name but for its case.
pub proof fn all_but_eleven_names_are_handed_on(
    status: u16,
    headers: Vec<Header>,
    head: ResponseHead,
    h: HeaderView,
)
    requires
        call_ensures(relay_response, (status, &headers), head),
    ensures
        fields(head.headers@).contains(h) <==> exists|i: int|
            {
                let n = text::lower(h.name);
                &&& 0 <= i < headers@.len()
                &&& #[trigger] headers@[i]@ == h
                &&& n != "connection"@
                &&& n != "keep-alive"@
                &&& n != "proxy-authenticate"@
                &&& n != "proxy-authorization"@
                &&& n != "te"@
                &&& n != "trailers"@
                &&& n != "transfer-encoding"@
                &&& n != "upgrade"@
                &&& n != "host"@
                &&& n != "proxy-connection"@
                &&& n != "content-length"@
                &&& forall|j: int|
                    i < j < headers@.len() ==> text::lower(#[trigger] headers@[j].name@) != n
            },
        head.status == (if 100 <= status && status <= 999 {
            status
        } else {
            502
        }),
{
    let all = fields(headers@);
    answer_hands_on_the_last_of_each_name(all, h);
    if fields(head.headers@).contains(h) {
        let i = choose|i: int|
            0 <= i < all.len() && #[trigger] all[i] == h && handed_on(h.name) && last_of_its_name(
                all,
                i,
            );
        assert(headers@[i]@ == h);
        assert forall|j: int| i < j < headers@.len() implies text::lower(
            #[trigger] headers@[j].name@,
        ) != text::lower(h.name) by {
            assert(all[j].name == headers@[j].name@);
            assert(!same_name(all[j].name, all[i].name));
        }
    }
    if exists|i: int|
        {
            let n = text::lower(h.name);
            &&& 0 <= i < headers@.len()
            &&& #[trigger] headers@[i]@ == h
            &&& handed_on(h.name)
            &&& forall|j: int|
                i < j < headers@.len() ==> text::lower(#[trigger] headers@[j].name@) != n
        } {
        let i = choose|i: int|
            {
                let n = text::lower(h.name);
                &&& 0 <= i < headers@.len()
                &&& #[trigger] headers@[i]@ == h
                &&& handed_on(h.name)
                &&& forall|j: int|
                    i < j < headers@.len() ==> text::lower(#[trigger] headers@[j].name@) != n
            };
        assert(all[i] == h);
        assert forall|j: int| i < j < all.len() implies !same_name(
            (#[trigger] all[j]).name,
            all[i].name,
        ) by {
            assert(all[j].name == headers@[j].name@);
        }
        assert(last_of_its_name(all, i));
    }
}

/// A relayed request reaches the target at its base, then the path after a
/// slash and the query after a question mark where there is one, with the
/// method and no body yet.
pub open spec fn reaches(
    step: ProxyStep,
    base: Seq<char>,
    sub_path: Seq<char>,
    query: Seq<char>,
    method: Seq<char>,
) -> bool {
    &&& step matches ProxyStep::Forward(u)
    &&& sub_path.len() == 0 && query.len() == 0 ==> u.url@ == base
    &&& sub_path.len() > 0 && query.len() == 0 ==> u.url@ == base + "/"@ + sub_path
    &&& sub_path.len() == 0 && query.len() > 0 ==> u.url@ == base + "?"@ + query
    &&& sub_path.len() > 0 && query.len() > 0 ==> u.url@ == base + "/"@ + sub_path + "?"@ + query
    &&& u.method@ == method
    &&& u.body@.len() == 0
}

/// A character of a method: a letter, a digit or one of fifteen marks.
pub open spec fn is_method_char(c: char) -> bool {
    ||| 'A' <= c <= 'Z'
    ||| 'a' <= c <= 'z'
    ||| '0' <= c <= '9'
    ||| c == '!' || c == '#' || c == '$' || c == '%' || c == '&' || c == '\'' || c == '*' || c
        == '+' || c == '-' || c == '.' || c == '^' || c == '_' || c == '`' || c == '|' || c == '~'
}

/// A method can be sent exactly when it has only characters of a method, at
/// least one.
proof fn lemma_method(method: Seq<char>)
    ensures
        valid_method(method) <==> method.len() > 0 && forall|i: int|
            0 <= i < method.len() ==> is_method_char(#[trigger] method[i]),
{
    let b = vstd::utf8::encode_utf8(method);
    if method.len() > 0 && forall|i: int|
        0 <= i < method.len() ==> is_method_char(#[trigger] method[i]) {
        assert(vstd::utf8::is_ascii_chars(method));
        vstd::utf8::is_ascii_chars_encode_utf8(method);
        assert forall|i: int| 0 <= i < b.len() implies outside::is_method_byte(#[trigger] b[i]) by {
            assert(is_method_char(method[i]));
            assert(method[i] as u8 == b[i]);
        }
    }
    if valid_method(method) {
        assert forall|i: int| 0 <= i < b.len() implies #[trigger] b[i] < 128 by {
            assert(outside::is_method_byte(b[i]));
        }
        text::lemma_low_bytes(method);
        vstd::utf8::is_ascii_chars_encode_utf8(method);
        assert forall|i: int| 0 <= i < method.len() implies is_method_char(
            #[trigger] method[i],
        ) by {
            assert(method[i] as u8 == b[i]);
            assert(outside::is_method_byte(b[i]));
        }
    }
}

/// The URL of a request, part by part.
proof fn lemma_upstream_url(base: Seq<char>, sub_path: Seq<char>, query: Seq<char>)
    ensures
        ({
            let url = upstream_url(base, sub_path, query);
            &&& sub_path.len() == 0 && query.len() == 0 ==> url == base
            &&& sub_path.len() > 0 && query.len() == 0 ==> url == base + "/"@ + sub_path
            &&& sub_path.len() == 0 && query.len() > 0 ==> url == base + "?"@ + query
            &&& sub_path.len() > 0 && query.len() > 0 ==> url == base + "/"@ + sub_path + "?"@
                + query
        }),
{
    let url = upstream_url(base, sub_path, query);
    let none = Seq::<char>::empty();
    if sub_path.len() == 0 && query.len() == 0 {
        assert(base + none + none == base);
    } else if query.len() == 0 {
        assert(base + ("/"@ + sub_path) + none == base + "/"@ + sub_path);
    } else if sub_path.len() == 0 {
        assert(base + none + ("?"@ + query) == base + "?"@ + query);
    } else {
        assert(base + ("/"@ + sub_path) + ("?"@ + query) == base + "/"@ + sub_path + "?"@ + query);
    }
}

/// A request to a target with a fixed URL goes to that URL without the slashes
/// at its end, whatever the network shows.
pub proof fn fixed_url_gets_the_request(
    state: RelayState,
    scanner: NetworkScanner,
    target_name: &str,
    sub_path: &str,
    query: &str,
    method: &str,
    headers: Vec<Header>,
    step: ProxyStep,
    base: Seq<char>,
    slashes: Seq<char>,
)
    requires
        call_ensures(
            proxy,
            (&state, &scanner, target_name, sub_path, query, method, &headers),
            step,
        ),
        state.targets@.contains_key(target_name@),
        match state.targets@[target_name@] {
            RelayTarget::Static(url) => url@ == base + slashes,
            RelayTarget::StaticManaged { url, .. } => url@ == base + slashes,
            RelayTarget::Mac { .. } => false,
        },
        forall|i: int| 0 <= i < slashes.len() ==> #[trigger] slashes[i] == '/',
        base.len() == 0 || base.last() != '/',
        method@.len() > 0,
        forall|i: int| 0 <= i < method@.len() ==> is_method_char(#[trigger] method@[i]),
    ensures
        reaches(step, base, sub_path@, query@, method@),
        forwarded_as_selected(headers@, step),
{
    lemma_method(method@);
    lemma_trailing_slashes(base, slashes);
    lemma_upstream_url(base, sub_path@, query@);
}

/// The headers of a request that is forwarded are those that are selected.
pub open spec fn forwarded_as_selected(headers: Seq<Header>, step: ProxyStep) -> bool {
    &&& step matches ProxyStep::Forward(u)
    &&& fields(u.headers@) == forwarded(fields(headers))
}

/// Slashes at the end are trimmed.
proof fn lemma_trailing_slashes(base: Seq<char>, slashes: Seq<char>)
    requires
        forall|i: int| 0 <= i < slashes.len() ==> #[trigger] slashes[i] == '/',
        base.len() == 0 || base.last() != '/',
    ensures
        text::trim_end(base + slashes, CharClass::Only('/')) == base,
    decreases slashes.len(),
{
    if slashes.len() == 0 {
        assert(base + slashes == base);
    } else {
        let fewer = slashes.drop_last();
        assert((base + slashes).last() == slashes[slashes.len() - 1]);
        assert((base + slashes).drop_last() == base + fewer);
        lemma_trailing_slashes(base, fewer);
    }
}

/// A request to a device goes to an address that the device has now, at the
/// port of the target. Where no device has its MAC address, the answer says so,
/// whatever the method; else a method that cannot be sent is refused.
pub proof fn device_gets_the_request_where_it_is_now(
    state: RelayState,
    scanner: NetworkScanner,
    target_name: &str,
    sub_path: &str,
    query: &str,
    method: &str,
    headers: Vec<Header>,
    step: ProxyStep,
)
    requires
        call_ensures(
            proxy,
            (&state, &scanner, target_name, sub_path, query, method, &headers),
            step,
        ),
        state.targets@.contains_key(target_name@),
        state.targets@[target_name@] is Mac,
    ensures
        ({
            let mac = state.targets@[target_name@]->Mac_mac@;
            let port = state.targets@[target_name@]->Mac_port;
            if exists|a: Ipv4Addr| #[trigger]
                scanner.devices().contains_key(a) && scanner.devices()[a].mac_address is Some
                    && text::lower(scanner.devices()[a].mac_address->0@) == text::lower(mac) {
                if method@.len() > 0 && forall|i: int|
                    0 <= i < method@.len() ==> is_method_char(#[trigger] method@[i]) {
                    &&& forwarded_as_selected(headers@, step)
                    &&& exists|a: Ipv4Addr| #[trigger]
                        scanner.devices().contains_key(a) && scanner.devices()[a].mac_address
                            is Some && text::lower(scanner.devices()[a].mac_address->0@)
                            == text::lower(mac) && reaches(
                            step,
                            "http://"@ + ip::dotted(a) + ":"@ + text::decimal(port as nat),
                            sub_path@,
                            query@,
                            method@,
                        )
                } else {
                    &&& step matches ProxyStep::Answer(r)
                    &&& r.status == 400
                    &&& r.body matches reply::Body::Cause(t)
                    &&& t@ == "invalid HTTP method"@
                }
            } else {
                &&& step matches ProxyStep::Answer(r)
                &&& r.status == 502
                &&& r.body matches reply::Body::Text(t)
                &&& t@ == "Target '"@ + target_name@ + "': MAC "@ + mac
                    + " not found on the network (scan may still be running)"@
            }
        }),
{
    let devices = scanner.devices();
    let mac = state.targets@[target_name@]->Mac_mac@;
    let port = state.targets@[target_name@]->Mac_port;
    lemma_method(method@);
    if exists|a: Ipv4Addr| #[trigger]
        devices.contains_key(a) && devices[a].mac_address is Some && text::lower(
            devices[a].mac_address->0@,
        ) == text::lower(mac) {
        let a = choose|a: Ipv4Addr| #[trigger]
            devices.contains_key(a) && devices[a].mac_address is Some && text::lower(
                devices[a].mac_address->0@,
            ) == text::lower(mac);
        assert(network_scanner::is_address_of(devices, mac, a));
        assert(resolvable(state.targets@[target_name@], devices));
    }
    if step is Forward {
        let base = choose|base: Seq<char>| #[trigger]
            is_base_url(state.targets@[target_name@], devices, base) && step->Forward_0.url@
                == upstream_url(base, sub_path@, query@);
        let b = choose|b: Ipv4Addr| #[trigger]
            network_scanner::is_address_of(devices, mac, b) && base == address_url(b, port);
        lemma_upstream_url(base, sub_path@, query@);
        assert(devices.contains_key(b));
    }
}

/// A name that no target has is answered with 404.
pub proof fn unknown_names_are_answered_404(
    state: RelayState,
    scanner: NetworkScanner,
    target_name: &str,
    sub_path: &str,
    query: &str,
    method: &str,
    headers: Vec<Header>,
    step: ProxyStep,
)
    requires
        call_ensures(
            proxy,
            (&state, &scanner, target_name, sub_path, query, method, &headers),
            step,
        ),
        !state.targets@.contains_key(target_name@),
    ensures
        ({
            &&& step matches ProxyStep::Answer(r)
            &&& r.status == 404
            &&& r.body matches reply::Body::Text(t)
            &&& t@ == "Unknown relay target: '"@ + target_name@ + "'"@
        }),
{
}

/// An empty method, or one with any other character than those of a method, is
/// never sent: the answer is 400.
pub proof fn odd_methods_are_answered_400(
    state: RelayState,
    scanner: NetworkScanner,
    target_name: &str,
    sub_path: &str,
    query: &str,
    method: &str,
    headers: Vec<Header>,
    step: ProxyStep,
    at: int,
)
    requires
        call_ensures(
            proxy,
            (&state, &scanner, target_name, sub_path, query, method, &headers),
            step,
        ),
        state.targets@.contains_key(target_name@),
        state.targets@[target_name@] !is Mac,
        method@.len() == 0 || (0 <= at < method@.len() && !is_method_char(method@[at])),
    ensures
        ({
            &&& step matches ProxyStep::Answer(r)
            &&& r.status == 400
            &&& r.challenge is None
            &&& r.body matches reply::Body::Cause(t)
            &&& t@ == "invalid HTTP method"@
        }),
{
    lemma_method(method@);
}

/// The two routes of the relay do the same: the one without a path is the one
/// with an empty path.
pub proof fn root_route_is_the_empty_path(
    state: RelayState,
    scanner: NetworkScanner,
    name: String,
    path: String,
    query: &str,
    method: &str,
    headers: Vec<Header>,
    with_path: ProxyStep,
    root: ProxyStep,
)
    requires
        call_ensures(
            relay_handler,
            (&state, &scanner, (name, path), query, method, &headers),
            with_path,
        ),
        call_ensures(relay_root_handler, (&state, &scanner, name, query, method, &headers), root),
    ensures
        is_proxied(
            state.targets@,
            scanner.devices(),
            name@,
            path@,
            query@,
            method@,
            fields(headers@),
            with_path,
        ),
        is_proxied(
            state.targets@,
            scanner.devices(),
            name@,
            Seq::empty(),
            query@,
            method@,
            fields(headers@),
            root,
        ),
{
}

/// The body that is sent is all that was collected, in order; nothing is sent
/// as a body where nothing was collected.
pub proof fn body_is_sent_as_collected(
    request: &mut UpstreamRequest,
    chunk: &[u8],
    collected: UpstreamRequest,
    body: Option<Vec<u8>>,
)
    requires
        call_ensures(UpstreamRequest::push_chunk, (request, chunk), ()),
        collected == *final(request),
        call_ensures(UpstreamRequest::body_to_send, (collected,), body),
    ensures
        old(request).body@.len() + chunk@.len() > 0 ==> body is Some && body->0@
            == old(request).body@ + chunk@,
        old(request).body@.len() + chunk@.len() == 0 ==> body is None,
        final(request).url@ == old(request).url@,
        final(request).method@ == old(request).method@,
        fields(final(request).headers@) == fields(old(request).headers@),
{
}

/// A request body that cannot be read is answered with 400, a target that
/// cannot be reached with 502, each with the cause.
pub proof fn failures_are_answered_with_their_cause(error: String, unread: Reply, unreached: Reply)
    requires
        call_ensures(body_unreadable, (error,), unread),
        call_ensures(upstream_unreachable, (error,), unreached),
    ensures
        unread.status == 400,
        unread.body matches reply::Body::Cause(t) && t@ == error@,
        unreached.status == 502,
        unreached.body matches reply::Body::Cause(t) && t@ == error@,
{
}

/// No two headers have the same name.
pub open spec fn names_differ(headers: Seq<HeaderView>) -> bool {
    forall|i: int, j: int|
        0 <= i < j < headers.len() ==> !same_name(
            (#[trigger] headers[i]).name,
            (#[trigger] headers[j]).name,
        )
}

/// What is kept of headers with different names has different names.
proof fn lemma_kept_names_differ(s: Seq<HeaderView>, keep: spec_fn(HeaderView) -> bool)
    requires
        names_differ(s),
    ensures
        names_differ(s.filter(keep)),
    decreases s.len(),
{
    reveal(Seq::filter);
    if s.len() > 0 {
        let front = s.drop_last();
        let last = s.last();
        assert forall|i: int, j: int| 0 <= i < j < front.len() implies !same_name(
            (#[trigger] front[i]).name,
            (#[trigger] front[j]).name,
        ) by {
            assert(front[i] == s[i] && front[j] == s[j]);
        }
        lemma_kept_names_differ(front, keep);
        if keep(last) {
            let kept = front.filter(keep);
            assert forall|i: int| 0 <= i < kept.len() implies !same_name(
                (#[trigger] kept[i]).name,
                last.name,
            ) by {
                assert(kept.contains(kept[i]));
                lemma_filter_contains(front, keep, kept[i]);
                let k = choose|k: int| 0 <= k < front.len() && front[k] == kept[i];
                assert(s[k] == kept[i] && s[s.len() - 1] == last);
            }
        }
    }
}

/// An answer hands no two headers of one name on.
pub proof fn answer_has_one_header_of_a_name(headers: Seq<HeaderView>)
    ensures
        names_differ(returned(headers)),
    decreases headers.len(),
{
    if headers.len() > 0 {
        let before = returned(headers.drop_last());
        let h = headers.last();
        answer_has_one_header_of_a_name(headers.drop_last());
        let keep = |x: HeaderView| !same_name(x.name, h.name);
        lemma_kept_names_differ(before, keep);
        let kept = before.filter(keep);
        assert forall|i: int| 0 <= i < kept.len() implies !same_name(
            (#[trigger] kept[i]).name,
            h.name,
        ) by {
            assert(kept.contains(kept[i]));
            lemma_filter_contains(before, keep, kept[i]);
        }
    }
}

/// Headers are compared by their whole name and value, one by one.
pub proof fn headers_are_compared_whole(a: Seq<Header>, b: Seq<Header>)
    ensures
        fields(a) == fields(b) <==> a.len() == b.len() && forall|i: int|
            0 <= i < a.len() ==> (#[trigger] a[i]).name@ == b[i].name@ && a[i].value@
                == b[i].value@,
{
    if fields(a) == fields(b) {
        assert(fields(a).len() == a.len() && fields(b).len() == b.len());
        assert forall|i: int| 0 <= i < a.len() implies (#[trigger] a[i]).name@ == b[i].name@
            && a[i].value@ == b[i].value@ by {
            assert(fields(a)[i] == a[i]@ && fields(b)[i] == b[i]@);
        }
    }
    if a.len() == b.len() && forall|i: int|
        0 <= i < a.len() ==> (#[trigger] a[i]).name@ == b[i].name@ && a[i].value@ == b[i].value@ {
        assert forall|i: int| 0 <= i < a.len() implies fields(a)[i] == fields(b)[i] by {
            assert(a[i].name@ == b[i].name@);
        }
        assert(fields(a) == fields(b));
    }
}

/// The relay knows the targets that it was given.
pub proof fn relay_knows_its_targets(targets: StringMap<RelayTarget>, state: RelayState)
    requires
        call_ensures(RelayState::new, (targets,), state),
    ensures
        state.targets@ == targets@,
{
}

} // verus!
