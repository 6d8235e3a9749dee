//! Endpoints that may be called: loopback HTTP without credentials.
use vstd::prelude::*;

use crate::items;
use crate::text;

verus! {

/// The host of an address.
#[derive(Debug, Clone, Copy, PartialEq, Eq, Structural)]
pub enum UrlHost {
    Missing,
    Domain,
    /// An IPv4 address, as a number in network order.
    Ipv4(u32),
    /// An IPv6 address, as a number in network order.
    Ipv6(u128),
}

/// The parts of an address that decide whether it may be called, and its text.
#[derive(Debug)]
pub struct UrlParts {
    pub scheme: String,
    pub host: UrlHost,
    pub username: String,
    pub password: Option<String>,
    pub query: Option<String>,
    pub fragment: Option<String>,
    pub href: String,
}

/// The value of [`UrlParts`].
pub struct UrlView {
    pub scheme: Seq<char>,
    pub host: UrlHost,
    pub username: Seq<char>,
    pub password: Option<Seq<char>>,
    pub query: Option<Seq<char>>,
    pub fragment: Option<Seq<char>>,
    pub href: Seq<char>,
}

impl View for UrlParts {
    type V = UrlView;

    open spec fn view(&self) -> UrlView {
        UrlView {
            scheme: self.scheme@,
            host: self.host,
            username: self.username@,
            password: items::text_option(self.password),
            query: items::text_option(self.query),
            fragment: items::text_option(self.fragment),
            href: self.href@,
        }
    }
}

/// What `url::Url::parse` makes of a text: the parts of an address, or the text of its error.
pub uninterp spec fn parsed_url(t: Seq<char>) -> Result<UrlView, Seq<char>>;

/// The value of parsed parts or of the error in their place.
pub open spec fn url_result(r: Result<UrlParts, String>) -> Result<UrlView, Seq<char>> {
    match r {
        Ok(parts) => Ok(parts@),
        Err(error) => Err(error@),
    }
}

/// Parses an address.
///
/// Calls `url::Url::parse` and the accessors of its result. The contract claims that the parts
/// and the error's text depend on the text alone; how an address is taken apart is left to `url`.
#[verifier::external_body]
pub(crate) fn parse_url(endpoint: &str) -> (r: Result<UrlParts, String>)
    ensures
        url_result(r) == parsed_url(endpoint@),
{
    let url = url::Url::parse(endpoint).map_err(|error| error.to_string())?;
    let host = match url.host() {
        Some(url::Host::Ipv4(address)) => UrlHost::Ipv4(address.into()),
        Some(url::Host::Ipv6(address)) => UrlHost::Ipv6(address.into()),
        Some(url::Host::Domain(_)) => UrlHost::Domain,
        None => UrlHost::Missing,
    };
    Ok(UrlParts {
        host,
        scheme: url.scheme().to_string(),
        username: url.username().to_string(),
        password: url.password().map(str::to_string),
        query: url.query().map(str::to_string), fragment: url.fragment().map(str::to_string),
        href: url.to_string(),
    })
}

/// Whether a host is this machine itself: 127.0.0.0/8 or ::1.
pub open spec fn is_loopback(host: UrlHost) -> bool {
    match host {
        UrlHost::Ipv4(address) => address / 0x100_0000 == 127,
        UrlHost::Ipv6(address) => address == 1,
        _ => false,
    }
}

/// Whether an address is loopback HTTP without credentials.
pub open spec fn is_loopback_http(url: UrlView) -> bool {
    &&& url.scheme == "http"@
    &&& is_loopback(url.host)
    &&& url.username.len() == 0
    &&& url.password is None
}

/// Whether a host is this machine itself.
pub fn check_loopback(host: UrlHost) -> (yes: bool)
    ensures
        yes == is_loopback(host),
{
    match host {
        UrlHost::Ipv4(address) => address / 0x100_0000 == 127,
        UrlHost::Ipv6(address) => address == 1,
        UrlHost::Domain => false,
        UrlHost::Missing => false,
    }
}

/// Whether an address is loopback HTTP without credentials.
pub fn check_loopback_http(parts: &UrlParts) -> (yes: bool)
    ensures
        yes == is_loopback_http(parts@),
{
    text::same_text(parts.scheme.as_str(), "http") && check_loopback(parts.host) && parts.username.as_str().is_empty()
        && parts.password.is_none()
}

/// Only this machine is called: an IPv4 address between 127.0.0.0 and 127.255.255.255 or the IPv6
/// address ::1, over plain HTTP, without a user name or a password. A name is never resolved.
pub proof fn law_only_this_machine_is_called(url: UrlView)
    ensures
        is_loopback_http(url) <==> {
            &&& url.scheme == "http"@
            &&& url.username == Seq::<char>::empty()
            &&& url.password is None
            &&& (url.host matches UrlHost::Ipv4(address) && 0x7f00_0000 <= address <= 0x7fff_ffff) || (url.host
                == UrlHost::Ipv6(1))
        },
        url.host is Domain || url.host is Missing ==> !is_loopback_http(url),
{
    assert(url.username.len() == 0 <==> url.username =~= Seq::<char>::empty());
    if let UrlHost::Ipv4(address) = url.host {
        assert(address / 0x100_0000 == 127 <==> 0x7f00_0000 <= address <= 0x7fff_ffff);
    }
}

} // verus!
