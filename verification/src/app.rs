//! The state of the browser: the address it shows, the addresses visited
//! before, and the page it shows; and the requests it sends.

use vstd::prelude::*;

verus! {

/// Whether the address bar takes typed text.
pub enum InputMode {
    UrlInput,
    NoInput,
}

/// The state of the browser.
pub struct App {
    pub url: String,
    pub previous_urls: Vec<String>,
    pub page: String,
}

/// The host that the browser opens first.
pub open spec fn start_host() -> Seq<char> {
    "gemini.circumlunar.space"@
}

impl Default for App {
    fn default() -> (a: Self)
        ensures
            a.url@ == start_host(),
            a.previous_urls@.len() == 0,
            a.page@.len() == 0,
    {
        Self {
            url: "gemini.circumlunar.space".to_owned(),
            previous_urls: Vec::new(),
            page: String::new(),
        }
    }
}

/// The text that `String::from_utf8_lossy` makes of `bytes`: each maximal
/// ill-formed subsequence becomes U+FFFD.
pub uninterp spec fn utf8_lossy(bytes: Seq<u8>) -> Seq<char>;

/// Decodes bytes as UTF-8 with std's `String::from_utf8_lossy`. Its result is
/// named by `utf8_lossy`; the documentation adds that well-formed UTF-8 comes
/// back decoded unchanged. How ill-formed bytes are replaced is left unsaid.
#[verifier::external_body]
fn decode_lossy(bytes: &[u8]) -> (s: String)
    ensures
        s@ == utf8_lossy(bytes@),
        vstd::utf8::valid_utf8(bytes@) ==> s@ == vstd::utf8::decode_utf8(bytes@),
{
    String::from_utf8_lossy(bytes).into_owned()
}

/// The request line of the Gemini protocol for `path` on `host`.
pub open spec fn request_line(host: Seq<char>, path: Seq<char>) -> Seq<char> {
    "gemini://"@ + host + path + "\r\n"@
}

/// The request line asking `host` for `path`: the URL and a CR LF.
pub fn gemini_request(host: &str, path: &str) -> (r: String)
    ensures
        r@ == request_line(host@, path@),
{
    let mut r = "gemini://".to_owned();
    r.append(host);
    r.append(path);
    r.append("\r\n");
    r
}

/// The address of the Gemini server of `host`: the host and port 1965.
pub fn server_address(host: &str) -> (r: String)
    ensures
        r@ == host@ + ":1965"@,
{
    let mut r = host.to_owned();
    r.append(":1965");
    r
}

impl App {
    /// Shows `new_url` in the address bar.
    pub fn update_url(&mut self, new_url: String)
        ensures
            final(self).url == new_url,
            final(self).previous_urls == old(self).previous_urls,
            final(self).page == old(self).page,
    {
        self.url = new_url;
    }

    /// Shows the body of a response, decoded as UTF-8 with every ill-formed
    /// sequence replaced.
    pub fn receive_page(&mut self, data: &[u8])
        ensures
            final(self).page@ == utf8_lossy(data@),
            vstd::utf8::valid_utf8(data@) ==> final(self).page@ == vstd::utf8::decode_utf8(
                data@,
            ),
            final(self).url == old(self).url,
            final(self).previous_urls == old(self).previous_urls,
    {
        self.page = decode_lossy(data);
    }
}

} // verus!
