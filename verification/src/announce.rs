//! What the server says at startup: the address under which other devices
//! reach it, as text and as a code to scan.

use vstd::prelude::*;
use vstd::string::*;
use vstd::utf8::is_ascii_chars;

verus! {

/// The longest host that is announced, in characters.
pub const MAX_HOST_LEN: usize = 44;

/// The longest text for which a code is drawn, in characters: the address
/// of a host of [`MAX_HOST_LEN`] characters.
pub const MAX_CODE_LEN: usize = 56;

/// Whether a code is drawn for `data`: plain ASCII of no more than
/// [`MAX_CODE_LEN`] characters.
pub open spec fn code_fits(data: Seq<char>) -> bool {
    data.len() <= MAX_CODE_LEN && is_ascii_chars(data)
}

/// Whether `host` can be announced: plain ASCII of no more than
/// [`MAX_HOST_LEN`] characters, as every numeric address is.
pub open spec fn host_fits(host: Seq<char>) -> bool {
    host.len() <= MAX_HOST_LEN && is_ascii_chars(host)
}

/// The host of the address where the machine's own one is not known.
pub open spec fn loopback_text() -> Seq<char> {
    "127.0.0.1"@
}

/// The host of the address: the one that was found, or the loopback host.
pub open spec fn host_text(found: Option<Seq<char>>) -> Seq<char> {
    match found {
        Some(host) => host,
        None => loopback_text(),
    }
}

/// The address of the server on `host`.
pub open spec fn url_text(host: Seq<char>) -> Seq<char> {
    "http://"@ + host + ":8080"@
}

/// The address on which the server listens: every interface, at the port
/// to which [`url_text`] points.
pub open spec fn listen_text() -> Seq<char> {
    "0.0.0.0:8080"@
}

/// The lines that show the address `url` and its code `code`.
pub open spec fn banner_text(url: Seq<char>, code: Seq<char>) -> Seq<char> {
    "\nOpen in browser: "@ + url + "\n\nScan QR code with mobile device:\n"@ + code + "\n"@
}

/// The picture of the QR code that holds the text `data`, drawn with block
/// characters two rows to a line, or `None` where no QR code can hold it.
pub uninterp spec fn code_text(data: Seq<char>) -> Option<Seq<char>>;

/// What is shown at startup.
#[derive(Debug, PartialEq, Eq)]
pub struct Announcement {
    /// The address of the server.
    pub url: String,
    /// The address and its code, as lines to print.
    pub text: String,
}

/// Why nothing can be announced.
#[derive(Clone, Copy, Debug, PartialEq, Eq, Structural)]
pub enum AnnounceError {
    /// The host is longer than [`MAX_HOST_LEN`] characters or not plain
    /// ASCII.
    HostUnfit,
    /// No code can be built for the address.
    CodeUnavailable,
}

/// The host to announce: `found`, or the loopback host where none was found.
pub fn host_or_loopback(found: Option<String>) -> (host: String)
    ensures
        host@ == host_text(
            match found {
                Some(name) => Some(name@),
                None => None,
            },
        ),
{
    match found {
        Some(name) => name,
        None => String::from_str("127.0.0.1"),
    }
}

/// The address of the server on `host`.
pub fn url_for(host: &str) -> (url: String)
    ensures
        url@ == url_text(host@),
{
    let mut url = String::from_str("http://");
    url.append(host);
    url.append(":8080");
    url
}

/// The address to bind the listening socket to.
pub fn listen_address() -> (address: String)
    ensures
        address@ == listen_text(),
{
    String::from_str("0.0.0.0:8080")
}

/// The lines that show `url` and its code.
pub fn banner(url: &str, code: &str) -> (text: String)
    ensures
        text@ == banner_text(url@, code@),
{
    let mut text = String::from_str("\nOpen in browser: ");
    text.append(url);
    text.append("\n\nScan QR code with mobile device:\n");
    text.append(code);
    text.append("\n");
    text
}

/// The error of the `qrcode` crate, `qrcode::types::QrError`. Nothing is
/// read from it: any error means that there is no code.
#[verifier::external_type_specification]
#[verifier::external_body]
pub struct ExQrError(qrcode::types::QrError);

/// Builds the QR code of `data` with `qrcode::QrCode::new` (medium error
/// correction, the smallest symbol that fits) and draws it with
/// `Renderer::build` of the same crate, as `unicode::Dense1x2`. Not proved:
/// that the picture is a function of `data` alone, which [`code_text`]
/// names, and that there is no picture exactly where the crate reports an
/// error.
///
/// Only short plain text is handed over. The crate adds up the penalty
/// scores of a symbol in 16 bits, and for a large symbol the sum can pass
/// that and the call panic. Up to `MAX_CODE_LEN` ASCII characters take 20
/// bits each at most, 1120 in all, which a symbol of version 8 holds (49
/// modules wide), and there the scores add up to 54,738 at most.
#[verifier::external_body]
fn render_code(data: &str) -> (rendered: Result<String, qrcode::types::QrError>)
    requires
        code_fits(data@),
    ensures
        match rendered {
            Ok(picture) => code_text(data@) == Some(picture@),
            Err(_) => code_text(data@) is None,
        },
{
    let code = qrcode::QrCode::new(data)?;
    Ok(code.render::<qrcode::render::unicode::Dense1x2>().build())
}

/// Puts the announcement together from the address and the picture of its
/// code, if there is one.
pub fn compose(url: String, rendered: Option<String>) -> (result: Result<
    Announcement,
    AnnounceError,
>)
    ensures
        match rendered {
            Some(picture) => {
                &&& result matches Ok(announcement)
                &&& announcement.url@ == url@
                &&& announcement.text@ == banner_text(url@, picture@)
            },
            None => result == Err::<Announcement, AnnounceError>(AnnounceError::CodeUnavailable),
        },
{
    match rendered {
        Some(picture) => {
            let text = banner(url.as_str(), picture.as_str());
            Ok(Announcement { url, text })
        },
        None => Err(AnnounceError::CodeUnavailable),
    }
}

/// Whether `host` can be announced.
pub fn check_host(host: &str) -> (fits: bool)
    ensures
        fits == host_fits(host@),
{
    let ascii = host.is_ascii();
    let bytes = host.as_bytes();
    proof {
        is_ascii_spec_bytes(host);
        vstd::slice::axiom_spec_len(bytes);
    }
    ascii && bytes.len() <= MAX_HOST_LEN
}

/// The address of a host that can be announced is one for which a code is
/// drawn.
pub proof fn lemma_url_fits(host: Seq<char>)
    requires
        host_fits(host),
    ensures
        code_fits(url_text(host)),
{
    reveal_strlit("http://");
    reveal_strlit(":8080");
    let scheme = "http://"@;
    let port = ":8080"@;
    assert(is_ascii_chars(scheme)) by {
        assert forall|i: int| 0 <= i < scheme.len() implies '\0' <= #[trigger] scheme[i]
            <= '\u{7f}' by {}
    }
    assert(is_ascii_chars(port)) by {
        assert forall|i: int| 0 <= i < port.len() implies '\0' <= #[trigger] port[i] <= '\u{7f}' by {}
    }
    let url = url_text(host);
    assert forall|i: int| 0 <= i < url.len() implies '\0' <= #[trigger] url[i] <= '\u{7f}' by {
        if i < 7 {
            assert(url[i] == scheme[i]);
        } else if i < 7 + host.len() {
            assert(url[i] == host[i - 7]);
        } else {
            assert(url[i] == port[i - 7 - host.len()]);
        }
    }
}

/// The announcement for a server on the host `found`, or on the loopback
/// host where none was found. A host that is too long or not plain ASCII is
/// refused; otherwise it fails exactly where no code can hold the address.
pub fn announce(found: Option<String>) -> (result: Result<Announcement, AnnounceError>)
    ensures
        ({
            let host = host_text(
                match found {
                    Some(name) => Some(name@),
                    None => None,
                },
            );
            let url = url_text(host);
            if !host_fits(host) {
                result == Err::<Announcement, AnnounceError>(AnnounceError::HostUnfit)
            } else {
                match code_text(url) {
                    Some(picture) => {
                        &&& result matches Ok(announcement)
                        &&& announcement.url@ == url
                        &&& announcement.text@ == banner_text(url, picture)
                    },
                    None => result == Err::<Announcement, AnnounceError>(
                        AnnounceError::CodeUnavailable,
                    ),
                }
            }
        }),
{
    let host = host_or_loopback(found);
    if !check_host(host.as_str()) {
        return Err(AnnounceError::HostUnfit);
    }
    let url = url_for(host.as_str());
    proof {
        lemma_url_fits(host@);
    }
    let rendered = match render_code(url.as_str()) {
        Ok(picture) => Some(picture),
        Err(_) => None,
    };
    compose(url, rendered)
}

} // verus!
