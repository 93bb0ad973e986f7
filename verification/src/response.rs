//! HTTP responses: status, headers and body, and the text sent for them.
use vstd::prelude::*;
use crate::table::{StrMap, upsert, pairs_map, keys_distinct};
use crate::text::{to_chars, chars_to_string, append_chars};

verus! {

/// Response statuses.
#[derive(Clone, Copy)]
pub enum StatusCode {
    // Informational
    Continue,
    SwitchingProtocols,
    Processing,
    EarlyHints,

    // Success
    OK,
    Created,
    Accepted,
    NonAuthoritativeInformation,
    NoContent,
    ResetContent,
    PartialContent,
    MultiStatus,
    AlreadyReported,
    IMUsed,

    // Redirection
    MultipleChoices,
    MovedPermanently,
    Found,
    MovedTemporarily,
    SeeOther,
    NotModified,
    UseProxy,
    SwitchProxy,
    TemporaryRedirect,
    PermanentRedirect,

    // Client errors
    BadRequest,
    Unauthorized,
    PaymentRequired,
    Forbidden,
    NotFound,
    MethodNotAllowed,
    NotAcceptable,
    ProxyAuthenticationRequired,
    RequestTimeout,
    Conflict,
    Gone,
    LengthRequired,
    PreconditionFailed,
    PayloadTooLarge,
    URITooLong,
    UnsupportedMediaType,
    RangeNotSatisfiable,
    ExpectationFailed,
    ImTeapot,
    AuthenticationTimeout,
    MisdirectedRequest,
    UnprocessableEntity,
    Locked,
    FailedDependency,
    TooEarly,
    UpgradeRequired,
    PreconditionRequired,
    TooManyRequests,
    RequestHeaderFieldsTooLarge,
    RetryWith,
    UnavailableForLegalReasons,
    ClientClosedRequest,

    // Server errors
    InternalServerError,
    NotImplemented,
    BadGateway,
    ServiceUnavailable,
    GatewayTimeout,
    HTTPVersionNotSupported,
    VariantAlsoNegotiates,
    InsufficientStorage,
    LoopDetected,
    BandwidthLimitExceeded,
    NotExtended,
    NetworkAuthenticationRequired,
    UnknownError,
    WebServerIsDown,
    ConnectionTimedOut,
    OriginIsUnreachable,
    TimeoutOccurred,
    SSLHandshakeFailed,
    InvalidSSLCertificate,
}

/// The status line text of `code`: its number and reason phrase.
pub open spec fn status_text(code: StatusCode) -> Seq<char> {
    match code {
            StatusCode::Continue => "100 Continue"@,
            StatusCode::SwitchingProtocols => "101 Switching Protocols"@,
            StatusCode::Processing => "102 Processing"@,
            StatusCode::EarlyHints => "103 Early Hints"@,
            StatusCode::OK => "200 OK"@,
            StatusCode::Created => "201 Created"@,
            StatusCode::Accepted => "202 Accepted"@,
            StatusCode::NonAuthoritativeInformation => "203 Non-Authoritative Information"@,
            StatusCode::NoContent => "204 No Content"@,
            StatusCode::ResetContent => "205 Reset Content"@,
            StatusCode::PartialContent => "206 Partial Content"@,
            StatusCode::MultiStatus => "207 Multi-Status"@,
            StatusCode::AlreadyReported => "208 Already Reported"@,
            StatusCode::IMUsed => "226 IM Used"@,
            StatusCode::MultipleChoices => "300 Multiple Choices"@,
            StatusCode::MovedPermanently => "301 Moved Permanently"@,
            StatusCode::Found => "302 Found"@,
            StatusCode::MovedTemporarily => "302 Moved Temporarily"@,
            StatusCode::SeeOther => "303 See Other"@,
            StatusCode::NotModified => "304 Not Modified"@,
            StatusCode::UseProxy => "305 Use Proxy"@,
            StatusCode::SwitchProxy => "306 Switch Proxy"@,
            StatusCode::TemporaryRedirect => "307 Temporary Redirect"@,
            StatusCode::PermanentRedirect => "308 Permanent Redirect"@,
            StatusCode::BadRequest => "400 Bad Request"@,
            StatusCode::Unauthorized => "401 Unauthorized"@,
            StatusCode::PaymentRequired => "402 Payment Required"@,
            StatusCode::Forbidden => "403 Forbidden"@,
            StatusCode::NotFound => "404 Not Found"@,
            StatusCode::MethodNotAllowed => "405 Method Not Allowed"@,
            StatusCode::NotAcceptable => "406 Not Acceptable"@,
            StatusCode::ProxyAuthenticationRequired => "407 Proxy Authentication Required"@,
            StatusCode::RequestTimeout => "408 Request Timeout"@,
            StatusCode::Conflict => "409 Conflict"@,
            StatusCode::Gone => "410 Gone"@,
            StatusCode::LengthRequired => "411 Length Required"@,
            StatusCode::PreconditionFailed => "412 Precondition Failed"@,
            StatusCode::PayloadTooLarge => "413 Payload Too Large"@,
            StatusCode::URITooLong => "414 URI Too Long"@,
            StatusCode::UnsupportedMediaType => "415 Unsupported Media Type"@,
            StatusCode::RangeNotSatisfiable => "416 Range Not Satisfiable"@,
            StatusCode::ExpectationFailed => "417 Expectation Failed"@,
            StatusCode::ImTeapot => "418 I'm a teapot "@,
            StatusCode::AuthenticationTimeout => "419 Authentication Timeout"@,
            StatusCode::MisdirectedRequest => "421 Misdirected Request"@,
            StatusCode::UnprocessableEntity => "422 Unprocessable Entity"@,
            StatusCode::Locked => "423 Locked"@,
            StatusCode::FailedDependency => "424 Failed Dependency"@,
            StatusCode::TooEarly => "425 Too Early"@,
            StatusCode::UpgradeRequired => "426 Upgrade Required"@,
            StatusCode::PreconditionRequired => "428 Precondition Required"@,
            StatusCode::TooManyRequests => "429 Too Many Requests"@,
            StatusCode::RequestHeaderFieldsTooLarge => "431 Request Header Fields Too Large"@,
            StatusCode::RetryWith => "449 Retry With"@,
            StatusCode::UnavailableForLegalReasons => "451 Unavailable For Legal Reasons"@,
            StatusCode::ClientClosedRequest => "499 Client Closed Request"@,
            StatusCode::InternalServerError => "500 Internal Server Error"@,
            StatusCode::NotImplemented => "501 Not Implemented"@,
            StatusCode::BadGateway => "502 Bad Gateway"@,
            StatusCode::ServiceUnavailable => "503 Service Unavailable"@,
            StatusCode::GatewayTimeout => "504 Gateway Timeout"@,
            StatusCode::HTTPVersionNotSupported => "505 HTTP Version Not Supported"@,
            StatusCode::VariantAlsoNegotiates => "506 Variant Also Negotiates"@,
            StatusCode::InsufficientStorage => "507 Insufficient Storage"@,
            StatusCode::LoopDetected => "508 Loop Detected"@,
            StatusCode::BandwidthLimitExceeded => "509 Bandwidth Limit Exceeded"@,
            StatusCode::NotExtended => "510 Not Extended"@,
            StatusCode::NetworkAuthenticationRequired => "511 Network Authentication Required"@,
            StatusCode::UnknownError => "520 Unknown Error"@,
            StatusCode::WebServerIsDown => "521 Web Server Is Down"@,
            StatusCode::ConnectionTimedOut => "522 Connection Timed Out"@,
            StatusCode::OriginIsUnreachable => "523 Origin Is Unreachable"@,
            StatusCode::TimeoutOccurred => "524 A Timeout Occurred"@,
            StatusCode::SSLHandshakeFailed => "525 SSL Handshake Failed"@,
            StatusCode::InvalidSSLCertificate => "526 Invalid SSL Certificate"@,
    }
}

/// The number of a status code, as its text begins.
pub open spec fn status_number(code: StatusCode) -> int {
    match code {
        StatusCode::Continue => 100,
        StatusCode::SwitchingProtocols => 101,
        StatusCode::Processing => 102,
        StatusCode::EarlyHints => 103,
        StatusCode::OK => 200,
        StatusCode::Created => 201,
        StatusCode::Accepted => 202,
        StatusCode::NonAuthoritativeInformation => 203,
        StatusCode::NoContent => 204,
        StatusCode::ResetContent => 205,
        StatusCode::PartialContent => 206,
        StatusCode::MultiStatus => 207,
        StatusCode::AlreadyReported => 208,
        StatusCode::IMUsed => 226,
        StatusCode::MultipleChoices => 300,
        StatusCode::MovedPermanently => 301,
        StatusCode::Found => 302,
        StatusCode::MovedTemporarily => 302,
        StatusCode::SeeOther => 303,
        StatusCode::NotModified => 304,
        StatusCode::UseProxy => 305,
        StatusCode::SwitchProxy => 306,
        StatusCode::TemporaryRedirect => 307,
        StatusCode::PermanentRedirect => 308,
        StatusCode::BadRequest => 400,
        StatusCode::Unauthorized => 401,
        StatusCode::PaymentRequired => 402,
        StatusCode::Forbidden => 403,
        StatusCode::NotFound => 404,
        StatusCode::MethodNotAllowed => 405,
        StatusCode::NotAcceptable => 406,
        StatusCode::ProxyAuthenticationRequired => 407,
        StatusCode::RequestTimeout => 408,
        StatusCode::Conflict => 409,
        StatusCode::Gone => 410,
        StatusCode::LengthRequired => 411,
        StatusCode::PreconditionFailed => 412,
        StatusCode::PayloadTooLarge => 413,
        StatusCode::URITooLong => 414,
        StatusCode::UnsupportedMediaType => 415,
        StatusCode::RangeNotSatisfiable => 416,
        StatusCode::ExpectationFailed => 417,
        StatusCode::ImTeapot => 418,
        StatusCode::AuthenticationTimeout => 419,
        StatusCode::MisdirectedRequest => 421,
        StatusCode::UnprocessableEntity => 422,
        StatusCode::Locked => 423,
        StatusCode::FailedDependency => 424,
        StatusCode::TooEarly => 425,
        StatusCode::UpgradeRequired => 426,
        StatusCode::PreconditionRequired => 428,
        StatusCode::TooManyRequests => 429,
        StatusCode::RequestHeaderFieldsTooLarge => 431,
        StatusCode::RetryWith => 449,
        StatusCode::UnavailableForLegalReasons => 451,
        StatusCode::ClientClosedRequest => 499,
        StatusCode::InternalServerError => 500,
        StatusCode::NotImplemented => 501,
        StatusCode::BadGateway => 502,
        StatusCode::ServiceUnavailable => 503,
        StatusCode::GatewayTimeout => 504,
        StatusCode::HTTPVersionNotSupported => 505,
        StatusCode::VariantAlsoNegotiates => 506,
        StatusCode::InsufficientStorage => 507,
        StatusCode::LoopDetected => 508,
        StatusCode::BandwidthLimitExceeded => 509,
        StatusCode::NotExtended => 510,
        StatusCode::NetworkAuthenticationRequired => 511,
        StatusCode::UnknownError => 520,
        StatusCode::WebServerIsDown => 521,
        StatusCode::ConnectionTimedOut => 522,
        StatusCode::OriginIsUnreachable => 523,
        StatusCode::TimeoutOccurred => 524,
        StatusCode::SSLHandshakeFailed => 525,
        StatusCode::InvalidSSLCertificate => 526,
    }
}

/// The value of a decimal digit character.
pub open spec fn digit_value(c: char) -> int {
    c as int - '0' as int
}

/// Every status text is three decimal digits spelling the code's number, a
/// space, and a non-empty reason phrase.
pub proof fn law_status_text_form(code: StatusCode)
    ensures
        status_text(code).len() >= 5,
        forall|i: int| 0 <= i < 3 ==> '0' <= #[trigger] status_text(code)[i] <= '9',
        digit_value(status_text(code)[0]) * 100 + digit_value(status_text(code)[1]) * 10
            + digit_value(status_text(code)[2]) == status_number(code),
        status_text(code)[3] == ' ',
{
    match code {
        StatusCode::Continue => {
            reveal_strlit("100 Continue");
        },
        StatusCode::SwitchingProtocols => {
            reveal_strlit("101 Switching Protocols");
        },
        StatusCode::Processing => {
            reveal_strlit("102 Processing");
        },
        StatusCode::EarlyHints => {
            reveal_strlit("103 Early Hints");
        },
        StatusCode::OK => {
            reveal_strlit("200 OK");
        },
        StatusCode::Created => {
            reveal_strlit("201 Created");
        },
        StatusCode::Accepted => {
            reveal_strlit("202 Accepted");
        },
        StatusCode::NonAuthoritativeInformation => {
            reveal_strlit("203 Non-Authoritative Information");
        },
        StatusCode::NoContent => {
            reveal_strlit("204 No Content");
        },
        StatusCode::ResetContent => {
            reveal_strlit("205 Reset Content");
        },
        StatusCode::PartialContent => {
            reveal_strlit("206 Partial Content");
        },
        StatusCode::MultiStatus => {
            reveal_strlit("207 Multi-Status");
        },
        StatusCode::AlreadyReported => {
            reveal_strlit("208 Already Reported");
        },
        StatusCode::IMUsed => {
            reveal_strlit("226 IM Used");
        },
        StatusCode::MultipleChoices => {
            reveal_strlit("300 Multiple Choices");
        },
        StatusCode::MovedPermanently => {
            reveal_strlit("301 Moved Permanently");
        },
        StatusCode::Found => {
            reveal_strlit("302 Found");
        },
        StatusCode::MovedTemporarily => {
            reveal_strlit("302 Moved Temporarily");
        },
        StatusCode::SeeOther => {
            reveal_strlit("303 See Other");
        },
        StatusCode::NotModified => {
            reveal_strlit("304 Not Modified");
        },
        StatusCode::UseProxy => {
            reveal_strlit("305 Use Proxy");
        },
        StatusCode::SwitchProxy => {
            reveal_strlit("306 Switch Proxy");
        },
        StatusCode::TemporaryRedirect => {
            reveal_strlit("307 Temporary Redirect");
        },
        StatusCode::PermanentRedirect => {
            reveal_strlit("308 Permanent Redirect");
        },
        StatusCode::BadRequest => {
            reveal_strlit("400 Bad Request");
        },
        StatusCode::Unauthorized => {
            reveal_strlit("401 Unauthorized");
        },
        StatusCode::PaymentRequired => {
            reveal_strlit("402 Payment Required");
        },
        StatusCode::Forbidden => {
            reveal_strlit("403 Forbidden");
        },
        StatusCode::NotFound => {
            reveal_strlit("404 Not Found");
        },
        StatusCode::MethodNotAllowed => {
            reveal_strlit("405 Method Not Allowed");
        },
        StatusCode::NotAcceptable => {
            reveal_strlit("406 Not Acceptable");
        },
        StatusCode::ProxyAuthenticationRequired => {
            reveal_strlit("407 Proxy Authentication Required");
        },
        StatusCode::RequestTimeout => {
            reveal_strlit("408 Request Timeout");
        },
        StatusCode::Conflict => {
            reveal_strlit("409 Conflict");
        },
        StatusCode::Gone => {
            reveal_strlit("410 Gone");
        },
        StatusCode::LengthRequired => {
            reveal_strlit("411 Length Required");
        },
        StatusCode::PreconditionFailed => {
            reveal_strlit("412 Precondition Failed");
        },
        StatusCode::PayloadTooLarge => {
            reveal_strlit("413 Payload Too Large");
        },
        StatusCode::URITooLong => {
            reveal_strlit("414 URI Too Long");
        },
        StatusCode::UnsupportedMediaType => {
            reveal_strlit("415 Unsupported Media Type");
        },
        StatusCode::RangeNotSatisfiable => {
            reveal_strlit("416 Range Not Satisfiable");
        },
        StatusCode::ExpectationFailed => {
            reveal_strlit("417 Expectation Failed");
        },
        StatusCode::ImTeapot => {
            reveal_strlit("418 I'm a teapot ");
        },
        StatusCode::AuthenticationTimeout => {
            reveal_strlit("419 Authentication Timeout");
        },
        StatusCode::MisdirectedRequest => {
            reveal_strlit("421 Misdirected Request");
        },
        StatusCode::UnprocessableEntity => {
            reveal_strlit("422 Unprocessable Entity");
        },
        StatusCode::Locked => {
            reveal_strlit("423 Locked");
        },
        StatusCode::FailedDependency => {
            reveal_strlit("424 Failed Dependency");
        },
        StatusCode::TooEarly => {
            reveal_strlit("425 Too Early");
        },
        StatusCode::UpgradeRequired => {
            reveal_strlit("426 Upgrade Required");
        },
        StatusCode::PreconditionRequired => {
            reveal_strlit("428 Precondition Required");
        },
        StatusCode::TooManyRequests => {
            reveal_strlit("429 Too Many Requests");
        },
        StatusCode::RequestHeaderFieldsTooLarge => {
            reveal_strlit("431 Request Header Fields Too Large");
        },
        StatusCode::RetryWith => {
            reveal_strlit("449 Retry With");
        },
        StatusCode::UnavailableForLegalReasons => {
            reveal_strlit("451 Unavailable For Legal Reasons");
        },
        StatusCode::ClientClosedRequest => {
            reveal_strlit("499 Client Closed Request");
        },
        StatusCode::InternalServerError => {
            reveal_strlit("500 Internal Server Error");
        },
        StatusCode::NotImplemented => {
            reveal_strlit("501 Not Implemented");
        },
        StatusCode::BadGateway => {
            reveal_strlit("502 Bad Gateway");
        },
        StatusCode::ServiceUnavailable => {
            reveal_strlit("503 Service Unavailable");
        },
        StatusCode::GatewayTimeout => {
            reveal_strlit("504 Gateway Timeout");
        },
        StatusCode::HTTPVersionNotSupported => {
            reveal_strlit("505 HTTP Version Not Supported");
        },
        StatusCode::VariantAlsoNegotiates => {
            reveal_strlit("506 Variant Also Negotiates");
        },
        StatusCode::InsufficientStorage => {
            reveal_strlit("507 Insufficient Storage");
        },
        StatusCode::LoopDetected => {
            reveal_strlit("508 Loop Detected");
        },
        StatusCode::BandwidthLimitExceeded => {
            reveal_strlit("509 Bandwidth Limit Exceeded");
        },
        StatusCode::NotExtended => {
            reveal_strlit("510 Not Extended");
        },
        StatusCode::NetworkAuthenticationRequired => {
            reveal_strlit("511 Network Authentication Required");
        },
        StatusCode::UnknownError => {
            reveal_strlit("520 Unknown Error");
        },
        StatusCode::WebServerIsDown => {
            reveal_strlit("521 Web Server Is Down");
        },
        StatusCode::ConnectionTimedOut => {
            reveal_strlit("522 Connection Timed Out");
        },
        StatusCode::OriginIsUnreachable => {
            reveal_strlit("523 Origin Is Unreachable");
        },
        StatusCode::TimeoutOccurred => {
            reveal_strlit("524 A Timeout Occurred");
        },
        StatusCode::SSLHandshakeFailed => {
            reveal_strlit("525 SSL Handshake Failed");
        },
        StatusCode::InvalidSSLCertificate => {
            reveal_strlit("526 Invalid SSL Certificate");
        },
    }
}

/// Different status codes have different texts.
pub proof fn law_status_texts_distinct(a: StatusCode, b: StatusCode)
    requires
        a != b,
    ensures
        status_text(a) != status_text(b),
{
    law_status_text_form(a);
    law_status_text_form(b);
    if status_number(a) == status_number(b) {
        assert((a == StatusCode::Found && b == StatusCode::MovedTemporarily) || (a
            == StatusCode::MovedTemporarily && b == StatusCode::Found));
        reveal_strlit("302 Found");
        reveal_strlit("302 Moved Temporarily");
        assert(status_text(a).len() != status_text(b).len());
    }
}

impl StatusCode {
    /// The status line text of this code.
    pub fn value(&self) -> (r: &'static str)
        ensures
            r@ == status_text(*self),
    {
        match *self {
                StatusCode::Continue => "100 Continue",
                StatusCode::SwitchingProtocols => "101 Switching Protocols",
                StatusCode::Processing => "102 Processing",
                StatusCode::EarlyHints => "103 Early Hints",
                StatusCode::OK => "200 OK",
                StatusCode::Created => "201 Created",
                StatusCode::Accepted => "202 Accepted",
                StatusCode::NonAuthoritativeInformation => "203 Non-Authoritative Information",
                StatusCode::NoContent => "204 No Content",
                StatusCode::ResetContent => "205 Reset Content",
                StatusCode::PartialContent => "206 Partial Content",
                StatusCode::MultiStatus => "207 Multi-Status",
                StatusCode::AlreadyReported => "208 Already Reported",
                StatusCode::IMUsed => "226 IM Used",
                StatusCode::MultipleChoices => "300 Multiple Choices",
                StatusCode::MovedPermanently => "301 Moved Permanently",
                StatusCode::Found => "302 Found",
                StatusCode::MovedTemporarily => "302 Moved Temporarily",
                StatusCode::SeeOther => "303 See Other",
                StatusCode::NotModified => "304 Not Modified",
                StatusCode::UseProxy => "305 Use Proxy",
                StatusCode::SwitchProxy => "306 Switch Proxy",
                StatusCode::TemporaryRedirect => "307 Temporary Redirect",
                StatusCode::PermanentRedirect => "308 Permanent Redirect",
                StatusCode::BadRequest => "400 Bad Request",
                StatusCode::Unauthorized => "401 Unauthorized",
                StatusCode::PaymentRequired => "402 Payment Required",
                StatusCode::Forbidden => "403 Forbidden",
                StatusCode::NotFound => "404 Not Found",
                StatusCode::MethodNotAllowed => "405 Method Not Allowed",
                StatusCode::NotAcceptable => "406 Not Acceptable",
                StatusCode::ProxyAuthenticationRequired => "407 Proxy Authentication Required",
                StatusCode::RequestTimeout => "408 Request Timeout",
                StatusCode::Conflict => "409 Conflict",
                StatusCode::Gone => "410 Gone",
                StatusCode::LengthRequired => "411 Length Required",
                StatusCode::PreconditionFailed => "412 Precondition Failed",
                StatusCode::PayloadTooLarge => "413 Payload Too Large",
                StatusCode::URITooLong => "414 URI Too Long",
                StatusCode::UnsupportedMediaType => "415 Unsupported Media Type",
                StatusCode::RangeNotSatisfiable => "416 Range Not Satisfiable",
                StatusCode::ExpectationFailed => "417 Expectation Failed",
                StatusCode::ImTeapot => "418 I'm a teapot ",
                StatusCode::AuthenticationTimeout => "419 Authentication Timeout",
                StatusCode::MisdirectedRequest => "421 Misdirected Request",
                StatusCode::UnprocessableEntity => "422 Unprocessable Entity",
                StatusCode::Locked => "423 Locked",
                StatusCode::FailedDependency => "424 Failed Dependency",
                StatusCode::TooEarly => "425 Too Early",
                StatusCode::UpgradeRequired => "426 Upgrade Required",
                StatusCode::PreconditionRequired => "428 Precondition Required",
                StatusCode::TooManyRequests => "429 Too Many Requests",
                StatusCode::RequestHeaderFieldsTooLarge => "431 Request Header Fields Too Large",
                StatusCode::RetryWith => "449 Retry With",
                StatusCode::UnavailableForLegalReasons => "451 Unavailable For Legal Reasons",
                StatusCode::ClientClosedRequest => "499 Client Closed Request",
                StatusCode::InternalServerError => "500 Internal Server Error",
                StatusCode::NotImplemented => "501 Not Implemented",
                StatusCode::BadGateway => "502 Bad Gateway",
                StatusCode::ServiceUnavailable => "503 Service Unavailable",
                StatusCode::GatewayTimeout => "504 Gateway Timeout",
                StatusCode::HTTPVersionNotSupported => "505 HTTP Version Not Supported",
                StatusCode::VariantAlsoNegotiates => "506 Variant Also Negotiates",
                StatusCode::InsufficientStorage => "507 Insufficient Storage",
                StatusCode::LoopDetected => "508 Loop Detected",
                StatusCode::BandwidthLimitExceeded => "509 Bandwidth Limit Exceeded",
                StatusCode::NotExtended => "510 Not Extended",
                StatusCode::NetworkAuthenticationRequired => "511 Network Authentication Required",
                StatusCode::UnknownError => "520 Unknown Error",
                StatusCode::WebServerIsDown => "521 Web Server Is Down",
                StatusCode::ConnectionTimedOut => "522 Connection Timed Out",
                StatusCode::OriginIsUnreachable => "523 Origin Is Unreachable",
                StatusCode::TimeoutOccurred => "524 A Timeout Occurred",
                StatusCode::SSLHandshakeFailed => "525 SSL Handshake Failed",
                StatusCode::InvalidSSLCertificate => "526 Invalid SSL Certificate",
        }
    }
}

/// What a response holds: protocol, status text (or a raw first line set
/// as given), headers in the order they were first added, and body.
pub struct ResponseModel {
    pub protocol: Seq<char>,
    pub header: Seq<char>,
    pub header_is_raw: bool,
    pub headers: Seq<(Seq<char>, Seq<char>)>,
    pub body: Seq<char>,
}

/// Carriage return and line feed.
pub open spec fn crlf() -> Seq<char> {
    seq!['\r', '\n']
}

/// A header line `name: value`.
pub open spec fn header_line(kv: (Seq<char>, Seq<char>)) -> Seq<char> {
    kv.0 + seq![':', ' '] + kv.1
}

/// The items of `ls` with `sep` between each two.
pub open spec fn join(ls: Seq<Seq<char>>, sep: Seq<char>) -> Seq<char>
    decreases ls.len(),
{
    if ls.len() == 0 {
        Seq::empty()
    } else if ls.len() == 1 {
        ls[0]
    } else {
        join(ls.drop_last(), sep) + sep + ls.last()
    }
}

/// The first line of a response: a raw header as given, else `protocol
/// status`.
pub open spec fn first_line(r: ResponseModel) -> Seq<char> {
    if r.header_is_raw {
        r.header
    } else {
        r.protocol + seq![' '] + r.header
    }
}

/// The text of a response: the first line, the header lines, an empty line
/// and the body, lines ended by CRLF.
pub open spec fn render_spec(r: ResponseModel) -> Seq<char> {
    first_line(r) + crlf() + join(r.headers.map_values(|kv| header_line(kv)), crlf()) + crlf()
        + crlf() + r.body
}

/// A response under construction.
pub struct HttpResponse {
    header: String,
    header_is_raw: bool,
    headers: StrMap,
    body: String,
    protocol: String,
}

impl View for HttpResponse {
    type V = ResponseModel;

    closed spec fn view(&self) -> ResponseModel {
        ResponseModel {
            protocol: self.protocol@,
            header: self.header@,
            header_is_raw: self.header_is_raw,
            headers: self.headers.pairs(),
            body: self.body@,
        }
    }
}

impl HttpResponse {
    /// A `200 OK` response without headers or body, in `protocol`.
    pub fn new(protocol: &str) -> (r: Self)
        ensures
            r@ == (ResponseModel {
                protocol: protocol@,
                header: "200 OK"@,
                header_is_raw: false,
                headers: Seq::empty(),
                body: Seq::empty(),
            }),
            keys_distinct(r@.headers),
    {
        HttpResponse {
            header: "200 OK".to_owned(),
            header_is_raw: false,
            headers: StrMap::new(),
            body: String::new(),
            protocol: protocol.to_owned(),
        }
    }

    /// Sets the first line in raw form: `header` is sent as given, without
    /// the protocol in front.
    pub fn set_header(&mut self, header: &str)
        ensures
            final(self)@ == (ResponseModel { header: header@, header_is_raw: true, ..old(self)@ }),
    {
        self.header = header.to_owned();
        self.header_is_raw = true;
    }

    /// Replaces the status text with that of `status_code`.
    pub fn set_status_code(&mut self, status_code: StatusCode)
        ensures
            final(self)@ == (ResponseModel {
                header: status_text(status_code),
                header_is_raw: false,
                ..old(self)@
            }),
    {
        self.header = status_code.value().to_owned();
        self.header_is_raw = false;
    }

    /// Sets header `key` to `value`: a header already present keeps its
    /// place and takes the new value, a new one goes last.
    pub fn add_header(&mut self, key: &str, value: &str)
        ensures
            pairs_map(final(self)@.headers) == pairs_map(old(self)@.headers).insert(key@, value@),
            final(self)@.headers == upsert(old(self)@.headers, key@, value@),
            keys_distinct(final(self)@.headers),
            final(self)@.protocol == old(self)@.protocol,
            final(self)@.header == old(self)@.header,
            final(self)@.header_is_raw == old(self)@.header_is_raw,
            final(self)@.body == old(self)@.body,
    {
        let k = to_chars(key);
        self.headers.insert_chars(k, value.to_owned());
        proof {
            use_type_invariant(&self.headers);
        }
    }

    /// Replaces the body.
    pub fn write(&mut self, content: &str)
        ensures
            final(self)@ == (ResponseModel { body: content@, ..old(self)@ }),
    {
        self.body = content.to_owned();
    }

    /// The text of the response as it is sent.
    pub fn render(&self) -> (r: String)
        ensures
            r@ == render_spec(self@),
    {
        let ghost lines = self.headers.pairs().map_values(|kv| header_line(kv));
        let status = to_chars(self.header.as_str());
        let mut out: Vec<char>;
        if self.header_is_raw {
            out = status;
        } else {
            out = to_chars(self.protocol.as_str());
            out.push(' ');
            append_chars(&mut out, &status);
        }
        assert(out@ =~= first_line(self@));
        out.push('\r');
        out.push('\n');
        let ghost prefix = out@;
        let mut i: usize = 0;
        while i < self.headers.len()
            invariant
                i <= self.headers.pairs().len(),
                lines == self.headers.pairs().map_values(|kv| header_line(kv)),
                out@ == prefix + join(lines.take(i as int), crlf()),
            decreases self.headers.pairs().len() - i,
        {
            let ghost before = out@;
            if i > 0 {
                out.push('\r');
                out.push('\n');
            }
            let key = self.headers.key_at(i);
            append_chars(&mut out, key);
            out.push(':');
            out.push(' ');
            let value = to_chars(self.headers.value_at(i).as_str());
            append_chars(&mut out, &value);
            proof {
                let t = lines.take(i + 1);
                assert(t.drop_last() =~= lines.take(i as int));
                assert(t.last() == header_line(self.headers.pairs()[i as int]));
                if i == 0 {
                    assert(out@ =~= prefix + t[0]);
                } else {
                    assert(out@ =~= before + crlf() + t.last());
                }
            }
            i = i + 1;
        }
        assert(lines.take(self.headers.pairs().len() as int) =~= lines);
        out.push('\r');
        out.push('\n');
        out.push('\r');
        out.push('\n');
        let body = to_chars(self.body.as_str());
        append_chars(&mut out, &body);
        proof {
            assert(out@ =~= render_spec(self@));
        }
        chars_to_string(&out)
    }
}

/// Joining two non-empty lists is joining each and putting one separator
/// between the two results: every two neighbouring items are separated by
/// `sep`, wherever the lists are cut.
pub proof fn law_join_concat(a: Seq<Seq<char>>, b: Seq<Seq<char>>, sep: Seq<char>)
    requires
        a.len() > 0,
        b.len() > 0,
    ensures
        join(a + b, sep) == join(a, sep) + sep + join(b, sep),
    decreases b.len(),
{
    if b.len() == 1 {
        assert((a + b).drop_last() =~= a);
        assert((a + b).last() == b[0]);
    } else {
        law_join_concat(a, b.drop_last(), sep);
        assert((a + b).drop_last() =~= a + b.drop_last());
        assert((a + b).last() == b.last());
        assert(join(a + b, sep) =~= join(a, sep) + sep + join(b, sep));
    }
}

/// A join of a non-empty list begins with its first item and ends with
/// its last.
pub proof fn law_join_ends(ls: Seq<Seq<char>>, sep: Seq<char>)
    requires
        ls.len() > 0,
    ensures
        join(ls, sep).len() >= ls[0].len(),
        join(ls, sep).len() >= ls.last().len(),
        join(ls, sep).take(ls[0].len() as int) == ls[0],
        join(ls, sep).skip(join(ls, sep).len() - ls.last().len()) == ls.last(),
    decreases ls.len(),
{
    if ls.len() == 1 {
        assert(join(ls, sep).take(ls[0].len() as int) =~= ls[0]);
        assert(join(ls, sep).skip(0) =~= ls[0]);
    } else {
        let t = ls.drop_last();
        law_join_ends(t, sep);
        let j = join(t, sep);
        assert(t[0] == ls[0]);
        assert(join(ls, sep).take(ls[0].len() as int) =~= j.take(ls[0].len() as int));
        assert(join(ls, sep).skip(join(ls, sep).len() - ls.last().len()) =~= ls.last());
    }
}

/// In a rendered response every two neighbouring header lines are
/// separated by CRLF: for header `i` and the one after it, the text is the
/// first line and CRLF, then a part ending with line `i`, CRLF, a part
/// beginning with line `i + 1`, then the empty line and the body.
pub proof fn law_render_header_lines_separated(r: ResponseModel, i: int)
    requires
        0 <= i < r.headers.len() - 1,
    ensures
        ({
            let ls = r.headers.map_values(|kv: (Seq<char>, Seq<char>)| header_line(kv));
            let a = join(ls.take(i + 1), crlf());
            let b = join(ls.skip(i + 1), crlf());
            &&& render_spec(r) == first_line(r) + crlf() + a + crlf() + b + crlf() + crlf() + r.body
            &&& a.len() >= header_line(r.headers[i]).len()
            &&& a.skip(a.len() - header_line(r.headers[i]).len()) == header_line(r.headers[i])
            &&& b.take(header_line(r.headers[i + 1]).len() as int) == header_line(r.headers[i + 1])
        }),
{
    let ls = r.headers.map_values(|kv: (Seq<char>, Seq<char>)| header_line(kv));
    let x = ls.take(i + 1);
    let y = ls.skip(i + 1);
    assert(x + y =~= ls);
    law_join_concat(x, y, crlf());
    law_join_ends(x, crlf());
    law_join_ends(y, crlf());
    assert(x.last() == header_line(r.headers[i]));
    assert(y[0] == header_line(r.headers[i + 1]));
    let a = join(x, crlf());
    let b = join(y, crlf());
    assert(render_spec(r) =~= first_line(r) + crlf() + a + crlf() + b + crlf() + crlf() + r.body);
}

} // verus!
