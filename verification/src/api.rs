//! The SOAP envelope protocol and the upstream gateway's pure half:
//! building the request document and cookie header, and classifying an
//! upstream response into its result text or a typed error.

use vstd::prelude::*;
use vstd::string::{StrSliceExecFns, StringExecFns};
use vstd::utf8::encode_utf8;
use crate::base64::b64_encode_spec;
use crate::crypto::{AuthToken, CryptoError, RecordView};
use crate::api::gradebook::GradebookError;
use crate::text::{
    contains_seq, contains_exec, first_at, first_at_from, first_token, first_token_spec,
    find_seq, lemma_first_at_unique, lemma_first_at_from_unique, lemma_match_at_skip, match_at,
    push_all, replace_all, replace_all_spec, str_to_chars, chars_to_string,
};

pub mod documents;
pub mod gradebook;
pub mod school_info;
pub mod student_info;

verus! {

/// An upstream application error reported inside a transported response.
#[derive(Clone, Debug, PartialEq, Eq)]
pub struct RtError {
    pub error_message: String,
}

/// Every way a request can fail, mapped at the boundary to an HTTP status.
#[derive(Clone, Debug, PartialEq)]
pub enum ApiError {
    /// The upstream response could not be parsed; carries an obfuscated
    /// (base64) diagnostic so raw upstream text never leaks.
    Parsing(String),
    /// The gradebook transformer failed.
    Gradebook(GradebookError),
    /// The upstream service could not be reached; carries the transport
    /// error's text.
    Network(String),
    /// An upstream-reported application error, propagated verbatim.
    StudentVue(RtError),
    /// Username or password was empty.
    EmptyCredentials,
    /// An upstream internal fault whose message is meaningless to clients.
    Unknown,
    /// The token codec failed.
    Crypto(CryptoError),
    /// The upstream service rejects all methods.
    Maintainance,
    /// A malformed root request.
    InvalidRoot,
    /// The authorization credential was malformed or unusable.
    InvalidCredentials,
    /// No upstream access key could be obtained.
    AccessKey,
    /// The presented token has expired.
    ExpiredKey,
    /// The upstream security handshake failed.
    NoSecureResponse,
}

/// Encodes text as base64, obfuscating diagnostics that may hold upstream
/// payload content.
pub fn base64_mangle(inp: &str) -> (r: String)
    ensures
        r@ == b64_encode_spec(encode_utf8(inp@)),
{
    let bytes = inp.as_bytes_vec();
    let chars = crate::base64::b64_encode(&bytes);
    chars_to_string(&chars)
}

/// The HTTP status class each error maps to: client errors for bad input
/// and upstream-reported failures, server errors for everything else.
pub open spec fn status_of(e: ApiError) -> u16 {
    match e {
        ApiError::StudentVue(_) => 400,
        ApiError::EmptyCredentials => 400,
        ApiError::InvalidCredentials => 401,
        ApiError::Crypto(c) => match c {
            CryptoError::InvalidCipher(_) => 400,
            CryptoError::CryptError => 400,
            CryptoError::InvalidKey => 500,
            CryptoError::Nokey => 500,
        },
        _ => 500,
    }
}

impl ApiError {
    /// The HTTP status this error maps to.
    pub fn status_code(&self) -> (r: u16)
        ensures
            r == status_of(*self),
    {
        match self {
            ApiError::StudentVue(_) | ApiError::EmptyCredentials => 400,
            ApiError::InvalidCredentials => 401,
            ApiError::Crypto(c) => match c {
                CryptoError::InvalidCipher(_) | CryptoError::CryptError => 400,
                CryptoError::InvalidKey | CryptoError::Nokey => 500,
            },
            _ => 500,
        }
    }
}

/// The message shown for each error.
pub open spec fn message_of(e: ApiError) -> Seq<char> {
    match e {
        ApiError::Parsing(m) => "Cannot parse response: "@ + m@,
        ApiError::Gradebook(g) => "Unable to load Gradebook, message: "@
            + crate::api::gradebook::gb_message_of(g),
        ApiError::Network(_) => "Unable to reach StudentVue"@,
        ApiError::StudentVue(rt) => rt.error_message@,
        ApiError::EmptyCredentials => "Username or password is empty"@,
        ApiError::Unknown => "Unknown error (code: x_dll)"@,
        ApiError::Crypto(c) => crate::crypto::crypto_message_of(c),
        ApiError::Maintainance => "StudentVue is currently undergoing maintenance"@,
        ApiError::InvalidRoot => "Invalid root req"@,
        ApiError::InvalidCredentials => "Invalid credentials provided"@,
        ApiError::AccessKey => "Unable to create access key"@,
        ApiError::ExpiredKey => "This key has expired"@,
        ApiError::NoSecureResponse => "Security failed - do you have a user agent?"@,
    }
}

impl ApiError {
    /// The message shown for this error, as the boundary serves it.
    pub fn message(&self) -> (r: String)
        ensures
            r@ == message_of(*self),
    {
        match self {
            ApiError::Parsing(m) => {
                let mut s = String::from_str("Cannot parse response: ");
                s.append(m.as_str());
                s
            },
            ApiError::Gradebook(g) => {
                let mut s = String::from_str("Unable to load Gradebook, message: ");
                s.append(g.message().as_str());
                s
            },
            ApiError::Network(_) => String::from_str("Unable to reach StudentVue"),
            ApiError::StudentVue(rt) => self_string(&rt.error_message),
            ApiError::EmptyCredentials => String::from_str("Username or password is empty"),
            ApiError::Unknown => String::from_str("Unknown error (code: x_dll)"),
            ApiError::Crypto(c) => c.message(),
            ApiError::Maintainance => String::from_str(
                "StudentVue is currently undergoing maintenance",
            ),
            ApiError::InvalidRoot => String::from_str("Invalid root req"),
            ApiError::InvalidCredentials => String::from_str("Invalid credentials provided"),
            ApiError::AccessKey => String::from_str("Unable to create access key"),
            ApiError::ExpiredKey => String::from_str("This key has expired"),
            ApiError::NoSecureResponse => String::from_str(
                "Security failed - do you have a user agent?",
            ),
        }
    }
}

/// The request half of the envelope body.
pub struct SoapBodyRequest {
    pub process_web_service_request: ProcessWebServiceRequest,
}

/// The response half of the envelope body.
pub struct SoapBodyResponse {
    pub process_web_service_request_response: ProcessWebServiceRequestResponse,
}

/// The upstream method call carried inside a request envelope.
#[derive(Clone, Debug)]
pub struct ProcessWebServiceRequest {
    pub xmlns: String,
    pub user_id: String,
    pub password: String,
    pub skip_login_log: String,
    pub parent: String,
    pub web_service_handle_name: String,
    pub method_name: String,
    pub param_str: String,
}

/// The response wrapper whose single field holds the inner XML payload.
pub struct ProcessWebServiceRequestResponse {
    pub xmlns: String,
    pub process_web_service_request_result: String,
}

/// The envelope wrapper with its three fixed namespace declarations.
pub struct SoapEnvelope<T> {
    pub xmlns_xsi: String,
    pub xmlns_xsd: String,
    pub xmlns_soap: String,
    pub soap_body: T,
}

impl ProcessWebServiceRequest {
    /// A call with the fixed handle and flags, and the parameters wrapped
    /// in the `Parms` fragment.
    fn up_default(user_id: String, password: String, method_name: String, params: String) -> (r:
        ProcessWebServiceRequest)
        ensures
            r.xmlns@ == "http://edupoint.com/webservices/"@,
            r.user_id@ == user_id@,
            r.password@ == password@,
            r.skip_login_log@ == "1"@,
            r.parent@ == "0"@,
            r.web_service_handle_name@ == "PXPWebServices"@,
            r.method_name@ == method_name@,
            r.param_str@ == "<Parms><ChildIntID>0</ChildIntID>"@ + params@ + "</Parms>"@,
    {
        let mut param_str = String::from_str("<Parms><ChildIntID>0</ChildIntID>");
        param_str.append(params.as_str());
        param_str.append("</Parms>");
        ProcessWebServiceRequest {
            xmlns: String::from_str("http://edupoint.com/webservices/"),
            user_id,
            password,
            skip_login_log: String::from_str("1"),
            parent: String::from_str("0"),
            web_service_handle_name: String::from_str("PXPWebServices"),
            method_name,
            param_str,
        }
    }

    /// A call on behalf of the session record's credentials.
    pub fn ck_default(method_name: String, params: String, token: &AuthToken) -> (r:
        ProcessWebServiceRequest)
        ensures
            r.xmlns@ == "http://edupoint.com/webservices/"@,
            r.user_id@ == token@.username,
            r.password@ == token@.password,
            r.skip_login_log@ == "1"@,
            r.parent@ == "0"@,
            r.web_service_handle_name@ == "PXPWebServices"@,
            r.method_name@ == method_name@,
            r.param_str@ == "<Parms><ChildIntID>0</ChildIntID>"@ + params@ + "</Parms>"@,
    {
        ProcessWebServiceRequest::up_default(
            self_string(&token.username),
            self_string(&token.password),
            method_name,
            params,
        )
    }
}

/// A copy of a string's text.
fn self_string(s: &String) -> (r: String)
    ensures
        r@ == s@,
{
    String::from_str(s.as_str())
}

/// The replacement text for one character in element text: the five XML
/// entities, everything else verbatim.
pub open spec fn esc_char(c: char) -> Seq<char> {
    if c == '&' {
        "&amp;"@
    } else if c == '<' {
        "&lt;"@
    } else if c == '>' {
        "&gt;"@
    } else if c == '\'' {
        "&apos;"@
    } else if c == '"' {
        "&quot;"@
    } else {
        seq![c]
    }
}

/// Element text with the five XML entities escaped.
pub open spec fn escape_xml_spec(s: Seq<char>) -> Seq<char>
    decreases s.len(),
{
    if s.len() == 0 {
        Seq::empty()
    } else {
        esc_char(s[0]) + escape_xml_spec(s.drop_first())
    }
}

/// Escapes element text.
pub fn escape_xml(v: &Vec<char>) -> (out: Vec<char>)
    ensures
        out@ == escape_xml_spec(v@),
{
    let amp = str_to_chars("&amp;");
    let lt = str_to_chars("&lt;");
    let gt = str_to_chars("&gt;");
    let apos = str_to_chars("&apos;");
    let quot = str_to_chars("&quot;");
    let vl = v.len();
    let mut out: Vec<char> = Vec::new();
    let mut i: usize = 0;
    assert(v@.skip(0) =~= v@);
    assert(out@ + escape_xml_spec(v@) =~= escape_xml_spec(v@));
    while i < vl
        invariant
            vl == v@.len(),
            0 <= i <= vl,
            amp@ == "&amp;"@ && lt@ == "&lt;"@ && gt@ == "&gt;"@ && apos@ == "&apos;"@ && quot@
                == "&quot;"@,
            escape_xml_spec(v@) == out@ + escape_xml_spec(v@.skip(i as int)),
        decreases vl - i,
    {
        let ghost tail = v@.skip(i as int);
        assert(tail[0] == v@[i as int]);
        assert(tail.drop_first() =~= v@.skip(i + 1));
        let c = v[i];
        if c == '&' {
            push_all(&mut out, &amp);
        } else if c == '<' {
            push_all(&mut out, &lt);
        } else if c == '>' {
            push_all(&mut out, &gt);
        } else if c == '\'' {
            push_all(&mut out, &apos);
        } else if c == '"' {
            push_all(&mut out, &quot);
        } else {
            out.push(c);
            assert(out@ =~= out@.take(out@.len() - 1) + seq![c]);
        }
        i += 1;
        assert(escape_xml_spec(v@) == out@ + escape_xml_spec(v@.skip(i as int)));
    }
    assert(v@.skip(vl as int) =~= Seq::<char>::empty());
    assert(out@ + Seq::<char>::empty() =~= out@);
    out
}

/// One escaped XML element: open tag, escaped text, close tag.
pub open spec fn elem_chars(open: Seq<char>, text: Seq<char>, close: Seq<char>) -> Seq<char> {
    open + escape_xml_spec(text) + close
}

/// The serialized method call element, with empty credentials omitted as
/// the upstream service expects.
pub open spec fn pwsr_chars(q: ProcessWebServiceRequest) -> Seq<char> {
    "<ProcessWebServiceRequest xmlns=\""@ + q.xmlns@ + "\">"@ + (if q.user_id@.len() == 0 {
        Seq::<char>::empty()
    } else {
        elem_chars("<userID>"@, q.user_id@, "</userID>"@)
    }) + (if q.password@.len() == 0 {
        Seq::<char>::empty()
    } else {
        elem_chars("<password>"@, q.password@, "</password>"@)
    }) + elem_chars("<skipLoginLog>"@, q.skip_login_log@, "</skipLoginLog>"@) + elem_chars(
        "<parent>"@,
        q.parent@,
        "</parent>"@,
    ) + elem_chars("<webServiceHandleName>"@, q.web_service_handle_name@,
        "</webServiceHandleName>"@) + elem_chars("<methodName>"@, q.method_name@,
        "</methodName>"@) + elem_chars("<paramStr>"@, q.param_str@, "</paramStr>"@)
        + "</ProcessWebServiceRequest>"@
}

/// The serialized envelope around a method call.
pub open spec fn envelope_chars(e: SoapEnvelope<SoapBodyRequest>) -> Seq<char> {
    "<soap:Envelope xmlns:xsi=\""@ + e.xmlns_xsi@ + "\" xmlns:xsd=\""@ + e.xmlns_xsd@
        + "\" xmlns:soap=\""@ + e.xmlns_soap@ + "\"><soap:Body>"@ + pwsr_chars(
        e.soap_body.process_web_service_request,
    ) + "</soap:Body></soap:Envelope>"@
}

/// The whole request document: the XML declaration, then the envelope.
pub open spec fn envelope_document(e: SoapEnvelope<SoapBodyRequest>) -> Seq<char> {
    "<?xml version=\"1.0\" encoding=\"utf-8\"?>\n"@ + envelope_chars(e)
}

impl SoapEnvelope<SoapBodyRequest> {
    /// Wraps a method call in the envelope with its three fixed namespaces.
    pub fn new_request(body: ProcessWebServiceRequest) -> (r: SoapEnvelope<SoapBodyRequest>)
        ensures
            r.xmlns_xsi@ == "http://www.w3.org/2001/XMLSchema-instance"@,
            r.xmlns_xsd@ == "http://www.w3.org/2001/XMLSchema"@,
            r.xmlns_soap@ == "http://schemas.xmlsoap.org/soap/envelope/"@,
            r.soap_body.process_web_service_request == body,
    {
        SoapEnvelope {
            xmlns_soap: String::from_str("http://schemas.xmlsoap.org/soap/envelope/"),
            xmlns_xsi: String::from_str("http://www.w3.org/2001/XMLSchema-instance"),
            xmlns_xsd: String::from_str("http://www.w3.org/2001/XMLSchema"),
            soap_body: SoapBodyRequest { process_web_service_request: body },
        }
    }

    /// Serializes the envelope to the request document text.
    pub fn as_string(&self) -> (r: String)
        ensures
            r@ == envelope_document(*self),
    {
        let mut out: Vec<char> = Vec::new();
        push_text(&mut out, "<?xml version=\"1.0\" encoding=\"utf-8\"?>\n");
        push_text(&mut out, "<soap:Envelope xmlns:xsi=\"");
        push_text(&mut out, self.xmlns_xsi.as_str());
        push_text(&mut out, "\" xmlns:xsd=\"");
        push_text(&mut out, self.xmlns_xsd.as_str());
        push_text(&mut out, "\" xmlns:soap=\"");
        push_text(&mut out, self.xmlns_soap.as_str());
        push_text(&mut out, "\"><soap:Body>");
        let body = render_pwsr(&self.soap_body.process_web_service_request);
        push_all(&mut out, &body);
        push_text(&mut out, "</soap:Body></soap:Envelope>");
        assert(out@ =~= envelope_document(*self));
        chars_to_string(&out)
    }
}

/// Appends literal or field text unescaped.
fn push_text(out: &mut Vec<char>, text: &str)
    ensures
        final(out)@ == old(out)@ + text@,
{
    push_all(out, &str_to_chars(text));
}

/// Appends one element: open tag, escaped text, close tag.
fn push_elem(out: &mut Vec<char>, open: &str, text: &str, close: &str)
    ensures
        final(out)@ == old(out)@ + elem_chars(open@, text@, close@),
{
    let ghost prev = out@;
    push_all(out, &str_to_chars(open));
    push_all(out, &escape_xml(&str_to_chars(text)));
    push_all(out, &str_to_chars(close));
    assert(out@ =~= prev + elem_chars(open@, text@, close@));
}

/// Renders the method call element.
fn render_pwsr(q: &ProcessWebServiceRequest) -> (out: Vec<char>)
    ensures
        out@ == pwsr_chars(*q),
{
    let mut out: Vec<char> = Vec::new();
    push_text(&mut out, "<ProcessWebServiceRequest xmlns=\"");
    push_text(&mut out, q.xmlns.as_str());
    push_text(&mut out, "\">");
    if !q.user_id.as_str().is_empty() {
        push_elem(&mut out, "<userID>", q.user_id.as_str(), "</userID>");
    }
    if !q.password.as_str().is_empty() {
        push_elem(&mut out, "<password>", q.password.as_str(), "</password>");
    }
    push_elem(&mut out, "<skipLoginLog>", q.skip_login_log.as_str(), "</skipLoginLog>");
    push_elem(&mut out, "<parent>", q.parent.as_str(), "</parent>");
    push_elem(&mut out, "<webServiceHandleName>", q.web_service_handle_name.as_str(),
        "</webServiceHandleName>");
    push_elem(&mut out, "<methodName>", q.method_name.as_str(), "</methodName>");
    push_elem(&mut out, "<paramStr>", q.param_str.as_str(), "</paramStr>");
    push_text(&mut out, "</ProcessWebServiceRequest>");
    assert(out@ =~= pwsr_chars(*q));
    out
}

/// The bounds of a span: the first occurrence of `open`, and the first
/// occurrence of `close` after it.
pub open spec fn span_bounds(
    body: Seq<char>,
    open: Seq<char>,
    close: Seq<char>,
    i: int,
    j: int,
) -> bool {
    first_at(body, open, i) && first_at_from(body, close, i + open.len(), j)
}

/// Whether `body` holds an `open` tag with a `close` after it.
pub open spec fn span_extractable(body: Seq<char>, open: Seq<char>, close: Seq<char>) -> bool {
    exists|i: int, j: int| span_bounds(body, open, close, i, j)
}

/// The text between the first `open` and the first `close` after it;
/// meaningful when extractable.
pub open spec fn span_inner(body: Seq<char>, open: Seq<char>, close: Seq<char>) -> Seq<char> {
    let (i, j) = choose|i: int, j: int| span_bounds(body, open, close, i, j);
    body.subrange(i + open.len(), j)
}

/// Span bounds are unique.
pub proof fn lemma_span_bounds_unique(
    body: Seq<char>,
    open: Seq<char>,
    close: Seq<char>,
    i1: int,
    j1: int,
    i2: int,
    j2: int,
)
    requires
        span_bounds(body, open, close, i1, j1),
        span_bounds(body, open, close, i2, j2),
    ensures
        i1 == i2,
        j1 == j2,
{
    lemma_first_at_unique(body, open, i1, i2);
    lemma_first_at_from_unique(body, close, i1 + open.len(), j1, j2);
}

/// Extracts the text between the first `open` and the first `close` after
/// it, or nothing when the pair is absent.
pub fn extract_span(body: &Vec<char>, open: &Vec<char>, close: &Vec<char>) -> (r: Option<
    Vec<char>,
>)
    requires
        open@.len() > 0,
        close@.len() > 0,
    ensures
        match r {
            Some(x) => span_extractable(body@, open@, close@) && x@ == span_inner(
                body@,
                open@,
                close@,
            ),
            None => !span_extractable(body@, open@, close@),
        },
{
    let bl = body.len();
    let i = match find_seq(body, open) {
        Some(i) => i,
        None => {
            proof {
                if span_extractable(body@, open@, close@) {
                    let (i, j) = choose|i: int, j: int| span_bounds(body@, open@, close@, i, j);
                    assert(match_at(body@, open@, i));
                }
            }
            return None;
        },
    };
    assert(i + open@.len() <= bl);
    let from = i + open.len();
    let suffix: Vec<char> = vstd::slice::slice_to_vec(
        vstd::slice::slice_subrange(body.as_slice(), from, bl),
    );
    assert(suffix@ =~= body@.skip(from as int));
    match find_seq(&suffix, close) {
        Some(jj) => {
            let j = from + jj;
            proof {
                lemma_match_at_skip(body@, close@, from as int, jj as int);
                assert forall|k: int| from <= k < j implies !match_at(body@, close@, k) by {
                    lemma_match_at_skip(body@, close@, from as int, k - from);
                }
                assert(span_bounds(body@, open@, close@, i as int, j as int));
                let (ci, cj) = choose|ci: int, cj: int| span_bounds(body@, open@, close@, ci, cj);
                lemma_span_bounds_unique(body@, open@, close@, i as int, j as int, ci, cj);
            }
            let inner: Vec<char> = vstd::slice::slice_to_vec(
                vstd::slice::slice_subrange(body.as_slice(), from, j),
            );
            assert(inner@ =~= body@.subrange(from as int, j as int));
            Some(inner)
        },
        None => {
            proof {
                if span_extractable(body@, open@, close@) {
                    let (ci, cj) = choose|ci: int, cj: int| span_bounds(body@, open@, close@, ci, cj);
                    lemma_first_at_unique(body@, open@, i as int, ci);
                    lemma_match_at_skip(body@, close@, from as int, cj - from);
                    assert(match_at(suffix@, close@, cj - from));
                }
            }
            None
        },
    }
}

/// The five-entity unescape applied to envelope and attribute text, in
/// the fixed order apostrophe, quote, ampersand, less-than, greater-than.
pub open spec fn unescape_five(s: Seq<char>) -> Seq<char> {
    replace_all_spec(
        replace_all_spec(
            replace_all_spec(
                replace_all_spec(replace_all_spec(s, "&apos;"@, "'"@), "&quot;"@, "\""@),
                "&amp;"@,
                "&"@,
            ),
            "&lt;"@,
            "<"@,
        ),
        "&gt;"@,
        ">"@,
    )
}

/// Unescapes the five XML entities.
pub fn unescape_xml(inp: &Vec<char>) -> (out: Vec<char>)
    ensures
        out@ == unescape_five(inp@),
{
    proof {
        reveal_strlit("&apos;");
        reveal_strlit("&quot;");
        reveal_strlit("&amp;");
        reveal_strlit("&lt;");
        reveal_strlit("&gt;");
    }
    let s1 = replace_all(inp, &str_to_chars("&apos;"), &str_to_chars("'"));
    let s2 = replace_all(&s1, &str_to_chars("&quot;"), &str_to_chars("\""));
    let s3 = replace_all(&s2, &str_to_chars("&amp;"), &str_to_chars("&"));
    let s4 = replace_all(&s3, &str_to_chars("&lt;"), &str_to_chars("<"));
    replace_all(&s4, &str_to_chars("&gt;"), &str_to_chars(">"))
}

/// The cookie text collected from `Set-Cookie` header values: the first
/// whitespace-delimited token of each, each followed by one space.
pub open spec fn cookie_join(hs: Seq<Seq<char>>) -> Seq<char>
    decreases hs.len(),
{
    if hs.len() == 0 {
        Seq::empty()
    } else {
        first_token_spec(hs[0]) + seq![' '] + cookie_join(hs.drop_first())
    }
}

/// The record after a response's cookies are merged: a nonempty collected
/// text replaces the cookie in full; none leaves the record unchanged.
pub open spec fn cookie_merged(t: RecordView, hs: Seq<Seq<char>>) -> RecordView {
    if cookie_join(hs).len() == 0 {
        t
    } else {
        RecordView { cookie: Some(cookie_join(hs)), ..t }
    }
}

/// The tags and markers classification looks for.
pub open spec fn result_open() -> Seq<char> {
    "<ProcessWebServiceRequestResult>"@
}

pub open spec fn result_close() -> Seq<char> {
    "</ProcessWebServiceRequestResult>"@
}

pub open spec fn error_marker() -> Seq<char> {
    "ERROR_MESSAGE="@
}

pub open spec fn error_attr_open() -> Seq<char> {
    "ERROR_MESSAGE=\""@
}

pub open spec fn error_attr_close() -> Seq<char> {
    "\""@
}

pub open spec fn dll_marker() -> Seq<char> {
    ".dll"@
}

/// The cookie text of a record, empty when none is held.
pub open spec fn cookie_text(c: Option<Seq<char>>) -> Seq<char> {
    match c {
        Some(s) => s,
        None => Seq::empty(),
    }
}

/// One prepared upstream call: where to post, the cookie header value,
/// and the serialized envelope.
pub struct UpstreamRequest {
    pub url: String,
    pub cookie_header: String,
    pub body: String,
}

/// The serialized envelope around a method call, from its parts.
pub open spec fn envelope_chars_parts(
    xsi: Seq<char>,
    xsd: Seq<char>,
    soap: Seq<char>,
    q: ProcessWebServiceRequest,
) -> Seq<char> {
    "<soap:Envelope xmlns:xsi=\""@ + xsi + "\" xmlns:xsd=\""@ + xsd + "\" xmlns:soap=\""@
        + soap + "\"><soap:Body>"@ + pwsr_chars(q) + "</soap:Body></soap:Envelope>"@
}

/// The request document built for a method call: the XML declaration,
/// then the envelope with the three fixed namespaces.
pub open spec fn request_document(q: ProcessWebServiceRequest) -> Seq<char> {
    "<?xml version=\"1.0\" encoding=\"utf-8\"?>\n"@ + envelope_chars_parts(
        "http://www.w3.org/2001/XMLSchema-instance"@,
        "http://www.w3.org/2001/XMLSchema"@,
        "http://schemas.xmlsoap.org/soap/envelope/"@,
        q,
    )
}

/// Builds the upstream call for a method request: the fixed service path
/// on the record's district host, the session cookie joined with the
/// support markers and the version key, and the envelope document.
pub fn prepare_api_request(req: ProcessWebServiceRequest, token: &AuthToken, version_key: &str)
    -> (r: UpstreamRequest)
    ensures
        r.url@ == "https://"@ + token@.district_url + "/Service/PXPCommunication.asmx"@,
        r.cookie_header@ == cookie_text(token@.cookie)
            + "AppSupportsSession=1; edupointkey=1; edupointkeyversion="@ + version_key@,
        r.body@ == request_document(req),
{
    let mut url = String::from_str("https://");
    url.append(token.district_url.as_str());
    url.append("/Service/PXPCommunication.asmx");
    let mut cookie_header = match &token.cookie {
        Some(c) => self_string(c),
        None => String::new(),
    };
    cookie_header.append("AppSupportsSession=1; edupointkey=1; edupointkeyversion=");
    cookie_header.append(version_key);
    let env = SoapEnvelope::new_request(req);
    let body = env.as_string();
    UpstreamRequest { url, cookie_header, body }
}

/// Classifies one upstream response and merges its cookies: a 405 is the
/// maintenance condition, returned before anything else; otherwise the
/// collected cookies replace the record's cookie if nonempty, and the
/// soap-stripped body either fails to parse, carries an upstream error
/// envelope, or yields the inner result text.
pub fn complete_api_request(
    status: u16,
    set_cookie: &Vec<String>,
    body: &String,
    token: &mut AuthToken,
) -> (r: Result<String, ApiError>)
    ensures
        status == 405 ==> (r matches Err(e) && e == ApiError::Maintainance && final(token)@
            == old(token)@),
        status != 405 ==> final(token)@ == cookie_merged(old(token)@, set_cookie.deep_view()),
        status != 405 ==> ({
            let stripped = replace_all_spec(body@, "soap:"@, Seq::<char>::empty());
            &&& (!span_extractable(stripped, result_open(), result_close()) ==> (r matches Err(
                e,
            ) && e is Parsing))
            &&& (span_extractable(stripped, result_open(), result_close()) ==> ({
                let inner = unescape_five(span_inner(stripped, result_open(), result_close()));
                if contains_seq(stripped, error_marker()) {
                    &&& (!span_extractable(inner, error_attr_open(), error_attr_close()) ==> (
                    r matches Err(e) && e is Parsing))
                    &&& (span_extractable(inner, error_attr_open(), error_attr_close()) ==> ({
                        let msg = unescape_five(
                            span_inner(inner, error_attr_open(), error_attr_close()),
                        );
                        if contains_seq(msg, dll_marker()) {
                            r matches Err(e) && e == ApiError::Unknown
                        } else {
                            r matches Err(e) && e matches ApiError::StudentVue(rt)
                                && rt.error_message@ == msg
                        }
                    }))
                } else {
                    r matches Ok(s) && s@ == inner
                }
            }))
        }),
{
    if status == 405 {
        return Err(ApiError::Maintainance);
    }
    let ghost hs = set_cookie.deep_view();
    let mut joined: Vec<char> = Vec::new();
    let mut i: usize = 0;
    let ncookies = set_cookie.len();
    assert(hs.skip(0) =~= hs);
    assert(joined@ + cookie_join(hs) =~= cookie_join(hs));
    while i < ncookies
        invariant
            ncookies == set_cookie@.len(),
            hs == set_cookie.deep_view(),
            hs.len() == ncookies,
            0 <= i <= ncookies,
            cookie_join(hs) == joined@ + cookie_join(hs.skip(i as int)),
        decreases ncookies - i,
    {
        let ghost tail = hs.skip(i as int);
        let header = str_to_chars(set_cookie[i].as_str());
        assert(header@ == hs[i as int]);
        assert(tail[0] == hs[i as int]);
        assert(tail.drop_first() =~= hs.skip(i + 1));
        let ghost prev = joined@;
        let tok = first_token(&header);
        push_all(&mut joined, &tok);
        joined.push(' ');
        assert(joined@ =~= prev + (first_token_spec(tail[0]) + seq![' ']));
        i += 1;
        assert(cookie_join(hs) == joined@ + cookie_join(hs.skip(i as int)));
    }
    assert(hs.skip(ncookies as int) =~= Seq::<Seq<char>>::empty());
    assert(joined@ + Seq::<char>::empty() =~= joined@);
    if joined.len() > 0 {
        token.cookie = Some(chars_to_string(&joined));
    }
    proof {
        reveal_strlit("soap:");
        reveal_strlit("<ProcessWebServiceRequestResult>");
        reveal_strlit("</ProcessWebServiceRequestResult>");
        reveal_strlit("ERROR_MESSAGE=");
        reveal_strlit("ERROR_MESSAGE=\"");
        reveal_strlit("\"");
        reveal_strlit(".dll");
    }
    let stripped = replace_all(
        &str_to_chars(body.as_str()),
        &str_to_chars("soap:"),
        &Vec::new(),
    );
    let raw = match extract_span(
        &stripped,
        &str_to_chars("<ProcessWebServiceRequestResult>"),
        &str_to_chars("</ProcessWebServiceRequestResult>"),
    ) {
        Some(x) => x,
        None => {
            return Err(ApiError::Parsing(base64_mangle("no ProcessWebServiceRequestResult element")));
        },
    };
    let inner = unescape_xml(&raw);
    if contains_exec(&stripped, &str_to_chars("ERROR_MESSAGE=")) {
        let rawmsg = match extract_span(
            &inner,
            &str_to_chars("ERROR_MESSAGE=\""),
            &str_to_chars("\""),
        ) {
            Some(x) => x,
            None => {
                return Err(ApiError::Parsing(base64_mangle("no ERROR_MESSAGE attribute")));
            },
        };
        let msg = unescape_xml(&rawmsg);
        if contains_exec(&msg, &str_to_chars(".dll")) {
            return Err(ApiError::Unknown);
        }
        return Err(ApiError::StudentVue(RtError { error_message: chars_to_string(&msg) }));
    }
    Ok(chars_to_string(&inner))
}

} // verus!