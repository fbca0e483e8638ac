//! Gateway behaviour: envelope rendering, maintenance detection, cookie
//! replacement, and classification of upstream responses.

use svue::api::{
    base64_mangle, complete_api_request, prepare_api_request, ApiError, ProcessWebServiceRequest,
    SoapEnvelope,
};
use svue::crypto::{AuthToken, CryptoError};

fn sample_token() -> AuthToken {
    AuthToken {
        username: "user".to_string(),
        password: "pass".to_string(),
        cookie: None,
        expiry: 1,
        district_url: "md-mcps-psv.edupoint.com".to_string(),
    }
}

fn ok_body(inner_escaped: &str) -> String {
    let mut body = String::new();
    body.push_str("<?xml version=\"1.0\" encoding=\"utf-8\"?>");
    body.push_str("<soap:Envelope xmlns:soap=\"http://schemas.xmlsoap.org/soap/envelope/\">");
    body.push_str("<soap:Body><ProcessWebServiceRequestResponse xmlns=\"http://edupoint.com/webservices/\">");
    body.push_str("<ProcessWebServiceRequestResult>");
    body.push_str(inner_escaped);
    body.push_str("</ProcessWebServiceRequestResult>");
    body.push_str("</ProcessWebServiceRequestResponse></soap:Body></soap:Envelope>");
    body
}

#[test]
fn request_document_shape() {
    let token = sample_token();
    let req = ProcessWebServiceRequest::ck_default(
        "Gradebook".to_string(),
        "<ReportPeriod>1</ReportPeriod>".to_string(),
        &token,
    );
    let env = SoapEnvelope::new_request(req);
    let body = env.as_string();
    let mut expected = String::new();
    expected.push_str("<?xml version=\"1.0\" encoding=\"utf-8\"?>\n");
    expected.push_str("<soap:Envelope xmlns:xsi=\"http://www.w3.org/2001/XMLSchema-instance\"");
    expected.push_str(" xmlns:xsd=\"http://www.w3.org/2001/XMLSchema\"");
    expected.push_str(" xmlns:soap=\"http://schemas.xmlsoap.org/soap/envelope/\"><soap:Body>");
    expected.push_str("<ProcessWebServiceRequest xmlns=\"http://edupoint.com/webservices/\">");
    expected.push_str("<userID>user</userID><password>pass</password>");
    expected.push_str("<skipLoginLog>1</skipLoginLog><parent>0</parent>");
    expected.push_str("<webServiceHandleName>PXPWebServices</webServiceHandleName>");
    expected.push_str("<methodName>Gradebook</methodName>");
    expected.push_str("<paramStr>&lt;Parms&gt;&lt;ChildIntID&gt;0&lt;/ChildIntID&gt;");
    expected.push_str("&lt;ReportPeriod&gt;1&lt;/ReportPeriod&gt;&lt;/Parms&gt;</paramStr>");
    expected.push_str("</ProcessWebServiceRequest></soap:Body></soap:Envelope>");
    assert_eq!(body, expected);
}

#[test]
fn empty_credentials_are_omitted_from_the_envelope() {
    let mut token = sample_token();
    token.username = String::new();
    let req =
        ProcessWebServiceRequest::ck_default("StudentInfo".to_string(), String::new(), &token);
    let env = SoapEnvelope::new_request(req);
    let body = env.as_string();
    assert!(!body.contains("<userID>"));
    assert!(body.contains("<password>pass</password>"));
}

#[test]
fn prepared_request_targets_the_district_service() {
    let mut token = sample_token();
    token.cookie = Some("EES=xyz; ".to_string());
    let req = ProcessWebServiceRequest::ck_default("Gradebook".to_string(), String::new(), &token);
    let r = prepare_api_request(req, &token, "42");
    assert_eq!(r.url, "https://md-mcps-psv.edupoint.com/Service/PXPCommunication.asmx");
    assert_eq!(
        r.cookie_header,
        "EES=xyz; AppSupportsSession=1; edupointkey=1; edupointkeyversion=42"
    );
    assert!(r.body.starts_with("<?xml"));
}

#[test]
fn maintenance_is_detected_before_anything_else() {
    let mut token = sample_token();
    let r = complete_api_request(405, &vec!["EES=x; path=/".to_string()], &ok_body("x"), &mut token);
    assert_eq!(r.unwrap_err(), ApiError::Maintainance);
    // The cookie was not merged: maintenance returns immediately.
    assert_eq!(token.cookie, None);
}

#[test]
fn cookies_replace_the_session_cookie_with_first_tokens() {
    let mut token = sample_token();
    token.cookie = Some("OLD=1; ".to_string());
    let headers = vec![
        "ASP.NET_SessionId=abc; path=/; HttpOnly".to_string(),
        "EES=xyz; secure".to_string(),
    ];
    let r = complete_api_request(200, &headers, &ok_body("data"), &mut token);
    assert_eq!(r.unwrap(), "data");
    assert_eq!(token.cookie, Some("ASP.NET_SessionId=abc; EES=xyz; ".to_string()));
}

#[test]
fn no_cookies_leave_the_record_unchanged() {
    let mut token = sample_token();
    token.cookie = Some("KEEP=1".to_string());
    let r = complete_api_request(200, &vec![], &ok_body("payload"), &mut token);
    assert_eq!(r.unwrap(), "payload");
    assert_eq!(token.cookie, Some("KEEP=1".to_string()));
}

#[test]
fn inner_result_is_unescaped() {
    let mut token = sample_token();
    let body = ok_body("&lt;Gradebook Type=&quot;Traditional&quot; /&gt;");
    let r = complete_api_request(200, &vec![], &body, &mut token);
    assert_eq!(r.unwrap(), "<Gradebook Type=\"Traditional\" />");
}

#[test]
fn unparsable_body_is_an_obfuscated_parse_error() {
    let mut token = sample_token();
    let r = complete_api_request(200, &vec![], &"not xml at all".to_string(), &mut token);
    match r.unwrap_err() {
        ApiError::Parsing(diag) => assert!(!diag.is_empty()),
        e => panic!("unexpected {e:?}"),
    }
}

#[test]
fn upstream_dll_fault_folds_to_unknown() {
    let mut token = sample_token();
    let inner = "&lt;RT_ERROR ERROR_MESSAGE=&quot;Fault in edupoint.dll handler&quot; /&gt;";
    let r = complete_api_request(200, &vec![], &ok_body(inner), &mut token);
    assert_eq!(r.unwrap_err(), ApiError::Unknown);
}

#[test]
fn upstream_error_message_propagates_verbatim() {
    let mut token = sample_token();
    let inner =
        "&lt;RT_ERROR ERROR_MESSAGE=&quot;Invalid user id or password&quot; /&gt;";
    let r = complete_api_request(200, &vec![], &ok_body(inner), &mut token);
    match r.unwrap_err() {
        ApiError::StudentVue(rt) => assert_eq!(rt.error_message, "Invalid user id or password"),
        e => panic!("unexpected {e:?}"),
    }
}

#[test]
fn base64_mangle_encodes_text() {
    assert_eq!(base64_mangle("hello"), "aGVsbG8=");
    assert_eq!(base64_mangle(""), "");
}

#[test]
fn status_codes_follow_the_taxonomy() {
    assert_eq!(ApiError::EmptyCredentials.status_code(), 400);
    assert_eq!(
        ApiError::StudentVue(svue::api::RtError { error_message: "m".to_string() }).status_code(),
        400
    );
    assert_eq!(ApiError::InvalidCredentials.status_code(), 401);
    assert_eq!(ApiError::Crypto(CryptoError::CryptError).status_code(), 400);
    assert_eq!(ApiError::Crypto(CryptoError::Nokey).status_code(), 500);
    assert_eq!(ApiError::Crypto(CryptoError::InvalidKey).status_code(), 500);
    assert_eq!(ApiError::Maintainance.status_code(), 500);
    assert_eq!(ApiError::Unknown.status_code(), 500);
}

#[test]
fn error_messages_read_as_served() {
    assert_eq!(
        ApiError::Maintainance.message(),
        "StudentVue is currently undergoing maintenance"
    );
    assert_eq!(ApiError::ExpiredKey.message(), "This key has expired");
    assert_eq!(ApiError::Crypto(CryptoError::Nokey).message(), "No key found :/");
    assert_eq!(
        ApiError::Parsing("abc".to_string()).message(),
        "Cannot parse response: abc"
    );
}
