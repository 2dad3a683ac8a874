//! The notice that is mailed to the admins for each contact request.

use vstd::prelude::*;
use vstd::string::*;
use crate::clock::{utc_text, Timestamp, TIME_PATTERN};
use crate::contact::ContactRequest;
use crate::email::EmailContent;

verus! {

/// The subject of the notice.
pub const NOTICE_SUBJECT: &'static str = "Nueva solicitud de contacto";

/// The page up to the client's address.
pub const PAGE_UP_TO_ADDRESS: &'static str = r#"
        <!DOCTYPE html>
        <html lang="es">
        <head>
            <meta charset="UTF-8">
            <meta name="viewport" content="width=device-width, initial-scale=1.0">
            <title>Nueva Solicitud de Contacto</title>
            <style>
                body {
                    font-family: 'Segoe UI', Tahoma, Geneva, Verdana, sans-serif;
                    line-height: 1.6;
                    color: #333;
                    max-width: 600px;
                    margin: 0 auto;
                    padding: 20px;
                    background-color: #f4f4f4;
                }
                .container {
                    background-color: #ffffff;
                    border-radius: 10px;
                    padding: 30px;
                    box-shadow: 0 4px 6px rgba(0, 0, 0, 0.1);
                }
                .header {
                    background: linear-gradient(135deg, #667eea 0%, #764ba2 100%);
                    color: white;
                    padding: 20px;
                    border-radius: 8px;
                    text-align: center;
                    margin-bottom: 25px;
                }
                .header h1 {
                    margin: 0;
                    font-size: 24px;
                    font-weight: 300;
                }
                .info-section {
                    background-color: #f8f9fa;
                    border-left: 4px solid #667eea;
                    padding: 15px;
                    margin: 15px 0;
                    border-radius: 0 5px 5px 0;
                }
                .info-section h3 {
                    margin: 0 0 10px 0;
                    color: #667eea;
                    font-size: 16px;
                }
                .field {
                    margin: 10px 0;
                }
                .field strong {
                    color: #555;
                    display: inline-block;
                    width: 80px;
                }
                .message-box {
                    background-color: #fff3cd;
                    border: 1px solid #ffeaa7;
                    border-radius: 5px;
                    padding: 15px;
                    margin: 15px 0;
                }
                .footer {
                    text-align: center;
                    margin-top: 30px;
                    padding-top: 20px;
                    border-top: 1px solid #eee;
                    color: #666;
                    font-size: 14px;
                }
                .ip-badge {
                    background-color: #e3f2fd;
                    color: #1976d2;
                    padding: 5px 10px;
                    border-radius: 15px;
                    font-size: 12px;
                    font-family: monospace;
                }
            </style>
        </head>
        <body>
            <div class="container">
                <div class="header">
                    <h1>📧 Nueva Solicitud de Contacto</h1>
                </div>
                
                <div class="info-section">
                    <h3>📍 Información del Cliente</h3>
                    <div class="field">
                        <strong>IP:</strong> 
                        <span class="ip-badge">"#;

/// From the address up to the name.
pub const PAGE_UP_TO_NAME: &'static str = r#"</span>
                    </div>
                    <div class="field">
                        <strong>Nombre:</strong> "#;

/// From the name up to the company.
pub const PAGE_UP_TO_COMPANY: &'static str = r#"
                    </div>
                    <div class="field">
                        <strong>Empresa:</strong> "#;

/// From the company up to the mail address.
pub const PAGE_UP_TO_EMAIL: &'static str = r#"
                    </div>
                    <div class="field">
                        <strong>Email:</strong> "#;

/// From the mail address up to the service.
pub const PAGE_UP_TO_SERVICE: &'static str = r#"
                    </div>
                    <div class="field">
                        <strong>Servicio:</strong> "#;

/// From the service up to the message.
pub const PAGE_UP_TO_MESSAGE: &'static str = r#"
                    </div>
                </div>
                
                <div class="message-box">
                    <h3>💬 Mensaje del Cliente</h3>
                    <p style="white-space: pre-wrap; margin: 0;">"#;

/// From the message up to the time.
pub const PAGE_UP_TO_TIME: &'static str = r#"</p>
                </div>
                
                <div class="footer">
                    <p>Este email fue generado automáticamente por el sistema de contactos.</p>
                    <p>Fecha y hora: "#;

/// From the time to the end of the page.
pub const PAGE_END: &'static str = r#"</p>
                </div>
            </div>
        </body>
        </html>
        "#;

/// The page of the notice: the fixed text, with the client's address, the
/// five fields of the request and the time, each put in as it is.
pub open spec fn notice_page(
    client_ip: Seq<char>,
    request: ContactRequest,
    sent_at: Seq<char>,
) -> Seq<char> {
    PAGE_UP_TO_ADDRESS@ + client_ip + PAGE_UP_TO_NAME@ + request.name@ + PAGE_UP_TO_COMPANY@
        + request.company@ + PAGE_UP_TO_EMAIL@ + request.email@ + PAGE_UP_TO_SERVICE@
        + request.service@ + PAGE_UP_TO_MESSAGE@ + request.message@ + PAGE_UP_TO_TIME@ + sent_at
        + PAGE_END@
}

/// The page of the notice for `request`, received from `client_ip` at the
/// time that `sent_at` names.
pub fn notice_html(client_ip: &str, request: &ContactRequest, sent_at: &str) -> (page: String)
    ensures
        page@ == notice_page(client_ip@, *request, sent_at@),
{
    let mut page = PAGE_UP_TO_ADDRESS.to_owned();
    page.append(client_ip);
    page.append(PAGE_UP_TO_NAME);
    page.append(request.name.as_str());
    page.append(PAGE_UP_TO_COMPANY);
    page.append(request.company.as_str());
    page.append(PAGE_UP_TO_EMAIL);
    page.append(request.email.as_str());
    page.append(PAGE_UP_TO_SERVICE);
    page.append(request.service.as_str());
    page.append(PAGE_UP_TO_MESSAGE);
    page.append(request.message.as_str());
    page.append(PAGE_UP_TO_TIME);
    page.append(sent_at);
    page.append(PAGE_END);
    page
}

/// The notice for `request`, received from `client_ip` at the time that
/// `sent_at` names: an HTML mail with the subject of every notice.
pub fn notice(client_ip: &str, request: &ContactRequest, sent_at: &str) -> (content: EmailContent)
    ensures
        content.is_html,
        content.subject@ == NOTICE_SUBJECT@,
        content.body@ == notice_page(client_ip@, *request, sent_at@),
{
    let page = notice_html(client_ip, request, sent_at);
    EmailContent { subject: NOTICE_SUBJECT.to_owned(), body: page, is_html: true }
}

/// The notice for `request`, received from `client_ip` at `at`, with that
/// time written out as UTC; `None` where `chrono` has no date for `at`.
pub fn notice_at(client_ip: &str, request: &ContactRequest, at: Timestamp) -> (content: Option<
    EmailContent,
>)
    ensures
        match utc_text(at.secs, at.nanos, TIME_PATTERN@) {
            Some(sent_at) => content matches Some(mail) && mail.is_html && mail.subject@
                == NOTICE_SUBJECT@ && mail.body@ == notice_page(client_ip@, *request, sent_at),
            None => content is None,
        },
{
    match at.written() {
        Some(sent_at) => Some(notice(client_ip, request, sent_at.as_str())),
        None => None,
    }
}

/// The notice for `request`, received from `client_ip` now: reads the clock
/// and does as `notice_at` does for that time.
pub fn notice_now(client_ip: &str, request: &ContactRequest) -> (content: Option<EmailContent>)
    ensures
        exists|at: Timestamp|
            match #[trigger] utc_text(at.secs, at.nanos, TIME_PATTERN@) {
                Some(sent_at) => content matches Some(mail) && mail.is_html && mail.subject@
                    == NOTICE_SUBJECT@ && mail.body@ == notice_page(
                    client_ip@,
                    *request,
                    sent_at,
                ),
                None => content is None,
            },
{
    let at = Timestamp::now();
    notice_at(client_ip, request, at)
}

} // verus!
