use contact_service::config::{ApplicationConfig, Config, Environment, LogLevel};
use contact_service::contact::{
    client_identity, denial_message, ContactRequest, ContactResponse, RateLimitResponse,
};
use contact_service::email::EmailContent;
use contact_service::clock::Timestamp;
use contact_service::notice::{notice, notice_at, notice_html, notice_now};
use contact_service::text::split_trimmed;

fn nothing_set() -> Environment {
    Environment {
        mode: None,
        port: None,
        host: None,
        smtp_server: None,
        smtp_user: None,
        smtp_password: None,
        smtp_from: None,
        admin_emails: None,
    }
}

#[test]
fn the_defaults_are_those_of_a_development_machine() {
    let config = Config::default();
    assert_eq!(config.max_level_log, LogLevel::Debug);
    assert_eq!(config.mode, "dev");
    assert_eq!(config.port, "8080");
    assert_eq!(config.host, "0.0.0.0");
    assert_eq!(config.get_smtp_server(), "smtp.gmail.com");
    assert_eq!(config.get_smtp_user(), "usuario@gmail.com");
    assert_eq!(config.get_smtp_password(), "password");
    assert_eq!(config.get_smtp_from(), "no-reply@tusitio.com");
    assert_eq!(config.get_admin_emails_list(), vec!["admin@example.com".to_string()]);
}

#[test]
fn an_empty_environment_leaves_the_defaults() {
    let config = Config::from_environment(nothing_set());
    assert_eq!(config.get_addrs(), "0.0.0.0:8080");
    assert_eq!(config.get_mode(), "dev");
    assert_eq!(config.get_port(), "8080");
    assert_eq!(config.get_host(), "0.0.0.0");
    assert_eq!(config.get_max_level_log(), LogLevel::Debug);
    assert_eq!(config.get_max_pool_size(), 8);
    assert!(config.get_with_migrations());
    assert_eq!(config.get_admin_emails_list(), vec!["admin@example.com".to_string()]);
}

#[test]
fn the_environment_replaces_what_it_names() {
    let mut environment = nothing_set();
    environment.mode = Some("prod".to_string());
    environment.port = Some("9000".to_string());
    environment.host = Some("127.0.0.1".to_string());
    environment.smtp_server = Some("mail.example.org".to_string());
    environment.smtp_from = Some("contact@example.org".to_string());
    environment.admin_emails = Some("a@example.org, b@example.org ,c@example.org".to_string());
    let config = Config::from_environment(environment);
    assert_eq!(config.get_addrs(), "127.0.0.1:9000");
    assert_eq!(config.get_mode(), "prod");
    assert_eq!(config.get_smtp_server(), "mail.example.org");
    assert_eq!(config.get_smtp_user(), "usuario@gmail.com");
    assert_eq!(config.get_smtp_password(), "password");
    assert_eq!(config.get_smtp_from(), "contact@example.org");
    assert_eq!(
        config.get_admin_emails_list(),
        vec![
            "a@example.org".to_string(),
            "b@example.org".to_string(),
            "c@example.org".to_string()
        ]
    );
}

#[test]
fn a_list_is_split_at_every_comma() {
    assert_eq!(split_trimmed(""), vec!["".to_string()]);
    assert_eq!(split_trimmed("a"), vec!["a".to_string()]);
    assert_eq!(split_trimmed(","), vec!["".to_string(), "".to_string()]);
    assert_eq!(
        split_trimmed("a,,b,"),
        vec!["a".to_string(), "".to_string(), "b".to_string(), "".to_string()]
    );
}

#[test]
fn the_parts_of_a_list_are_trimmed() {
    assert_eq!(
        split_trimmed("  a b \t,\n c\u{3000},   "),
        vec!["a b".to_string(), "c".to_string(), "".to_string()]
    );
    assert_eq!(split_trimmed(" \u{e9}t\u{e9} , x"), vec!["\u{e9}t\u{e9}".to_string(), "x".to_string()]);
}

#[test]
fn a_list_is_split_as_the_standard_library_does() {
    for text in ["", " ", "a, b", ",a ,, b,", "x@y.z , \t w@v.u", "\u{a0}n\u{a0},m"] {
        let expected: Vec<String> = text.split(',').map(|part| part.trim().to_string()).collect();
        assert_eq!(split_trimmed(text), expected);
    }
}

#[test]
fn a_client_without_an_address_is_unknown() {
    assert_eq!(client_identity(Some("1.2.3.4")), "1.2.3.4");
    assert_eq!(client_identity(None), "unknown");
}

#[test]
fn the_denial_names_the_window_that_is_used_up() {
    assert_eq!(
        denial_message((0, 2)),
        "Demasiadas solicitudes por minuto. Intenta de nuevo en 1 minuto."
    );
    assert_eq!(
        denial_message((0, 0)),
        "Demasiadas solicitudes por minuto. Intenta de nuevo en 1 minuto."
    );
    assert_eq!(
        denial_message((1, 0)),
        "Has alcanzado el límite máximo de solicitudes por 12 horas. Intenta de nuevo más tarde."
    );
    assert_eq!(denial_message((1, 1)), "Demasiadas solicitudes. Intenta de nuevo más tarde.");
}

#[test]
fn a_refusal_says_when_to_try_again() {
    let response = RateLimitResponse::denied((2, 0));
    assert!(!response.success);
    assert_eq!(
        response.message,
        "Has alcanzado el límite máximo de solicitudes por 12 horas. Intenta de nuevo más tarde."
    );
    assert_eq!(response.remaining_requests, (2, 0));
    assert_eq!(response.retry_after, Some("60s".to_string()));
}

#[test]
fn the_answers_to_an_admitted_request() {
    let sent = ContactResponse::delivered((1, 3));
    assert!(sent.success);
    assert_eq!(sent.message, "Solicitud de contacto enviada exitosamente");
    assert_eq!(sent.remaining_requests, Some((1, 3)));
    let failed = ContactResponse::failed();
    assert!(!failed.success);
    assert_eq!(failed.message, "Error al procesar la solicitud de contacto");
    assert_eq!(failed.remaining_requests, None);
}

#[test]
fn a_mail_is_plain_or_html() {
    let plain = EmailContent::plain("Hola", "texto");
    assert_eq!(plain.subject, "Hola");
    assert_eq!(plain.body, "texto");
    assert!(!plain.is_html);
    let html = EmailContent::html("Hola", "<p>texto</p>");
    assert_eq!(html.subject, "Hola");
    assert_eq!(html.body, "<p>texto</p>");
    assert!(html.is_html);
}

#[test]
fn a_request_holds_its_five_fields() {
    let request = ContactRequest {
        name: "Ana".to_string(),
        company: "Acme".to_string(),
        email: "ana@example.org".to_string(),
        service: "web".to_string(),
        message: "hola".to_string(),
    };
    assert_eq!(request.name, "Ana");
    assert_eq!(request.message, "hola");
}

#[test]
fn the_notice_puts_each_field_in_its_place() {
    let request = ContactRequest {
        name: "Ana".to_string(),
        company: "Acme".to_string(),
        email: "ana@example.org".to_string(),
        service: "web".to_string(),
        message: "hola\n{mundo}".to_string(),
    };
    let page = notice_html("1.2.3.4", &request, "01/02/2024 03:04:05");
    assert!(page.starts_with("\n        <!DOCTYPE html>\n        <html lang=\"es\">\n"));
    assert!(page.contains("                body {\n                    font-family: 'Segoe UI'"));
    assert!(page.contains("<strong>IP:</strong> \n                        <span class=\"ip-badge\">1.2.3.4</span>"));
    assert!(page.contains("<strong>Nombre:</strong> Ana\n"));
    assert!(page.contains("<strong>Empresa:</strong> Acme\n"));
    assert!(page.contains("<strong>Email:</strong> ana@example.org\n"));
    assert!(page.contains("<strong>Servicio:</strong> web\n"));
    assert!(page.contains("<p style=\"white-space: pre-wrap; margin: 0;\">hola\n{mundo}</p>"));
    assert!(page.contains("<p>Fecha y hora: 01/02/2024 03:04:05</p>"));
    assert!(page.ends_with("</body>\n        </html>\n        "));
    assert!(!page.contains("{{"));
    assert_eq!(page.chars().count(), 4265 + 7 + 3 + 4 + 15 + 3 + 12 + 19);

    let mail = notice("1.2.3.4", &request, "01/02/2024 03:04:05");
    assert!(mail.is_html);
    assert_eq!(mail.subject, "Nueva solicitud de contacto");
    assert_eq!(mail.body, page);

    let at = Timestamp { secs: 1_706_756_645, nanos: 999_999_999 };
    let mail = notice_at("1.2.3.4", &request, at).unwrap();
    assert!(mail.is_html);
    assert_eq!(mail.subject, "Nueva solicitud de contacto");
    assert_eq!(mail.body, page);

    let mail = notice_now("1.2.3.4", &request).unwrap();
    assert!(mail.is_html);
    assert_eq!(mail.subject, "Nueva solicitud de contacto");
    let (before, after) = page.split_once("01/02/2024 03:04:05").unwrap();
    assert!(mail.body.starts_with(before));
    assert!(mail.body.ends_with(after));
    let time = &mail.body[before.len()..mail.body.len() - after.len()];
    assert_eq!(time.len(), 19);
    let shape: String =
        time.chars().map(|c| if c.is_ascii_digit() { '9' } else { c }).collect();
    assert_eq!(shape, "99/99/9999 99:99:99");
}

#[test]
fn a_time_is_written_as_day_month_year_and_time_of_day() {
    assert_eq!(
        Timestamp { secs: 0, nanos: 0 }.written(),
        Some("01/01/1970 00:00:00".to_string())
    );
    assert_eq!(
        Timestamp { secs: 1_706_756_645, nanos: 0 }.written(),
        Some("01/02/2024 03:04:05".to_string())
    );
    assert_eq!(
        Timestamp { secs: -1, nanos: 500_000_000 }.written(),
        Some("31/12/1969 23:59:59".to_string())
    );
    assert_eq!(
        Timestamp { secs: 951_827_696, nanos: 0 }.written(),
        Some("29/02/2000 12:34:56".to_string())
    );
}

#[test]
fn a_time_without_a_date_is_not_written() {
    assert_eq!(Timestamp { secs: i64::MAX, nanos: 0 }.written(), None);
    assert_eq!(Timestamp { secs: i64::MIN, nanos: 0 }.written(), None);
    assert_eq!(Timestamp { secs: 0, nanos: 2_000_000_000 }.written(), None);
    let request = ContactRequest {
        name: "Ana".to_string(),
        company: "Acme".to_string(),
        email: "ana@example.org".to_string(),
        service: "web".to_string(),
        message: "hola".to_string(),
    };
    assert!(notice_at("1.2.3.4", &request, Timestamp { secs: i64::MAX, nanos: 0 }).is_none());
}
