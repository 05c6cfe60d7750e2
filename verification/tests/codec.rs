use jaque_relay::forward::format_telegram_message;
use jaque_relay::payload::{parse_contact_me, ContactMeRequest};

fn payload(name: &str, contact: &str, message: &str) -> ContactMeRequest {
    ContactMeRequest {
        name: name.to_string(),
        contact: contact.to_string(),
        message: message.to_string(),
    }
}

#[test]
fn serializes_plain_payload() {
    let p = payload("Ana", "ana@x.com", "Hola");
    assert_eq!(
        p.to_json_string(),
        "{\"name\":\"Ana\",\"contact\":\"ana@x.com\",\"message\":\"Hola\"}"
    );
}

#[test]
fn serializes_escaped_characters() {
    let p = payload("A\"na", "a\\b", "line1\nline2\ttab");
    assert_eq!(
        p.to_json_string(),
        "{\"name\":\"A\\\"na\",\"contact\":\"a\\\\b\",\"message\":\"line1\\nline2\\ttab\"}"
    );
}

#[test]
fn serializes_control_characters_as_hex_escapes() {
    let p = payload("\u{1}", "\u{1f}", "ok");
    assert_eq!(
        p.to_json_string(),
        "{\"name\":\"\\u0001\",\"contact\":\"\\u001f\",\"message\":\"ok\"}"
    );
}

#[test]
fn parses_what_it_serialized() {
    let cases = vec![
        ("Ana", "ana@x.com", "Hola"),
        ("", "", ""),
        ("A\"na", "a\\b", "line1\nline2"),
        ("\u{1}\u{1f}", "tab\there", "cr\rbs\u{8}ff\u{c}"),
        ("ünïcødé", "垃圾", "🦀"),
    ];
    for (n, c, m) in cases {
        let text = payload(n, c, m).to_json_string();
        let back = parse_contact_me(&text).expect("canonical text must parse");
        assert_eq!(back.name, n);
        assert_eq!(back.contact, c);
        assert_eq!(back.message, m);
    }
}

#[test]
fn rejects_text_that_is_not_a_payload() {
    let bad = vec![
        "",
        "hola",
        "{}",
        "{\"name\":\"a\"}",
        "{\"name\":\"a\",\"contact\":\"b\",\"message\":\"c\"} ",
        " {\"name\":\"a\",\"contact\":\"b\",\"message\":\"c\"}",
        "{\"contact\":\"b\",\"name\":\"a\",\"message\":\"c\"}",
        "{\"name\":\"a\",\"contact\":\"b\",\"message\":\"c\",\"extra\":\"d\"}",
        "{\"name\":\"a\",\"contact\":\"b\",\"message\":\"c\"",
        "{\"name\":\"a\",\"contact\":\"b\",\"message\":\"c}",
    ];
    for text in bad {
        assert!(parse_contact_me(text).is_none(), "accepted: {:?}", text);
    }
}

#[test]
fn rejects_non_canonical_escapes() {
    // an unescaped control character, a capital-hex escape, a hex escape for a
    // printable character, and a hex escape for a character with a short form
    let bad = vec![
        "{\"name\":\"a\nb\",\"contact\":\"b\",\"message\":\"c\"}",
        "{\"name\":\"\\u001F\",\"contact\":\"b\",\"message\":\"c\"}",
        "{\"name\":\"\\u0041\",\"contact\":\"b\",\"message\":\"c\"}",
        "{\"name\":\"\\u0009\",\"contact\":\"b\",\"message\":\"c\"}",
        "{\"name\":\"\\x\",\"contact\":\"b\",\"message\":\"c\"}",
    ];
    for text in bad {
        assert!(parse_contact_me(text).is_none(), "accepted: {:?}", text);
    }
}

#[test]
fn parses_canonical_hex_escape() {
    let p = parse_contact_me("{\"name\":\"\\u0001\",\"contact\":\"b\",\"message\":\"c\"}")
        .expect("canonical hex escape must parse");
    assert_eq!(p.name, "\u{1}");
    assert_eq!(p.contact, "b");
    assert_eq!(p.message, "c");
}

#[test]
fn formats_parsed_payload_with_fields_in_order() {
    let text = payload("Ana", "ana@x.com", "Hola").to_json_string();
    assert_eq!(format_telegram_message(&text), "Jaque!\n\nAna, ana@x.com\nHola");
}

#[test]
fn formats_unparsed_text_verbatim_under_generic_header() {
    assert_eq!(
        format_telegram_message("just some text"),
        "Nuevo mensaje:\n\njust some text"
    );
    assert_eq!(format_telegram_message(""), "Nuevo mensaje:\n\n");
    // close to the shape, but not canonical: kept verbatim
    let almost = "{\"name\":\"a\",\"contact\":\"b\",\"message\":\"c\"} ";
    assert_eq!(
        format_telegram_message(almost),
        format!("Nuevo mensaje:\n\n{}", almost)
    );
}
