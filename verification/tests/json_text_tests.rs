use lib::json_text::{hud_json, json_escape, push_escaped};

#[test]
fn escapes_special_characters() {
    assert_eq!(json_escape("plain"), "plain");
    assert_eq!(json_escape("a\"b"), "a\\\"b");
    assert_eq!(json_escape("back\\slash"), "back\\\\slash");
    assert_eq!(json_escape("l1\nl2\r\t"), "l1\\nl2\\r\\t");
    assert_eq!(json_escape("\u{1}\u{1f}"), "\\u0001\\u001f");
    assert_eq!(json_escape("é ✓"), "é ✓");
}

#[test]
fn push_escaped_appends() {
    let mut s = String::from("[");
    push_escaped(&mut s, "x\"y");
    assert_eq!(s, "[x\\\"y");
}

#[test]
fn hud_rows_serialize() {
    assert_eq!(hud_json(&[]), "[]");
    let rows = vec![
        ("event count".to_string(), "3".to_string()),
        ("tracking contact".to_string(), "yes".to_string()),
    ];
    assert_eq!(
        hud_json(&rows),
        "[{\"label\":\"event count\",\"value\":\"3\"},{\"label\":\"tracking contact\",\"value\":\"yes\"}]"
    );
    let odd = vec![("a\"".to_string(), "\n".to_string())];
    assert_eq!(hud_json(&odd), "[{\"label\":\"a\\\"\",\"value\":\"\\n\"}]");
}

/// A plain JSON string-literal decoder (RFC 8259), for checking escapes.
fn decode_literal(t: &str) -> Option<String> {
    let inner = t.strip_prefix('"')?.strip_suffix('"')?;
    let cs: Vec<char> = inner.chars().collect();
    let mut out = String::new();
    let mut i = 0;
    while i < cs.len() {
        let c = cs[i];
        if c == '\\' {
            let e = *cs.get(i + 1)?;
            match e {
                '"' => out.push('"'),
                '\\' => out.push('\\'),
                '/' => out.push('/'),
                'b' => out.push('\u{8}'),
                'f' => out.push('\u{c}'),
                'n' => out.push('\n'),
                'r' => out.push('\r'),
                't' => out.push('\t'),
                'u' => {
                    let hex: String = cs.get(i + 2..i + 6)?.iter().collect();
                    let v = u32::from_str_radix(&hex, 16).ok()?;
                    out.push(char::from_u32(v)?);
                    i += 4;
                }
                _ => return None,
            }
            i += 2;
        } else if c == '"' || (c as u32) < 0x20 {
            return None;
        } else {
            out.push(c);
            i += 1;
        }
    }
    Some(out)
}

#[test]
fn escaped_text_decodes_back() {
    let samples = [
        "",
        "plain",
        "quote \" and backslash \\ and slash /",
        "\u{0}\u{1}\u{8}\u{b}\u{c}\u{1f} \n\r\t",
        "é ✓ 🦀",
    ];
    for s in samples {
        let lit = format!("\"{}\"", json_escape(s));
        assert_eq!(decode_literal(&lit).as_deref(), Some(s));
        assert!(json_escape(s).chars().all(|c| (c as u32) >= 0x20));
    }
    // Every control character round-trips through a \u00XX or short escape.
    for v in 0u32..0x20 {
        let s = char::from_u32(v).unwrap().to_string();
        let lit = format!("\"{}\"", json_escape(&s));
        assert_eq!(decode_literal(&lit), Some(s));
    }
}
