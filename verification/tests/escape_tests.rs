use rtjson::escape::{escape_href, escape_text};

#[test]
fn escape_noop_on_safe_text() {
    let input = b"plain text with no specials".to_vec();
    assert_eq!(escape_text(&input), input);
}

#[test]
fn escape_five_characters() {
    let input = b"\"&<>'".to_vec();
    assert_eq!(escape_text(&input), b"&quot;&amp;&lt;&gt;&#x27;".to_vec());
}

#[test]
fn escape_mixed_text() {
    let input = b"a<b>c".to_vec();
    assert_eq!(escape_text(&input), b"a&lt;b&gt;c".to_vec());
}

#[test]
fn escape_utf8_passes_through() {
    let input = "héllo…".as_bytes().to_vec();
    assert_eq!(escape_text(&input), input);
}

#[test]
fn href_unreserved_round_trip() {
    let input = b"abc123-_.~".to_vec();
    assert_eq!(escape_href(&input), input);
}

#[test]
fn href_space_percent_encoded() {
    assert_eq!(escape_href(&b"a b".to_vec()), b"a%20b".to_vec());
}

#[test]
fn href_amp_and_apostrophe_become_entities() {
    assert_eq!(escape_href(&b"&'".to_vec()), b"&amp;&#x27;".to_vec());
}

#[test]
fn href_dollar_percent_encoded() {
    assert_eq!(escape_href(&b"$".to_vec()), b"%24".to_vec());
}

#[test]
fn href_keeps_safe_punctuation() {
    let input = b"http://x.y/z?a=b;c:d(e),f!g*h+i#j@k%25".to_vec();
    assert_eq!(escape_href(&input), input);
}
