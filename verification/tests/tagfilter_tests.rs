use rtjson::tagfilter::{tagfilter, tagfilter_block};

#[test]
fn tagfilter_script_is_banned() {
    assert!(tagfilter(&b"<script>".to_vec()));
}

#[test]
fn tagfilter_upper_case_self_closing_is_banned() {
    assert!(tagfilter(&b"<SCRIPT/>".to_vec()));
}

#[test]
fn tagfilter_longer_name_is_not_banned() {
    assert!(!tagfilter(&b"<scriptx>".to_vec()));
}

#[test]
fn tagfilter_closing_tag_is_banned() {
    assert!(tagfilter(&b"</style>".to_vec()));
}

#[test]
fn tagfilter_name_followed_by_space_is_banned() {
    assert!(tagfilter(&b"<iframe src='x'>".to_vec()));
}

#[test]
fn tagfilter_unterminated_name_is_not_banned() {
    assert!(!tagfilter(&b"<script".to_vec()));
}

#[test]
fn tagfilter_harmless_tag_is_not_banned() {
    assert!(!tagfilter(&b"<p>".to_vec()));
}

#[test]
fn tagfilter_block_neutralizes_script() {
    let mut out: Vec<u8> = Vec::new();
    tagfilter_block(&b"<script>x</script>".to_vec(), &mut out);
    assert_eq!(out, b"&lt;script>x&lt;/script>".to_vec());
}

#[test]
fn tagfilter_block_keeps_harmless_html() {
    let mut out: Vec<u8> = Vec::new();
    tagfilter_block(&b"<p>hi</p>".to_vec(), &mut out);
    assert_eq!(out, b"<p>hi</p>".to_vec());
}

#[test]
fn tagfilter_block_appends_to_existing_output() {
    let mut out: Vec<u8> = b"pre:".to_vec();
    tagfilter_block(&b"<xmp>".to_vec(), &mut out);
    assert_eq!(out, b"pre:&lt;xmp>".to_vec());
}
