use whixp_transport::stanza::StreamFramer;

fn push_str(f: &mut StreamFramer, s: &str) -> Vec<String> {
    f.push(s.as_bytes()).unwrap()
}

#[test]
fn framer_emits_simple_stanza() {
    let mut f = StreamFramer::new();
    let out = push_str(&mut f, "<iq type='get'>x</iq>");
    assert_eq!(out, vec!["<iq type='get'>x</iq>".to_string()]);
}

#[test]
fn framer_self_closing_ack() {
    let mut f = StreamFramer::new();
    let out = push_str(&mut f, "<r h='1'/>");
    assert_eq!(out, vec!["<r h='1'/>".to_string()]);
    // The buffer is empty afterwards: the next stanza arrives whole.
    let out = push_str(&mut f, "</iq>");
    assert_eq!(out, vec!["</iq>".to_string()]);
}

#[test]
fn framer_stream_header_extraction() {
    let mut f = StreamFramer::new();
    let out = push_str(&mut f, "<?xml version='1.0'?><stream:stream to='x'>");
    assert_eq!(out, vec!["<stream:stream to='x'>".to_string()]);
    // Header mode is over: the closing tag alone is one fragment.
    let out = push_str(&mut f, "</stream:stream>");
    assert_eq!(out, vec!["</stream:stream>".to_string()]);
}

#[test]
fn framer_split_pushes_one_byte_at_a_time() {
    let data = "<message>hello</message>";
    let mut f = StreamFramer::new();
    let mut all: Vec<String> = Vec::new();
    for b in data.as_bytes() {
        all.extend(f.push(&[*b]).unwrap());
    }
    assert_eq!(all, vec![data.to_string()]);
}

#[test]
fn framer_split_independence_on_plain_stanzas() {
    let data = "<message>a</message><iq>b</iq><presence>c</presence>";
    let expected = vec![
        "<message>a</message>".to_string(),
        "<iq>b</iq>".to_string(),
        "<presence>c</presence>".to_string(),
    ];
    // One push.
    let mut f = StreamFramer::new();
    assert_eq!(push_str(&mut f, data), expected);
    // Split at every position.
    for cut in 0..data.len() {
        let mut f = StreamFramer::new();
        let mut all: Vec<String> = Vec::new();
        all.extend(f.push(&data.as_bytes()[..cut]).unwrap());
        all.extend(f.push(&data.as_bytes()[cut..]).unwrap());
        assert_eq!(all, expected, "split at {cut}");
    }
}

#[test]
fn framer_multibyte_character_split_across_pushes() {
    let data = "<message>caf\u{e9}</message>";
    let bytes = data.as_bytes();
    // Cut inside the two-byte encoding of e-acute.
    let cut = data.find('\u{e9}').unwrap() + 1;
    let mut f = StreamFramer::new();
    let mut all: Vec<String> = Vec::new();
    all.extend(f.push(&bytes[..cut]).unwrap());
    all.extend(f.push(&bytes[cut..]).unwrap());
    assert_eq!(all, vec![data.to_string()]);
}

#[test]
fn framer_invalid_utf8_waits() {
    let mut f = StreamFramer::new();
    let mut data: Vec<u8> = b"<iq>".to_vec();
    data.push(0xff);
    data.extend_from_slice(b"</iq>");
    let out = f.push(&data).unwrap();
    assert!(out.is_empty());
}

#[test]
fn framer_incomplete_stanza_retained() {
    let mut f = StreamFramer::new();
    let out = push_str(&mut f, "<iq>partial</i");
    assert!(out.is_empty());
    let out = push_str(&mut f, "q>");
    assert_eq!(out, vec!["<iq>partial</iq>".to_string()]);
}

#[test]
fn framer_two_stanzas_in_one_push() {
    let mut f = StreamFramer::new();
    let out = push_str(&mut f, "<iq>a</iq><presence>b</presence>");
    assert_eq!(
        out,
        vec!["<iq>a</iq>".to_string(), "<presence>b</presence>".to_string()]
    );
}

#[test]
fn framer_leftmost_boundary_wins() {
    let mut f = StreamFramer::new();
    let out = push_str(&mut f, "<r h='1'/><iq>x</iq>");
    assert_eq!(out, vec!["<r h='1'/>".to_string(), "<iq>x</iq>".to_string()]);
}

#[test]
fn framer_reset_returns_to_header_mode() {
    let mut f = StreamFramer::new();
    let _ = push_str(&mut f, "<stream:stream to='x'>");
    let _ = push_str(&mut f, "<iq>unfinished");
    f.reset();
    // After reset the buffer is empty and the header is awaited again.
    let out = push_str(&mut f, "<stream:stream to='y'>");
    assert_eq!(out, vec!["<stream:stream to='y'>".to_string()]);
}

#[test]
fn framer_header_without_declaration() {
    let mut f = StreamFramer::new();
    let out = push_str(&mut f, "<stream x='1'>");
    assert_eq!(out, vec!["<stream x='1'>".to_string()]);
}

#[test]
fn framer_header_mode_exits_permanently() {
    let mut f = StreamFramer::new();
    let _ = push_str(&mut f, "<stream:stream to='x'>");
    // A second stream-opening tag is no longer treated as a header.
    let out = push_str(&mut f, "<stream:stream to='y'>");
    assert!(out.is_empty());
}

#[test]
fn framer_default_equals_new() {
    let mut f = StreamFramer::default();
    let out = push_str(&mut f, "<r h='3'/>");
    assert_eq!(out, vec!["<r h='3'/>".to_string()]);
}

#[test]
fn framer_round_trip_conservation() {
    // Past the header, emitted fragments plus the retained buffer hold every
    // pushed byte, whatever the split.
    let mut f = StreamFramer::new();
    let _ = push_str(&mut f, "<stream:stream to='x'>");
    let data = "<iq>a</iq>trailing<messa";
    let mut emitted = String::new();
    for chunk in data.as_bytes().chunks(3) {
        for s in f.push(chunk).unwrap() {
            emitted.push_str(&s);
        }
    }
    // The unconsumed suffix is everything after the one complete stanza.
    assert_eq!(emitted, "<iq>a</iq>");
    // Completing the buffered stanza proves the retained bytes were kept.
    let out = push_str(&mut f, "ge>b</message>");
    assert_eq!(out, vec!["trailing<message>b</message>".to_string()]);
}

#[test]
fn framer_recognizes_sasl_and_tls_tags() {
    let mut f = StreamFramer::new();
    let out = push_str(&mut f, "<challenge xmlns='urn:sasl'>abc</challenge>");
    assert_eq!(out, vec!["<challenge xmlns='urn:sasl'>abc</challenge>".to_string()]);
    let out = push_str(&mut f, "<proceed xmlns='urn:tls'/>");
    assert_eq!(out, vec!["<proceed xmlns='urn:tls'/>".to_string()]);
    let out = push_str(&mut f, "<success>ok</success>");
    assert_eq!(out, vec!["<success>ok</success>".to_string()]);
}

#[test]
fn framer_bare_self_close_without_space_is_retained() {
    // A self-closing root is recognized as `<name ` or `<name>` before the
    // `/>`; the bare `<proceed/>` form is neither, so it waits for more
    // bytes and is flushed by the next recognized boundary.
    let mut f = StreamFramer::new();
    let out = push_str(&mut f, "<proceed/>");
    assert!(out.is_empty());
    let out = push_str(&mut f, "</proceed>");
    assert_eq!(out, vec!["<proceed/></proceed>".to_string()]);
}

#[test]
fn framer_recognizes_stream_management_tags() {
    let mut f = StreamFramer::new();
    let out = push_str(&mut f, "<enabled xmlns='urn:xmpp:sm:3' resume='true'/>");
    assert_eq!(out, vec!["<enabled xmlns='urn:xmpp:sm:3' resume='true'/>".to_string()]);
    let out = push_str(&mut f, "<a h='12'/>");
    assert_eq!(out, vec!["<a h='12'/>".to_string()]);
}

#[test]
fn framer_recognizes_bosh_body() {
    let mut f = StreamFramer::new();
    let out = push_str(&mut f, "<body xmlns='http://jabber.org/protocol/httpbind'>x</body>");
    assert_eq!(
        out,
        vec!["<body xmlns='http://jabber.org/protocol/httpbind'>x</body>".to_string()]
    );
}
