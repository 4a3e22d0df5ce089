use multer::{Error, Field, Multipart, Pulled};

/// Feed the next slice of `input` (at most `n` bytes) into the session,
/// closing it once the input is exhausted.
fn feed(mp: &mut Multipart, input: &[u8], pos: &mut usize, n: usize) {
    if *pos >= input.len() {
        mp.close();
    } else {
        let end = if *pos + n < input.len() { *pos + n } else { input.len() };
        mp.push_chunk(&input[*pos..end]);
        *pos = end;
    }
}

/// Parse a whole stream delivered in chunks of `chunk_size` bytes,
/// collecting (name, file name, body bytes, index) per part.
fn parse_all(
    input: &[u8],
    boundary: &[u8],
    chunk_size: usize,
) -> Result<Vec<(Option<String>, Option<String>, Vec<u8>, usize)>, Error> {
    let mut mp = Multipart::new(boundary);
    let mut pos: usize = 0;
    let mut out = Vec::new();
    loop {
        match mp.next_field()? {
            Pulled::Ready(Some(mut f)) => {
                let name = f.name().map(|s| s.to_string());
                let file = f.file_name().map(|s| s.to_string());
                let idx = f.index();
                let body = loop {
                    match f.bytes(&mut mp)? {
                        Pulled::Ready(b) => break b,
                        Pulled::Pending => feed(&mut mp, input, &mut pos, chunk_size),
                    }
                };
                f.release(&mut mp);
                out.push((name, file, body, idx));
            }
            Pulled::Ready(None) => return Ok(out),
            Pulled::Pending => feed(&mut mp, input, &mut pos, chunk_size),
        }
    }
}

/// Push everything and close, then pull the next field, which must be
/// ready at once.
fn ready_field(mp: &mut Multipart) -> Option<Field> {
    match mp.next_field().unwrap() {
        Pulled::Ready(r) => r,
        Pulled::Pending => panic!("expected a ready result"),
    }
}

fn ready_bytes(f: &mut Field, mp: &mut Multipart) -> Vec<u8> {
    match f.bytes(mp).unwrap() {
        Pulled::Ready(b) => b,
        Pulled::Pending => panic!("expected a ready body"),
    }
}

fn ready_text(f: &mut Field, mp: &mut Multipart) -> String {
    match f.text(mp).unwrap() {
        Pulled::Ready(s) => s,
        Pulled::Pending => panic!("expected ready text"),
    }
}

const ONE_PART: &str =
    "--B\r\nContent-Disposition: form-data; name=\"f\"\r\n\r\nabcd\r\n--B--\r\n";

#[test]
fn round_trip_single_part() {
    let mut mp = Multipart::new(b"B");
    mp.push_chunk(ONE_PART.as_bytes());
    mp.close();
    let mut f = ready_field(&mut mp).unwrap();
    assert_eq!(f.name(), Some("f"));
    assert_eq!(f.file_name(), None);
    assert_eq!(f.index(), 0);
    let text = ready_text(&mut f, &mut mp);
    assert_eq!(text, "abcd");
    f.release(&mut mp);
    assert!(ready_field(&mut mp).is_none());
}

const TWO_PARTS: &str = "--X-BOUNDARY\r\nContent-Disposition: form-data; name=\"a\"\r\n\r\nabcd\r\n--X-BOUNDARY\r\nContent-Disposition: form-data; name=\"b\"\r\n\r\n1234\r\n--X-BOUNDARY--\r\n";

#[test]
fn two_parts_preserve_names_bodies_and_indices() {
    let parts = parse_all(TWO_PARTS.as_bytes(), b"X-BOUNDARY", TWO_PARTS.len()).unwrap();
    assert_eq!(parts.len(), 2);
    assert_eq!(parts[0].0.as_deref(), Some("a"));
    assert_eq!(parts[0].2, b"abcd".to_vec());
    assert_eq!(parts[0].3, 0);
    assert_eq!(parts[1].0.as_deref(), Some("b"));
    assert_eq!(parts[1].2, b"1234".to_vec());
    assert_eq!(parts[1].3, 1);
}

#[test]
fn byte_at_a_time_delivery_gives_identical_results() {
    let whole = parse_all(TWO_PARTS.as_bytes(), b"X-BOUNDARY", TWO_PARTS.len()).unwrap();
    let trickled = parse_all(TWO_PARTS.as_bytes(), b"X-BOUNDARY", 1).unwrap();
    assert_eq!(whole, trickled);
}

#[test]
fn boundary_split_across_two_chunks_is_detected() {
    let data = ONE_PART.as_bytes();
    // split right inside the closing boundary token
    let cut = data.len() - 5;
    let mut mp = Multipart::new(b"B");
    mp.push_chunk(&data[..cut]);
    let mut f = ready_field(&mut mp).unwrap();
    // the body cannot be finished yet: the tail may still be a boundary
    match f.bytes(&mut mp).unwrap() {
        Pulled::Pending => {}
        Pulled::Ready(_) => panic!("body finished before the boundary was complete"),
    }
    mp.push_chunk(&data[cut..]);
    mp.close();
    let body = ready_bytes(&mut f, &mut mp);
    assert_eq!(body, b"abcd".to_vec());
    f.release(&mut mp);
    assert!(ready_field(&mut mp).is_none());
}

#[test]
fn exhausted_field_keeps_returning_none() {
    let mut mp = Multipart::new(b"B");
    mp.push_chunk(ONE_PART.as_bytes());
    mp.close();
    let mut f = ready_field(&mut mp).unwrap();
    let _ = ready_bytes(&mut f, &mut mp);
    for _ in 0..3 {
        match f.chunk(&mut mp).unwrap() {
            Pulled::Ready(None) => {}
            _ => panic!("an exhausted field must keep yielding None"),
        }
    }
    f.release(&mut mp);
}

#[test]
fn next_field_waits_while_a_field_is_alive() {
    let mut mp = Multipart::new(b"X-BOUNDARY");
    mp.push_chunk(TWO_PARTS.as_bytes());
    mp.close();
    let mut f = ready_field(&mut mp).unwrap();
    // the driver must not advance past the live field
    assert!(matches!(mp.next_field().unwrap(), Pulled::Pending));
    let body = ready_bytes(&mut f, &mut mp);
    assert_eq!(body, b"abcd".to_vec());
    // still alive until released, even though it is exhausted
    assert!(matches!(mp.next_field().unwrap(), Pulled::Pending));
    f.release(&mut mp);
    let mut g = ready_field(&mut mp).unwrap();
    assert_eq!(g.name(), Some("b"));
    assert_eq!(g.index(), 1);
    assert_eq!(ready_bytes(&mut g, &mut mp), b"1234".to_vec());
    g.release(&mut mp);
    assert!(ready_field(&mut mp).is_none());
}

#[test]
fn abandoned_field_is_cleaned_up_before_the_next_part() {
    let mut mp = Multipart::new(b"X-BOUNDARY");
    mp.push_chunk(TWO_PARTS.as_bytes());
    mp.close();
    let f = ready_field(&mut mp).unwrap();
    // abandon the first part without reading its body
    f.release(&mut mp);
    let mut g = ready_field(&mut mp).unwrap();
    assert_eq!(g.name(), Some("b"));
    assert_eq!(ready_bytes(&mut g, &mut mp), b"1234".to_vec());
    g.release(&mut mp);
    assert!(ready_field(&mut mp).is_none());
}

#[test]
fn missing_terminal_boundary_is_an_incomplete_stream() {
    let data = "--B\r\nContent-Disposition: form-data; name=\"f\"\r\n\r\nabcd";
    let mut mp = Multipart::new(b"B");
    mp.push_chunk(data.as_bytes());
    mp.close();
    let mut f = ready_field(&mut mp).unwrap();
    assert!(matches!(f.bytes(&mut mp), Err(Error::IncompleteFieldData)));
}

#[test]
fn stream_ending_before_the_first_boundary_is_incomplete() {
    let mut mp = Multipart::new(b"B");
    mp.push_chunk(b"--B");
    mp.close();
    assert!(matches!(mp.next_field(), Err(Error::IncompleteStream)));
}

#[test]
fn header_block_never_terminated_is_incomplete_headers() {
    let mut mp = Multipart::new(b"B");
    mp.push_chunk(b"--B\r\nContent-Disposition: form-data");
    mp.close();
    assert!(matches!(mp.next_field(), Err(Error::IncompleteHeaders)));
}

#[test]
fn header_line_without_colon_fails() {
    let mut mp = Multipart::new(b"B");
    mp.push_chunk(b"--B\r\nNoColonHere\r\n\r\nx\r\n--B--\r\n");
    mp.close();
    assert!(matches!(mp.next_field(), Err(Error::ReadHeaderFailed)));
}

#[test]
fn part_without_headers_has_no_name() {
    let mut mp = Multipart::new(b"B");
    mp.push_chunk(b"--B\r\n\r\nhello\r\n--B--\r\n");
    mp.close();
    let mut f = ready_field(&mut mp).unwrap();
    assert_eq!(f.name(), None);
    assert_eq!(f.headers().len(), 0);
    assert_eq!(ready_bytes(&mut f, &mut mp), b"hello".to_vec());
    f.release(&mut mp);
    assert!(ready_field(&mut mp).is_none());
}

#[test]
fn file_name_and_headers_are_extracted() {
    let data = "--B\r\nContent-Disposition: form-data; name=\"up\"; filename=\"a.txt\"\r\nContent-Type: text/plain\r\n\r\nhi\r\n--B--\r\n";
    let mut mp = Multipart::new(b"B");
    mp.push_chunk(data.as_bytes());
    mp.close();
    let mut f = ready_field(&mut mp).unwrap();
    assert_eq!(f.file_name(), Some("a.txt"));
    let headers = f.headers();
    assert_eq!(headers.len(), 2);
    let cd = headers.get(b"content-disposition").unwrap();
    assert_eq!(cd.as_slice(), b"form-data; name=\"up\"; filename=\"a.txt\"");
    let ct = f.content_type().unwrap();
    assert_eq!(ct.essence(), "text/plain");
    assert_eq!(ct.charset(), None);
    assert_eq!(ready_bytes(&mut f, &mut mp), b"hi".to_vec());
    f.release(&mut mp);
}

#[test]
fn declared_charset_overrides_the_default() {
    // 0xE9 is "é" in ISO-8859-1 and malformed on its own in UTF-8
    let mut data: Vec<u8> = Vec::new();
    data.extend_from_slice(
        b"--B\r\nContent-Disposition: form-data; name=\"t\"\r\nContent-Type: text/plain; charset=iso-8859-1\r\n\r\n",
    );
    data.push(0xE9);
    data.extend_from_slice(b"\r\n--B--\r\n");
    let mut mp = Multipart::new(b"B");
    mp.push_chunk(&data);
    mp.close();
    let mut f = ready_field(&mut mp).unwrap();
    let ct = f.content_type().unwrap();
    assert_eq!(ct.essence(), "text/plain");
    assert_eq!(ct.charset(), Some("iso-8859-1"));
    let text = ready_text(&mut f, &mut mp);
    assert_eq!(text, "\u{e9}");
    f.release(&mut mp);
}

#[test]
fn unknown_charset_falls_back_to_utf8_with_replacement() {
    let mut data: Vec<u8> = Vec::new();
    data.extend_from_slice(
        b"--B\r\nContent-Disposition: form-data; name=\"t\"\r\nContent-Type: text/plain; charset=bogus-name\r\n\r\nok",
    );
    data.push(0xFF);
    data.extend_from_slice(b"\r\n--B--\r\n");
    let mut mp = Multipart::new(b"B");
    mp.push_chunk(&data);
    mp.close();
    let mut f = ready_field(&mut mp).unwrap();
    let text = match f.text(&mut mp).unwrap() {
        Pulled::Ready(s) => s,
        Pulled::Pending => panic!("expected ready text"),
    };
    assert_eq!(text, "ok\u{fffd}");
    f.release(&mut mp);
}

#[test]
fn caller_default_encoding_applies_when_no_charset_is_declared() {
    let mut data: Vec<u8> = Vec::new();
    data.extend_from_slice(b"--B\r\nContent-Disposition: form-data; name=\"t\"\r\n\r\n");
    data.push(0xE9);
    data.extend_from_slice(b"\r\n--B--\r\n");
    let mut mp = Multipart::new(b"B");
    mp.push_chunk(&data);
    mp.close();
    let mut f = ready_field(&mut mp).unwrap();
    let text = match f.text_with_charset(&mut mp, "iso-8859-1").unwrap() {
        Pulled::Ready(s) => s,
        Pulled::Pending => panic!("expected ready text"),
    };
    assert_eq!(text, "\u{e9}");
    f.release(&mut mp);
}

#[test]
fn json_body_parses_into_a_value() {
    let data = "--B\r\nContent-Disposition: form-data; name=\"j\"\r\n\r\n{ \"name\": \"Alice\" }\r\n--B--\r\n";
    let mut mp = Multipart::new(b"B");
    mp.push_chunk(data.as_bytes());
    mp.close();
    let mut f = ready_field(&mut mp).unwrap();
    let v = match f.json(&mut mp).unwrap() {
        Pulled::Ready(v) => v,
        Pulled::Pending => panic!("expected a ready value"),
    };
    assert_eq!(v.get("name").and_then(|n| n.as_str()), Some("Alice"));
    f.release(&mut mp);
}

#[test]
fn malformed_json_body_is_a_decode_error() {
    let data = "--B\r\nContent-Disposition: form-data; name=\"j\"\r\n\r\nnot json!\r\n--B--\r\n";
    let mut mp = Multipart::new(b"B");
    mp.push_chunk(data.as_bytes());
    mp.close();
    let mut f = ready_field(&mut mp).unwrap();
    assert!(matches!(f.json(&mut mp), Err(Error::DecodeJson)));
    f.release(&mut mp);
}

#[test]
fn stale_field_cannot_touch_a_foreign_session() {
    let mut mp = Multipart::new(b"B");
    mp.push_chunk(ONE_PART.as_bytes());
    mp.close();
    let mut f = ready_field(&mut mp).unwrap();
    // a session that did not hand out this field refuses it
    let mut other = Multipart::new(b"B");
    assert!(matches!(f.chunk(&mut other), Err(Error::LockFailure)));
    // the right session still serves it
    assert_eq!(ready_bytes(&mut f, &mut mp), b"abcd".to_vec());
    f.release(&mut mp);
}

#[test]
fn body_containing_near_boundary_bytes_is_kept_intact() {
    // "\r\n--bou" followed by text that is not the boundary must stay body
    let data = "--boundary\r\nContent-Disposition: form-data; name=\"x\"\r\n\r\nline\r\n--boundarX tail\r\n--boundary--\r\n";
    let parts = parse_all(data.as_bytes(), b"boundary", 1).unwrap();
    assert_eq!(parts.len(), 1);
    assert_eq!(parts[0].2, b"line\r\n--boundarX tail".to_vec());
}
