use http_body::{decoded, Body, Cursor, Mime, Source};

#[derive(Debug)]
struct Foo {
    #[allow(dead_code)]
    inner: String,
}

struct FooVisitor;

impl<'de> serde::de::Visitor<'de> for FooVisitor {
    type Value = Foo;

    fn expecting(&self, f: &mut std::fmt::Formatter<'_>) -> std::fmt::Result {
        f.write_str("a record with the field `inner`")
    }

    fn visit_map<A: serde::de::MapAccess<'de>>(self, mut map: A) -> Result<Foo, A::Error> {
        let mut inner = None;
        while let Some(key) = map.next_key::<String>()? {
            if key == "inner" {
                inner = Some(map.next_value::<String>()?);
            } else {
                map.next_value::<serde::de::IgnoredAny>()?;
            }
        }
        match inner {
            Some(inner) => Ok(Foo { inner }),
            None => Err(serde::de::Error::missing_field("inner")),
        }
    }
}

impl<'de> serde::Deserialize<'de> for Foo {
    fn deserialize<D: serde::Deserializer<'de>>(deserializer: D) -> Result<Self, D::Error> {
        deserializer.deserialize_struct("Foo", &["inner"], FooVisitor)
    }
}

fn cursor(text: &str) -> Source {
    Source::Cursor(Cursor::new(text.as_bytes().to_vec()))
}

fn read_with_buffers_of_size(reader: &mut Body, size: usize) -> String {
    let mut return_buffer = vec![];
    loop {
        let mut buf = vec![0; size];
        match reader.read(&mut buf) {
            0 => break String::from_utf8(return_buffer).unwrap(),
            bytes_read => return_buffer.extend_from_slice(&buf[..bytes_read]),
        }
    }
}

#[test]
fn json_status() {
    let body = Body::empty();
    let bytes = body.into_bytes().unwrap();
    let res = decoded(serde_json::from_slice::<Foo>(&bytes));
    assert_eq!(res.unwrap_err().status().code(), 422);
}

#[test]
fn form_status() {
    let body = Body::empty();
    let text = body.into_string().unwrap();
    let res = decoded(serde_urlencoded::from_str::<Foo>(&text));
    assert_eq!(res.unwrap_err().status().code(), 422);
}

#[test]
fn attempting_to_read_past_length() {
    for buf_len in 1..13 {
        let mut body = Body::from_reader(cursor("hello world"), Some(5));
        assert_eq!(read_with_buffers_of_size(&mut body, buf_len), "hello");
        assert_eq!(body.bytes_read(), 5);
    }
}

#[test]
fn attempting_to_read_when_length_is_greater_than_content() {
    for buf_len in 1..13 {
        let mut body = Body::from_reader(cursor("hello world"), Some(15));
        assert_eq!(read_with_buffers_of_size(&mut body, buf_len), "hello world");
        assert_eq!(body.bytes_read(), 11);
    }
}

#[test]
fn attempting_to_read_when_length_is_exactly_right() {
    for buf_len in 1..13 {
        let mut body = Body::from_reader(cursor("hello world"), Some(11));
        assert_eq!(read_with_buffers_of_size(&mut body, buf_len), "hello world");
        assert_eq!(body.bytes_read(), 11);
    }
}

#[test]
fn reading_in_various_buffer_lengths_when_there_is_no_length() {
    for buf_len in 1..13 {
        let mut body = Body::from_reader(cursor("hello world"), None);
        assert_eq!(read_with_buffers_of_size(&mut body, buf_len), "hello world");
        assert_eq!(body.bytes_read(), 11);
    }
}

#[test]
fn chain_strings() {
    for buf_len in 1..13 {
        let mut body = Body::from("hello ").chain(Body::from("world"));
        assert_eq!(body.len(), Some(11));
        assert_eq!(body.mime(), Some(&Mime::plain()));
        assert_eq!(read_with_buffers_of_size(&mut body, buf_len), "hello world");
        assert_eq!(body.bytes_read(), 11);
    }
}

#[test]
fn chain_mixed_bytes_string() {
    for buf_len in 1..13 {
        let mut body = Body::from(&b"hello "[..]).chain(Body::from("world"));
        assert_eq!(body.len(), Some(11));
        assert_eq!(body.mime(), Some(&Mime::byte_stream()));
        assert_eq!(read_with_buffers_of_size(&mut body, buf_len), "hello world");
        assert_eq!(body.bytes_read(), 11);
    }
}

#[test]
fn chain_mixed_reader_string() {
    for buf_len in 1..13 {
        let mut body = Body::from_reader(cursor("hello "), Some(6)).chain(Body::from("world"));
        assert_eq!(body.len(), Some(11));
        assert_eq!(body.mime(), Some(&Mime::byte_stream()));
        assert_eq!(read_with_buffers_of_size(&mut body, buf_len), "hello world");
        assert_eq!(body.bytes_read(), 11);
    }
}

#[test]
fn chain_mixed_nolen_len() {
    for buf_len in 1..13 {
        let mut body = Body::from_reader(cursor("hello "), None).chain(Body::from("world"));
        assert_eq!(body.len(), None);
        assert_eq!(body.mime(), Some(&Mime::byte_stream()));
        assert_eq!(read_with_buffers_of_size(&mut body, buf_len), "hello world");
        assert_eq!(body.bytes_read(), 11);
    }
}

#[test]
fn chain_mixed_len_nolen() {
    for buf_len in 1..13 {
        let mut body = Body::from("hello ").chain(Body::from_reader(cursor("world"), None));
        assert_eq!(body.len(), None);
        assert_eq!(body.mime(), Some(&Mime::byte_stream()));
        assert_eq!(read_with_buffers_of_size(&mut body, buf_len), "hello world");
        assert_eq!(body.bytes_read(), 11);
    }
}

#[test]
fn chain_short() {
    for buf_len in 1..26 {
        let mut body = Body::from_reader(cursor("hello xyz"), Some(6))
            .chain(Body::from_reader(cursor("world abc"), Some(5)));
        assert_eq!(body.len(), Some(11));
        assert_eq!(body.mime(), Some(&Mime::byte_stream()));
        assert_eq!(read_with_buffers_of_size(&mut body, buf_len), "hello world");
        assert_eq!(body.bytes_read(), 11);
    }
}

#[test]
fn chain_many() {
    for buf_len in 1..13 {
        let mut body = Body::from("hello")
            .chain(Body::from(&b" "[..]))
            .chain(Body::from("world"));
        assert_eq!(body.len(), Some(11));
        assert_eq!(body.mime(), Some(&Mime::byte_stream()));
        assert_eq!(read_with_buffers_of_size(&mut body, buf_len), "hello world");
        assert_eq!(body.bytes_read(), 11);
    }
}

#[test]
fn chain_skip_start() {
    for buf_len in 1..26 {
        let mut body1 = Body::from_reader(cursor("1234 hello xyz"), Some(11));
        let mut buf = vec![0; 5];
        body1.read(&mut buf);
        assert_eq!(buf, b"1234 ");

        let mut body2 = Body::from_reader(cursor("321 world abc"), Some(9));
        let mut buf = vec![0; 4];
        body2.read(&mut buf);
        assert_eq!(buf, b"321 ");

        let mut body = body1.chain(body2);
        assert_eq!(body.len(), Some(11));
        assert_eq!(body.mime(), Some(&Mime::byte_stream()));
        assert_eq!(read_with_buffers_of_size(&mut body, buf_len), "hello world");
        assert_eq!(body.bytes_read(), 11);
    }
}
