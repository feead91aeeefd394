use agni::conditional::{read_conditionals, read_if_range, Bound, Cond, Conditionals};
use agni::header_values::{blank_quoted, entity_tag, header_value};
use agni::query::PathError;
use agni::reply::{Body, Reply};
use agni::serve::{
    bytes_range, conditional_reply, file_conditional, get_block_size, optimal_buf_size,
    range_countable, serve_file, BadRange, FileMeta,
};

const TIME: u64 = 784111777;
const DATE: &str = "Sun, 06 Nov 1994 08:49:37 GMT";

fn one(value: &str) -> Vec<Vec<u8>> {
    vec![value.as_bytes().to_vec()]
}

fn conditions(modified: &[&str], unmodified: &[&str], if_range: &[&str], range: &[&str]) -> Conditionals {
    let list = |v: &[&str]| -> Vec<Vec<u8>> { v.iter().map(|s| s.as_bytes().to_vec()).collect() };
    read_conditionals(&list(modified), &list(unmodified), list(if_range), &list(range))
}

fn meta(len: u64) -> FileMeta {
    FileMeta { len, modified: Some(TIME), device_block: 4096 }
}

fn header(r: &Reply, name: &str) -> Option<String> {
    r.headers.iter().find(|h| h.0 == name).map(|h| h.1.clone())
}

fn span(r: &Reply) -> Option<(u64, u64, usize)> {
    match r.body {
        Body::File { start, end, buf_size } => Some((start, end, buf_size)),
        _ => None,
    }
}

fn single(start: Bound, end: Bound) -> Option<Vec<(Bound, Bound)>> {
    Some(vec![(start, end)])
}

#[test]
fn conditions_are_read_from_headers() {
    let c = conditions(&[DATE], &["Sunday, 06-Nov-94 08:49:37 GMT"], &["\"tag\""], &["bytes=1-2"]);
    assert_eq!(c.if_modified_since, Some(TIME));
    assert_eq!(c.if_unmodified_since, Some(TIME));
    assert_eq!(c.if_range, one("\"tag\""));
    assert_eq!(c.range, single(Bound::Included(1), Bound::Included(2)));
}

#[test]
fn absent_or_broken_conditions_are_none() {
    let c = conditions(&[], &[], &[], &[]);
    assert_eq!(c.if_modified_since, None);
    assert_eq!(c.if_unmodified_since, None);
    assert_eq!(c.range, None);
    let c = conditions(&["yesterday"], &[DATE, DATE], &[], &["lines=1-2"]);
    assert_eq!(c.if_modified_since, None);
    assert_eq!(c.if_unmodified_since, None);
    assert_eq!(c.range, None);
}

#[test]
fn ranges_are_read_in_their_forms() {
    let range = |v: &str| conditions(&[], &[], &[], &[v]).range;
    assert_eq!(range("bytes=5-"), single(Bound::Included(5), Bound::Unbounded));
    assert_eq!(range("bytes=-5"), single(Bound::Unbounded, Bound::Included(5)));
    assert_eq!(
        range("bytes=0-1,4-"),
        Some(vec![
            (Bound::Included(0), Bound::Included(1)),
            (Bound::Included(4), Bound::Unbounded)
        ])
    );
    assert_eq!(range("bytes=x"), Some(vec![]));
    assert_eq!(range("bytes="), Some(vec![]));
    assert_eq!(range("bytes=-"), single(Bound::Unbounded, Bound::Unbounded));
    assert_eq!(
        range("bytes=-9,3-4,7-"),
        Some(vec![
            (Bound::Unbounded, Bound::Included(9)),
            (Bound::Included(3), Bound::Included(4)),
            (Bound::Included(7), Bound::Unbounded)
        ])
    );
}

#[test]
fn stretch_is_found() {
    assert_eq!(bytes_range(&None, 10), Ok((0, 10)));
    assert_eq!(bytes_range(&Some(vec![]), 10), Ok((0, 10)));
    assert_eq!(bytes_range(&single(Bound::Included(2), Bound::Included(4)), 10), Ok((2, 5)));
    assert_eq!(bytes_range(&single(Bound::Included(2), Bound::Unbounded), 10), Ok((2, 10)));
    assert_eq!(bytes_range(&single(Bound::Unbounded, Bound::Included(3)), 10), Ok((0, 4)));
    assert_eq!(bytes_range(&single(Bound::Excluded(2), Bound::Excluded(5)), 10), Ok((3, 5)));
    assert_eq!(bytes_range(&single(Bound::Included(0), Bound::Included(10)), 10), Ok((0, 10)));
}

#[test]
fn first_stretch_counts() {
    let range = Some(vec![
        (Bound::Included(1), Bound::Included(1)),
        (Bound::Included(3), Bound::Included(3)),
    ]);
    assert_eq!(bytes_range(&range, 10), Ok((1, 2)));
}

#[test]
fn stretch_outside_the_file_is_bad() {
    assert_eq!(bytes_range(&single(Bound::Included(10), Bound::Unbounded), 10), Err(BadRange));
    assert_eq!(bytes_range(&single(Bound::Included(0), Bound::Included(11)), 10), Err(BadRange));
    assert_eq!(bytes_range(&single(Bound::Included(5), Bound::Included(3)), 10), Err(BadRange));
    assert_eq!(bytes_range(&single(Bound::Unbounded, Bound::Unbounded), 0), Err(BadRange));
}

#[test]
fn ends_are_counted_in_64_bits() {
    assert!(range_countable(&None, 10));
    assert!(!range_countable(&single(Bound::Included(0), Bound::Included(u64::MAX)), 10));
    assert!(range_countable(&single(Bound::Included(0), Bound::Included(u64::MAX)), u64::MAX));
    assert!(!range_countable(&single(Bound::Excluded(u64::MAX), Bound::Unbounded), 10));
    let c = conditions(&[], &[], &[], &["bytes=0-18446744073709551615"]);
    assert!(file_conditional(c, &meta(10), "/a").is_none());
}

#[test]
fn buffers_are_blocks() {
    assert_eq!(get_block_size(512), 8192);
    assert_eq!(get_block_size(65536), 65536);
    assert_eq!(optimal_buf_size(512, 100), 100);
    assert_eq!(optimal_buf_size(512, 100000), 8192);
    assert_eq!(optimal_buf_size(0, 0), 0);
}

#[test]
fn whole_file_is_sent() {
    let r = file_conditional(conditions(&[], &[], &[], &[]), &meta(100), "/mnt/a.mp4").unwrap();
    assert_eq!(r.status, 200);
    assert_eq!(
        r.headers,
        vec![
            ("Content-Length".to_string(), "100".to_string()),
            ("Content-Type".to_string(), "video/mp4".to_string()),
            ("Accept-Ranges".to_string(), "bytes".to_string()),
            ("Last-Modified".to_string(), DATE.to_string()),
        ]
    );
    assert_eq!(span(&r), Some((0, 100, 100)));
}

#[test]
fn part_of_a_file_is_sent() {
    let c = conditions(&[], &[], &[], &["bytes=10-19"]);
    let r = file_conditional(c, &meta(20000), "/mnt/a.mkv").unwrap();
    assert_eq!(r.status, 206);
    assert_eq!(header(&r, "Content-Range"), Some("bytes 10-19/20000".to_string()));
    assert_eq!(header(&r, "Content-Length"), Some("10".to_string()));
    assert_eq!(header(&r, "Content-Type"), Some("video/x-matroska".to_string()));
    assert_eq!(span(&r), Some((10, 20, 8192)));
}

#[test]
fn stretch_that_is_the_whole_file_is_no_part() {
    let c = conditions(&[], &[], &[], &["bytes=0-99"]);
    let r = file_conditional(c, &meta(100), "/a").unwrap();
    assert_eq!(r.status, 200);
    assert_eq!(header(&r, "Content-Range"), None);
    assert_eq!(header(&r, "Content-Type"), Some("application/octet-stream".to_string()));
}

#[test]
fn bad_stretch_is_refused() {
    let c = conditions(&[], &[], &[], &["bytes=200-"]);
    let r = file_conditional(c, &meta(100), "/a").unwrap();
    assert_eq!(r.status, 416);
    assert_eq!(r.headers, vec![("Content-Range".to_string(), "bytes */100".to_string())]);
    assert!(matches!(r.body, Body::Empty));
}

#[test]
fn fresh_copies_are_not_sent_again() {
    let r = file_conditional(conditions(&[DATE], &[], &[], &[]), &meta(100), "/a").unwrap();
    assert_eq!(r.status, 304);
    assert!(r.headers.is_empty());
    let newer = FileMeta { len: 100, modified: Some(TIME + 1), device_block: 0 };
    let r = file_conditional(conditions(&[DATE], &[], &[], &[]), &newer, "/a").unwrap();
    assert_eq!(r.status, 200);
    let ageless = FileMeta { len: 100, modified: None, device_block: 0 };
    let r = file_conditional(conditions(&[DATE], &[], &[], &[]), &ageless, "/a").unwrap();
    assert_eq!(r.status, 200);
    assert_eq!(header(&r, "Last-Modified"), None);
}

#[test]
fn newer_files_are_refused_to_the_careful() {
    let r = file_conditional(conditions(&[], &[DATE], &[], &[]), &meta(100), "/a").unwrap();
    assert_eq!(r.status, 200);
    let newer = FileMeta { len: 100, modified: Some(TIME + 1), device_block: 0 };
    let r = file_conditional(conditions(&[], &[DATE], &[], &[]), &newer, "/a").unwrap();
    assert_eq!(r.status, 412);
    let ageless = FileMeta { len: 100, modified: None, device_block: 0 };
    let r = file_conditional(conditions(&[], &[DATE], &[], &[]), &ageless, "/a").unwrap();
    assert_eq!(r.status, 412);
}

#[test]
fn changed_files_are_sent_whole() {
    let c = conditions(&[], &[], &[DATE], &["bytes=0-9"]);
    assert_eq!(file_conditional(c, &meta(100), "/a").unwrap().status, 206);
    let newer = FileMeta { len: 100, modified: Some(TIME + 1), device_block: 0 };
    let c = conditions(&[], &[], &[DATE], &["bytes=0-9"]);
    assert_eq!(file_conditional(c, &newer, "/a").unwrap().status, 200);
    let c = conditions(&[], &[], &["\"tag\""], &["bytes=0-9"]);
    assert_eq!(file_conditional(c, &meta(100), "/a").unwrap().status, 200);
}

#[test]
fn conditions_are_checked_in_turn() {
    let c = conditions(&[DATE], &[DATE], &[], &["bytes=0-9"]);
    assert!(matches!(c.check(Some(TIME + 1)), Cond::NoBody(r) if r.status == 412));
    let c = conditions(&[DATE], &[DATE], &[], &["bytes=0-9"]);
    assert!(matches!(c.check(Some(TIME)), Cond::NoBody(r) if r.status == 304));
    let c = conditions(&[], &[], &[], &["bytes=0-9"]);
    assert!(matches!(c.check_with(Some(TIME), Some(true)), Cond::WithBody(None)));
    let c = conditions(&[], &[], &[], &["bytes=0-9"]);
    assert!(matches!(c.check_with(Some(TIME), Some(false)), Cond::WithBody(Some(_))));
}

#[test]
fn checked_conditions_become_a_reply() {
    let r = conditional_reply(Cond::NoBody(Reply::bare(304)), &meta(5), "x/y".to_string());
    assert_eq!(r.status, 304);
    let r = conditional_reply(Cond::WithBody(None), &meta(5), "x/y".to_string());
    assert_eq!(header(&r, "Content-Type"), Some("x/y".to_string()));
}

#[test]
fn empty_file_is_sent_whole() {
    let r = file_conditional(conditions(&[], &[], &[], &[]), &meta(0), "/a").unwrap();
    assert_eq!(r.status, 200);
    assert_eq!(span(&r), Some((0, 0, 0)));
    let c = conditions(&[], &[], &[], &["bytes=0-0"]);
    assert_eq!(file_conditional(c, &meta(0), "/a").unwrap().status, 416);
}

#[test]
fn request_is_read_from_query_and_headers() {
    let none: Vec<Vec<u8>> = vec![];
    let r = serve_file(
        Some("filename=/mnt/a%20b.mkv"),
        &one(DATE),
        &none,
        one("\"tag\""),
        &one("bytes=5-"),
    );
    match r {
        Ok(request) => {
            assert_eq!(request.path, "/mnt/a b.mkv");
            assert_eq!(request.conditionals.if_modified_since, Some(TIME));
            assert_eq!(request.conditionals.if_unmodified_since, None);
            assert_eq!(request.conditionals.if_range, one("\"tag\""));
            assert_eq!(
                request.conditionals.range,
                single(Bound::Included(5), Bound::Unbounded)
            );
        }
        Err(_) => panic!("the query names a file"),
    }
    let r = serve_file(Some("file=x"), &none, &none, vec![], &none);
    assert!(matches!(r, Err(PathError::Missing)));
}

#[test]
fn dates_come_back() {
    for time in [0, 951827696, TIME, 253402300799] {
        let meta = FileMeta { len: 100, modified: Some(time), device_block: 0 };
        let r = file_conditional(conditions(&[], &[], &[], &[]), &meta, "/a").unwrap();
        let date = header(&r, "Last-Modified").unwrap();
        let c = conditions(&[&date], &[&date], &[], &[]);
        assert_eq!(c.if_modified_since, Some(time));
        assert_eq!(c.if_unmodified_since, Some(time));
        assert_eq!(file_conditional(c, &meta, "/a").unwrap().status, 304);
        let c = conditions(&[], &[], &[&date], &["bytes=0-9"]);
        assert_eq!(file_conditional(c, &meta, "/a").unwrap().status, 206);
    }
}

#[test]
fn pieces_of_ranges_may_be_odd() {
    let range = |v: &[&str]| conditions(&[], &[], &[], v).range;
    let ends = single(Bound::Included(1), Bound::Included(2));
    assert_eq!(range(&["bytes= 1-2\t"]), ends);
    assert_eq!(range(&["bytes=x,1-2,5,3--4,-"]), {
        let mut all = ends.clone().unwrap();
        all.push((Bound::Unbounded, Bound::Unbounded));
        Some(all)
    });
    assert_eq!(range(&["bytes=1 -2"]), Some(vec![]));
    assert_eq!(range(&["bytes=+1-2"]), ends);
    assert_eq!(range(&["bytes=1-18446744073709551616"]), Some(vec![]));
    assert_eq!(range(&["bytes=1-2", "bytes=5-"]), ends);
    assert_eq!(range(&["Bytes=1-2"]), None);
    assert_eq!(range(&["bytes=1-2\u{e9}"]), None);
    assert_eq!(range(&["bytes=1-2", "a\nb"]), None);
}

#[test]
fn entity_tags_count_as_changed() {
    let says = |v: &str| read_if_range(&one(v), Some(TIME));
    assert_eq!(says("\"tag\""), Some(true));
    assert_eq!(says("W/\"tag\""), Some(true));
    assert_eq!(says("\"\""), Some(true));
    assert_eq!(says("\"a b\""), Some(true));
    assert_eq!(says("\"a\"b\""), None);
    assert_eq!(says("\"a b\"c\""), None);
    assert_eq!(says("W\"tag\""), None);
    assert_eq!(says("tag"), None);
    assert_eq!(says(DATE), Some(false));
    assert_eq!(read_if_range(&one(DATE), Some(TIME + 1)), Some(true));
    assert_eq!(read_if_range(&one(DATE), None), Some(true));
    assert_eq!(read_if_range(&vec![], Some(TIME)), None);
    let two = vec![b"\"a b\"".to_vec(), b"a\nb".to_vec()];
    assert_eq!(read_if_range(&two, Some(TIME)), None);
    let two = vec![DATE.as_bytes().to_vec(), b"\"tag\"".to_vec()];
    assert_eq!(read_if_range(&two, Some(TIME)), Some(false));
}

#[test]
fn values_are_told_apart() {
    assert!(header_value(&b"a\tb \xff".to_vec()));
    assert!(!header_value(&b"a\nb".to_vec()));
    assert!(!header_value(&vec![127]));
    assert!(entity_tag(&b"\"a b\"".to_vec()));
    assert!(!entity_tag(&b"\"".to_vec()));
    assert!(!entity_tag(&b"W/\"".to_vec()));
    assert!(blank_quoted(&b"W/\"a b\"".to_vec()));
    assert!(!blank_quoted(&b"a b".to_vec()));
}
