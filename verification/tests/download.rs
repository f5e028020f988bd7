use downloader::download::{Action, Download, Event, Outcome, Phase, ResponseHead};
use downloader::error::Error;
use downloader::item::Item;
use downloader::lock_copy::LockCopy;
use downloader::progress::Progress;
use downloader::table::Table;

fn item(id: &str, name: &str, total: Option<u64>, size: u64, canceled: bool) -> Item {
    Item { id: id.to_string(), name: name.to_string(), total, size, canceled }
}

fn head(status: u16, content_length: Option<&str>) -> ResponseHead {
    ResponseHead { status, content_length: content_length.map(|s| s.as_bytes().to_vec()) }
}

fn hello_twice() -> Vec<Result<Vec<u8>, Error>> {
    vec![Ok("hello".to_string().into_bytes()), Ok("hello".to_string().into_bytes())]
}

#[test]
fn read_stream_test1() {
    let mut table = Table::new();
    let (id, name) = ("1".to_string(), "progress".to_string());
    let pg = Progress::new(name.clone());
    table.add(&id, pg);

    let mut to: Vec<u8> = vec![];
    let ret = Download::read_stream(&mut table, &id, &hello_twice(), &mut to);

    assert!(ret.unwrap());
    assert_eq!(table.to_vec(), [item(&id, &name, None, 10, false)]);
    assert_eq!(to, b"hellohello");

    table.delete(&id);
}

#[test]
fn read_stream_test2() {
    let mut table = Table::new();
    let (id, name) = ("1".to_string(), "progress".to_string());
    let pg = Progress::new(name.clone());
    table.add(&id, pg);

    {
        let mut to: Vec<u8> = vec![];
        Download::read_stream(&mut table, &id, &hello_twice(), &mut to).unwrap();
    }

    {
        let mut to: Vec<u8> = vec![];
        Download::read_stream(&mut table, &id, &hello_twice(), &mut to).unwrap();
    }

    assert_eq!(table.to_vec(), [item(&id, &name, None, 20, false)]);

    table.delete(&id);
}

#[test]
fn read_stream_test3() {
    let mut table = Table::new();
    let (id, name) = ("1".to_string(), "progress".to_string());
    let pg = Progress::new(name.clone());
    table.add(&id, pg);
    table.cancel(&id);

    let mut to: Vec<u8> = vec![];
    let ret = Download::read_stream(&mut table, &id, &hello_twice(), &mut to);

    assert!(!ret.unwrap());
    assert_eq!(table.to_vec(), [item(&id, &name, None, 0, true)]);
    assert!(to.is_empty());

    table.delete(&id);
}

#[test]
fn content_length_test() {
    assert_eq!(Download::content_length(&head(200, Some("1000"))), Some(1000));
    assert_eq!(Download::content_length(&head(200, Some("invalid"))), None);
    assert_eq!(Download::content_length(&head(200, None)), None);
}

#[test]
fn content_length_follows_the_integer_grammar() {
    let parse = |s: &str| Download::content_length(&head(200, Some(s)));
    assert_eq!(parse("0"), Some(0));
    assert_eq!(parse("+15"), Some(15));
    assert_eq!(parse("007"), Some(7));
    assert_eq!(parse("18446744073709551615"), Some(u64::MAX));
    assert_eq!(parse("18446744073709551616"), None);
    assert_eq!(parse("000000000000000000000000000001"), Some(1));
    assert_eq!(parse(""), None);
    assert_eq!(parse("+"), None);
    assert_eq!(parse("-1"), None);
    assert_eq!(parse("++1"), None);
    assert_eq!(parse(" 1"), None);
    assert_eq!(parse("1 "), None);
    assert_eq!(parse("1_0"), None);
    assert_eq!(parse("12a"), None);
    assert_eq!(parse("1.5"), None);
}

#[test]
fn content_length_agrees_with_the_standard_parser() {
    for s in ["1000", "+1", "", "+", "-0", "99999999999999999999999", "0x10", "１２"] {
        let expected: Option<u64> = s.parse().ok();
        assert_eq!(Download::content_length(&head(200, Some(s))), expected);
    }
    let not_text = ResponseHead { status: 200, content_length: Some(vec![0x31, 0xff]) };
    assert_eq!(Download::content_length(&not_text), None);
}

#[test]
fn read_stream_of_an_unknown_job_stages_nothing() {
    let mut table = Table::new();
    table.add("other", Progress::new("o".to_string()));
    let mut to: Vec<u8> = vec![1, 2];
    let ret = Download::read_stream(&mut table, "gone", &hello_twice(), &mut to);
    assert_eq!(ret, Ok(false));
    assert_eq!(to, vec![1, 2]);
    assert_eq!(table.to_vec(), [item("other", "o", None, 0, false)]);
}

#[test]
fn read_stream_of_an_empty_body_is_complete() {
    let mut table = Table::new();
    table.add("1", Progress::new("p".to_string()));
    let mut to: Vec<u8> = vec![];
    assert_eq!(Download::read_stream(&mut table, "1", &vec![], &mut to), Ok(true));
    table.cancel("1");
    assert_eq!(Download::read_stream(&mut table, "1", &vec![], &mut to), Ok(true));
    assert!(to.is_empty());
}

#[test]
fn read_stream_stops_at_a_read_error() {
    let mut table = Table::new();
    table.add("1", Progress::new("p".to_string()));
    let stream = vec![
        Ok(b"abc".to_vec()),
        Err(Error::ReqwestError),
        Ok(b"def".to_vec()),
    ];
    let mut to: Vec<u8> = vec![];
    let ret = Download::read_stream(&mut table, "1", &stream, &mut to);
    assert_eq!(ret, Err(Error::ReqwestError));
    assert_eq!(to, b"abc");
    assert_eq!(table.to_vec(), [item("1", "p", None, 3, false)]);

    table.cancel("1");
    let failing = vec![Err(Error::ReqwestError)];
    assert_eq!(
        Download::read_stream(&mut table, "1", &failing, &mut to),
        Err(Error::ReqwestError)
    );
}

#[test]
fn a_new_transfer_awaits_its_request() {
    let d = Download::new("file");
    assert_eq!(d.phase(), Phase::Requesting);
    assert_eq!(d.awaited(), Action::Request);
    assert_eq!(d.id(), "");
}

#[test]
fn two_chunks_without_content_length_are_published() {
    let mut table = Table::new();
    let mut staged: Vec<u8> = vec![];
    let mut dir: Vec<String> = vec!["file.bin".to_string()];
    let mut d = Download::new("file");

    assert_eq!(d.step(&mut table, Event::Response(head(200, None))), Action::Read);
    let id = d.id().to_string();
    assert_eq!(id.len(), 36);
    assert_eq!(table.to_vec(), [item(&id, "file", None, 0, false)]);

    for chunk in [b"01234", b"56789"] {
        assert!(d.ready(&table, &Event::Chunk(5)));
        assert_eq!(d.step(&mut table, Event::Chunk(chunk.len() as u64)), Action::Stage);
        staged.extend_from_slice(chunk);
        assert!(d.ready(&table, &Event::Staged));
        assert_eq!(d.step(&mut table, Event::Staged), Action::Read);
    }
    assert_eq!(table.to_vec(), [item(&id, "file", None, 10, false)]);

    assert_eq!(d.step(&mut table, Event::End), Action::Publish);
    assert_eq!(table.to_vec().len(), 1);
    let name = LockCopy::fresh_name(&dir, "file", "bin");
    dir.push(name.clone());

    assert_eq!(d.step(&mut table, Event::Published), Action::Finish(Outcome::Published));
    assert_eq!(d.phase(), Phase::Done(Outcome::Published));
    assert_eq!(table.to_vec(), vec![]);
    assert_eq!(staged, b"0123456789");
    assert_eq!(name, "file(1).bin");
}

#[test]
fn cancel_after_the_first_chunk_publishes_nothing() {
    let mut table = Table::new();
    let mut staged: Vec<u8> = vec![];
    let mut d = Download::new("file");

    assert_eq!(d.step(&mut table, Event::Response(head(200, Some("10")))), Action::Read);
    let id = d.id().to_string();
    assert_eq!(table.to_vec(), [item(&id, "file", Some(10), 0, false)]);

    assert_eq!(d.step(&mut table, Event::Chunk(5)), Action::Stage);
    staged.extend_from_slice(b"01234");
    assert_eq!(d.step(&mut table, Event::Staged), Action::Read);

    table.cancel(&id);
    assert_eq!(table.to_vec(), [item(&id, "file", Some(10), 5, true)]);

    assert_eq!(d.step(&mut table, Event::Chunk(5)), Action::Finish(Outcome::Canceled));
    assert_eq!(table.to_vec(), vec![]);
    assert_eq!(staged, b"01234");

    assert_eq!(d.step(&mut table, Event::End), Action::Finish(Outcome::Canceled));
    assert_eq!(d.step(&mut table, Event::Published), Action::Finish(Outcome::Canceled));
    assert_eq!(table.to_vec(), vec![]);
}

#[test]
fn cancel_before_any_chunk_stages_nothing() {
    let mut table = Table::new();
    let mut d = Download::new("file");
    d.step(&mut table, Event::Response(head(200, None)));
    let id = d.id().to_string();
    table.cancel(&id);
    assert_eq!(d.step(&mut table, Event::Chunk(5)), Action::Finish(Outcome::Canceled));
    assert_eq!(table.is_canceled(&id), None);
}

#[test]
fn a_job_removed_by_someone_else_stops_the_transfer() {
    let mut table = Table::new();
    let mut d = Download::new("file");
    d.step(&mut table, Event::Response(head(200, None)));
    let id = d.id().to_string();
    table.add("other", Progress::new("o".to_string()));
    table.delete(&id);
    assert_eq!(d.step(&mut table, Event::Chunk(5)), Action::Finish(Outcome::Canceled));
    assert_eq!(table.to_vec(), [item("other", "o", None, 0, false)]);
}

#[test]
fn a_status_outside_2xx_registers_nothing() {
    for status in [199, 300, 404, 500] {
        let mut table = Table::new();
        let mut d = Download::new("file");
        assert_eq!(
            d.step(&mut table, Event::Response(head(status, Some("10")))),
            Action::Finish(Outcome::Failed(Error::HttpStatusError(status)))
        );
        assert_eq!(table.to_vec(), vec![]);
        assert_eq!(d.id(), "");
    }
    for status in [200, 204, 299] {
        let mut table = Table::new();
        let mut d = Download::new("file");
        assert_eq!(d.step(&mut table, Event::Response(head(status, None))), Action::Read);
        assert_eq!(table.to_vec().len(), 1);
    }
}

#[test]
fn a_failed_request_registers_nothing() {
    let mut table = Table::new();
    let mut d = Download::new("file");
    assert_eq!(
        d.step(&mut table, Event::Failed(Error::ReqwestError)),
        Action::Finish(Outcome::Failed(Error::ReqwestError))
    );
    assert_eq!(table.to_vec(), vec![]);
}

#[test]
fn a_failure_in_any_later_phase_removes_the_job() {
    let errors = [
        Error::ReqwestError,
        Error::StdIoError,
        Error::JoinError,
        Error::CStringNulError,
        Error::ChownError,
    ];
    for e in errors {
        for events in [
            vec![],
            vec![Event::Chunk(3)],
            vec![Event::Chunk(3), Event::Staged],
            vec![Event::End],
        ] {
            let mut table = Table::new();
            table.add("other", Progress::new("o".to_string()));
            let mut d = Download::new("file");
            d.step(&mut table, Event::Response(head(200, None)));
            for event in events {
                d.step(&mut table, event);
            }
            assert_eq!(table.to_vec().len(), 2);
            assert_eq!(
                d.step(&mut table, Event::Failed(e)),
                Action::Finish(Outcome::Failed(e))
            );
            assert_eq!(table.to_vec(), [item("other", "o", None, 0, false)]);
        }
    }
}

#[test]
fn an_event_that_is_not_awaited_changes_nothing() {
    let mut table = Table::new();
    let mut d = Download::new("file");
    assert_eq!(d.step(&mut table, Event::Chunk(3)), Action::Request);
    assert_eq!(d.step(&mut table, Event::End), Action::Request);
    assert_eq!(d.step(&mut table, Event::Staged), Action::Request);
    assert_eq!(d.step(&mut table, Event::Published), Action::Request);
    d.step(&mut table, Event::Response(head(200, None)));
    let before = table.to_vec();
    assert_eq!(d.step(&mut table, Event::Response(head(200, None))), Action::Read);
    assert_eq!(d.step(&mut table, Event::Staged), Action::Read);
    assert_eq!(d.step(&mut table, Event::Published), Action::Read);
    assert_eq!(d.step(&mut table, Event::Chunk(3)), Action::Stage);
    assert_eq!(d.step(&mut table, Event::Chunk(4)), Action::Stage);
    assert_eq!(d.step(&mut table, Event::End), Action::Stage);
    assert_eq!(table.to_vec(), before);
    assert_eq!(d.step(&mut table, Event::Staged), Action::Read);
    assert_eq!(table.to_vec()[0].size, 3);
    assert_eq!(d.step(&mut table, Event::End), Action::Publish);
    assert_eq!(d.step(&mut table, Event::Chunk(3)), Action::Publish);
    assert_eq!(d.step(&mut table, Event::End), Action::Publish);
    assert_eq!(table.to_vec()[0].size, 3);
}

#[test]
fn an_empty_body_is_published_even_when_canceled() {
    let mut table = Table::new();
    let mut d = Download::new("file");
    d.step(&mut table, Event::Response(head(200, Some("0"))));
    let id = d.id().to_string();
    table.cancel(&id);
    assert_eq!(d.step(&mut table, Event::End), Action::Publish);
    assert_eq!(d.step(&mut table, Event::Published), Action::Finish(Outcome::Published));
    assert_eq!(table.to_vec(), vec![]);
}

#[test]
fn ready_refuses_a_count_that_would_overflow() {
    let mut table = Table::new();
    let mut d = Download::new("file");
    d.step(&mut table, Event::Response(head(200, None)));
    let id = d.id().to_string();
    table.progress(&id, u64::MAX - 2);
    assert_eq!(d.step(&mut table, Event::Chunk(3)), Action::Stage);
    assert!(!d.ready(&table, &Event::Staged));
    assert!(d.ready(&table, &Event::Failed(Error::StdIoError)));
    table.delete(&id);
    assert!(d.ready(&table, &Event::Staged));
    assert_eq!(d.step(&mut table, Event::Staged), Action::Read);
    assert_eq!(table.to_vec(), vec![]);
}

#[test]
fn concurrent_transfers_keep_their_own_counts() {
    let mut table = Table::new();
    let mut a = Download::new("a");
    let mut b = Download::new("b");
    a.step(&mut table, Event::Response(head(200, Some("7"))));
    b.step(&mut table, Event::Response(head(200, None)));
    let (ia, ib) = (a.id().to_string(), b.id().to_string());
    assert_ne!(ia, ib);
    a.step(&mut table, Event::Chunk(3));
    b.step(&mut table, Event::Chunk(100));
    b.step(&mut table, Event::Staged);
    a.step(&mut table, Event::Staged);
    a.step(&mut table, Event::Chunk(4));
    a.step(&mut table, Event::Staged);
    assert_eq!(
        table.to_vec(),
        [item(&ia, "a", Some(7), 7, false), item(&ib, "b", None, 100, false)]
    );
    a.step(&mut table, Event::End);
    a.step(&mut table, Event::Published);
    assert_eq!(table.to_vec(), [item(&ib, "b", None, 100, false)]);
}
